//! Owner actions on tiles: building under the even rule and the shared
//! pools, mortgages, rent boosts, and takeovers (including the buyout of a
//! mortgaged tile).
use vstd::prelude::*;

use super::{Exec, calm, cards_low, lemma_cash_ready, lemma_tile_ready, ready};
use crate::apply::landing::market_scaled;
use crate::content::{
    GameContent, MarketEffect, PropertyDef, RentModel, group_upto, in_group, is_property, prop_of,
    tile_index_spec,
};
use crate::error::{CommandError, RejectionModel};
use crate::event::Event;
use crate::state::{
    GameModel, GameState, PlayerModel, TileState, TurnModel, TurnPhase, cap_of,
    conglomerate_stock, group_max_houses, group_min_houses, lemma_bounded_mono, max_houses,
    min_houses, owns_full_group_spec, player_bounded, subsidiary_stock, with_cash, with_tile,
    within,
};
use crate::strategy::{BankruptcyResolver, RentCalculator, lemma_group_upto_in};
use crate::tuning::{HOUSE_REFUND_PCT, MAX_RENT_BOOSTS, MORTGAGE_INTEREST_PCT, MORTGAGE_VALUE_PCT};

verus! {

/// The building phases: before moving and before ending the turn.
pub open spec fn build_phase(s: GameModel) -> bool {
    s.turn == TurnModel::AwaitMove || s.turn == TurnModel::AwaitEnd
}

/// Why an owner action by `p` on the tile `id` is refused before any
/// action-specific check, if it is.
pub open spec fn owned_error(c: &GameContent, s: GameModel, p: int, id: Seq<char>) -> Option<RejectionModel> {
    if !build_phase(s) {
        Some(RejectionModel::Plain(CommandError::WrongPhase))
    } else {
        match tile_index_spec(c, id) {
            None => Some(RejectionModel::UnknownTile(id)),
            Some(t) => if !is_property(c, t as int) {
                Some(RejectionModel::Plain(CommandError::NotAProperty))
            } else if s.tiles[t as int].owner != Some(p as usize) {
                Some(RejectionModel::Plain(CommandError::NotOwner))
            } else {
                None
            },
        }
    }
}

/// Some tile of group `g` is mortgaged.
pub open spec fn group_mortgaged(c: &GameContent, s: GameModel, g: Seq<char>) -> bool {
    exists|t: int| in_group(c, t, g) && s.tiles[t].mortgaged
}

/// Some tile of group `g` has a building.
pub open spec fn group_built(c: &GameContent, s: GameModel, g: Seq<char>) -> bool {
    exists|t: int| in_group(c, t, g) && s.tiles[t].houses > 0
}

/// Why building one level on `id` is refused, if it is.
pub open spec fn build_error(c: &GameContent, s: GameModel, p: int, id: Seq<char>) -> Option<RejectionModel> {
    if owned_error(c, s, p, id) is Some {
        owned_error(c, s, p, id)
    } else {
        let t = tile_index_spec(c, id)->0 as int;
        let prop = prop_of(c, t);
        let g = group_upto(c, prop.group@, c.board@.len() as int);
        let h = s.tiles[t].houses;
        if prop.rent_model != RentModel::Houses {
            Some(RejectionModel::Plain(CommandError::NotBuildable))
        } else if !owns_full_group_spec(c, s, p, prop.group@) {
            Some(RejectionModel::Plain(CommandError::GroupIncomplete))
        } else if group_mortgaged(c, s, prop.group@) {
            Some(RejectionModel::Plain(CommandError::MortgagedInGroup))
        } else if h >= cap_of(c) {
            Some(RejectionModel::Plain(CommandError::BuildLimit))
        } else if h > min_houses(s.tiles, g) {
            Some(RejectionModel::Plain(CommandError::UnevenBuild))
        } else if s.players[p].cash < prop.house_cost {
            Some(RejectionModel::Plain(CommandError::InsufficientFunds))
        } else if (h + 1 == cap_of(c) && s.conglomerates_available == Some(0u64)) || (h + 1
            != cap_of(c) && s.subsidiaries_available == Some(0u64)) {
            Some(RejectionModel::Plain(CommandError::PoolExhausted))
        } else {
            None
        }
    }
}

/// A pool after `n` units were taken from it.
pub open spec fn taken(x: Option<u64>, n: int) -> Option<u64> {
    match x {
        Some(a) => Some((a - n) as u64),
        None => None,
    }
}

/// A pool after `n` units came back to it.
pub open spec fn returned(x: Option<u64>, n: int) -> Option<u64> {
    match x {
        Some(a) => Some((a + n) as u64),
        None => None,
    }
}

/// The state after building one level on tile `t`: the build cost is
/// paid; reaching the top level draws a conglomerate and hands back the
/// subsidiaries below it, any other level draws a subsidiary.
pub open spec fn built(c: &GameContent, s: GameModel, p: int, t: int) -> GameModel {
    let prop = prop_of(c, t);
    let h = s.tiles[t].houses;
    let top = h + 1 == cap_of(c);
    GameModel {
        players: s.players.update(p, PlayerModel { cash: (s.players[p].cash - prop.house_cost) as i64, ..s.players[p] }),
        tiles: s.tiles.update(t, TileState { houses: (h + 1) as u8, ..s.tiles[t] }),
        subsidiaries_available: if top {
            returned(s.subsidiaries_available, cap_of(c) - 1)
        } else {
            taken(s.subsidiaries_available, 1)
        },
        conglomerates_available: if top {
            taken(s.conglomerates_available, 1)
        } else {
            s.conglomerates_available
        },
        ..s
    }
}

impl<'e, R: RentCalculator, B: BankruptcyResolver> Exec<'e, R, B> {
    /// Shared validation for the owner actions: the phase, the tile, and
    /// its ownership. The definition is borrowed from the content.
    pub fn owned_property(&self, p: usize, tile_id: &str) -> (r: Result<(usize, &'e PropertyDef), CommandError>)
        requires
            self.ok(0),
            p < self.st@.players.len(),
        ensures
            r is Err <==> owned_error(self.content, self.st@, p as int, tile_id@) is Some,
            r matches Err(e) ==> owned_error(self.content, self.st@, p as int, tile_id@) == Some(e@),
            r matches Ok((t, d)) ==> Some(t) == tile_index_spec(self.content, tile_id@)
                && is_property(self.content, t as int) && *d == prop_of(self.content, t as int),
    {
        if !matches!(self.st.turn, TurnPhase::AwaitMove | TurnPhase::AwaitEnd) {
            return Err(CommandError::WrongPhase);
        }
        let content: &'e GameContent = self.content;
        let tile = match content.tile_index(tile_id) {
            Some(t) => t,
            None => {
                return Err(CommandError::UnknownTile { tile: tile_id.to_owned() });
            },
        };
        let prop = match content.property(tile) {
            Some(p) => p,
            None => {
                return Err(CommandError::NotAProperty);
            },
        };
        if self.st.tiles[tile].owner != Some(p) {
            return Err(CommandError::NotOwner);
        }
        Ok((tile, prop))
    }

    /// Whether any tile of `group` is mortgaged.
    fn group_has_mortgage(&self, group: &str) -> (r: bool)
        requires
            self.st@.tiles.len() == self.content.board@.len(),
        ensures
            r == group_mortgaged(self.content, self.st@, group@),
    {
        let list = self.content.group_tiles(group);
        let mut k: usize = 0;
        while k < list.len()
            invariant
                self.st@.tiles.len() == self.content.board@.len(),
                k <= list@.len(),
                forall|j: int| 0 <= j < list@.len() ==> in_group(self.content, #[trigger] list@[j] as int, group@),
                forall|j: int| 0 <= j < k ==> !self.st@.tiles[#[trigger] list@[j] as int].mortgaged,
            decreases list@.len() - k,
        {
            if self.st.tiles[list[k]].mortgaged {
                return true;
            }
            k = k + 1;
        }
        proof {
            assert forall|t: int| in_group(self.content, t, group@) implies !self.st@.tiles[t].mortgaged by {
                assert(self.content.board.len() == self.content.board@.len());
                assert(list@.contains(t as usize));
                let j = choose|j: int| 0 <= j < list@.len() && list@[j] == t as usize;
            }
        }
        false
    }

    /// Whether any tile of `group` has a building.
    pub fn group_has_houses(&self, group: &str) -> (r: bool)
        requires
            self.st@.tiles.len() == self.content.board@.len(),
        ensures
            r == group_built(self.content, self.st@, group@),
    {
        let list = self.content.group_tiles(group);
        let mut k: usize = 0;
        while k < list.len()
            invariant
                self.st@.tiles.len() == self.content.board@.len(),
                k <= list@.len(),
                forall|j: int| 0 <= j < list@.len() ==> in_group(self.content, #[trigger] list@[j] as int, group@),
                forall|j: int| 0 <= j < k ==> self.st@.tiles[#[trigger] list@[j] as int].houses == 0,
            decreases list@.len() - k,
        {
            if self.st.tiles[list[k]].houses > 0 {
                return true;
            }
            k = k + 1;
        }
        proof {
            assert forall|t: int| in_group(self.content, t, group@) implies self.st@.tiles[t].houses == 0 by {
                assert(self.content.board.len() == self.content.board@.len());
                assert(list@.contains(t as usize));
                let j = choose|j: int| 0 <= j < list@.len() && list@[j] == t as usize;
            }
        }
        false
    }
}

/// Building keeps the state ready and the pools' stock unchanged.
proof fn lemma_built_ready(c: &GameContent, s: GameModel, p: int, t: int)
    requires
        ready(c, s, 0),
        0 <= p < s.players.len(),
        is_property(c, t),
        s.tiles[t].owner == Some(p as usize),
        s.tiles[t].houses < cap_of(c),
        s.players[p].cash >= prop_of(c, t).house_cost,
        s.tiles[t].houses + 1 == cap_of(c) ==> s.conglomerates_available != Some(0u64),
        s.tiles[t].houses + 1 != cap_of(c) ==> s.subsidiaries_available != Some(0u64),
    ensures
        ready(c, built(c, s, p, t), 0),
        subsidiary_stock(c, built(c, s, p, t)) == subsidiary_stock(c, s),
        conglomerate_stock(c, built(c, s, p, t)) == conglomerate_stock(c, s),
        cards_low(s) ==> cards_low(built(c, s, p, t)),
{
    let out = built(c, s, p, t);
    let cap = cap_of(c);
    let ts = s.tiles[t];
    let nts = TileState { houses: (ts.houses + 1) as u8, ..ts };
    assert(out.tiles == s.tiles.update(t, nts));
    crate::state::lemma_held_update(s.tiles, cap, t, nts, s.tiles.len() as int);
    crate::state::lemma_held_nonneg_pub(s.tiles, cap, s.tiles.len() as int);
    assert(crate::state::tile_fits(c.board@[t]));
    assert forall|q: int| 0 <= q < out.tiles.len() implies #[trigger] out.tiles[q].houses <= cap_of(c)
        && out.tiles[q].boosts <= 3 && match out.tiles[q].owner {
            Some(o) => o < out.players.len(),
            None => true,
        } by {
        if q != t {
            assert(out.tiles[q] == s.tiles[q]);
        }
    }
    assert forall|q: int| 0 <= q < out.players.len() implies crate::state::player_bounded(#[trigger] out.players[q], 0)
        && out.players[q].position < c.board@.len() && match out.players[q].jail_route {
            Some(r) => r.len() > 0,
            None => true,
        } by {
        assert(player_bounded(s.players[q], 0));
    }
    if cards_low(s) {
        assert forall|q: int| 0 <= q < out.players.len() implies (#[trigger] out.players[q]).jail_cards <= 204 by {
            assert(s.players[q].jail_cards <= 204);
        }
    }
}

impl<'e, R: RentCalculator, B: BankruptcyResolver> Exec<'e, R, B> {
    /// The checks `build` runs, in order; the tile on success.
    #[verifier::spinoff_prover]
    #[verifier::rlimit(40)]
    fn build_check(&self, p: usize, tile_id: &str) -> (r: Result<usize, CommandError>)
        requires
            self.ok(0),
            p < self.st@.players.len(),
        ensures
            r is Err <==> build_error(self.content, self.st@, p as int, tile_id@) is Some,
            r matches Err(e) ==> build_error(self.content, self.st@, p as int, tile_id@) == Some(e@),
            r matches Ok(t) ==> Some(t) == tile_index_spec(self.content, tile_id@),
    {
        let (tile, prop) = match self.owned_property(p, tile_id) {
            Ok(x) => x,
            Err(e) => {
                return Err(e);
            },
        };
        let content = self.content;
        if prop.rent_model != RentModel::Houses {
            return Err(CommandError::NotBuildable);
        }
        if !self.st.owns_full_group(content, p, prop.group.as_str()) {
            return Err(CommandError::GroupIncomplete);
        }
        if self.group_has_mortgage(prop.group.as_str()) {
            return Err(CommandError::MortgagedInGroup);
        }
        let cap: u8 = if content.rules.max_houses_per_property < 5 {
            content.rules.max_houses_per_property
        } else {
            5
        };
        let h = self.st.tiles[tile].houses;
        if h >= cap {
            return Err(CommandError::BuildLimit);
        }
        let group_min = group_min_houses(content, &self.st.tiles, prop.group.as_str());
        if h > group_min {
            return Err(CommandError::UnevenBuild);
        }
        if self.st.players[p].cash < prop.house_cost {
            return Err(CommandError::InsufficientFunds);
        }
        if h + 1 == cap {
            if self.st.conglomerates_available == Some(0u64) {
                return Err(CommandError::PoolExhausted);
            }
        } else if self.st.subsidiaries_available == Some(0u64) {
            return Err(CommandError::PoolExhausted);
        }
        Ok(tile)
    }

    /// Builds one level on an owned tile: the full group must be owned and
    /// unmortgaged, levels stay even across the group, and the shared pool
    /// must have a unit to hand out.
    pub fn build(&mut self, p: usize, tile_id: &str) -> (r: Result<(), CommandError>)
        requires
            old(self).ok(0),
            p < old(self).st@.players.len(),
        ensures
            r is Err <==> build_error(old(self).content, old(self).st@, p as int, tile_id@) is Some,
            r matches Err(e) ==> build_error(old(self).content, old(self).st@, p as int, tile_id@) == Some(e@),
            r is Ok ==> final(self).ok(0) && final(self).kept(old(self))
                && final(self).st@ == built(old(self).content, old(self).st@, p as int,
                    tile_index_spec(old(self).content, tile_id@)->0 as int),
            r is Ok ==> {
                let t = tile_index_spec(old(self).content, tile_id@)->0;
                final(self).ev@ == old(self).ev@.push(Event::HouseBuilt {
                    player: p,
                    tile: t,
                    houses: (old(self).st@.tiles[t as int].houses + 1) as u8,
                    cost: prop_of(old(self).content, t as int).house_cost,
                })
            },
    {
        let tile = match self.build_check(p, tile_id) {
            Ok(t) => t,
            Err(e) => {
                return Err(e);
            },
        };
        let content = self.content;
        let prop = content.property(tile).unwrap();
        let cap: u8 = if content.rules.max_houses_per_property < 5 {
            content.rules.max_houses_per_property
        } else {
            5
        };
        let ts = self.st.tiles[tile];
        let becomes_top = ts.houses + 1 == cap;
        let ghost s0 = self.st@;
        proof {
            crate::state::lemma_held_nonneg_pub(s0.tiles, cap, s0.tiles.len() as int);
            assert(crate::state::tile_fits(content.board@[tile as int]));
            assert(player_bounded(s0.players[p as int], 0));
        }
        if becomes_top {
            let _ = self.st.take_conglomerate();
        } else {
            let _ = self.st.take_subsidiary();
        }
        let cash = self.st.players[p].cash;
        self.st.set_cash(p, cash - prop.house_cost);
        let nts = TileState { houses: ts.houses + 1, ..ts };
        self.st.set_tile(tile, nts);
        if becomes_top {
            self.st.return_subsidiaries((cap - 1) as u64);
        }
        proof {
            let out = built(content, s0, p as int, tile as int);
            assert(self.st@.players =~= out.players);
            assert(self.st@.tiles =~= out.tiles);
            assert(self.st@ == out);
            lemma_built_ready(content, s0, p as int, tile as int);
        }
        self.ev.push(Event::HouseBuilt { player: p, tile, houses: nts.houses, cost: prop.house_cost });
        Ok(())
    }
}

/// Why selling one level of `id` is refused, if it is.
pub open spec fn sell_error(c: &GameContent, s: GameModel, p: int, id: Seq<char>) -> Option<RejectionModel> {
    if owned_error(c, s, p, id) is Some {
        owned_error(c, s, p, id)
    } else {
        let t = tile_index_spec(c, id)->0 as int;
        let prop = prop_of(c, t);
        let h = s.tiles[t].houses;
        if prop.rent_model != RentModel::Houses {
            Some(RejectionModel::Plain(CommandError::NotBuildable))
        } else if h == 0 {
            Some(RejectionModel::Plain(CommandError::NoHouses))
        } else if h < max_houses(s.tiles, group_upto(c, prop.group@, c.board@.len() as int)) {
            Some(RejectionModel::Plain(CommandError::UnevenBuild))
        } else if h == cap_of(c) && match s.subsidiaries_available {
            Some(a) => a < cap_of(c) - 1,
            None => false,
        } {
            Some(RejectionModel::Plain(CommandError::PoolExhausted))
        } else {
            None
        }
    }
}

/// The state after selling one level of tile `t` for half its cost:
/// stepping off the top level returns the conglomerate and re-issues the
/// subsidiaries below it; any other level returns one subsidiary.
pub open spec fn sold(c: &GameContent, s: GameModel, p: int, t: int) -> GameModel {
    let prop = prop_of(c, t);
    let h = s.tiles[t].houses;
    let top = h == cap_of(c);
    GameModel {
        players: s.players.update(p, PlayerModel { cash: (s.players[p].cash + prop.house_cost * HOUSE_REFUND_PCT / 100) as i64, ..s.players[p] }),
        tiles: s.tiles.update(t, TileState { houses: (h - 1) as u8, ..s.tiles[t] }),
        subsidiaries_available: if top {
            taken(s.subsidiaries_available, cap_of(c) - 1)
        } else {
            returned(s.subsidiaries_available, 1)
        },
        conglomerates_available: if top {
            returned(s.conglomerates_available, 1)
        } else {
            s.conglomerates_available
        },
        ..s
    }
}

/// Law: building one level and selling it straight back leaves the board
/// and the shared pools as they were; the builder is out the house cost
/// less its refund.
#[verifier::spinoff_prover]
#[verifier::rlimit(40)]
pub proof fn law_build_then_sell(c: &GameContent, s: GameModel, p: int, id: Seq<char>)
    requires
        ready(c, s, 0),
        0 <= p < s.players.len(),
        build_error(c, s, p, id) is None,
    ensures
        ({
            let t = tile_index_spec(c, id)->0 as int;
            let cost = prop_of(c, t).house_cost as int;
            sold(c, built(c, s, p, t), p, t) == with_cash(s, p, s.players[p].cash - cost + cost * HOUSE_REFUND_PCT / 100)
        }),
{
    let t = tile_index_spec(c, id)->0 as int;
    let prop = prop_of(c, t);
    let b = built(c, s, p, t);
    let r = sold(c, b, p, t);
    let goal = with_cash(s, p, s.players[p].cash - prop.house_cost + prop.house_cost * HOUSE_REFUND_PCT / 100);
    assert(crate::state::tile_fits(c.board@[t]));
    assert(player_bounded(s.players[p], 0));
    crate::state::lemma_held_nonneg_pub(s.tiles, cap_of(c), s.tiles.len() as int);
    assert(r.tiles =~= s.tiles);
    assert(r.players =~= goal.players);
    assert(r.subsidiaries_available == s.subsidiaries_available);
    assert(r.conglomerates_available == s.conglomerates_available);
}

/// Law: mortgaging a tile and lifting the mortgage at once leaves the
/// tile as it was and costs the owner exactly the interest on the
/// mortgage value.
#[verifier::spinoff_prover]
#[verifier::rlimit(40)]
pub proof fn law_mortgage_then_redeem(c: &GameContent, s: GameModel, p: int, id: Seq<char>)
    requires
        ready(c, s, 0),
        0 <= p < s.players.len(),
        mortgage_error(c, s, p, id) is None,
    ensures
        ({
            let t = tile_index_spec(c, id)->0 as int;
            let price = prop_of(c, t).price as int;
            let m = cash_and_tile(s, p, mortgage_value(price), t, TileState { mortgaged: true, ..s.tiles[t] });
            let u = cash_and_tile(m, p, -redeem_cost(price), t, TileState { mortgaged: false, ..m.tiles[t] });
            &&& u == with_cash(s, p, s.players[p].cash - mortgage_value(price) * MORTGAGE_INTEREST_PCT / 100)
        }),
{
    let t = tile_index_spec(c, id)->0 as int;
    let price = prop_of(c, t).price as int;
    assert(crate::state::tile_fits(c.board@[t]));
    assert(player_bounded(s.players[p], 0));
    let m = cash_and_tile(s, p, mortgage_value(price), t, TileState { mortgaged: true, ..s.tiles[t] });
    let u = cash_and_tile(m, p, -redeem_cost(price), t, TileState { mortgaged: false, ..m.tiles[t] });
    let goal = with_cash(s, p, s.players[p].cash - mortgage_value(price) * MORTGAGE_INTEREST_PCT / 100);
    assert(u.tiles =~= s.tiles);
    assert(u.players =~= goal.players);
}

proof fn lemma_worth_tile_update(c: &GameContent, s: GameModel, u: GameModel, p: int, t: int, n: int)
    requires
        0 <= t < s.tiles.len(),
        u.tiles.len() == s.tiles.len(),
        forall|k: int| 0 <= k < s.tiles.len() && k != t ==> u.tiles[k] == s.tiles[k],
        n <= s.tiles.len(),
    ensures
        crate::state::worth_upto(c, u, p, n) == crate::state::worth_upto(c, s, p, n) + if t < n {
            crate::state::tile_worth(c, u, p, t) - crate::state::tile_worth(c, s, p, t)
        } else {
            0
        },
    decreases n,
{
    if n > 0 {
        lemma_worth_tile_update(c, s, u, p, t, n - 1);
        if n - 1 != t {
            assert(u.tiles[n - 1] == s.tiles[n - 1]);
        }
    }
}

/// Law: mortgaging a tile of even price leaves its owner's net worth
/// unchanged: the cash received equals the equity given up.
#[verifier::spinoff_prover]
#[verifier::rlimit(40)]
pub proof fn law_mortgage_keeps_worth(c: &GameContent, s: GameModel, p: int, id: Seq<char>)
    requires
        ready(c, s, 0),
        0 <= p < s.players.len(),
        mortgage_error(c, s, p, id) is None,
        prop_of(c, tile_index_spec(c, id)->0 as int).price % 2 == 0,
    ensures
        ({
            let t = tile_index_spec(c, id)->0 as int;
            let m = cash_and_tile(s, p, mortgage_value(prop_of(c, t).price as int), t, TileState { mortgaged: true, ..s.tiles[t] });
            crate::state::net_worth_spec(c, m, p) == crate::state::net_worth_spec(c, s, p)
        }),
{
    let t = tile_index_spec(c, id)->0 as int;
    let prop = prop_of(c, t);
    let m = cash_and_tile(s, p, mortgage_value(prop.price as int), t, TileState { mortgaged: true, ..s.tiles[t] });
    assert(crate::state::tile_fits(c.board@[t]));
    assert(player_bounded(s.players[p], 0));
    lemma_group_upto_in(c, prop.group@, t);
    assert(s.tiles[t].houses == 0) by {
        if s.tiles[t].houses > 0 {
            assert(in_group(c, t, prop.group@));
            assert(group_built(c, s, prop.group@));
        }
    }
    lemma_worth_tile_update(c, s, m, p, t, s.tiles.len() as int);
}

/// Why mortgaging `id` is refused, if it is.
pub open spec fn mortgage_error(c: &GameContent, s: GameModel, p: int, id: Seq<char>) -> Option<RejectionModel> {
    if owned_error(c, s, p, id) is Some {
        owned_error(c, s, p, id)
    } else {
        let t = tile_index_spec(c, id)->0 as int;
        if s.tiles[t].mortgaged {
            Some(RejectionModel::Plain(CommandError::AlreadyMortgaged))
        } else if group_built(c, s, prop_of(c, t).group@) {
            Some(RejectionModel::Plain(CommandError::HousesInGroup))
        } else {
            None
        }
    }
}

/// Mortgage value of a property: half its price, floored.
pub open spec fn mortgage_value(price: int) -> int {
    price * MORTGAGE_VALUE_PCT / 100
}

/// Cost of lifting a mortgage: the principal plus 10% interest, floored.
pub open spec fn redeem_cost(price: int) -> int {
    mortgage_value(price) + mortgage_value(price) * MORTGAGE_INTEREST_PCT / 100
}

/// `s` with `p`'s cash moved by `delta` and tile `t` replaced.
pub open spec fn cash_and_tile(s: GameModel, p: int, delta: int, t: int, ts: TileState) -> GameModel {
    GameModel {
        players: s.players.update(p, PlayerModel { cash: (s.players[p].cash + delta) as i64, ..s.players[p] }),
        tiles: s.tiles.update(t, ts),
        ..s
    }
}

/// Why lifting the mortgage on `id` is refused, if it is.
pub open spec fn unmortgage_error(c: &GameContent, s: GameModel, p: int, id: Seq<char>) -> Option<RejectionModel> {
    if owned_error(c, s, p, id) is Some {
        owned_error(c, s, p, id)
    } else {
        let t = tile_index_spec(c, id)->0 as int;
        if !s.tiles[t].mortgaged {
            Some(RejectionModel::Plain(CommandError::NotMortgaged))
        } else if s.players[p].cash < redeem_cost(prop_of(c, t).price as int) {
            Some(RejectionModel::Plain(CommandError::InsufficientFunds))
        } else {
            None
        }
    }
}

/// Why boosting `id` is refused, if it is.
pub open spec fn boost_error(c: &GameContent, s: GameModel, p: int, id: Seq<char>) -> Option<RejectionModel> {
    if owned_error(c, s, p, id) is Some {
        owned_error(c, s, p, id)
    } else {
        let t = tile_index_spec(c, id)->0 as int;
        if c.rules.rent_boost <= 0 {
            Some(RejectionModel::Plain(CommandError::RentBoostDisabled))
        } else if s.tiles[t].mortgaged {
            Some(RejectionModel::Plain(CommandError::AlreadyMortgaged))
        } else if s.tiles[t].boosts >= MAX_RENT_BOOSTS {
            Some(RejectionModel::Plain(CommandError::BoostLimit))
        } else if s.players[p].cash < prop_of(c, t).price * c.rules.rent_boost / 100 {
            Some(RejectionModel::Plain(CommandError::InsufficientFunds))
        } else {
            None
        }
    }
}

/// A change to one seat's cash and one tile keeps the state ready when
/// the tile's levels stay and the tile stays well formed.
proof fn lemma_cash_tile_ready(c: &GameContent, s: GameModel, p: int, delta: int, t: int, ts: TileState, k: int)
    requires
        ready(c, s, 0),
        0 <= k <= 10,
        0 <= p < s.players.len(),
        0 <= t < s.tiles.len(),
        within(s.players[p].cash + delta, crate::state::cash_bound(k)),
        ts.houses == s.tiles[t].houses,
        ts.boosts <= 3,
        match ts.owner {
            Some(o) => o < s.players.len() && !s.players[o as int].bankrupt,
            None => true,
        },
    ensures
        ready(c, cash_and_tile(s, p, delta, t, ts), k),
        subsidiary_stock(c, cash_and_tile(s, p, delta, t, ts)) == subsidiary_stock(c, s),
        conglomerate_stock(c, cash_and_tile(s, p, delta, t, ts)) == conglomerate_stock(c, s),
        cards_low(s) ==> cards_low(cash_and_tile(s, p, delta, t, ts)),
{
    crate::state::lemma_bounded_mono(s, 0, k);
    assert(player_bounded(s.players[p], 0));
    let s1 = with_cash(s, p, s.players[p].cash + delta);
    lemma_cash_ready(c, s, p, s.players[p].cash + delta, k);
    lemma_tile_ready(c, s1, t, ts, k);
    crate::state::lemma_held_update(s.tiles, cap_of(c), t, ts, s.tiles.len() as int);
    let out = cash_and_tile(s, p, delta, t, ts);
    assert(out == with_tile(s1, t, ts));
}

impl<'e, R: RentCalculator, B: BankruptcyResolver> Exec<'e, R, B> {
    /// Mortgages an owned tile for half its price; the whole group must be
    /// free of buildings.
    pub fn mortgage(&mut self, p: usize, tile_id: &str) -> (r: Result<(), CommandError>)
        requires
            old(self).ok(0),
            p < old(self).st@.players.len(),
        ensures
            r is Err <==> mortgage_error(old(self).content, old(self).st@, p as int, tile_id@) is Some,
            r matches Err(e) ==> mortgage_error(old(self).content, old(self).st@, p as int, tile_id@) == Some(e@),
            r is Ok ==> final(self).ok(1) && final(self).kept(old(self)) && ({
                let t = tile_index_spec(old(self).content, tile_id@)->0 as int;
                final(self).st@ == cash_and_tile(old(self).st@, p as int,
                    mortgage_value(prop_of(old(self).content, t).price as int), t,
                    TileState { mortgaged: true, ..old(self).st@.tiles[t] })
            }),
            r is Ok ==> {
                let t = tile_index_spec(old(self).content, tile_id@)->0;
                final(self).ev@ == old(self).ev@.push(Event::PropertyMortgaged {
                    player: p,
                    tile: t,
                    value: mortgage_value(prop_of(old(self).content, t as int).price as int) as i64,
                })
            },
    {
        let (tile, prop) = match self.owned_property(p, tile_id) {
            Ok(x) => x,
            Err(e) => {
                return Err(e);
            },
        };
        if self.st.tiles[tile].mortgaged {
            return Err(CommandError::AlreadyMortgaged);
        }
        if self.group_has_houses(prop.group.as_str()) {
            return Err(CommandError::HousesInGroup);
        }
        proof {
            assert(crate::state::tile_fits(self.content.board@[tile as int]));
        }
        let value = prop.price * MORTGAGE_VALUE_PCT / 100;
        let ts = self.st.tiles[tile];
        let nts = TileState { mortgaged: true, ..ts };
        let ghost s0 = self.st@;
        proof {
            lemma_cash_tile_ready(self.content, s0, p as int, value as int, tile as int, nts, 1);
        }
        self.st.set_tile(tile, nts);
        let cash = self.st.players[p].cash;
        self.st.set_cash(p, cash + value);
        proof {
            let out = cash_and_tile(s0, p as int, value as int, tile as int, nts);
            assert(self.st@.players =~= out.players);
            assert(self.st@ == out);
        }
        self.ev.push(Event::PropertyMortgaged { player: p, tile, value });
        Ok(())
    }

    /// Lifts a mortgage for the mortgage value plus 10% interest. A
    /// voluntary payment never forces liquidation: it is refused if
    /// unaffordable.
    pub fn unmortgage(&mut self, p: usize, tile_id: &str) -> (r: Result<(), CommandError>)
        requires
            old(self).ok(0),
            p < old(self).st@.players.len(),
        ensures
            r is Err <==> unmortgage_error(old(self).content, old(self).st@, p as int, tile_id@) is Some,
            r matches Err(e) ==> unmortgage_error(old(self).content, old(self).st@, p as int, tile_id@) == Some(e@),
            r is Ok ==> final(self).ok(1) && final(self).kept(old(self)) && ({
                let t = tile_index_spec(old(self).content, tile_id@)->0 as int;
                final(self).st@ == cash_and_tile(old(self).st@, p as int,
                    -redeem_cost(prop_of(old(self).content, t).price as int), t,
                    TileState { mortgaged: false, ..old(self).st@.tiles[t] })
            }),
            r is Ok ==> {
                let t = tile_index_spec(old(self).content, tile_id@)->0;
                final(self).ev@ == old(self).ev@.push(Event::PropertyUnmortgaged {
                    player: p,
                    tile: t,
                    cost: redeem_cost(prop_of(old(self).content, t as int).price as int) as i64,
                })
            },
    {
        let (tile, prop) = match self.owned_property(p, tile_id) {
            Ok(x) => x,
            Err(e) => {
                return Err(e);
            },
        };
        if !self.st.tiles[tile].mortgaged {
            return Err(CommandError::NotMortgaged);
        }
        proof {
            assert(crate::state::tile_fits(self.content.board@[tile as int]));
        }
        let principal = prop.price * MORTGAGE_VALUE_PCT / 100;
        let cost = principal + principal * MORTGAGE_INTEREST_PCT / 100;
        if self.st.players[p].cash < cost {
            return Err(CommandError::InsufficientFunds);
        }
        let ts = self.st.tiles[tile];
        let nts = TileState { mortgaged: false, ..ts };
        let ghost s0 = self.st@;
        proof {
            assert(player_bounded(s0.players[p as int], 0));
            lemma_cash_tile_ready(self.content, s0, p as int, -cost, tile as int, nts, 1);
        }
        let cash = self.st.players[p].cash;
        self.st.set_cash(p, cash - cost);
        self.st.set_tile(tile, nts);
        proof {
            let out = cash_and_tile(s0, p as int, -cost, tile as int, nts);
            assert(self.st@.players =~= out.players);
            assert(self.st@.tiles =~= out.tiles);
            assert(self.st@ == out);
        }
        self.ev.push(Event::PropertyUnmortgaged { player: p, tile, cost });
        Ok(())
    }

    /// Raises an owned tile's rent one step for a fee, up to the boost
    /// cap; mortgaged tiles cannot be boosted.
    pub fn boost_rent(&mut self, p: usize, tile_id: &str) -> (r: Result<(), CommandError>)
        requires
            old(self).ok(0),
            p < old(self).st@.players.len(),
        ensures
            r is Err <==> boost_error(old(self).content, old(self).st@, p as int, tile_id@) is Some,
            r matches Err(e) ==> boost_error(old(self).content, old(self).st@, p as int, tile_id@) == Some(e@),
            r is Ok ==> final(self).ok(1) && final(self).kept(old(self)) && ({
                let t = tile_index_spec(old(self).content, tile_id@)->0 as int;
                let ts = old(self).st@.tiles[t];
                final(self).st@ == cash_and_tile(old(self).st@, p as int,
                    -(prop_of(old(self).content, t).price * old(self).content.rules.rent_boost / 100), t,
                    TileState { boosts: (ts.boosts + 1) as u8, ..ts })
            }),
            r is Ok ==> {
                let t = tile_index_spec(old(self).content, tile_id@)->0;
                final(self).ev@ == old(self).ev@.push(Event::RentBoosted {
                    player: p,
                    tile: t,
                    boosts: (old(self).st@.tiles[t as int].boosts + 1) as u8,
                    cost: (prop_of(old(self).content, t as int).price * old(self).content.rules.rent_boost / 100) as i64,
                })
            },
    {
        let (tile, prop) = match self.owned_property(p, tile_id) {
            Ok(x) => x,
            Err(e) => {
                return Err(e);
            },
        };
        let pct = self.content.rules.rent_boost;
        if pct <= 0 {
            return Err(CommandError::RentBoostDisabled);
        }
        if self.st.tiles[tile].mortgaged {
            return Err(CommandError::AlreadyMortgaged);
        }
        if self.st.tiles[tile].boosts >= MAX_RENT_BOOSTS {
            return Err(CommandError::BoostLimit);
        }
        proof {
            assert(crate::state::tile_fits(self.content.board@[tile as int]));
            assert(crate::state::rules_fit(self.content.rules));
            assert(prop.price * pct <= 1_000_000_000 * 10_000) by (nonlinear_arith)
                requires
                    0 <= prop.price <= 1_000_000_000,
                    0 < pct <= 10_000,
            ;
            assert(prop.price * pct >= 0) by (nonlinear_arith)
                requires
                    0 <= prop.price,
                    0 < pct,
            ;
        }
        let cost = prop.price * pct / 100;
        if self.st.players[p].cash < cost {
            return Err(CommandError::InsufficientFunds);
        }
        let ts = self.st.tiles[tile];
        let nts = TileState { boosts: ts.boosts + 1, ..ts };
        let ghost s0 = self.st@;
        proof {
            assert(player_bounded(s0.players[p as int], 0));
            lemma_cash_tile_ready(self.content, s0, p as int, -cost, tile as int, nts, 1);
        }
        let cash = self.st.players[p].cash;
        self.st.set_cash(p, cash - cost);
        self.st.set_tile(tile, nts);
        proof {
            let out = cash_and_tile(s0, p as int, -cost, tile as int, nts);
            assert(self.st@.players =~= out.players);
            assert(self.st@.tiles =~= out.tiles);
            assert(self.st@ == out);
        }
        self.ev.push(Event::RentBoosted { player: p, tile, boosts: nts.boosts, cost });
        Ok(())
    }
}

/// Selling keeps the state ready and the pools' stock unchanged.
proof fn lemma_sold_ready(c: &GameContent, s: GameModel, p: int, t: int)
    requires
        ready(c, s, 0),
        0 <= p < s.players.len(),
        is_property(c, t),
        s.tiles[t].houses > 0,
        s.tiles[t].houses == cap_of(c) ==> match s.subsidiaries_available {
            Some(a) => a >= cap_of(c) - 1,
            None => true,
        },
    ensures
        ready(c, sold(c, s, p, t), 1),
        subsidiary_stock(c, sold(c, s, p, t)) == subsidiary_stock(c, s),
        conglomerate_stock(c, sold(c, s, p, t)) == conglomerate_stock(c, s),
        cards_low(s) ==> cards_low(sold(c, s, p, t)),
{
    let out = sold(c, s, p, t);
    let cap = cap_of(c);
    let ts = s.tiles[t];
    let nts = TileState { houses: (ts.houses - 1) as u8, ..ts };
    assert(out.tiles == s.tiles.update(t, nts));
    crate::state::lemma_held_update(s.tiles, cap, t, nts, s.tiles.len() as int);
    crate::state::lemma_held_nonneg_pub(s.tiles, cap, s.tiles.len() as int);
    crate::state::lemma_bounded_mono(s, 0, 1);
    assert(crate::state::tile_fits(c.board@[t]));
    assert(player_bounded(s.players[p], 0));
    assert forall|q: int| 0 <= q < out.tiles.len() implies #[trigger] out.tiles[q].houses <= cap_of(c)
        && out.tiles[q].boosts <= 3 && match out.tiles[q].owner {
            Some(o) => o < out.players.len(),
            None => true,
        } by {
        if q != t {
            assert(out.tiles[q] == s.tiles[q]);
        }
    }
    assert forall|q: int| 0 <= q < out.players.len() implies crate::state::player_bounded(#[trigger] out.players[q], 1)
        && out.players[q].position < c.board@.len() && match out.players[q].jail_route {
            Some(r) => r.len() > 0,
            None => true,
        } by {
        assert(player_bounded(s.players[q], 1));
    }
    if cards_low(s) {
        assert forall|q: int| 0 <= q < out.players.len() implies (#[trigger] out.players[q]).jail_cards <= 204 by {
            assert(s.players[q].jail_cards <= 204);
        }
    }
}

impl<'e, R: RentCalculator, B: BankruptcyResolver> Exec<'e, R, B> {
    /// Sells one level back to the bank for half its cost, from a tile at
    /// its group's highest level. Stepping off the top level needs the pool
    /// to re-issue the levels below it.
    pub fn sell_house(&mut self, p: usize, tile_id: &str) -> (r: Result<(), CommandError>)
        requires
            old(self).ok(0),
            p < old(self).st@.players.len(),
        ensures
            r is Err <==> sell_error(old(self).content, old(self).st@, p as int, tile_id@) is Some,
            r matches Err(e) ==> sell_error(old(self).content, old(self).st@, p as int, tile_id@) == Some(e@),
            r is Ok ==> final(self).ok(1) && final(self).kept(old(self))
                && final(self).st@ == sold(old(self).content, old(self).st@, p as int,
                    tile_index_spec(old(self).content, tile_id@)->0 as int),
            r is Ok ==> {
                let t = tile_index_spec(old(self).content, tile_id@)->0;
                final(self).ev@ == old(self).ev@.push(Event::HouseSold {
                    player: p,
                    tile: t,
                    houses: (old(self).st@.tiles[t as int].houses - 1) as u8,
                    refund: (prop_of(old(self).content, t as int).house_cost * HOUSE_REFUND_PCT / 100) as i64,
                })
            },
    {
        let (tile, prop) = match self.owned_property(p, tile_id) {
            Ok(x) => x,
            Err(e) => {
                return Err(e);
            },
        };
        let content = self.content;
        if prop.rent_model != RentModel::Houses {
            return Err(CommandError::NotBuildable);
        }
        let ts = self.st.tiles[tile];
        if ts.houses == 0 {
            return Err(CommandError::NoHouses);
        }
        let group_max = group_max_houses(content, &self.st.tiles, prop.group.as_str());
        if ts.houses < group_max {
            return Err(CommandError::UnevenBuild);
        }
        let cap: u8 = if content.rules.max_houses_per_property < 5 {
            content.rules.max_houses_per_property
        } else {
            5
        };
        let steps_off_top = ts.houses == cap;
        if steps_off_top {
            if !self.st.subsidiaries_free((cap - 1) as u64) {
                return Err(CommandError::PoolExhausted);
            }
        }
        proof {
            assert(crate::state::tile_fits(content.board@[tile as int]));
            assert(player_bounded(self.st@.players[p as int], 0));
            crate::state::lemma_held_nonneg_pub(self.st@.tiles, cap, self.st@.tiles.len() as int);
        }
        let ghost s0 = self.st@;
        let refund = prop.house_cost * HOUSE_REFUND_PCT / 100;
        let nts = TileState { houses: ts.houses - 1, ..ts };
        self.st.set_tile(tile, nts);
        let cash = self.st.players[p].cash;
        self.st.set_cash(p, cash + refund);
        if steps_off_top {
            self.st.return_conglomerate();
            self.st.consume_subsidiaries((cap - 1) as u64);
        } else {
            self.st.return_subsidiaries(1);
        }
        proof {
            let out = sold(content, s0, p as int, tile as int);
            assert(self.st@.players =~= out.players);
            assert(self.st@.tiles =~= out.tiles);
            assert(self.st@ == out);
            lemma_sold_ready(content, s0, p as int, tile as int);
        }
        self.ev.push(Event::HouseSold { player: p, tile, houses: nts.houses, refund });
        Ok(())
    }
}

/// What seizing the unmortgaged tile `t` costs: the takeover percent of
/// its price, scaled by an acquisition event.
pub open spec fn takeover_cost(c: &GameContent, s: GameModel, t: int) -> int {
    market_scaled(s, MarketEffect::AcquisitionMultiplier, prop_of(c, t).price * c.rules.expropriation / 100)
}

/// The announcement of `p` seizing tile `t`: a mortgaged tile is bought
/// out at its mortgage value with nothing to liquidate; otherwise at the
/// takeover cost, its buildings liquidated and refunded to the old owner.
pub open spec fn seizure_event(c: &GameContent, s: GameModel, p: int, t: int) -> Event {
    let ts = s.tiles[t];
    let prop = prop_of(c, t);
    if ts.mortgaged {
        Event::Expropriated {
            player: p as usize,
            from: ts.owner->0,
            tile: t as usize,
            cost: mortgage_value(prop.price as int) as i64,
            liquidated: 0,
            liquidation_refund: 0,
        }
    } else {
        Event::Expropriated {
            player: p as usize,
            from: ts.owner->0,
            tile: t as usize,
            cost: takeover_cost(c, s, t) as i64,
            liquidated: ts.houses,
            liquidation_refund: ((prop.house_cost * HOUSE_REFUND_PCT / 100) * ts.houses) as i64,
        }
    }
}

/// Why seizing `id` is refused, if it is.
pub open spec fn expropriate_error(c: &GameContent, s: GameModel, p: int, id: Seq<char>) -> Option<RejectionModel> {
    if s.turn != TurnModel::AwaitEnd {
        Some(RejectionModel::Plain(CommandError::WrongPhase))
    } else if c.rules.expropriation <= 0 {
        Some(RejectionModel::Plain(CommandError::ExpropriationDisabled))
    } else {
        match tile_index_spec(c, id) {
            None => Some(RejectionModel::UnknownTile(id)),
            Some(t) => if s.players[p].position != t {
                Some(RejectionModel::Plain(CommandError::NotOnTile))
            } else if !is_property(c, t as int) {
                Some(RejectionModel::Plain(CommandError::NotAProperty))
            } else if s.tiles[t as int].owner is None || s.tiles[t as int].owner == Some(p as usize) {
                Some(RejectionModel::Plain(CommandError::NotExpropriable))
            } else if s.tiles[t as int].mortgaged {
                if s.players[p].cash < mortgage_value(prop_of(c, t as int).price as int) {
                    Some(RejectionModel::Plain(CommandError::InsufficientFunds))
                } else {
                    None
                }
            } else if s.players[p].cash < takeover_cost(c, s, t as int) {
                Some(RejectionModel::Plain(CommandError::InsufficientFunds))
            } else {
                None
            },
        }
    }
}

/// The state after `p` seizes tile `t`. A mortgaged tile is bought out at
/// its mortgage value, paid to the owner, and stays mortgaged. Otherwise
/// the taker pays the takeover cost, the former owner receives the lesser
/// of price and cost plus half the build cost of every razed level, and
/// the razed levels return to the pools; the taker gets a bare tile.
pub open spec fn expropriated(c: &GameContent, s: GameModel, p: int, t: int) -> GameModel {
    let prop = prop_of(c, t);
    let ts = s.tiles[t];
    let from = ts.owner->0 as int;
    if ts.mortgaged {
        let cost = mortgage_value(prop.price as int);
        GameModel {
            players: s.players.update(p, PlayerModel { cash: (s.players[p].cash - cost) as i64, ..s.players[p] })
                .update(from, PlayerModel { cash: (s.players[from].cash + cost) as i64, ..s.players[from] }),
            tiles: s.tiles.update(t, TileState { owner: Some(p as usize), boosts: 0, ..ts }),
            ..s
        }
    } else {
        let cost = takeover_cost(c, s, t);
        let comp = if prop.price < cost { prop.price as int } else { cost };
        let refund = (prop.house_cost * HOUSE_REFUND_PCT / 100) * ts.houses;
        GameModel {
            players: s.players.update(p, PlayerModel { cash: (s.players[p].cash - cost) as i64, ..s.players[p] })
                .update(from, PlayerModel { cash: (s.players[from].cash + comp + refund) as i64, ..s.players[from] }),
            tiles: s.tiles.update(t, TileState { owner: Some(p as usize), houses: 0, boosts: 0, ..ts }),
            subsidiaries_available: returned(s.subsidiaries_available, crate::state::subs_held(ts.houses, cap_of(c))),
            conglomerates_available: returned(s.conglomerates_available, crate::state::congs_held(ts.houses, cap_of(c))),
            ..s
        }
    }
}

/// Seizing keeps the state ready and the pools' stock unchanged.
proof fn lemma_expropriated_ready(c: &GameContent, s: GameModel, p: int, t: int)
    requires
        ready(c, s, 0),
        0 <= p < s.players.len(),
        !s.players[p].bankrupt,
        is_property(c, t),
        s.tiles[t].owner matches Some(o) && o != p,
        s.tiles[t].mortgaged ==> s.players[p].cash >= mortgage_value(prop_of(c, t).price as int),
        !s.tiles[t].mortgaged ==> s.players[p].cash >= takeover_cost(c, s, t) >= 0,
        takeover_cost(c, s, t) <= 2 * 100_000_000_000,
    ensures
        ready(c, expropriated(c, s, p, t), 1),
        subsidiary_stock(c, expropriated(c, s, p, t)) == subsidiary_stock(c, s),
        conglomerate_stock(c, expropriated(c, s, p, t)) == conglomerate_stock(c, s),
        cards_low(s) ==> cards_low(expropriated(c, s, p, t)),
{
    let out = expropriated(c, s, p, t);
    let cap = cap_of(c);
    let ts = s.tiles[t];
    let from = ts.owner->0 as int;
    let nts = if ts.mortgaged {
        TileState { owner: Some(p as usize), boosts: 0, ..ts }
    } else {
        TileState { owner: Some(p as usize), houses: 0, boosts: 0, ..ts }
    };
    assert(out.tiles == s.tiles.update(t, nts));
    crate::state::lemma_held_update(s.tiles, cap, t, nts, s.tiles.len() as int);
    crate::state::lemma_held_nonneg_pub(s.tiles, cap, s.tiles.len() as int);
    crate::state::lemma_bounded_mono(s, 0, 1);
    assert(crate::state::tile_fits(c.board@[t]));
    assert(player_bounded(s.players[p], 0));
    assert(player_bounded(s.players[from], 0));
    assert((prop_of(c, t).house_cost * HOUSE_REFUND_PCT / 100) * ts.houses <= 500_000_000 * 5) by (nonlinear_arith)
        requires
            0 <= prop_of(c, t).house_cost * HOUSE_REFUND_PCT / 100 <= 500_000_000,
            0 <= ts.houses <= 5,
    ;
    assert((prop_of(c, t).house_cost * HOUSE_REFUND_PCT / 100) * ts.houses >= 0) by (nonlinear_arith)
        requires
            0 <= prop_of(c, t).house_cost * HOUSE_REFUND_PCT / 100,
            0 <= ts.houses,
    ;
    assert forall|q: int| 0 <= q < out.tiles.len() implies #[trigger] out.tiles[q].houses <= cap_of(c)
        && out.tiles[q].boosts <= 3 && match out.tiles[q].owner {
            Some(o) => o < out.players.len(),
            None => true,
        } by {
        if q != t {
            assert(out.tiles[q] == s.tiles[q]);
        }
    }
    assert forall|q: int| 0 <= q < out.players.len() implies crate::state::player_bounded(#[trigger] out.players[q], 1)
        && out.players[q].position < c.board@.len() && match out.players[q].jail_route {
            Some(r) => r.len() > 0,
            None => true,
        } by {
        assert(player_bounded(s.players[q], 1));
    }
    if cards_low(s) {
        assert forall|q: int| 0 <= q < out.players.len() implies (#[trigger] out.players[q]).jail_cards <= 204 by {
            assert(s.players[q].jail_cards <= 204);
        }
    }
}

impl<'e, R: RentCalculator, B: BankruptcyResolver> Exec<'e, R, B> {
    /// Seizes a rival's property on the tile the acting player landed on,
    /// at the end of their own turn; see `expropriated`.
    #[verifier::spinoff_prover]
    #[verifier::rlimit(40)]
    pub fn expropriate(&mut self, p: usize, tile_id: &str) -> (r: Result<(), CommandError>)
        requires
            !old(self).st@.players[p as int].bankrupt,
            old(self).ok(0),
            p < old(self).st@.players.len(),
        ensures
            r is Err <==> expropriate_error(old(self).content, old(self).st@, p as int, tile_id@) is Some,
            r matches Err(e) ==> expropriate_error(old(self).content, old(self).st@, p as int, tile_id@) == Some(e@),
            r is Ok ==> final(self).ok(1) && final(self).kept(old(self))
                && final(self).st@ == expropriated(old(self).content, old(self).st@, p as int,
                    tile_index_spec(old(self).content, tile_id@)->0 as int),
            r is Ok ==> final(self).ev@ == old(self).ev@.push(seizure_event(old(self).content, old(self).st@, p as int,
                tile_index_spec(old(self).content, tile_id@)->0 as int)),
    {
        if !matches!(self.st.turn, TurnPhase::AwaitEnd) {
            return Err(CommandError::WrongPhase);
        }
        let content = self.content;
        let pct = content.rules.expropriation;
        if pct <= 0 {
            return Err(CommandError::ExpropriationDisabled);
        }
        let tile = match content.tile_index(tile_id) {
            Some(t) => t,
            None => {
                return Err(CommandError::UnknownTile { tile: tile_id.to_owned() });
            },
        };
        if self.st.players[p].position != tile {
            return Err(CommandError::NotOnTile);
        }
        let prop = match content.property(tile) {
            Some(x) => x,
            None => {
                return Err(CommandError::NotAProperty);
            },
        };
        let ts = self.st.tiles[tile];
        let from = match ts.owner {
            Some(o) => {
                if o == p {
                    return Err(CommandError::NotExpropriable);
                }
                o
            },
            None => {
                return Err(CommandError::NotExpropriable);
            },
        };
        proof {
            assert(crate::state::tile_fits(content.board@[tile as int]));
            assert(crate::state::rules_fit(content.rules));
            assert(player_bounded(self.st@.players[p as int], 0));
            assert(self.st@.tiles[tile as int].owner == Some(from));
            assert(from < self.st@.players.len());
            assert(player_bounded(self.st@.players[from as int], 0));
            assert(prop.price * pct <= 1_000_000_000 * 10_000) by (nonlinear_arith)
                requires
                    0 <= prop.price <= 1_000_000_000,
                    0 < pct <= 10_000,
            ;
            assert(prop.price * pct >= 0) by (nonlinear_arith)
                requires
                    0 <= prop.price,
                    0 < pct,
            ;
        }
        let ghost s0 = self.st@;
        let base = prop.price * pct / 100;
        let takeover = self.apply_market_multiplier(MarketEffect::AcquisitionMultiplier, base);
        if ts.mortgaged {
            let cost = prop.price * MORTGAGE_VALUE_PCT / 100;
            if self.st.players[p].cash < cost {
                return Err(CommandError::InsufficientFunds);
            }
            let cp = self.st.players[p].cash;
            self.st.set_cash(p, cp - cost);
            assert(self.st@.players[from as int] == s0.players[from as int]);
            assert(self.st.players@.len() == self.st@.players.len());
            let cf = self.st.players[from].cash;
            self.st.set_cash(from, cf + cost);
            let nts = TileState { owner: Some(p), boosts: 0, ..ts };
            self.st.set_tile(tile, nts);
            proof {
                let out = expropriated(content, s0, p as int, tile as int);
                assert(self.st@.players =~= out.players);
                assert(self.st@.tiles =~= out.tiles);
                assert(self.st@ == out);
                lemma_expropriated_ready(content, s0, p as int, tile as int);
            }
            self.ev.push(
                Event::Expropriated { player: p, from, tile, cost, liquidated: 0, liquidation_refund: 0 },
            );
            return Ok(());
        }
        let cost = takeover;
        if self.st.players[p].cash < cost {
            return Err(CommandError::InsufficientFunds);
        }
        let compensation = if prop.price < cost {
            prop.price
        } else {
            cost
        };
        let cap: u8 = if content.rules.max_houses_per_property < 5 {
            content.rules.max_houses_per_property
        } else {
            5
        };
        let liquidated = ts.houses;
        proof {
            assert((prop.house_cost * HOUSE_REFUND_PCT / 100) * liquidated <= 500_000_000 * 5) by (nonlinear_arith)
                requires
                    0 <= prop.house_cost * HOUSE_REFUND_PCT / 100 <= 500_000_000,
                    0 <= liquidated <= 5,
            ;
            assert((prop.house_cost * HOUSE_REFUND_PCT / 100) * liquidated >= 0) by (nonlinear_arith)
                requires
                    0 <= prop.house_cost * HOUSE_REFUND_PCT / 100,
                    0 <= liquidated,
            ;
            crate::state::lemma_held_nonneg_pub(s0.tiles, cap, s0.tiles.len() as int);
        }
        let liquidation_refund = (prop.house_cost * HOUSE_REFUND_PCT / 100) * (liquidated as i64);
        let cp = self.st.players[p].cash;
        self.st.set_cash(p, cp - cost);
        assert(self.st@.players[from as int] == s0.players[from as int]);
        assert(self.st.players@.len() == self.st@.players.len());
        let cf = self.st.players[from].cash;
        self.st.set_cash(from, cf + compensation + liquidation_refund);
        let nts = TileState { owner: Some(p), houses: 0, boosts: 0, ..ts };
        self.st.set_tile(tile, nts);
        self.st.release_tile_pools(liquidated, cap);
        proof {
            let out = expropriated(content, s0, p as int, tile as int);
            assert(self.st@.players =~= out.players);
            assert(self.st@.tiles =~= out.tiles);
            assert(self.st@ == out);
            lemma_expropriated_ready(content, s0, p as int, tile as int);
        }
        self.ev.push(
            Event::Expropriated { player: p, from, tile, cost, liquidated, liquidation_refund },
        );
        Ok(())
    }
}

} // verus!
