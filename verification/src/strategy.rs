//! Rule fragments that can be substituted at room creation. Implementations
//! must stay deterministic: any randomness comes from the generator state
//! they are handed, never from ambient sources.
use vstd::prelude::*;

use crate::content::{GameContent, RentModel, group_upto, in_group, is_property, prop_of};
use crate::event::Event;
use crate::rng;
use crate::state::{
    GameModel, GameState, PlayerModel, TileState, amount_limit, cap_of, cash_step, content_fits,
    conglomerate_stock, group_max_houses, levels_upto, max_houses, owns_full_group_spec,
    pools_fit, state_wf, subsidiary_stock, subs_held, congs_held, lemma_held_update,
    lemma_levels_update, lemma_levels_bound, subs_held_upto, congs_held_upto,
};
use crate::tuning::{HOUSE_REFUND_PCT, MORTGAGE_VALUE_PCT};

verus! {

pub trait DicePolicy {
    fn roll(&self, rng: &mut u64) -> (r: (u8, u8))
        ensures
            1 <= r.0 <= 6,
            1 <= r.1 <= 6,
    ;
}

pub trait RentCalculator {
    /// The rent this rule asks for `tile` on the board `tiles`.
    spec fn spec_rent(&self, content: &GameContent, tiles: Seq<TileState>, tile: int) -> int;

    /// Rent owed for landing on `tile`, an owned property whose owner is
    /// not the lander. It depends on the content and the board only.
    fn rent(&self, content: &GameContent, state: &GameState, tile: usize) -> (r: i64)
        requires
            content_fits(content),
            state_wf(content, state@),
            is_property(content, tile as int),
            state@.tiles[tile as int].owner is Some,
        ensures
            0 <= r <= 2 * amount_limit(),
            r == self.spec_rent(content, state@.tiles, tile as int),
    ;
}

/// Gain, in cash, that one liquidation may at most bring a debtor.
pub open spec fn liquidation_gain() -> int {
    20 * cash_step()
}

/// What a liquidation leaves as it found it: every model field but the
/// debtor's cash, the tiles' levels and mortgages, and the pools.
pub open spec fn liquidation_frame(old: GameModel, new: GameModel, debtor: int) -> bool {
    &&& new.phase == old.phase
    &&& new.players.len() == old.players.len()
    &&& forall|p: int| 0 <= p < old.players.len() && p != debtor ==> #[trigger] new.players[p] == old.players[p]
    &&& new.players[debtor] == (PlayerModel { cash: new.players[debtor].cash, ..old.players[debtor] })
    &&& old.players[debtor].cash <= new.players[debtor].cash <= old.players[debtor].cash + liquidation_gain()
    &&& new.current == old.current
    &&& new.turn == old.turn
    &&& new.tiles.len() == old.tiles.len()
    &&& forall|t: int| 0 <= t < old.tiles.len() ==> (#[trigger] new.tiles[t]).owner == old.tiles[t].owner
        && new.tiles[t].boosts == old.tiles[t].boosts
    &&& new.chance_deck == old.chance_deck
    &&& new.community_deck == old.community_deck
    &&& new.rng == old.rng
    &&& new.turn_count == old.turn_count
    &&& new.pending_trades == old.pending_trades
    &&& new.trade_seq == old.trade_seq
    &&& new.forecast == old.forecast
    &&& new.spotlight == old.spotlight
}

/// Called when a player cannot cover a debt from cash. May sell assets back
/// to the bank and reports what it did through events; the engine
/// bankrupts the player if cash remains below the debt.
pub trait BankruptcyResolver {
    /// The state this resolver leaves when `debtor` must raise `needed`.
    spec fn spec_liquidate(&self, content: &GameContent, s: GameModel, debtor: int, needed: int) -> GameModel;

    /// What this resolver announces doing so, in order.
    spec fn spec_liquidation_events(&self, content: &GameContent, s: GameModel, debtor: int, needed: int) -> Seq<Event>;

    fn liquidate(
        &self,
        content: &GameContent,
        state: &mut GameState,
        debtor: usize,
        needed: i64,
        events: &mut Vec<Event>,
    )
        requires
            content_fits(content),
            state_wf(content, old(state)@),
            pools_fit(content, old(state)@),
            debtor < old(state)@.players.len(),
            within_i(old(state)@.players[debtor as int].cash as int),
        ensures
            state_wf(content, final(state)@),
            pools_fit(content, final(state)@),
            subsidiary_stock(content, final(state)@) == subsidiary_stock(content, old(state)@),
            conglomerate_stock(content, final(state)@) == conglomerate_stock(content, old(state)@),
            liquidation_frame(old(state)@, final(state)@, debtor as int),
            crate::event::extends(old(events)@, final(events)@),
            final(state)@ == self.spec_liquidate(content, old(state)@, debtor as int, needed as int),
            final(events)@ == old(events)@ + self.spec_liquidation_events(content, old(state)@, debtor as int, needed as int),
    ;
}

// -- Default implementations ------------------------------------------------

pub struct UniformDice;

impl DicePolicy for UniformDice {
    fn roll(&self, rng: &mut u64) -> (r: (u8, u8))
        ensures
            r.0 == 1 + rng::draw(*old(rng)) % 6,
            r.1 == 1 + rng::draw(rng::advance(*old(rng))) % 6,
            *final(rng) == rng::advance(rng::advance(*old(rng))),
    {
        let d1 = 1 + rng::below(rng, 6) as u8;
        let d2 = 1 + rng::below(rng, 6) as u8;
        (d1, d2)
    }
}

/// Owned tiles, among `list`, of `owner`.
pub open spec fn count_owned(tiles: Seq<TileState>, list: Seq<usize>, owner: int) -> nat
    decreases list.len(),
{
    if list.len() == 0 {
        0
    } else {
        count_owned(tiles, list.drop_last(), owner) + if tiles[list.last() as int].owner == Some(
            owner as usize,
        ) {
            1nat
        } else {
            0nat
        }
    }
}

/// Rent-table index for a group-scaled tile: tiles of the group owned,
/// minus one, at most 5.
pub open spec fn scaled_index(owned: nat) -> int {
    if owned == 0 {
        0
    } else if owned - 1 > 5 {
        5
    } else {
        owned - 1
    }
}

/// Classic rent: by house level, with unimproved rent doubled on a full
/// group; a group-scaled tile indexes its table by the group tiles owned.
pub open spec fn standard_rent(c: &GameContent, s: GameModel, tile: int) -> int {
    let prop = prop_of(c, tile);
    let owner = s.tiles[tile].owner->0 as int;
    match prop.rent_model {
        RentModel::Houses => {
            let h = s.tiles[tile].houses;
            let base = prop.rents@[if h > 5 { 5 } else { h as int }] as int;
            if h == 0 && owns_full_group_spec(c, s, owner, prop.group@) {
                2 * base
            } else {
                base
            }
        },
        RentModel::GroupScaled => prop.rents@[scaled_index(
            count_owned(s.tiles, group_upto(c, prop.group@, c.board@.len() as int), owner),
        )] as int,
    }
}

/// Law: under the house model a tile charges the rent-table entry for its
/// house level, and an unimproved tile charges twice its first entry
/// exactly when its owner holds the whole group; a group-scaled tile
/// charges the entry for the number of group tiles its owner holds, the
/// first entry for one and the last for six or more.
pub proof fn law_standard_rent(c: &GameContent, s: GameModel, tile: int)
    ensures
        ({
            let p = prop_of(c, tile);
            let h = s.tiles[tile].houses as int;
            let owner = s.tiles[tile].owner->0 as int;
            let k = count_owned(s.tiles, group_upto(c, p.group@, c.board@.len() as int), owner) as int;
            &&& p.rent_model is Houses && 1 <= h <= 5 ==> standard_rent(c, s, tile) == p.rents@[h] as int
            &&& p.rent_model is Houses && h == 0 && owns_full_group_spec(c, s, owner, p.group@) ==> standard_rent(c, s, tile)
                == 2 * p.rents@[0] as int
            &&& p.rent_model is Houses && h == 0 && !owns_full_group_spec(c, s, owner, p.group@) ==> standard_rent(c, s, tile)
                == p.rents@[0] as int
            &&& p.rent_model is GroupScaled && 1 <= k <= 6 ==> standard_rent(c, s, tile) == p.rents@[k - 1] as int
            &&& p.rent_model is GroupScaled && k > 6 ==> standard_rent(c, s, tile) == p.rents@[5] as int
        }),
{
}

/// Tiles of `group` owned by `owner`.
pub(crate) fn group_owned_count(content: &GameContent, tiles: &Vec<TileState>, group: &str, owner: usize) -> (r: usize)
    requires
        tiles@.len() == content.board@.len(),
    ensures
        r == count_owned(tiles@, group_upto(content, group@, content.board@.len() as int), owner as int),
        r <= content.board@.len(),
{
    let list = content.group_tiles(group);
    let ghost l = list@;
    proof {
        lemma_group_list_len(content, group@, content.board@.len() as int);
    }
    let mut count: usize = 0;
    let mut k: usize = 0;
    while k < list.len()
        invariant
            l == list@,
            l.len() <= content.board@.len(),
            tiles@.len() == content.board@.len(),
            k <= l.len(),
            forall|j: int| 0 <= j < l.len() ==> (#[trigger] l[j]) < content.board@.len(),
            count == count_owned(tiles@, l.subrange(0, k as int), owner as int),
            count <= k,
        decreases l.len() - k,
    {
        assert(l.subrange(0, k + 1).drop_last() =~= l.subrange(0, k as int));
        if tiles[list[k]].owner == Some(owner) {
            count = count + 1;
        }
        k = k + 1;
    }
    assert(l.subrange(0, l.len() as int) =~= l);
    count
}

proof fn lemma_group_list_len(c: &GameContent, g: Seq<char>, n: int)
    ensures
        n >= 0 ==> group_upto(c, g, n).len() <= n,
    decreases n,
{
    if n > 0 {
        lemma_group_list_len(c, g, n - 1);
    }
}

pub struct StandardRent;

impl StandardRent {
    /// The classic rent of an owned property; see `standard_rent`.
    pub fn rent_of(&self, content: &GameContent, state: &GameState, tile: usize) -> (r: i64)
        requires
            content_fits(content),
            state_wf(content, state@),
            is_property(content, tile as int),
            state@.tiles[tile as int].owner is Some,
        ensures
            r == standard_rent(content, state@, tile as int),
            0 <= r <= 2 * amount_limit(),
    {
        let prop = content.property(tile).unwrap();
        let owner = state.tiles[tile].owner.unwrap();
        proof {
            assert(crate::state::tile_fits(content.board@[tile as int]));
        }
        match prop.rent_model {
            RentModel::Houses => {
                let houses = state.tiles[tile].houses;
                let idx: usize = if houses > 5 { 5 } else { houses as usize };
                let base = prop.rents[idx];
                if houses == 0 && state.owns_full_group(content, owner, prop.group.as_str()) {
                    base * 2
                } else {
                    base
                }
            },
            RentModel::GroupScaled => {
                let owned = group_owned_count(content, &state.tiles, prop.group.as_str(), owner);
                let idx: usize = if owned == 0 { 0 } else if owned - 1 > 5 { 5 } else { owned - 1 };
                prop.rents[idx]
            },
        }
    }
}

impl RentCalculator for StandardRent {
    open spec fn spec_rent(&self, content: &GameContent, tiles: Seq<TileState>, tile: int) -> int {
        standard_rent(content, GameModel { tiles, ..vstd::pervasive::arbitrary() }, tile)
    }

    fn rent(&self, content: &GameContent, state: &GameState, tile: usize) -> (r: i64)
        ensures
            r == standard_rent(content, state@, tile as int),
    {
        let r = self.rent_of(content, state, tile);
        proof {
            lemma_rent_reads_tiles(content, state@, GameModel { tiles: state@.tiles, ..vstd::pervasive::arbitrary() }, tile as int);
        }
        r
    }
}

/// The standard rent reads the board only.
proof fn lemma_rent_reads_tiles(c: &GameContent, a: GameModel, b: GameModel, tile: int)
    requires
        a.tiles == b.tiles,
    ensures
        standard_rent(c, a, tile) == standard_rent(c, b, tile),
{
    let owner = a.tiles[tile].owner->0 as int;
    let g = prop_of(c, tile).group@;
    assert(owns_full_group_spec(c, a, owner, g) == owns_full_group_spec(c, b, owner, g)) by {
        assert(forall|t: int| crate::state::owned_by(a, t, owner) == crate::state::owned_by(b, t, owner));
    }
}

/// Tile `t` may have a building sold by `debtor`: it stands at its
/// group's highest level (the even-sell rule).
pub open spec fn sale_eligible(c: &GameContent, s: GameModel, debtor: int, t: int) -> bool {
    &&& 0 <= t < s.tiles.len()
    &&& s.tiles[t].owner == Some(debtor as usize)
    &&& s.tiles[t].houses > 0
    &&& is_property(c, t)
    &&& s.tiles[t].houses == max_houses(
        s.tiles,
        group_upto(c, prop_of(c, t).group@, c.board@.len() as int),
    )
}

/// Tile `t` may be mortgaged by `debtor`: an unmortgaged property of theirs
/// in a group with no buildings.
pub open spec fn mortgage_eligible(c: &GameContent, s: GameModel, debtor: int, t: int) -> bool {
    &&& 0 <= t < s.tiles.len()
    &&& s.tiles[t].owner == Some(debtor as usize)
    &&& !s.tiles[t].mortgaged
    &&& is_property(c, t)
    &&& max_houses(s.tiles, group_upto(c, prop_of(c, t).group@, c.board@.len() as int)) == 0
}

/// Unmortgaged tiles among the first `n`.
pub open spec fn unmortgaged_upto(tiles: Seq<TileState>, n: int) -> int
    decreases n,
{
    if n <= 0 {
        0
    } else {
        unmortgaged_upto(tiles, n - 1) + if tiles[n - 1].mortgaged {
            0int
        } else {
            1int
        }
    }
}

proof fn lemma_unmortgaged_update(tiles: Seq<TileState>, i: int, t: TileState, n: int)
    requires
        0 <= i < tiles.len(),
        n <= tiles.len(),
    ensures
        unmortgaged_upto(tiles.update(i, t), n) == unmortgaged_upto(tiles, n) + if i < n {
            (if t.mortgaged { 0int } else { 1int }) - (if tiles[i].mortgaged { 0int } else { 1int })
        } else {
            0
        },
    decreases n,
{
    if n > 0 {
        lemma_unmortgaged_update(tiles, i, t, n - 1);
    }
}

proof fn lemma_unmortgaged_bound(tiles: Seq<TileState>, n: int)
    requires
        0 <= n <= tiles.len(),
    ensures
        0 <= unmortgaged_upto(tiles, n) <= n,
    decreases n,
{
    if n > 0 {
        lemma_unmortgaged_bound(tiles, n - 1);
    }
}

/// Default liquidation: sells the debtor's buildings back to the bank at
/// half cost, one level at a time from a tile at its group's highest level
/// (largest build cost first), then mortgages building-free properties
/// (highest price first), until the debt is covered or assets run out.
/// With a limited subsidiary pool, stepping a top-level tile down needs
/// the pool to re-issue the levels below it; when it cannot, the tile is
/// stripped in one motion and its conglomerate returned.
pub struct StandardLiquidation;

/// A sale on top-level tile `t` strips it in one motion: the subsidiary
/// pool cannot re-issue the levels below the top.
pub open spec fn strips(c: &GameContent, s: GameModel, t: int) -> bool {
    &&& s.tiles[t].houses == cap_of(c)
    &&& match s.subsidiaries_available {
        Some(a) => a < cap_of(c) - 1,
        None => false,
    }
}

/// The levels left on tile `t` after one sale.
pub open spec fn levels_after_sale(c: &GameContent, s: GameModel, t: int) -> int {
    if strips(c, s, t) { 0 } else { s.tiles[t].houses - 1 }
}

/// `s` after `d` sold one building sale on tile `t`: the tile keeps
/// `levels_after_sale` levels, `d` banks the refund for each level sold,
/// and the pools take back what left the board (stepping off the top
/// returns the conglomerate and re-issues the levels below it).
pub open spec fn after_sale(c: &GameContent, s: GameModel, d: int, t: int) -> GameModel {
    let ts = s.tiles[t];
    let cap = cap_of(c);
    let left = levels_after_sale(c, s, t);
    let unit = prop_of(c, t).house_cost * HOUSE_REFUND_PCT / 100;
    let congs = if ts.houses == cap {
        match s.conglomerates_available {
            Some(a) => Some((a + 1) as u64),
            None => None,
        }
    } else {
        s.conglomerates_available
    };
    let subs = if strips(c, s, t) {
        s.subsidiaries_available
    } else if ts.houses == cap {
        match s.subsidiaries_available {
            Some(a) => Some(if a >= cap - 1 { (a - (cap - 1)) as u64 } else { 0u64 }),
            None => None,
        }
    } else {
        match s.subsidiaries_available {
            Some(a) => Some((a + 1) as u64),
            None => None,
        }
    };
    GameModel {
        tiles: s.tiles.update(t, TileState { houses: left as u8, ..ts }),
        players: s.players.update(d, PlayerModel { cash: (s.players[d].cash + unit * (ts.houses - left)) as i64, ..s.players[d] }),
        subsidiaries_available: subs,
        conglomerates_available: congs,
        ..s
    }
}

/// Tile `t` is the next to sell from: eligible, with the largest build
/// cost, the last such on ties.
pub open spec fn first_sale(c: &GameContent, s: GameModel, d: int, t: int) -> bool {
    &&& sale_eligible(c, s, d, t)
    &&& forall|u: int| #[trigger] sale_eligible(c, s, d, u) ==> prop_of(c, u).house_cost <= prop_of(c, t).house_cost
        && (u > t ==> prop_of(c, u).house_cost < prop_of(c, t).house_cost)
}

/// The tile the next sale takes a level from, if any.
pub open spec fn sale_pick(c: &GameContent, s: GameModel, d: int) -> Option<int> {
    if exists|t: int| #[trigger] first_sale(c, s, d, t) {
        Some(choose|t: int| #[trigger] first_sale(c, s, d, t))
    } else {
        None
    }
}

/// `s` after the sale phase of a liquidation owing `needed`: while `d` is
/// short and has a building to sell, one sale on `sale_pick`; `fuel`
/// bounds the number of sales.
pub open spec fn sold_down(c: &GameContent, s: GameModel, d: int, needed: int, fuel: nat) -> GameModel
    decreases fuel,
{
    if fuel == 0 || s.players[d].cash >= needed {
        s
    } else {
        match sale_pick(c, s, d) {
            Some(t) => sold_down(c, after_sale(c, s, d, t), d, needed, (fuel - 1) as nat),
            None => s,
        }
    }
}

/// The whole sale phase: every level on the board is enough fuel.
pub open spec fn sale_phase(c: &GameContent, s: GameModel, d: int, needed: int) -> GameModel {
    sold_down(c, s, d, needed, levels_upto(s.tiles, s.tiles.len() as int) as nat)
}

/// The announcement of one building sale by `d` on tile `t`.
pub open spec fn sale_event(c: &GameContent, s: GameModel, d: int, t: int) -> Event {
    let left = levels_after_sale(c, s, t);
    Event::HouseSold {
        player: d as usize,
        tile: t as usize,
        houses: left as u8,
        refund: (prop_of(c, t).house_cost * HOUSE_REFUND_PCT / 100 * (s.tiles[t].houses - left)) as i64,
    }
}

/// The announcements of the sales `sold_down` makes, in order.
pub open spec fn sold_events(c: &GameContent, s: GameModel, d: int, needed: int, fuel: nat) -> Seq<Event>
    decreases fuel,
{
    if fuel == 0 || s.players[d].cash >= needed {
        Seq::empty()
    } else {
        match sale_pick(c, s, d) {
            Some(t) => seq![sale_event(c, s, d, t)] + sold_events(c, after_sale(c, s, d, t), d, needed, (fuel - 1) as nat),
            None => Seq::empty(),
        }
    }
}

/// What mortgaging property `t` raises.
pub open spec fn mortgage_raise(c: &GameContent, t: int) -> int {
    prop_of(c, t).price * MORTGAGE_VALUE_PCT / 100
}

/// `s` after `d` mortgaged tile `t` and banked what it raises.
pub open spec fn after_mortgage(c: &GameContent, s: GameModel, d: int, t: int) -> GameModel {
    GameModel {
        tiles: s.tiles.update(t, TileState { mortgaged: true, ..s.tiles[t] }),
        players: s.players.update(d, PlayerModel { cash: (s.players[d].cash + mortgage_raise(c, t)) as i64, ..s.players[d] }),
        ..s
    }
}

/// Tile `t` is the next to mortgage: eligible, with the highest price,
/// the first such on ties.
pub open spec fn first_mortgage(c: &GameContent, s: GameModel, d: int, t: int) -> bool {
    &&& mortgage_eligible(c, s, d, t)
    &&& forall|u: int| #[trigger] mortgage_eligible(c, s, d, u) ==> prop_of(c, u).price <= prop_of(c, t).price
        && (u < t ==> prop_of(c, u).price < prop_of(c, t).price)
}

/// The tile the next mortgage takes, if any.
pub open spec fn mortgage_pick(c: &GameContent, s: GameModel, d: int) -> Option<int> {
    if exists|t: int| #[trigger] first_mortgage(c, s, d, t) {
        Some(choose|t: int| #[trigger] first_mortgage(c, s, d, t))
    } else {
        None
    }
}

/// `s` after the mortgage phase: while `d` is short and has a tile to
/// mortgage, one mortgage on `mortgage_pick`; `fuel` bounds their number.
pub open spec fn mortgaged_down(c: &GameContent, s: GameModel, d: int, needed: int, fuel: nat) -> GameModel
    decreases fuel,
{
    if fuel == 0 || s.players[d].cash >= needed {
        s
    } else {
        match mortgage_pick(c, s, d) {
            Some(t) => mortgaged_down(c, after_mortgage(c, s, d, t), d, needed, (fuel - 1) as nat),
            None => s,
        }
    }
}

/// The announcements of the mortgages `mortgaged_down` makes, in order.
pub open spec fn mortgaged_events(c: &GameContent, s: GameModel, d: int, needed: int, fuel: nat) -> Seq<Event>
    decreases fuel,
{
    if fuel == 0 || s.players[d].cash >= needed {
        Seq::empty()
    } else {
        match mortgage_pick(c, s, d) {
            Some(t) => seq![Event::PropertyMortgaged { player: d as usize, tile: t as usize, value: mortgage_raise(c, t) as i64 }]
                + mortgaged_events(c, after_mortgage(c, s, d, t), d, needed, (fuel - 1) as nat),
            None => Seq::empty(),
        }
    }
}

/// The whole liquidation of `d` owing `needed`: sales first, then
/// mortgages, each phase stopping as soon as the debt is covered.
pub open spec fn liquidated(c: &GameContent, s: GameModel, d: int, needed: int) -> GameModel {
    let sp = sale_phase(c, s, d, needed);
    mortgaged_down(c, sp, d, needed, unmortgaged_upto(sp.tiles, sp.tiles.len() as int) as nat)
}

/// The announcements of that liquidation, in order.
pub open spec fn liquidation_events(c: &GameContent, s: GameModel, d: int, needed: int) -> Seq<Event> {
    let sp = sale_phase(c, s, d, needed);
    sold_events(c, s, d, needed, levels_upto(s.tiles, s.tiles.len() as int) as nat) + mortgaged_events(
        c,
        sp,
        d,
        needed,
        unmortgaged_upto(sp.tiles, sp.tiles.len() as int) as nat,
    )
}

/// Law: a forced sale takes a level off a tile of the debtor's at its
/// group's top level with the largest build cost, the last such on ties;
/// a forced mortgage takes the dearest tile the debtor may mortgage, the
/// first such on ties.
pub proof fn law_liquidation_picks(c: &GameContent, s: GameModel, d: int)
    ensures
        sale_pick(c, s, d) matches Some(t) ==> sale_eligible(c, s, d, t) && forall|u: int| #[trigger] sale_eligible(c, s, d, u)
            ==> prop_of(c, u).house_cost <= prop_of(c, t).house_cost && (u > t ==> prop_of(c, u).house_cost
            < prop_of(c, t).house_cost),
        mortgage_pick(c, s, d) matches Some(t) ==> mortgage_eligible(c, s, d, t) && forall|u: int| #[trigger] mortgage_eligible(c, s, d, u)
            ==> prop_of(c, u).price <= prop_of(c, t).price && (u < t ==> prop_of(c, u).price < prop_of(c, t).price),
{
    if let Some(t) = sale_pick(c, s, d) {
        assert(first_sale(c, s, d, t));
    }
    if let Some(t) = mortgage_pick(c, s, d) {
        assert(first_mortgage(c, s, d, t));
    }
}

proof fn lemma_first_mortgage_unique(c: &GameContent, s: GameModel, d: int, t: int)
    requires
        first_mortgage(c, s, d, t),
    ensures
        mortgage_pick(c, s, d) == Some(t),
{
    let u = choose|u: int| #[trigger] first_mortgage(c, s, d, u);
    assert(first_mortgage(c, s, d, u));
    if u != t {
        assert(mortgage_eligible(c, s, d, u));
        assert(mortgage_eligible(c, s, d, t));
    }
}

proof fn lemma_unmortgaged_nonneg(tiles: Seq<TileState>, n: int)
    ensures
        unmortgaged_upto(tiles, n) >= 0,
    decreases n,
{
    if n > 0 {
        lemma_unmortgaged_nonneg(tiles, n - 1);
    }
}

/// More fuel than unmortgaged tiles changes neither the mortgages nor
/// their announcements.
proof fn lemma_mortgaged_down_fuel(c: &GameContent, s: GameModel, d: int, needed: int, f1: nat, f2: nat)
    requires
        f1 >= unmortgaged_upto(s.tiles, s.tiles.len() as int),
        f2 >= unmortgaged_upto(s.tiles, s.tiles.len() as int),
    ensures
        mortgaged_down(c, s, d, needed, f1) == mortgaged_down(c, s, d, needed, f2),
        mortgaged_events(c, s, d, needed, f1) == mortgaged_events(c, s, d, needed, f2),
    decreases f1,
{
    if s.players[d].cash >= needed {
    } else {
        match mortgage_pick(c, s, d) {
            Some(t) => {
                assert(first_mortgage(c, s, d, t));
                let a = after_mortgage(c, s, d, t);
                lemma_unmortgaged_update(s.tiles, t, TileState { mortgaged: true, ..s.tiles[t] }, s.tiles.len() as int);
                lemma_unmortgaged_nonneg(a.tiles, a.tiles.len() as int);
                lemma_mortgaged_down_fuel(c, a, d, needed, (f1 - 1) as nat, (f2 - 1) as nat);
            },
            None => {},
        }
    }
}

/// `f` is what liquidating `s` for `d` owing `needed` leaves: the sale
/// phase decides every building and both pools; where it covers the debt
/// nothing is mortgaged.
pub open spec fn sold_as(c: &GameContent, s: GameModel, f: GameModel, d: int, needed: int) -> bool {
    let sp = sale_phase(c, s, d, needed);
    &&& sp.players[d].cash >= needed ==> f == sp
    &&& f.subsidiaries_available == sp.subsidiaries_available
    &&& f.conglomerates_available == sp.conglomerates_available
    &&& forall|t: int| 0 <= t < s.tiles.len() ==> (#[trigger] f.tiles[t]).houses == sp.tiles[t].houses
}

proof fn lemma_first_sale_unique(c: &GameContent, s: GameModel, d: int, t: int)
    requires
        first_sale(c, s, d, t),
    ensures
        sale_pick(c, s, d) == Some(t),
{
    let u = choose|u: int| #[trigger] first_sale(c, s, d, u);
    assert(first_sale(c, s, d, u));
    if u != t {
        assert(sale_eligible(c, s, d, u));
        assert(sale_eligible(c, s, d, t));
    }
}

proof fn lemma_sale_levels(c: &GameContent, s: GameModel, d: int, t: int)
    requires
        sale_eligible(c, s, d, t),
    ensures
        levels_upto(after_sale(c, s, d, t).tiles, s.tiles.len() as int) < levels_upto(s.tiles, s.tiles.len() as int),
        after_sale(c, s, d, t).tiles.len() == s.tiles.len(),
{
    let left = levels_after_sale(c, s, t);
    lemma_levels_update(s.tiles, t, TileState { houses: left as u8, ..s.tiles[t] }, s.tiles.len() as int);
}

/// More fuel than there are levels on the board changes nothing.
proof fn lemma_sold_down_fuel(c: &GameContent, s: GameModel, d: int, needed: int, f1: nat, f2: nat)
    requires
        0 <= d < s.players.len(),
        f1 >= levels_upto(s.tiles, s.tiles.len() as int),
        f2 >= levels_upto(s.tiles, s.tiles.len() as int),
        forall|t: int| 0 <= t < s.tiles.len() ==> (#[trigger] s.tiles[t]).houses >= 0,
    ensures
        sold_down(c, s, d, needed, f1) == sold_down(c, s, d, needed, f2),
        sold_events(c, s, d, needed, f1) == sold_events(c, s, d, needed, f2),
    decreases f1,
{
    if s.players[d].cash >= needed {
    } else {
        match sale_pick(c, s, d) {
            Some(t) => {
                assert(first_sale(c, s, d, t));
                lemma_sale_levels(c, s, d, t);
                let a = after_sale(c, s, d, t);
                lemma_levels_nonneg(a.tiles, a.tiles.len() as int);
                if f1 > 0 && f2 > 0 {
                    lemma_sold_down_fuel(c, a, d, needed, (f1 - 1) as nat, (f2 - 1) as nat);
                } else {
                    lemma_levels_nonneg(a.tiles, a.tiles.len() as int);
                }
            },
            None => {},
        }
    }
}

proof fn lemma_levels_nonneg(tiles: Seq<TileState>, n: int)
    ensures
        levels_upto(tiles, n) >= 0,
    decreases n,
{
    if n > 0 {
        lemma_levels_nonneg(tiles, n - 1);
    }
}


impl StandardLiquidation {
    /// One building sale on `tile`, pool-aware.
    fn sell_one(content: &GameContent, state: &mut GameState, debtor: usize, tile: usize, events: &mut Vec<Event>)
        requires
            content_fits(content),
            state_wf(content, old(state)@),
            pools_fit(content, old(state)@),
            debtor < old(state)@.players.len(),
            sale_eligible(content, old(state)@, debtor as int, tile as int),
            old(state)@.players[debtor as int].cash <= i64::MAX - 10 * crate::state::amount_limit(),
        ensures
            state_wf(content, final(state)@),
            pools_fit(content, final(state)@),
            subsidiary_stock(content, final(state)@) == subsidiary_stock(content, old(state)@),
            conglomerate_stock(content, final(state)@) == conglomerate_stock(content, old(state)@),
            crate::event::extends(old(events)@, final(events)@),
            final(state)@.players.len() == old(state)@.players.len(),
            forall|p: int| 0 <= p < old(state)@.players.len() && p != debtor ==> #[trigger] final(state)@.players[p] == old(state)@.players[p],
            final(state)@.players[debtor as int] == (PlayerModel { cash: final(state)@.players[debtor as int].cash, ..old(state)@.players[debtor as int] }),
            ({
                let gained = final(state)@.players[debtor as int].cash - old(state)@.players[debtor as int].cash;
                let sold = levels_upto(old(state)@.tiles, old(state)@.tiles.len() as int) - levels_upto(final(state)@.tiles, final(state)@.tiles.len() as int);
                &&& sold >= 1
                &&& 0 <= gained <= sold * 500_000_000
            }),
            final(state)@.tiles.len() == old(state)@.tiles.len(),
            forall|t: int| 0 <= t < old(state)@.tiles.len() ==> (#[trigger] final(state)@.tiles[t]).owner == old(state)@.tiles[t].owner
                && final(state)@.tiles[t].boosts == old(state)@.tiles[t].boosts
                && final(state)@.tiles[t].mortgaged == old(state)@.tiles[t].mortgaged,
            final(state)@ == (GameModel { players: final(state)@.players, tiles: final(state)@.tiles, subsidiaries_available: final(state)@.subsidiaries_available, conglomerates_available: final(state)@.conglomerates_available, ..old(state)@ }),
            final(state)@ == after_sale(content, old(state)@, debtor as int, tile as int),
            final(events)@ == old(events)@.push(sale_event(content, old(state)@, debtor as int, tile as int)),
            ({
                let s = old(state)@;
                let left = levels_after_sale(content, s, tile as int);
                &&& final(state)@.tiles == s.tiles.update(tile as int, TileState { houses: left as u8, ..s.tiles[tile as int] })
                &&& final(state)@.players[debtor as int].cash == s.players[debtor as int].cash
                    + prop_of(content, tile as int).house_cost * HOUSE_REFUND_PCT / 100 * (s.tiles[tile as int].houses - left)
            }),
    {
        let cap: u8 = if content.rules.max_houses_per_property < 5 {
            content.rules.max_houses_per_property
        } else {
            5
        };
        let prop = content.property(tile).unwrap();
        proof {
            assert(crate::state::tile_fits(content.board@[tile as int]));
        }
        let unit = prop.house_cost * HOUSE_REFUND_PCT / 100;
        let ts = state.tiles[tile];
        let ghost s0 = state@;
        let n = state.tiles.len();
        proof {
            crate::state::lemma_held_nonneg_pub(s0.tiles, cap, n as int);
        }
        if ts.houses == cap && !state.subsidiaries_free((cap - 1) as u64) {
            let levels = ts.houses;
            proof {
                assert(0 <= unit <= 500_000_000);
                assert(unit * levels <= levels * 500_000_000) by (nonlinear_arith)
                    requires
                        0 <= unit <= 500_000_000,
                        0 <= levels <= 5,
                ;
                assert(0 <= unit * levels) by (nonlinear_arith)
                    requires
                        0 <= unit,
                        0 <= levels,
                ;
            }
            let refund = unit * (levels as i64);
            let nts = TileState { houses: 0, ..ts };
            state.set_tile(tile, nts);
            proof {
                lemma_held_update(s0.tiles, cap, tile as int, nts, n as int);
                lemma_levels_update(s0.tiles, tile as int, nts, n as int);
            }
            state.return_conglomerate();
            let cash = state.players[debtor].cash;
            state.set_cash(debtor, cash + refund);
            events.push(Event::HouseSold { player: debtor, tile, houses: 0, refund });
        } else {
            let steps_off_top = ts.houses == cap;
            let nts = TileState { houses: (ts.houses - 1) as u8, ..ts };
            state.set_tile(tile, nts);
            proof {
                lemma_held_update(s0.tiles, cap, tile as int, nts, n as int);
                lemma_levels_update(s0.tiles, tile as int, nts, n as int);
            }
            let cash = state.players[debtor].cash;
            state.set_cash(debtor, cash + unit);
            if steps_off_top {
                state.return_conglomerate();
                state.consume_subsidiaries((cap - 1) as u64);
            } else {
                state.return_subsidiaries(1);
            }
            events.push(Event::HouseSold { player: debtor, tile, houses: (ts.houses - 1) as u8, refund: unit });
        }
        proof {
            assert(state@.tiles =~= s0.tiles.update(tile as int, state@.tiles[tile as int]));
            let left = levels_after_sale(content, s0, tile as int);
            assert(state@.tiles[tile as int] == (TileState { houses: left as u8, ..ts }));
            assert(unit * (ts.houses - left) == if left == 0 { unit * (ts.houses as int) } else { unit as int }) by (nonlinear_arith)
                requires
                    left == 0 || left == ts.houses - 1,
            ;
        }
    }
}

impl StandardLiquidation {
    /// The tile to sell a level from next: an eligible tile with the
    /// largest build cost (the last such on ties), if any.
    fn sale_candidate(content: &GameContent, state: &GameState, debtor: usize) -> (r: Option<usize>)
        requires
            state_wf(content, state@),
            content_fits(content),
        ensures
            r matches Some(t) ==> sale_eligible(content, state@, debtor as int, t as int),
            r matches Some(t) ==> forall|u: int| #[trigger] sale_eligible(content, state@, debtor as int, u)
                ==> prop_of(content, u).house_cost <= prop_of(content, t as int).house_cost
                && (u > t ==> prop_of(content, u).house_cost < prop_of(content, t as int).house_cost),
            r is None ==> forall|t: int| !sale_eligible(content, state@, debtor as int, t),
    {
        let n = state.tiles.len();
        let mut best: Option<usize> = None;
        let mut best_cost: i64 = 0;
        let mut t: usize = 0;
        while t < n
            invariant
                n == state@.tiles.len(),
                state_wf(content, state@),
                t <= n,
                best matches Some(b) ==> sale_eligible(content, state@, debtor as int, b as int) && b < t
                    && best_cost == prop_of(content, b as int).house_cost,
                best matches Some(b) ==> forall|j: int| 0 <= j < t && #[trigger] sale_eligible(content, state@, debtor as int, j)
                    ==> prop_of(content, j).house_cost <= best_cost && (j > b ==> prop_of(content, j).house_cost < best_cost),
                best is None ==> forall|j: int| 0 <= j < t ==> !sale_eligible(content, state@, debtor as int, j),
            decreases n - t,
        {
            let ts = state.tiles[t];
            if ts.owner == Some(debtor) && ts.houses > 0 {
                if let Some(p) = content.property(t) {
                    let gmax = group_max_houses(content, &state.tiles, p.group.as_str());
                    if ts.houses == gmax {
                        match best {
                            None => {
                                best = Some(t);
                                best_cost = p.house_cost;
                            },
                            Some(_) => {
                                if p.house_cost >= best_cost {
                                    best = Some(t);
                                    best_cost = p.house_cost;
                                }
                            },
                        }
                    }
                }
            }
            t = t + 1;
        }
        best
    }

    /// The tile to mortgage next: an eligible tile with the highest price
    /// (the first such on ties), if any.
    fn mortgage_candidate(content: &GameContent, state: &GameState, debtor: usize) -> (r: Option<usize>)
        requires
            state_wf(content, state@),
            content_fits(content),
        ensures
            r matches Some(t) ==> mortgage_eligible(content, state@, debtor as int, t as int),
            r matches Some(t) ==> forall|u: int| #[trigger] mortgage_eligible(content, state@, debtor as int, u)
                ==> prop_of(content, u).price <= prop_of(content, t as int).price
                && (u < t ==> prop_of(content, u).price < prop_of(content, t as int).price),
            r is None ==> forall|t: int| !mortgage_eligible(content, state@, debtor as int, t),
    {
        let n = state.tiles.len();
        let mut best: Option<usize> = None;
        let mut best_price: i64 = 0;
        let mut t: usize = 0;
        while t < n
            invariant
                n == state@.tiles.len(),
                state_wf(content, state@),
                t <= n,
                best matches Some(b) ==> mortgage_eligible(content, state@, debtor as int, b as int) && b < t
                    && best_price == prop_of(content, b as int).price,
                best matches Some(b) ==> forall|j: int| 0 <= j < t && #[trigger] mortgage_eligible(content, state@, debtor as int, j)
                    ==> prop_of(content, j).price <= best_price && (j < b ==> prop_of(content, j).price < best_price),
                best is None ==> forall|j: int| 0 <= j < t ==> !mortgage_eligible(content, state@, debtor as int, j),
            decreases n - t,
        {
            let ts = state.tiles[t];
            if ts.owner == Some(debtor) && !ts.mortgaged {
                if let Some(p) = content.property(t) {
                    let gmax = group_max_houses(content, &state.tiles, p.group.as_str());
                    if gmax == 0 {
                        match best {
                            None => {
                                best = Some(t);
                                best_price = p.price;
                            },
                            Some(_) => {
                                if p.price > best_price {
                                    best = Some(t);
                                    best_price = p.price;
                                }
                            },
                        }
                    }
                }
            }
            t = t + 1;
        }
        best
    }

    /// Liquidation, with what it guarantees beyond any resolver: the debt
    /// is covered, or nothing is left to sell or mortgage.
    pub fn liquidate_all(
        &self,
        content: &GameContent,
        state: &mut GameState,
        debtor: usize,
        needed: i64,
        events: &mut Vec<Event>,
    )
        requires
            content_fits(content),
            state_wf(content, old(state)@),
            pools_fit(content, old(state)@),
            debtor < old(state)@.players.len(),
            within_i(old(state)@.players[debtor as int].cash as int),
        ensures
            state_wf(content, final(state)@),
            pools_fit(content, final(state)@),
            subsidiary_stock(content, final(state)@) == subsidiary_stock(content, old(state)@),
            conglomerate_stock(content, final(state)@) == conglomerate_stock(content, old(state)@),
            liquidation_frame(old(state)@, final(state)@, debtor as int),
            crate::event::extends(old(events)@, final(events)@),
            final(state)@.players[debtor as int].cash >= needed || forall|t: int|
                !sale_eligible(content, final(state)@, debtor as int, t) && !mortgage_eligible(
                    content,
                    final(state)@,
                    debtor as int,
                    t,
                ),
            old(state)@.players[debtor as int].cash >= needed ==> final(state)@ == old(state)@,
            forall|t: int| 0 <= t < old(state)@.tiles.len() && (#[trigger] final(state)@.tiles[t]).mortgaged
                && !old(state)@.tiles[t].mortgaged ==> forall|u: int| !sale_eligible(content, final(state)@, debtor as int, u),
            sold_as(content, old(state)@, final(state)@, debtor as int, needed as int),
            final(state)@ == liquidated(content, old(state)@, debtor as int, needed as int),
            final(events)@ == old(events)@ + liquidation_events(content, old(state)@, debtor as int, needed as int),
    {
        let ghost s0 = state@;
        let ghost e0 = events@;
        let n = state.tiles.len();
        let ghost cap = cap_of(content);
        proof {
            lemma_levels_bound(s0.tiles, n as int, cap as int);
            assert(cap * n <= 5 * 4096) by (nonlinear_arith)
                requires
                    cap <= 5,
                    n <= 4096,
            ;
        }
        let mut done = false;
        while !done && state.players[debtor].cash < needed
            invariant
                n == state@.tiles.len(),
                crate::event::extends(e0, events@),
                cap == cap_of(content),
                content_fits(content),
                state_wf(content, state@),
                pools_fit(content, state@),
                debtor < state@.players.len(),
                subsidiary_stock(content, state@) == subsidiary_stock(content, s0),
                conglomerate_stock(content, state@) == conglomerate_stock(content, s0),
                state@.players.len() == s0.players.len(),
                forall|p: int| 0 <= p < s0.players.len() && p != debtor ==> #[trigger] state@.players[p] == s0.players[p],
                state@.players[debtor as int] == (PlayerModel { cash: state@.players[debtor as int].cash, ..s0.players[debtor as int] }),
                forall|t: int| 0 <= t < n ==> (#[trigger] state@.tiles[t]).owner == s0.tiles[t].owner
                    && state@.tiles[t].boosts == s0.tiles[t].boosts
                    && state@.tiles[t].mortgaged == s0.tiles[t].mortgaged,
                state@ == (GameModel { players: state@.players, tiles: state@.tiles, subsidiaries_available: state@.subsidiaries_available, conglomerates_available: state@.conglomerates_available, ..s0 }),
                0 <= levels_upto(state@.tiles, n as int) <= levels_upto(s0.tiles, n as int) <= 5 * 4096,
                n <= 4096,
                s0.players[debtor as int].cash <= state@.players[debtor as int].cash,
                state@.players[debtor as int].cash - s0.players[debtor as int].cash <= (levels_upto(s0.tiles, n as int) - levels_upto(state@.tiles, n as int)) * 500_000_000,
                within_i(s0.players[debtor as int].cash as int),
                done ==> forall|t: int| !sale_eligible(content, state@, debtor as int, t),
                sold_down(content, state@, debtor as int, needed as int, levels_upto(state@.tiles, n as int) as nat)
                    == sale_phase(content, s0, debtor as int, needed as int),
                e0 + sold_events(content, s0, debtor as int, needed as int, levels_upto(s0.tiles, n as int) as nat)
                    == events@ + sold_events(content, state@, debtor as int, needed as int, levels_upto(state@.tiles, n as int) as nat),
                s0.players[debtor as int].cash >= needed ==> state@ == s0,
            decreases levels_upto(state@.tiles, n as int) + if done { 0int } else { 1int },
        {
            match Self::sale_candidate(content, state, debtor) {
                None => {
                    done = true;
                },
                Some(tile) => {
                    let ghost before = state@;
                    let ghost eb = events@;
                    Self::sell_one(content, state, debtor, tile, events);
                    proof {
                        lemma_first_sale_unique(content, before, debtor as int, tile as int);
                        lemma_sale_levels(content, before, debtor as int, tile as int);
                        lemma_levels_nonneg(state@.tiles, n as int);
                        let lb = levels_upto(before.tiles, n as int);
                        let la = levels_upto(state@.tiles, n as int);
                        assert(sold_down(content, before, debtor as int, needed as int, lb as nat)
                            == sold_down(content, state@, debtor as int, needed as int, (lb - 1) as nat));
                        lemma_sold_down_fuel(content, state@, debtor as int, needed as int, (lb - 1) as nat, la as nat);
                        let ev = sale_event(content, before, debtor as int, tile as int);
                        assert(sold_events(content, before, debtor as int, needed as int, lb as nat)
                            == seq![ev] + sold_events(content, state@, debtor as int, needed as int, (lb - 1) as nat));
                        assert(eb + (seq![ev] + sold_events(content, state@, debtor as int, needed as int, la as nat))
                            =~= eb.push(ev) + sold_events(content, state@, debtor as int, needed as int, la as nat));
                        assert(state_wf(content, state@));
                        assert(forall|t: int| 0 <= t < state@.tiles.len() ==> (#[trigger] state@.tiles[t]).houses <= cap);
                        lemma_levels_bound(state@.tiles, n as int, cap as int);
                        assert((levels_upto(s0.tiles, n as int) - levels_upto(before.tiles, n as int)) * 500_000_000 + (levels_upto(before.tiles, n as int) - levels_upto(state@.tiles, n as int)) * 500_000_000 == (levels_upto(s0.tiles, n as int) - levels_upto(state@.tiles, n as int)) * 500_000_000) by (nonlinear_arith);
                    }
                },
            }
        }
        proof {
            assert((levels_upto(s0.tiles, n as int) - levels_upto(state@.tiles, n as int)) * 500_000_000 <= 5 * 4096 * 500_000_000) by (nonlinear_arith)
                requires
                    0 <= levels_upto(s0.tiles, n as int) - levels_upto(state@.tiles, n as int) <= 5 * 4096,
            ;
        }
        let ghost s1 = state@;
        proof {
            if !(state@.players[debtor as int].cash >= needed) {
                assert(done);
                if sale_pick(content, state@, debtor as int) is Some {
                    assert(first_sale(content, state@, debtor as int, choose|t: int| #[trigger] first_sale(content, state@, debtor as int, t)));
                }
            }
            assert(s1 == sale_phase(content, s0, debtor as int, needed as int));
            assert(sold_events(content, s1, debtor as int, needed as int, levels_upto(s1.tiles, n as int) as nat) =~= Seq::empty());
            assert(events@ =~= e0 + sold_events(content, s0, debtor as int, needed as int, levels_upto(s0.tiles, n as int) as nat));
        }
        let ghost e1 = events@;
        if state.players[debtor].cash >= needed {
            proof {
                let um = unmortgaged_upto(s1.tiles, n as int) as nat;
                assert(mortgaged_events(content, s1, debtor as int, needed as int, um) =~= Seq::empty());
                assert(events@ =~= e0 + liquidation_events(content, s0, debtor as int, needed as int));
            }
            return;
        }
        // Mortgage phase: only tiles whose whole group is building-free.
        let mut stop = false;
        proof {
            lemma_unmortgaged_bound(state@.tiles, n as int);
            assert(s1.tiles.len() == n);
        }
        while !stop && state.players[debtor].cash < needed
            invariant
                n == state@.tiles.len(),
                crate::event::extends(e0, events@),
                cap == cap_of(content),
                content_fits(content),
                state_wf(content, state@),
                pools_fit(content, state@),
                debtor < state@.players.len(),
                subsidiary_stock(content, state@) == subsidiary_stock(content, s0),
                conglomerate_stock(content, state@) == conglomerate_stock(content, s0),
                state@.players.len() == s0.players.len(),
                forall|p: int| 0 <= p < s0.players.len() && p != debtor ==> #[trigger] state@.players[p] == s0.players[p],
                state@.players[debtor as int] == (PlayerModel { cash: state@.players[debtor as int].cash, ..s0.players[debtor as int] }),
                forall|t: int| 0 <= t < n ==> (#[trigger] state@.tiles[t]).owner == s0.tiles[t].owner
                    && state@.tiles[t].boosts == s0.tiles[t].boosts
                    && state@.tiles[t].houses == s1.tiles[t].houses,
                state@ == (GameModel { players: state@.players, tiles: state@.tiles, ..s1 }),
                n <= 4096,
                s1.tiles.len() == n,
                forall|t: int| 0 <= t < n ==> (#[trigger] s1.tiles[t]).owner == s0.tiles[t].owner,
                n == content.board@.len(),
                0 <= unmortgaged_upto(state@.tiles, n as int) <= unmortgaged_upto(s1.tiles, n as int) <= n,
                s0.players[debtor as int].cash <= s1.players[debtor as int].cash <= state@.players[debtor as int].cash,
                s1.players[debtor as int].cash - s0.players[debtor as int].cash <= 5 * 4096 * 500_000_000,
                state@.players[debtor as int].cash - s1.players[debtor as int].cash <= (unmortgaged_upto(s1.tiles, n as int) - unmortgaged_upto(state@.tiles, n as int)) * 500_000_000,
                within_i(s0.players[debtor as int].cash as int),
                forall|t: int| !sale_eligible(content, s1, debtor as int, t),
                forall|t: int| !sale_eligible(content, state@, debtor as int, t),
                stop ==> forall|t: int| !mortgage_eligible(content, state@, debtor as int, t),
                mortgaged_down(content, state@, debtor as int, needed as int, unmortgaged_upto(state@.tiles, n as int) as nat)
                    == mortgaged_down(content, s1, debtor as int, needed as int, unmortgaged_upto(s1.tiles, n as int) as nat),
                e1 + mortgaged_events(content, s1, debtor as int, needed as int, unmortgaged_upto(s1.tiles, n as int) as nat)
                    == events@ + mortgaged_events(content, state@, debtor as int, needed as int, unmortgaged_upto(state@.tiles, n as int) as nat),
                e1 == e0 + sold_events(content, s0, debtor as int, needed as int, levels_upto(s0.tiles, n as int) as nat),
                s1 == sale_phase(content, s0, debtor as int, needed as int),
            decreases unmortgaged_upto(state@.tiles, n as int) + if stop { 0int } else { 1int },
        {
            match Self::mortgage_candidate(content, state, debtor) {
                None => {
                    stop = true;
                },
                Some(tile) => {
                    let ghost before = state@;
                    let prop = content.property(tile).unwrap();
                    proof {
                        assert(crate::state::tile_fits(content.board@[tile as int]));
                    }
                    let value = prop.price * MORTGAGE_VALUE_PCT / 100;
                    let ts = state.tiles[tile];
                    let nts = TileState { mortgaged: true, ..ts };
                    state.set_tile(tile, nts);
                    proof {
                        lemma_held_update(before.tiles, cap, tile as int, nts, n as int);
                        lemma_unmortgaged_update(before.tiles, tile as int, nts, n as int);
                        assert((unmortgaged_upto(s1.tiles, n as int) - unmortgaged_upto(before.tiles, n as int)) * 500_000_000 + 500_000_000 == (unmortgaged_upto(s1.tiles, n as int) - unmortgaged_upto(before.tiles, n as int) + 1) * 500_000_000) by (nonlinear_arith);
                        assert((unmortgaged_upto(s1.tiles, n as int) - unmortgaged_upto(before.tiles, n as int)) * 500_000_000 <= 4096 * 500_000_000) by (nonlinear_arith)
                            requires
                                unmortgaged_upto(s1.tiles, n as int) - unmortgaged_upto(before.tiles, n as int) <= 4096,
                        ;
                    }
                    let cash = state.players[debtor].cash;
                    state.set_cash(debtor, cash + value);
                    let ghost eb = events@;
                    events.push(Event::PropertyMortgaged { player: debtor, tile, value });
                    proof {
                        lemma_first_mortgage_unique(content, before, debtor as int, tile as int);
                        let ub = unmortgaged_upto(before.tiles, n as int);
                        let ua = unmortgaged_upto(state@.tiles, n as int);
                        assert(state@.players =~= after_mortgage(content, before, debtor as int, tile as int).players);
                        assert(state@ == after_mortgage(content, before, debtor as int, tile as int));
                        lemma_unmortgaged_nonneg(state@.tiles, n as int);
                        assert(mortgaged_down(content, before, debtor as int, needed as int, ub as nat)
                            == mortgaged_down(content, state@, debtor as int, needed as int, (ub - 1) as nat));
                        lemma_mortgaged_down_fuel(content, state@, debtor as int, needed as int, (ub - 1) as nat, ua as nat);
                        let ev = Event::PropertyMortgaged { player: debtor, tile, value };
                        assert(mortgaged_events(content, before, debtor as int, needed as int, ub as nat)
                            == seq![ev] + mortgaged_events(content, state@, debtor as int, needed as int, (ub - 1) as nat));
                        assert(eb + (seq![ev] + mortgaged_events(content, state@, debtor as int, needed as int, ua as nat))
                            =~= eb.push(ev) + mortgaged_events(content, state@, debtor as int, needed as int, ua as nat));
                    }
                    proof {
                        lemma_unmortgaged_bound(state@.tiles, n as int);
                        assert(state@.tiles == before.tiles.update(tile as int, nts));
                        assert(nts.houses == before.tiles[tile as int].houses);
                        assert(state@.subsidiaries_available == before.subsidiaries_available);
                        assert(subsidiary_stock(content, state@) == subsidiary_stock(content, before));
                        assert(conglomerate_stock(content, state@) == conglomerate_stock(content, before));
                        assert forall|t: int| !sale_eligible(content, state@, debtor as int, t) by {
                            if sale_eligible(content, state@, debtor as int, t) {
                                lemma_group_upto_in(content, prop_of(content, t).group@, content.board@.len() as int);
                                lemma_max_houses_same(state@.tiles, s1.tiles, group_upto(content, prop_of(content, t).group@, content.board@.len() as int), content.board@.len() as int);
                                assert(sale_eligible(content, s1, debtor as int, t));
                            }
                        }
                    }
                },
            }
        }
        proof {
            assert((unmortgaged_upto(s1.tiles, n as int) - unmortgaged_upto(state@.tiles, n as int)) * 500_000_000 <= 4096 * 500_000_000) by (nonlinear_arith)
                requires
                    unmortgaged_upto(s1.tiles, n as int) - unmortgaged_upto(state@.tiles, n as int) <= 4096,
            ;
            if state@.players[debtor as int].cash < needed {
                assert forall|t: int| !sale_eligible(content, state@, debtor as int, t) by {
                    if sale_eligible(content, state@, debtor as int, t) {
                        lemma_group_upto_in(content, prop_of(content, t).group@, content.board@.len() as int);
                        lemma_max_houses_same(state@.tiles, s1.tiles, group_upto(content, prop_of(content, t).group@, content.board@.len() as int), content.board@.len() as int);
                        assert(sale_eligible(content, s1, debtor as int, t));
                    }
                }
            }
            let um = unmortgaged_upto(state@.tiles, n as int) as nat;
            if !(state@.players[debtor as int].cash >= needed) {
                assert(stop);
                if mortgage_pick(content, state@, debtor as int) is Some {
                    assert(first_mortgage(content, state@, debtor as int, choose|t: int| #[trigger] first_mortgage(content, state@, debtor as int, t)));
                }
            }
            assert(mortgaged_events(content, state@, debtor as int, needed as int, um) =~= Seq::empty());
            assert(events@ =~= e0 + liquidation_events(content, s0, debtor as int, needed as int));
        }
    }
}

pub proof fn lemma_group_upto_in(c: &GameContent, g: Seq<char>, n: int)
    requires
        n <= c.board@.len(),
    ensures
        forall|k: int| 0 <= k < group_upto(c, g, n).len() ==> in_group(c, #[trigger] group_upto(c, g, n)[k] as int, g)
            && group_upto(c, g, n)[k] < n,
    decreases n,
{
    if n > 0 {
        lemma_group_upto_in(c, g, n - 1);
        let prev = group_upto(c, g, n - 1);
        assert(c.board.len() == c.board@.len());
        if in_group(c, n - 1, g) {
            assert forall|k: int| 0 <= k < group_upto(c, g, n).len() implies in_group(
                c,
                #[trigger] group_upto(c, g, n)[k] as int,
                g,
            ) && group_upto(c, g, n)[k] < n by {
                if k < prev.len() {
                    assert(group_upto(c, g, n)[k] == prev[k]);
                }
            }
        }
    }
}

pub open spec fn within_i(x: int) -> bool {
    -0x1000_0000_0000_0000 <= x <= 0x1000_0000_0000_0000
}

/// Levels read through a list are the same in two tile sequences that
/// agree on every level.
pub proof fn lemma_max_houses_same(a: Seq<TileState>, b: Seq<TileState>, list: Seq<usize>, n: int)
    requires
        a.len() == n,
        b.len() == n,
        forall|t: int| 0 <= t < n ==> (#[trigger] a[t]).houses == b[t].houses,
        forall|k: int| 0 <= k < list.len() ==> (#[trigger] list[k]) < n,
    ensures
        max_houses(a, list) == max_houses(b, list),
    decreases list.len(),
{
    if list.len() > 0 {
        lemma_max_houses_same(a, b, list.drop_last(), n);
    }
}

impl BankruptcyResolver for StandardLiquidation {
    open spec fn spec_liquidate(&self, content: &GameContent, s: GameModel, debtor: int, needed: int) -> GameModel {
        liquidated(content, s, debtor, needed)
    }

    open spec fn spec_liquidation_events(&self, content: &GameContent, s: GameModel, debtor: int, needed: int) -> Seq<Event> {
        liquidation_events(content, s, debtor, needed)
    }

    /// Sells buildings (evenly, top level first) and only then mortgages
    /// tiles, until the debtor's cash reaches `needed` or nothing is left
    /// to sell or mortgage; a debtor who already has the cash is left as is.
    fn liquidate(
        &self,
        content: &GameContent,
        state: &mut GameState,
        debtor: usize,
        needed: i64,
        events: &mut Vec<Event>,
    )
        ensures
            final(state)@.players[debtor as int].cash >= needed || forall|t: int|
                !sale_eligible(content, final(state)@, debtor as int, t) && !mortgage_eligible(
                    content,
                    final(state)@,
                    debtor as int,
                    t,
                ),
            old(state)@.players[debtor as int].cash >= needed ==> final(state)@ == old(state)@,
            forall|t: int| 0 <= t < old(state)@.tiles.len() && (#[trigger] final(state)@.tiles[t]).mortgaged
                && !old(state)@.tiles[t].mortgaged ==> forall|u: int| !sale_eligible(content, final(state)@, debtor as int, u),
            sold_as(content, old(state)@, final(state)@, debtor as int, needed as int),
    {
        self.liquidate_all(content, state, debtor, needed, events);
    }
}

} // verus!
