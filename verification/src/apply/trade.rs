//! Asynchronous trade offers: their lifecycle, their validation (run at
//! proposal and again at acceptance), and the guard that freezes cash
//! while an auction or a vote is open.
use vstd::prelude::*;

use super::{Exec, calm, cards_low, lemma_cash_ready, lemma_tile_ready, ready};
use crate::apply::estate::group_built;
use crate::content::{GameContent, is_property, prop_of, tile_index_spec};
use crate::error::{CommandError, RejectionModel};
use crate::event::Event;
use crate::state::{
    GameModel, PlayerModel, TileState, TradeModel, TradeOffer, TurnModel, TurnPhase,
    budget_limit, cash_bound, count_limit, lemma_bounded_mono, player_bounded, trade_bounded,
    trade_ok, with_cash, with_tile, within,
};
use crate::strategy::{BankruptcyResolver, RentCalculator};
use crate::tuning::MAX_OPEN_TRADES_PER_PLAYER;

verus! {

/// Trades and cash are frozen while a sealed-bid window or a bribe vote is
/// open.
pub open spec fn frozen(s: GameModel) -> bool {
    s.turn is BlindAuction || s.turn is BribeVote
}

/// Index of the first seat whose id is `id`.
pub open spec fn seat_of(s: GameModel, id: Seq<char>) -> Option<int> {
    if exists|i: int| 0 <= i < s.players.len() && s.players[i].id == id {
        Some(choose|i: int| 0 <= i < s.players.len() && s.players[i].id == id && forall|j: int| 0 <= j < i ==> s.players[j].id != id)
    } else {
        None
    }
}

/// Open offers among the first `n` proposed by `p`.
pub open spec fn offers_from(ts: Seq<TradeModel>, p: int, n: int) -> nat
    decreases n,
{
    if n <= 0 {
        0
    } else {
        offers_from(ts, p, n - 1) + if ts[n - 1].from == p { 1nat } else { 0nat }
    }
}

/// The first `n` tile ids resolved to board indices, or the first
/// problem: an unknown id, or a tile named twice.
pub open spec fn resolve_ids(c: &GameContent, ids: Seq<Seq<char>>, n: int) -> Result<Seq<usize>, RejectionModel>
    decreases n,
{
    if n <= 0 {
        Ok(Seq::empty())
    } else {
        match resolve_ids(c, ids, n - 1) {
            Err(e) => Err(e),
            Ok(v) => match tile_index_spec(c, ids[n - 1]) {
                None => Err(RejectionModel::UnknownTile(ids[n - 1])),
                Some(t) => if v.contains(t) {
                    Err(RejectionModel::Plain(CommandError::TradeInvalid))
                } else {
                    Ok(v.push(t))
                },
            },
        }
    }
}

/// The first problem with `owner` handing over `tiles[i..]`: a tile that
/// is not a property, is not theirs, or lies in a group with buildings.
pub open spec fn tiles_problem(c: &GameContent, s: GameModel, owner: int, tiles: Seq<usize>, i: int) -> Option<RejectionModel>
    decreases tiles.len() - i,
{
    if i < 0 || i >= tiles.len() {
        None
    } else {
        let t = tiles[i] as int;
        if !is_property(c, t) {
            Some(RejectionModel::Plain(CommandError::NotAProperty))
        } else if s.tiles[t].owner != Some(owner as usize) {
            Some(RejectionModel::Plain(CommandError::NotOwner))
        } else if group_built(c, s, prop_of(c, t).group@) {
            Some(RejectionModel::Plain(CommandError::HousesInGroup))
        } else {
            tiles_problem(c, s, owner, tiles, i + 1)
        }
    }
}

/// The full asset check of an offer, run at proposal and at acceptance.
pub open spec fn assets_problem(c: &GameContent, s: GameModel, t: TradeModel) -> Option<RejectionModel> {
    if tiles_problem(c, s, t.from as int, t.give_tiles, 0) is Some {
        tiles_problem(c, s, t.from as int, t.give_tiles, 0)
    } else if tiles_problem(c, s, t.to as int, t.receive_tiles, 0) is Some {
        tiles_problem(c, s, t.to as int, t.receive_tiles, 0)
    } else if s.players[t.from as int].cash < t.give_cash || s.players[t.to as int].cash < t.receive_cash {
        Some(RejectionModel::Plain(CommandError::InsufficientFunds))
    } else {
        None
    }
}

/// Index of the first open offer with id `id`.
pub open spec fn offer_index(s: GameModel, id: u32) -> Option<int> {
    if exists|i: int| 0 <= i < s.pending_trades.len() && s.pending_trades[i].id == id {
        Some(choose|i: int| 0 <= i < s.pending_trades.len() && s.pending_trades[i].id == id && forall|j: int| 0 <= j < i ==> s.pending_trades[j].id != id)
    } else {
        None
    }
}

/// `tiles[i..]` all change hands to `owner`, losing their boosts.
pub open spec fn hand_over(ts: Seq<TileState>, tiles: Seq<usize>, owner: usize, i: int) -> Seq<TileState>
    decreases tiles.len() - i,
{
    if i < 0 || i >= tiles.len() {
        ts
    } else {
        let t = tiles[i] as int;
        hand_over(ts.update(t, TileState { owner: Some(owner), boosts: 0, ..ts[t] }), tiles, owner, i + 1)
    }
}

impl<'e, R: RentCalculator, B: BankruptcyResolver> Exec<'e, R, B> {
    pub fn reject_during_auction(&self) -> (r: Result<(), CommandError>)
        ensures
            r is Err <==> frozen(self.st@),
            r matches Err(e) ==> e == CommandError::WrongPhase,
    {
        match self.st.turn {
            TurnPhase::BlindAuction { .. } | TurnPhase::BribeVote { .. } => Err(CommandError::WrongPhase),
            _ => Ok(()),
        }
    }

    /// The index of the open offer `id`.
    pub fn trade_index(&self, id: u32) -> (r: Result<usize, CommandError>)
        ensures
            r is Err <==> offer_index(self.st@, id) is None,
            r matches Err(e) ==> e == CommandError::TradeNotFound,
            r matches Ok(i) ==> offer_index(self.st@, id) == Some(i as int) && i < self.st@.pending_trades.len()
                && i < self.st.pending_trades@.len() && self.st@.pending_trades[i as int].id == id,
    {
        let n = self.st.pending_trades.len();
        let mut i: usize = 0;
        while i < n
            invariant
                n == self.st@.pending_trades.len(),
                i <= n,
                forall|j: int| 0 <= j < i ==> self.st@.pending_trades[j].id != id,
            decreases n - i,
        {
            assert(self.st@.pending_trades[i as int] == self.st.pending_trades@[i as int]@);
            if self.st.pending_trades[i].id == id {
                proof {
                    let c = choose|c: int| 0 <= c < self.st@.pending_trades.len() && self.st@.pending_trades[c].id == id && forall|j: int| 0 <= j < c ==> self.st@.pending_trades[j].id != id;
                    if c < i {
                    } else if c > i {
                    }
                }
                return Ok(i);
            }
            i = i + 1;
        }
        Err(CommandError::TradeNotFound)
    }

    /// Resolves the tile ids of an offer, refusing unknown and repeated
    /// tiles.
    pub fn resolve_trade_tiles(&self, ids: &Vec<String>) -> (r: Result<Vec<usize>, CommandError>)
        ensures
            ({
                let spec_ids = ids@.map_values(|x: String| x@);
                match resolve_ids(self.content, spec_ids, spec_ids.len() as int) {
                    Ok(v) => r matches Ok(w) && w@ == v,
                    Err(e) => r matches Err(f) && f@ == e,
                }
            }),
            r matches Ok(w) ==> forall|k: int| 0 <= k < w@.len() ==> (#[trigger] w@[k]) < self.content.board@.len(),
    {
        let ghost spec_ids = ids@.map_values(|x: String| x@);
        let mut tiles: Vec<usize> = Vec::new();
        let n = ids.len();
        let mut i: usize = 0;
        while i < n
            invariant
                n == ids@.len(),
                spec_ids == ids@.map_values(|x: String| x@),
                i <= n,
                resolve_ids(self.content, spec_ids, i as int) == Ok::<Seq<usize>, RejectionModel>(tiles@),
                forall|k: int| 0 <= k < tiles@.len() ==> (#[trigger] tiles@[k]) < self.content.board@.len(),
            decreases n - i,
        {
            let id = &ids[i];
            assert(spec_ids[i as int] == id@);
            let tile = match self.content.tile_index(id.as_str()) {
                Some(t) => t,
                None => {
                    proof {
                        lemma_resolve_stops(self.content, spec_ids, i as int + 1, n as int);
                    }
                    return Err(CommandError::UnknownTile { tile: id.clone() });
                },
            };
            let mut seen = false;
            let mut k: usize = 0;
            while k < tiles.len()
                invariant
                    k <= tiles@.len(),
                    seen == exists|j: int| 0 <= j < k && tiles@[j] == tile,
                decreases tiles@.len() - k,
            {
                if tiles[k] == tile {
                    seen = true;
                }
                k = k + 1;
            }
            if seen {
                proof {
                    assert(tiles@.contains(tile));
                    lemma_resolve_stops(self.content, spec_ids, i as int + 1, n as int);
                }
                return Err(CommandError::TradeInvalid);
            }
            tiles.push(tile);
            i = i + 1;
        }
        Ok(tiles)
    }
}

/// Once resolution fails it stays failed with the same problem.
proof fn lemma_resolve_stops(c: &GameContent, ids: Seq<Seq<char>>, i: int, n: int)
    requires
        1 <= i <= n,
        resolve_ids(c, ids, i) is Err,
    ensures
        resolve_ids(c, ids, n) == resolve_ids(c, ids, i),
    decreases n - i,
{
    if i < n {
        lemma_resolve_stops(c, ids, i, n - 1);
    }
}

impl<'e, R: RentCalculator, B: BankruptcyResolver> Exec<'e, R, B> {
    /// The first problem with `owner` handing over `tiles`.
    fn check_tiles(&self, owner: usize, tiles: &Vec<usize>) -> (r: Result<(), CommandError>)
        requires
            self.ok(0),
            forall|k: int| 0 <= k < tiles@.len() ==> (#[trigger] tiles@[k]) < self.content.board@.len(),
        ensures
            r is Err <==> tiles_problem(self.content, self.st@, owner as int, tiles@, 0) is Some,
            r matches Err(e) ==> tiles_problem(self.content, self.st@, owner as int, tiles@, 0) == Some(e@),
    {
        let n = tiles.len();
        let mut i: usize = 0;
        while i < n
            invariant
                n == tiles@.len(),
                self.ok(0),
                forall|k: int| 0 <= k < tiles@.len() ==> (#[trigger] tiles@[k]) < self.content.board@.len(),
                i <= n,
                tiles_problem(self.content, self.st@, owner as int, tiles@, 0) == tiles_problem(self.content, self.st@, owner as int, tiles@, i as int),
            decreases n - i,
        {
            let tile = tiles[i];
            let prop = match self.content.property(tile) {
                Some(x) => x,
                None => {
                    return Err(CommandError::NotAProperty);
                },
            };
            if self.st.tiles[tile].owner != Some(owner) {
                return Err(CommandError::NotOwner);
            }
            if self.group_has_houses(prop.group.as_str()) {
                return Err(CommandError::HousesInGroup);
            }
            i = i + 1;
        }
        Ok(())
    }

    /// Full asset check, run both at proposal and at acceptance time.
    pub fn validate_trade_assets(&self, offer: &TradeOffer) -> (r: Result<(), CommandError>)
        requires
            self.ok(0),
            trade_ok(self.content, self.st@.players.len(), offer@),
        ensures
            r is Err <==> assets_problem(self.content, self.st@, offer@) is Some,
            r matches Err(e) ==> assets_problem(self.content, self.st@, offer@) == Some(e@),
    {
        match self.check_tiles(offer.from, &offer.give_tiles) {
            Err(e) => {
                return Err(e);
            },
            Ok(()) => {},
        }
        match self.check_tiles(offer.to, &offer.receive_tiles) {
            Err(e) => {
                return Err(e);
            },
            Ok(()) => {},
        }
        if self.st.players[offer.from].cash < offer.give_cash || self.st.players[offer.to].cash
            < offer.receive_cash {
            return Err(CommandError::InsufficientFunds);
        }
        Ok(())
    }
}

/// Why `p`'s offer to the seat `to_id` is refused, if it is.
pub open spec fn propose_error(
    c: &GameContent,
    s: GameModel,
    p: int,
    to_id: Seq<char>,
    give_cash: i64,
    give_ids: Seq<Seq<char>>,
    receive_cash: i64,
    receive_ids: Seq<Seq<char>>,
) -> Option<RejectionModel> {
    if frozen(s) {
        Some(RejectionModel::Plain(CommandError::WrongPhase))
    } else {
        match seat_of(s, to_id) {
            None => Some(RejectionModel::Plain(CommandError::UnknownPlayer)),
            Some(to) => if to == p || s.players[to].bankrupt {
                Some(RejectionModel::Plain(CommandError::TradeInvalid))
            } else if offers_from(s.pending_trades, p, s.pending_trades.len() as int) >= MAX_OPEN_TRADES_PER_PLAYER {
                Some(RejectionModel::Plain(CommandError::TradeLimit))
            } else if give_cash < 0 || receive_cash < 0 {
                Some(RejectionModel::Plain(CommandError::TradeInvalid))
            } else if give_cash == 0 && receive_cash == 0 && give_ids.len() == 0 && receive_ids.len() == 0 {
                Some(RejectionModel::Plain(CommandError::TradeInvalid))
            } else {
                match resolve_ids(c, give_ids, give_ids.len() as int) {
                    Err(e) => Some(e),
                    Ok(g) => match resolve_ids(c, receive_ids, receive_ids.len() as int) {
                        Err(e) => Some(e),
                        Ok(r) => assets_problem(c, s, proposed(s, p, to, give_cash, g, receive_cash, r)),
                    },
                }
            },
        }
    }
}

/// The offer `p` would open.
pub open spec fn proposed(s: GameModel, p: int, to: int, give_cash: i64, g: Seq<usize>, receive_cash: i64, r: Seq<usize>) -> TradeModel {
    TradeModel {
        id: s.trade_seq,
        from: p as usize,
        to: to as usize,
        give_cash,
        give_tiles: g,
        receive_cash,
        receive_tiles: r,
    }
}

impl<'e, R: RentCalculator, B: BankruptcyResolver> Exec<'e, R, B> {
    /// The seat whose id is `id`, the first such.
    pub fn seat_index(&self, id: &str) -> (r: Option<usize>)
        ensures
            match seat_of(self.st@, id@) {
                Some(i) => r == Some(i as usize),
                None => r is None,
            },
            r matches Some(i) ==> i < self.st@.players.len(),
    {
        let ghost s0 = self.st@;
        let n = self.st.players.len();
        let mut to: usize = 0;
        let mut found = false;
        while to < n && !found
            invariant
                n == s0.players.len(),
                self.st@ == s0,
                to <= n,
                found ==> to < n && s0.players[to as int].id == id@,
                forall|j: int| 0 <= j < to ==> s0.players[j].id != id@,
            decreases n - to, if found { 0int } else { 1int },
        {
            assert(s0.players[to as int] == self.st.players@[to as int]@);
            if crate::content::str_eq(self.st.players[to].id.as_str(), id) {
                found = true;
            } else {
                to = to + 1;
            }
        }
        if found {
            proof {
                let c = choose|c: int| 0 <= c < s0.players.len() && s0.players[c].id == id@ && forall|j: int| 0 <= j < c ==> s0.players[j].id != id@;
                if c < to {
                } else if c > to {
                }
            }
            return Some(to);
        }
        None
    }

    /// Open offers proposed by `p`.
    fn open_offers(&self, p: usize) -> (r: usize)
        ensures
            r == offers_from(self.st@.pending_trades, p as int, self.st@.pending_trades.len() as int),
    {
        let m = self.st.pending_trades.len();
        let mut open: usize = 0;
        let mut i: usize = 0;
        while i < m
            invariant
                m == self.st@.pending_trades.len(),
                i <= m,
                open == offers_from(self.st@.pending_trades, p as int, i as int),
                open <= i,
            decreases m - i,
        {
            assert(self.st@.pending_trades[i as int] == self.st.pending_trades@[i as int]@);
            if self.st.pending_trades[i].from == p {
                open = open + 1;
            }
            i = i + 1;
        }
        open
    }

    /// The checks `propose_trade` runs, in order; the offer on success.
    #[verifier::spinoff_prover]
    fn propose_check(
        &self,
        p: usize,
        to_id: &str,
        give_cash: i64,
        give_tiles: &Vec<String>,
        receive_cash: i64,
        receive_tiles: &Vec<String>,
    ) -> (r: Result<TradeOffer, CommandError>)
        requires
            self.ok(0),
            p < self.st@.players.len(),
        ensures
            ({
                let gi = give_tiles@.map_values(|x: String| x@);
                let ri = receive_tiles@.map_values(|x: String| x@);
                let err = propose_error(self.content, self.st@, p as int, to_id@, give_cash, gi, receive_cash, ri);
                &&& (r is Err <==> err is Some)
                &&& (r matches Err(e) ==> err == Some(e@))
                &&& (r matches Ok(o) ==> o@ == proposed(self.st@, p as int,
                        seat_of(self.st@, to_id@)->0, give_cash,
                        resolve_ids(self.content, gi, gi.len() as int)->Ok_0, receive_cash,
                        resolve_ids(self.content, ri, ri.len() as int)->Ok_0)
                    && trade_ok(self.content, self.st@.players.len(), o@)
                    && o.to != p && o@.give_cash <= self.st@.players[p as int].cash
                    && o@.receive_cash <= self.st@.players[o.to as int].cash)
            }),
    {
        match self.reject_during_auction() {
            Err(e) => {
                return Err(e);
            },
            Ok(()) => {},
        }
        let to = match self.seat_index(to_id) {
            Some(t) => t,
            None => {
                return Err(CommandError::UnknownPlayer);
            },
        };
        if to == p || self.st.players[to].bankrupt {
            return Err(CommandError::TradeInvalid);
        }
        if self.open_offers(p) >= MAX_OPEN_TRADES_PER_PLAYER {
            return Err(CommandError::TradeLimit);
        }
        if give_cash < 0 || receive_cash < 0 {
            return Err(CommandError::TradeInvalid);
        }
        if give_cash == 0 && receive_cash == 0 && give_tiles.len() == 0 && receive_tiles.len() == 0 {
            return Err(CommandError::TradeInvalid);
        }
        let g = match self.resolve_trade_tiles(give_tiles) {
            Ok(v) => v,
            Err(e) => {
                return Err(e);
            },
        };
        let rt = match self.resolve_trade_tiles(receive_tiles) {
            Ok(v) => v,
            Err(e) => {
                return Err(e);
            },
        };
        let offer = TradeOffer {
            id: self.st.trade_seq,
            from: p,
            to,
            give_cash,
            give_tiles: g,
            receive_cash,
            receive_tiles: rt,
        };
        match self.validate_trade_assets(&offer) {
            Err(e) => {
                return Err(e);
            },
            Ok(()) => {},
        }
        Ok(offer)
    }

    /// Opens an offer from `p` to the seat `to_id`: `p` gives `give_*` and
    /// receives `receive_*`.
    pub fn propose_trade(
        &mut self,
        p: usize,
        to_id: &str,
        give_cash: i64,
        give_tiles: &Vec<String>,
        receive_cash: i64,
        receive_tiles: &Vec<String>,
    ) -> (r: Result<(), CommandError>)
        requires
            !old(self).st@.players[p as int].bankrupt,
            old(self).ok(0),
            p < old(self).st@.players.len(),
        ensures
            ({
                let gi = give_tiles@.map_values(|x: String| x@);
                let ri = receive_tiles@.map_values(|x: String| x@);
                let err = propose_error(old(self).content, old(self).st@, p as int, to_id@, give_cash, gi, receive_cash, ri);
                &&& (r is Err <==> err is Some)
                &&& (r matches Err(e) ==> err == Some(e@))
                &&& (r is Ok ==> final(self).ok(1) && final(self).kept(old(self)) && final(self).st@ == (GameModel {
                    trade_seq: (old(self).st@.trade_seq + 1) as u32,
                    pending_trades: old(self).st@.pending_trades.push(proposed(old(self).st@, p as int,
                        seat_of(old(self).st@, to_id@)->0, give_cash,
                        resolve_ids(old(self).content, gi, gi.len() as int)->Ok_0, receive_cash,
                        resolve_ids(old(self).content, ri, ri.len() as int)->Ok_0)),
                    ..old(self).st@
                }))
            }),
            r is Ok ==> final(self).ev@ == old(self).ev@.push(Event::TradeProposed {
                trade: old(self).st@.trade_seq,
                from: p,
                to: seat_of(old(self).st@, to_id@)->0 as usize,
            }),
    {
        let offer = match self.propose_check(p, to_id, give_cash, give_tiles, receive_cash, receive_tiles) {
            Ok(o) => o,
            Err(e) => {
                return Err(e);
            },
        };
        let ghost s0 = self.st@;
        let id = offer.id;
        let to = offer.to;
        proof {
            assert(player_bounded(s0.players[p as int], 0));
            assert(player_bounded(s0.players[to as int], 0));
        }
        self.st.trade_seq = self.st.trade_seq + 1;
        self.ev.push(Event::TradeProposed { trade: id, from: p, to });
        let ghost oview = offer@;
        self.st.pending_trades.push(offer);
        proof {
            assert(self.st@.pending_trades =~= s0.pending_trades.push(oview));
            lemma_bounded_mono(s0, 0, 1);
            assert forall|k: int| 0 <= k < self.st@.pending_trades.len() implies trade_ok(self.content, self.st@.players.len(), #[trigger] self.st@.pending_trades[k])
                && trade_bounded(self.st@.pending_trades[k], 1) by {
                if k < s0.pending_trades.len() {
                    assert(self.st@.pending_trades[k] == s0.pending_trades[k]);
                    assert(trade_bounded(s0.pending_trades[k], 0));
                }
            }
        }
        Ok(())
    }
}

/// Why `p` accepting the offer `id` is refused, if it is.
pub open spec fn accept_error(c: &GameContent, s: GameModel, p: int, id: u32) -> Option<RejectionModel> {
    if frozen(s) {
        Some(RejectionModel::Plain(CommandError::WrongPhase))
    } else {
        match offer_index(s, id) {
            None => Some(RejectionModel::Plain(CommandError::TradeNotFound)),
            Some(i) => if s.pending_trades[i].to != p {
                Some(RejectionModel::Plain(CommandError::NotTradeParty))
            } else {
                assets_problem(c, s, s.pending_trades[i])
            },
        }
    }
}

/// The state after the open offer at index `i` is carried out: it leaves
/// the list, cash moves both ways, and each tile changes hands losing its
/// boosts; mortgages travel with the tiles.
pub open spec fn accepted(s: GameModel, i: int) -> GameModel {
    let o = s.pending_trades[i];
    let s1 = with_cash(s, o.from as int, s.players[o.from as int].cash + o.receive_cash - o.give_cash);
    let s2 = with_cash(s1, o.to as int, s1.players[o.to as int].cash + o.give_cash - o.receive_cash);
    GameModel {
        tiles: hand_over(hand_over(s.tiles, o.give_tiles, o.to, 0), o.receive_tiles, o.from, 0),
        pending_trades: s.pending_trades.remove(i),
        ..s2
    }
}

proof fn lemma_cash_moved(players: Seq<PlayerModel>, a: int, b: int, d: int)
    requires
        0 <= a < players.len(),
        0 <= b < players.len(),
        within(players[a].cash as int, cash_bound(0)),
        within(players[b].cash as int, cash_bound(0)),
        within(d, 2 * cash_bound(0)),
    ensures
        ({
            let p1 = players.update(a, PlayerModel { cash: (players[a].cash + d) as i64, ..players[a] });
            let p2 = p1.update(b, PlayerModel { cash: (p1[b].cash - d) as i64, ..p1[b] });
            crate::state::cash_upto(p2, players.len() as int) == crate::state::cash_upto(players, players.len() as int)
        }),
{
    let n = players.len() as int;
    let p1 = players.update(a, PlayerModel { cash: (players[a].cash + d) as i64, ..players[a] });
    let p2 = p1.update(b, PlayerModel { cash: (p1[b].cash - d) as i64, ..p1[b] });
    crate::state::lemma_cash_upto_update(players, a, p1[a], n);
    crate::state::lemma_cash_upto_update(p1, b, p2[b], n);
}

proof fn lemma_accepted_cash(s: GameModel, i: int)
    requires
        0 <= i < s.pending_trades.len(),
        s.pending_trades[i].from < s.players.len(),
        s.pending_trades[i].to < s.players.len(),
        trade_bounded(s.pending_trades[i], 0),
        player_bounded(s.players[s.pending_trades[i].from as int], 0),
        player_bounded(s.players[s.pending_trades[i].to as int], 0),
    ensures
        crate::state::total_cash(accepted(s, i)) == crate::state::total_cash(s),
{
    let o = s.pending_trades[i];
    lemma_cash_moved(s.players, o.from as int, o.to as int, o.receive_cash - o.give_cash);
    let s1 = with_cash(s, o.from as int, s.players[o.from as int].cash + o.receive_cash - o.give_cash);
    let s2 = with_cash(s1, o.to as int, s1.players[o.to as int].cash + o.give_cash - o.receive_cash);
    assert(accepted(s, i).players == s2.players);
}

/// Some offer among the first `n` carries `id`, then a first one does.
proof fn lemma_first_offer(s: GameModel, id: u32, n: int)
    requires
        n <= s.pending_trades.len(),
        exists|j: int| 0 <= j < n && s.pending_trades[j].id == id,
    ensures
        exists|i: int|
            0 <= i < n && s.pending_trades[i].id == id && forall|j: int| 0 <= j < i ==> s.pending_trades[j].id != id,
    decreases n,
{
    if exists|j: int| 0 <= j < n - 1 && s.pending_trades[j].id == id {
        lemma_first_offer(s, id, n - 1);
        let i = choose|i: int|
            0 <= i < n - 1 && s.pending_trades[i].id == id && forall|j: int| 0 <= j < i ==> s.pending_trades[j].id != id;
        assert(0 <= i < n && s.pending_trades[i].id == id && forall|j: int| 0 <= j < i ==> s.pending_trades[j].id != id);
    } else {
        assert(s.pending_trades[n - 1].id == id);
        assert(forall|j: int| 0 <= j < n - 1 ==> s.pending_trades[j].id != id);
    }
}

/// The offer found for `id` carries that id.
proof fn lemma_offer_id(s: GameModel, id: u32)
    requires
        offer_index(s, id) is Some,
    ensures
        s.pending_trades[offer_index(s, id)->0].id == id,
{
    lemma_first_offer(s, id, s.pending_trades.len() as int);
}

proof fn lemma_offer_facts(c: &GameContent, s: GameModel, id: u32)
    requires
        crate::apply::ready(c, s, 0),
        offer_index(s, id) is Some,
    ensures
        ({
            let i = offer_index(s, id)->0;
            &&& 0 <= i < s.pending_trades.len()
            &&& s.pending_trades[i].from < s.players.len()
            &&& s.pending_trades[i].to < s.players.len()
            &&& trade_bounded(s.pending_trades[i], 0)
            &&& player_bounded(s.players[s.pending_trades[i].from as int], 0)
            &&& player_bounded(s.players[s.pending_trades[i].to as int], 0)
        }),
{
    assert(exists|j: int| 0 <= j < s.pending_trades.len() && s.pending_trades[j].id == id);
    lemma_first_offer(s, id, s.pending_trades.len() as int);
    let i = offer_index(s, id)->0;
    let o = s.pending_trades[i];
    assert(trade_bounded(o, 0));
    assert(trade_ok(c, s.players.len(), o));
    assert(player_bounded(s.players[o.from as int], 0));
    assert(player_bounded(s.players[o.to as int], 0));
}

/// Law: carrying out a trade moves cash between its two parties and
/// neither creates nor destroys any.
#[verifier::spinoff_prover]
#[verifier::rlimit(40)]
pub proof fn law_trade_keeps_cash(c: &GameContent, s: GameModel, p: int, id: u32)
    requires
        crate::apply::ready(c, s, 0),
        0 <= p < s.players.len(),
        accept_error(c, s, p, id) is None,
    ensures
        crate::state::total_cash(accepted(s, offer_index(s, id)->0)) == crate::state::total_cash(s),
{
    lemma_offer_facts(c, s, id);
    lemma_accepted_cash(s, offer_index(s, id)->0);
}

/// Why `p` declining (`to_side`) or withdrawing the offer `id` is refused.
pub open spec fn withdraw_error(s: GameModel, p: int, id: u32, to_side: bool) -> Option<CommandError> {
    match offer_index(s, id) {
        None => Some(CommandError::TradeNotFound),
        Some(i) => if (to_side && s.pending_trades[i].to != p) || (!to_side && s.pending_trades[i].from != p) {
            Some(CommandError::NotTradeParty)
        } else {
            None
        },
    }
}

/// Handing tiles over keeps the levels and keeps every owner a seat.
proof fn lemma_hand_over(ts: Seq<TileState>, tiles: Seq<usize>, owner: usize, i: int, n: nat)
    requires
        forall|k: int| 0 <= k < tiles.len() ==> (#[trigger] tiles[k]) < ts.len(),
        owner < n,
        0 <= i,
    ensures
        hand_over(ts, tiles, owner, i).len() == ts.len(),
        forall|t: int| 0 <= t < ts.len() ==> (#[trigger] hand_over(ts, tiles, owner, i)[t]).houses == ts[t].houses
            && hand_over(ts, tiles, owner, i)[t].mortgaged == ts[t].mortgaged
            && hand_over(ts, tiles, owner, i)[t].boosts <= ts[t].boosts
            && (match hand_over(ts, tiles, owner, i)[t].owner {
                Some(o) => o < n || hand_over(ts, tiles, owner, i)[t].owner == ts[t].owner,
                None => ts[t].owner is None,
            }),
    decreases tiles.len() - i,
{
    if i < tiles.len() {
        let t = tiles[i] as int;
        let ts2 = ts.update(t, TileState { owner: Some(owner), boosts: 0, ..ts[t] });
        lemma_hand_over(ts2, tiles, owner, i + 1, n);
    }
}

/// One transfer announcement per tile of `tiles`, in order, from `from`
/// to `to`.
pub open spec fn transfers(tiles: Seq<usize>, from: usize, to: usize) -> Seq<Event> {
    tiles.map_values(|t: usize| Event::PropertyTransferred { tile: t, from, to: Some(to) })
}

/// The events of an accepted trade: the acceptance, then the transfers of
/// the tiles given, then of the tiles received.
pub open spec fn trade_events(o: TradeModel) -> Seq<Event> {
    seq![Event::TradeAccepted { trade: o.id, from: o.from, to: o.to }] + transfers(o.give_tiles, o.from, o.to)
        + transfers(o.receive_tiles, o.to, o.from)
}

impl<'e, R: RentCalculator, B: BankruptcyResolver> Exec<'e, R, B> {
    /// Hands `tiles` to `owner`, clearing their boosts.
    fn hand_over_tiles(&mut self, tiles: &Vec<usize>, from: usize, owner: usize)
        requires
            !old(self).st@.players[owner as int].bankrupt,
            old(self).ok(4000),
            owner < old(self).st@.players.len(),
            forall|k: int| 0 <= k < tiles@.len() ==> (#[trigger] tiles@[k]) < old(self).st@.tiles.len(),
        ensures
            final(self).ok(4000),
            final(self).kept(old(self)),
            final(self).st@ == (GameModel { tiles: hand_over(old(self).st@.tiles, tiles@, owner, 0), ..old(self).st@ }),
            final(self).ev@ == old(self).ev@ + transfers(tiles@, from, owner),
    {
        let ghost s0 = self.st@;
        let n = tiles.len();
        let mut i: usize = 0;
        while i < n
            invariant
                n == tiles@.len(),
                i <= n,
                self.ok(4000),
                self.kept(old(self)),
                s0 == old(self).st@,
                owner < self.st@.players.len(),
                !s0.players[owner as int].bankrupt,
                forall|k: int| 0 <= k < tiles@.len() ==> (#[trigger] tiles@[k]) < self.st@.tiles.len(),
                self.st@ == (GameModel { tiles: self.st@.tiles, ..s0 }),
                hand_over(s0.tiles, tiles@, owner, 0) == hand_over(self.st@.tiles, tiles@, owner, i as int),
                self.ev@ == old(self).ev@ + transfers(tiles@.take(i as int), from, owner),
            decreases n - i,
        {
            let t = tiles[i];
            let ts = self.st.tiles[t];
            let nts = TileState { owner: Some(owner), boosts: 0, ..ts };
            proof {
                lemma_tile_ready(self.content, self.st@, t as int, nts, 4000);
                crate::state::lemma_held_update(self.st@.tiles, crate::state::cap_of(self.content), t as int, nts, self.st@.tiles.len() as int);
            }
            self.st.set_tile(t, nts);
            self.ev.push(Event::PropertyTransferred { tile: t, from, to: Some(owner) });
            proof {
                assert(tiles@.take(i + 1) =~= tiles@.take(i as int).push(t));
                assert(transfers(tiles@.take(i + 1), from, owner) =~= transfers(tiles@.take(i as int), from, owner).push(
                    Event::PropertyTransferred { tile: t, from, to: Some(owner) },
                ));
            }
            i = i + 1;
        }
        proof {
            assert(tiles@.take(n as int) =~= tiles@);
        }
    }

    /// The checks `accept_trade` runs, in order; the offer's index and a
    /// copy of it on success.
    #[verifier::spinoff_prover]
    #[verifier::rlimit(50)]
    fn accept_check(&self, p: usize, id: u32) -> (r: Result<(usize, TradeOffer), CommandError>)
        requires
            self.ok(0),
            p < self.st@.players.len(),
        ensures
            r is Err <==> accept_error(self.content, self.st@, p as int, id) is Some,
            r matches Err(e) ==> accept_error(self.content, self.st@, p as int, id) == Some(e@),
            r matches Ok((i, o)) ==> offer_index(self.st@, id) == Some(i as int)
                && i < self.st@.pending_trades.len() && o@ == self.st@.pending_trades[i as int]
                && self.st@.players[o.from as int].cash >= o.give_cash
                && self.st@.players[o.to as int].cash >= o.receive_cash,
    {
        match self.reject_during_auction() {
            Err(e) => {
                return Err(e);
            },
            Ok(()) => {},
        }
        let idx = match self.trade_index(id) {
            Ok(i) => i,
            Err(e) => {
                return Err(e);
            },
        };
        let offer = self.st.pending_trades[idx].copy_of();
        proof {
            assert(self.st@.pending_trades[idx as int] == offer@);
            assert(trade_ok(self.content, self.st@.players.len(), self.st@.pending_trades[idx as int]));
        }
        if offer.to != p {
            return Err(CommandError::NotTradeParty);
        }
        match self.validate_trade_assets(&offer) {
            Err(e) => {
                return Err(e);
            },
            Ok(()) => {},
        }
        Ok((idx, offer))
    }

    /// Drops the open offer at `idx`.
    fn drop_offer(&mut self, idx: usize, Ghost(k): Ghost<int>)
        requires
            old(self).ok(k),
            idx < old(self).st@.pending_trades.len(),
        ensures
            final(self).ok(k),
            final(self).kept(old(self)),
            final(self).st@ == (GameModel { pending_trades: old(self).st@.pending_trades.remove(idx as int), ..old(self).st@ }),
            final(self).ev@ == old(self).ev@,
    {
        let ghost s0 = self.st@;
        self.st.pending_trades.remove(idx);
        proof {
            assert(self.st@.pending_trades =~= s0.pending_trades.remove(idx as int));
            assert forall|j: int| 0 <= j < self.st@.pending_trades.len() implies trade_ok(self.content, self.st@.players.len(), #[trigger] self.st@.pending_trades[j])
                && trade_bounded(self.st@.pending_trades[j], k) by {
                if j < idx {
                    assert(self.st@.pending_trades[j] == s0.pending_trades[j]);
                } else {
                    assert(self.st@.pending_trades[j] == s0.pending_trades[j + 1]);
                }
            }
        }
    }

    /// The recipient accepts an open offer, re-validated at this moment: a
    /// stale offer is refused without any change.
    #[verifier::spinoff_prover]
    #[verifier::spinoff_prover]
    #[verifier::rlimit(60)]
    pub fn accept_trade(&mut self, p: usize, id: u32) -> (r: Result<(), CommandError>)
        requires
            old(self).ok(0),
            p < old(self).st@.players.len(),
        ensures
            r is Err <==> accept_error(old(self).content, old(self).st@, p as int, id) is Some,
            r matches Err(e) ==> accept_error(old(self).content, old(self).st@, p as int, id) == Some(e@),
            r is Ok ==> final(self).ok(4000) && final(self).kept(old(self))
                && final(self).st@ == accepted(old(self).st@, offer_index(old(self).st@, id)->0)
                && final(self).st@.players.len() == old(self).st@.players.len(),
            r is Ok ==> final(self).ev@ == old(self).ev@ + trade_events(
                old(self).st@.pending_trades[offer_index(old(self).st@, id)->0],
            ),
    {
        let (idx, offer) = match self.accept_check(p, id) {
            Ok(x) => x,
            Err(e) => {
                return Err(e);
            },
        };
        let ghost s0 = self.st@;
        proof {
            assert(trade_ok(self.content, s0.players.len(), s0.pending_trades[idx as int]));
            assert(trade_bounded(s0.pending_trades[idx as int], 0));
            assert(player_bounded(s0.players[offer.from as int], 0));
            assert(player_bounded(s0.players[offer.to as int], 0));
        }
        let ghost e0 = self.ev@;
        self.drop_offer(idx, Ghost(0));
        self.ev.push(Event::TradeAccepted { trade: id, from: offer.from, to: offer.to });
        let ghost e1 = self.ev@;
        proof {
            lemma_bounded_mono(self.st@, 0, 4000);
        }
        let cf = self.st.players[offer.from].cash;
        proof {
            lemma_cash_ready(self.content, self.st@, offer.from as int, cf + offer.receive_cash - offer.give_cash, 4000);
        }
        self.st.set_cash(offer.from, cf + offer.receive_cash - offer.give_cash);
        let ghost s1 = self.st@;
        let ct = self.st.players[offer.to].cash;
        proof {
            if offer.to != offer.from {
                assert(self.st@.players[offer.to as int] == s0.players[offer.to as int]);
            }
            lemma_cash_ready(self.content, self.st@, offer.to as int, ct + offer.give_cash - offer.receive_cash, 4000);
        }
        self.st.set_cash(offer.to, ct + offer.give_cash - offer.receive_cash);
        let ghost e2 = self.ev@;
        self.hand_over_tiles(&offer.give_tiles, offer.from, offer.to);
        let ghost e3 = self.ev@;
        self.hand_over_tiles(&offer.receive_tiles, offer.to, offer.from);
        proof {
            assert(offer@ == s0.pending_trades[idx as int]);
            assert(e1 == e0.push(Event::TradeAccepted { trade: id, from: offer.from, to: offer.to }));
            assert(e2 == e1);
            let a = transfers(offer.give_tiles@, offer.from, offer.to);
            let b = transfers(offer.receive_tiles@, offer.to, offer.from);
            assert(e3 == e1 + a);
            assert(self.ev@ == e1 + a + b);
            lemma_offer_id(s0, id);
            assert(offer.id == id);
            assert(e0 + trade_events(offer@) =~= e0.push(Event::TradeAccepted { trade: id, from: offer.from, to: offer.to }) + a + b);
        }
        proof {
            let out = accepted(s0, idx as int);
            assert(self.st@.players =~= out.players);
            assert(self.st@ == out);
            assert(offer@ == s0.pending_trades[idx as int]);
        }
        Ok(())
    }

    /// The recipient declines an open offer.
    pub fn decline_trade(&mut self, p: usize, id: u32) -> (r: Result<(), CommandError>)
        requires
            old(self).ok(0),
        ensures
            r is Err <==> withdraw_error(old(self).st@, p as int, id, true) is Some,
            r matches Err(e) ==> withdraw_error(old(self).st@, p as int, id, true) == Some(e),
            r is Ok ==> final(self).ok(0) && final(self).kept(old(self)) && final(self).st@ == (GameModel {
                pending_trades: old(self).st@.pending_trades.remove(offer_index(old(self).st@, id)->0),
                ..old(self).st@
            }),
            r is Ok ==> {
                let o = old(self).st@.pending_trades[offer_index(old(self).st@, id)->0];
                final(self).ev@ == old(self).ev@.push(Event::TradeDeclined { trade: id, from: o.from, to: o.to })
            },
    {
        let idx = match self.trade_index(id) {
            Ok(i) => i,
            Err(e) => {
                return Err(e);
            },
        };
        assert(self.st@.pending_trades[idx as int] == self.st.pending_trades@[idx as int]@);
        if self.st.pending_trades[idx].to != p {
            return Err(CommandError::NotTradeParty);
        }
        self.remove_offer(idx, true);
        Ok(())
    }

    /// The proposer withdraws their own offer.
    pub fn cancel_trade(&mut self, p: usize, id: u32) -> (r: Result<(), CommandError>)
        requires
            old(self).ok(0),
        ensures
            r is Err <==> withdraw_error(old(self).st@, p as int, id, false) is Some,
            r matches Err(e) ==> withdraw_error(old(self).st@, p as int, id, false) == Some(e),
            r is Ok ==> final(self).ok(0) && final(self).kept(old(self)) && final(self).st@ == (GameModel {
                pending_trades: old(self).st@.pending_trades.remove(offer_index(old(self).st@, id)->0),
                ..old(self).st@
            }),
            r is Ok ==> {
                let o = old(self).st@.pending_trades[offer_index(old(self).st@, id)->0];
                final(self).ev@ == old(self).ev@.push(Event::TradeCancelled { trade: id, from: o.from, to: o.to })
            },
    {
        let idx = match self.trade_index(id) {
            Ok(i) => i,
            Err(e) => {
                return Err(e);
            },
        };
        assert(self.st@.pending_trades[idx as int] == self.st.pending_trades@[idx as int]@);
        if self.st.pending_trades[idx].from != p {
            return Err(CommandError::NotTradeParty);
        }
        self.remove_offer(idx, false);
        Ok(())
    }

    /// Drops the open offer at `idx`, announcing a decline or a withdrawal.
    fn remove_offer(&mut self, idx: usize, declined: bool)
        requires
            old(self).ok(0),
            idx < old(self).st@.pending_trades.len(),
        ensures
            final(self).ok(0),
            final(self).kept(old(self)),
            final(self).st@ == (GameModel { pending_trades: old(self).st@.pending_trades.remove(idx as int), ..old(self).st@ }),
            ({
                let o = old(self).st@.pending_trades[idx as int];
                final(self).ev@ == old(self).ev@.push(if declined {
                    Event::TradeDeclined { trade: o.id, from: o.from, to: o.to }
                } else {
                    Event::TradeCancelled { trade: o.id, from: o.from, to: o.to }
                })
            }),
    {
        assert(self.st@.pending_trades[idx as int] == self.st.pending_trades@[idx as int]@);
        let from = self.st.pending_trades[idx].from;
        let to = self.st.pending_trades[idx].to;
        let id = self.st.pending_trades[idx].id;
        let ghost s0 = self.st@;
        self.st.pending_trades.remove(idx);
        proof {
            assert(self.st@.pending_trades =~= s0.pending_trades.remove(idx as int));
            assert forall|k: int| 0 <= k < self.st@.pending_trades.len() implies trade_ok(self.content, self.st@.players.len(), #[trigger] self.st@.pending_trades[k])
                && trade_bounded(self.st@.pending_trades[k], 0) by {
                if k < idx {
                    assert(self.st@.pending_trades[k] == s0.pending_trades[k]);
                } else {
                    assert(self.st@.pending_trades[k] == s0.pending_trades[k + 1]);
                }
            }
        }
        if declined {
            self.ev.push(Event::TradeDeclined { trade: id, from, to });
        } else {
            self.ev.push(Event::TradeCancelled { trade: id, from, to });
        }
    }
}

} // verus!
