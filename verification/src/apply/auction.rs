//! Sealed-bid auctions on every landing: bid collection and resolution
//! (the discoverer's floor, ties, the discoverer's rebate).
use vstd::prelude::*;

use super::{Exec, cards_low, lemma_cash_ready, lemma_player_ready, lemma_tile_ready, ready};
use crate::apply::landing::market_scaled;
use crate::content::{GameContent, MarketEffect, is_property, prop_of};
use crate::error::CommandError;
use crate::event::Event;
use crate::state::{
    GameModel, GamePhase, PlayerModel, TileState, TurnModel, TurnPhase, alive, budget_limit,
    cash_bound, lemma_bounded_mono, player_bounded, with_cash, with_tile, within,
};
use crate::strategy::{BankruptcyResolver, RentCalculator};
use crate::tuning::DISCOVERER_REFUND_PCT;

verus! {

/// Seat `i`'s submitted bid, `0` where unset.
pub open spec fn raw_bid(bids: Seq<Option<i64>>, i: int) -> int {
    match bids[i] {
        Some(b) => b as int,
        None => 0,
    }
}

/// Seat `i`'s effective bid: a silent or zero discoverer that can afford
/// the list price bids the list price.
pub open spec fn effective_bid(s: GameModel, bids: Seq<Option<i64>>, floor: int, i: int) -> int {
    if i == s.current && raw_bid(bids, i) == 0 && s.players[i].cash >= floor {
        floor
    } else {
        raw_bid(bids, i)
    }
}

/// Seat `i` outranks seat `j`: a higher effective bid; on a tie the
/// discoverer, then the lower seat.
pub open spec fn outranks(s: GameModel, bids: Seq<Option<i64>>, floor: int, i: int, j: int) -> bool {
    let ei = effective_bid(s, bids, floor, i);
    let ej = effective_bid(s, bids, floor, j);
    let d = s.current as int;
    ei > ej || (ei == ej && ((i == d && j != d) || ((i == d) == (j == d) && i < j)))
}

/// The winning seat among the living seats below `n` with a positive
/// effective bid.
pub open spec fn auction_winner(s: GameModel, bids: Seq<Option<i64>>, floor: int, n: int) -> Option<int>
    decreases n,
{
    if n <= 0 {
        None
    } else {
        let prev = auction_winner(s, bids, floor, n - 1);
        if alive(s, n - 1) && effective_bid(s, bids, floor, n - 1) > 0 {
            match prev {
                Some(b) => if outranks(s, bids, floor, n - 1, b) {
                    Some(n - 1)
                } else {
                    prev
                },
                None => Some(n - 1),
            }
        } else {
            prev
        }
    }
}

/// The winner among the seats below `k` bids no less than any of them, and
/// where the discoverer matches the winning bid the discoverer is the
/// winner; no winner means nobody there bid anything.
proof fn lemma_winner_is_best(s: GameModel, bids: Seq<Option<i64>>, floor: int, k: int)
    requires
        0 <= k,
    ensures
        auction_winner(s, bids, floor, k) matches Some(w) ==> {
            &&& 0 <= w < k
            &&& alive(s, w)
            &&& effective_bid(s, bids, floor, w) > 0
            &&& forall|j: int| 0 <= j < k && alive(s, j) ==> #[trigger] effective_bid(s, bids, floor, j) <= effective_bid(s, bids, floor, w)
            &&& 0 <= s.current < k && alive(s, s.current as int)
                && effective_bid(s, bids, floor, s.current as int) == effective_bid(s, bids, floor, w) ==> w == s.current
        },
        auction_winner(s, bids, floor, k) is None ==> forall|j: int| 0 <= j < k && alive(s, j)
            ==> #[trigger] effective_bid(s, bids, floor, j) <= 0,
    decreases k,
{
    if k > 0 {
        lemma_winner_is_best(s, bids, floor, k - 1);
    }
}

/// Law: the sealed bid goes to a living seat with a positive effective bid
/// that no living seat outbids, and a tie with the discoverer goes to the
/// discoverer; with no positive bid the tile stays unsold.
pub proof fn law_auction_winner(s: GameModel, bids: Seq<Option<i64>>, floor: int)
    ensures
        ({
            let n = s.players.len() as int;
            let d = s.current as int;
            &&& auction_winner(s, bids, floor, n) matches Some(w) ==> {
                &&& alive(s, w)
                &&& effective_bid(s, bids, floor, w) > 0
                &&& forall|j: int| 0 <= j < n && alive(s, j) ==> #[trigger] effective_bid(s, bids, floor, j)
                    <= effective_bid(s, bids, floor, w)
            }
            &&& (forall|j: int| 0 <= j < n && alive(s, j) ==> #[trigger] effective_bid(s, bids, floor, j) <= 0)
                <==> auction_winner(s, bids, floor, n) is None
            &&& alive(s, d) && effective_bid(s, bids, floor, d) > 0 && (forall|j: int| 0 <= j < n && alive(s, j)
                ==> #[trigger] effective_bid(s, bids, floor, j) <= effective_bid(s, bids, floor, d))
                ==> auction_winner(s, bids, floor, n) == Some(d)
        }),
{
    let n = s.players.len() as int;
    lemma_winner_is_best(s, bids, floor, n);
    let d = s.current as int;
    if alive(s, d) && effective_bid(s, bids, floor, d) > 0 && (forall|j: int| 0 <= j < n && alive(s, j)
        ==> #[trigger] effective_bid(s, bids, floor, j) <= effective_bid(s, bids, floor, d)) {
        assert(effective_bid(s, bids, floor, d) > 0);
        if let Some(w) = auction_winner(s, bids, floor, n) {
            assert(effective_bid(s, bids, floor, d) <= effective_bid(s, bids, floor, w));
            assert(effective_bid(s, bids, floor, w) <= effective_bid(s, bids, floor, d));
        }
    }
}

/// Law: when the window resolves, the tile goes to the winner, who pays its
/// effective bid (scaled by an acquisition event) and, as the discoverer,
/// gets `DISCOVERER_REFUND_PCT` percent of it back; no other seat's cash or
/// standing changes, no other tile changes, and the turn awaits its end.
/// Without a winner only the turn changes.
pub proof fn law_auction_settlement(c: &GameContent, s: GameModel, tile: int, bids: Seq<Option<i64>>)
    requires
        0 <= tile < s.tiles.len(),
        s.players.len() <= usize::MAX,
    ensures
        ({
            let out = auction_outcome(c, s, tile, bids);
            let floor = prop_of(c, tile).price as int;
            match auction_winner(s, bids, floor, s.players.len() as int) {
                Some(w) => {
                    let settle = market_scaled(s, MarketEffect::AcquisitionMultiplier, effective_bid(s, bids, floor, w));
                    &&& out.tiles[tile].owner == Some(w as usize)
                    &&& out.tiles[tile].houses == s.tiles[tile].houses
                    &&& forall|t: int| 0 <= t < s.tiles.len() && t != tile ==> #[trigger] out.tiles[t] == s.tiles[t]
                    &&& out.players[w].cash == (s.players[w].cash - settle + if w == s.current {
                        settle * DISCOVERER_REFUND_PCT / 100
                    } else {
                        0
                    }) as i64
                    &&& forall|q: int| 0 <= q < s.players.len() && q != w ==> #[trigger] out.players[q] == s.players[q]
                    &&& out.turn == TurnModel::AwaitEnd
                },
                None => out == (GameModel { turn: TurnModel::AwaitEnd, ..s }),
            }
        }),
{
    let floor = prop_of(c, tile).price as int;
    lemma_winner_is_best(s, bids, floor, s.players.len() as int);
}

/// Law: a silent or zero bid by the discoverer stands for the list price
/// when the discoverer can pay it; any other bid counts as submitted, a
/// silent seat as zero.
pub proof fn law_effective_bid(s: GameModel, bids: Seq<Option<i64>>, floor: int, i: int)
    ensures
        i == s.current && (bids[i] is None || bids[i] == Some(0i64)) && s.players[i].cash >= floor
            ==> effective_bid(s, bids, floor, i) == floor,
        !(i == s.current && (bids[i] is None || bids[i] == Some(0i64)) && s.players[i].cash >= floor)
            ==> effective_bid(s, bids, floor, i) == match bids[i] {
            Some(b) => b as int,
            None => 0,
        },
{
}

/// Every living seat has bid.
pub open spec fn all_bid(s: GameModel, bids: Seq<Option<i64>>) -> bool {
    forall|i: int| 0 <= i < s.players.len() && alive(s, i) ==> #[trigger] bids[i] is Some
}

/// The state after the window on `tile` resolves: the winner pays its
/// effective bid (scaled by an acquisition event) and owns the tile; a
/// winning discoverer gets back `DISCOVERER_REFUND_PCT` percent of it.
pub open spec fn auction_outcome(c: &GameContent, s: GameModel, tile: int, bids: Seq<Option<i64>>) -> GameModel {
    let floor = prop_of(c, tile).price as int;
    match auction_winner(s, bids, floor, s.players.len() as int) {
        Some(w) => {
            let settle = market_scaled(s, MarketEffect::AcquisitionMultiplier, effective_bid(s, bids, floor, w));
            let refund = if w == s.current { settle * DISCOVERER_REFUND_PCT / 100 } else { 0 };
            GameModel {
                players: s.players.update(w, PlayerModel { cash: (s.players[w].cash - settle + refund) as i64, ..s.players[w] }),
                tiles: s.tiles.update(tile, TileState { owner: Some(w as usize), ..s.tiles[tile] }),
                turn: TurnModel::AwaitEnd,
                ..s
            }
        },
        None => GameModel { turn: TurnModel::AwaitEnd, ..s },
    }
}

/// The submitted bids as the resolution lists them, `0` for a silent seat.
pub open spec fn raw_bids(bids: Seq<Option<i64>>) -> Seq<i64> {
    Seq::new(bids.len(), |q: int| raw_bid(bids, q) as i64)
}

/// `e` announces the resolution of the window on `tile`, with these
/// fields and the raw bids.
pub open spec fn announces(e: Event, tile: int, discoverer: int, winner: Option<usize>, amount: int, bids: Seq<Option<i64>>) -> bool {
    match e {
        Event::BlindAuctionResolved { tile: t, discoverer: d, winner: w, amount: a, bids: b } => t == tile
            && d == discoverer && w == winner && a == amount && b@ == raw_bids(bids),
        _ => false,
    }
}

/// The events that resolving the window on `tile` appends to `before`:
/// the resolution (winner and settlement, or no winner at `0`), then the
/// discoverer's rebate where the discoverer won.
pub open spec fn resolution_events(
    c: &GameContent,
    s: GameModel,
    tile: int,
    bids: Seq<Option<i64>>,
    before: Seq<Event>,
    after: Seq<Event>,
) -> bool {
    let n = before.len() as int;
    let floor = prop_of(c, tile).price as int;
    &&& n < after.len()
    &&& after.subrange(0, n) == before
    &&& match auction_winner(s, bids, floor, s.players.len() as int) {
        Some(w) => {
            let settle = market_scaled(s, MarketEffect::AcquisitionMultiplier, effective_bid(s, bids, floor, w));
            &&& announces(after[n], tile, s.current as int, Some(w as usize), settle, bids)
            &&& if w == s.current {
                after.len() == n + 2 && after[n + 1] == (Event::DiscovererRefunded {
                    player: w as usize,
                    tile: tile as usize,
                    amount: (settle * DISCOVERER_REFUND_PCT / 100) as i64,
                })
            } else {
                after.len() == n + 1
            }
        },
        None => after.len() == n + 1 && announces(after[n], tile, s.current as int, None, 0, bids),
    }
}

/// Why a sealed bid of `amount` by `p` is refused, if it is.
pub open spec fn bid_error(c: &GameContent, s: GameModel, p: int, amount: i64) -> Option<CommandError> {
    match s.turn {
        TurnModel::BlindAuction { tile, bids } => if bids[p] is Some {
            Some(CommandError::AlreadyBid)
        } else if amount < 0 || amount > s.players[p].cash {
            Some(CommandError::InsufficientFunds)
        } else if p == s.current && amount != 0 && amount < prop_of(c, tile as int).price {
            Some(CommandError::BidBelowFloor)
        } else {
            None
        },
        _ => Some(CommandError::WrongPhase),
    }
}

proof fn lemma_winner_alive(s: GameModel, bids: Seq<Option<i64>>, floor: int, n: int)
    ensures
        auction_winner(s, bids, floor, n) matches Some(w) ==> 0 <= w < n && alive(s, w)
            && effective_bid(s, bids, floor, w) > 0,
    decreases n,
{
    if n > 0 {
        lemma_winner_alive(s, bids, floor, n - 1);
    }
}

impl<'e, R: RentCalculator, B: BankruptcyResolver> Exec<'e, R, B> {
    /// Submits one sealed bid for the open window; resolves the window once
    /// every living seat has bid.
    pub fn submit_blind_bid(&mut self, p: usize, amount: i64) -> (r: Result<(), CommandError>)
        requires
            old(self).ok(0),
            p < old(self).st@.players.len(),
        ensures
            r is Err <==> bid_error(old(self).content, old(self).st@, p as int, amount) is Some,
            r matches Err(e) ==> bid_error(old(self).content, old(self).st@, p as int, amount) == Some(e),
            r is Ok ==> final(self).ok(2000) && final(self).kept(old(self))
                && final(self).st@.players.len() == old(self).st@.players.len(),
            r is Ok ==> ({
                let tile = old(self).st@.turn->BlindAuction_tile;
                let bids = old(self).st@.turn->BlindAuction_bids.update(p as int, Some(amount));
                let s1 = GameModel { turn: TurnModel::BlindAuction { tile, bids }, ..old(self).st@ };
                let e1 = old(self).ev@.push(Event::BlindBidSubmitted { player: p });
                if all_bid(s1, bids) {
                    final(self).st@ == auction_outcome(old(self).content, s1, tile as int, bids)
                        && resolution_events(old(self).content, s1, tile as int, bids, e1, final(self).ev@)
                } else {
                    final(self).st@ == s1 && final(self).ev@ == e1
                }
            }),
    {
        let (tile, already) = match &self.st.turn {
            TurnPhase::BlindAuction { tile, bids } => (*tile, bids[p].is_some()),
            _ => {
                return Err(CommandError::WrongPhase);
            },
        };
        if already {
            return Err(CommandError::AlreadyBid);
        }
        if amount < 0 || amount > self.st.players[p].cash {
            return Err(CommandError::InsufficientFunds);
        }
        let floor = self.content.property(tile).unwrap().price;
        if p == self.st.current && amount != 0 && amount < floor {
            return Err(CommandError::BidBelowFloor);
        }
        let ghost s0 = self.st@;
        let mut bids = match &self.st.turn {
            TurnPhase::BlindAuction { bids, .. } => crate::state::copy_vec(bids),
            _ => Vec::new(),
        };
        bids.set(p, Some(amount));
        proof {
            assert(player_bounded(s0.players[p as int], 0));
        }
        self.st.set_turn(TurnPhase::BlindAuction { tile, bids });
        self.ev.push(Event::BlindBidSubmitted { player: p });
        self.maybe_resolve_blind_auction();
        Ok(())
    }

    /// Resolves the open window once every living seat has bid; a no-op
    /// otherwise.
    pub fn maybe_resolve_blind_auction(&mut self)
        requires
            old(self).ok(0),
        ensures
            final(self).ok(2000),
            final(self).kept(old(self)),
            final(self).st@.players.len() == old(self).st@.players.len(),
            forall|q: int| 0 <= q < old(self).st@.players.len() ==> #[trigger] final(self).st@.players[q]
                == (PlayerModel { cash: final(self).st@.players[q].cash, ..old(self).st@.players[q] }),
            match old(self).st@.turn {
                TurnModel::BlindAuction { tile, bids } => if all_bid(old(self).st@, bids) {
                    final(self).st@ == auction_outcome(old(self).content, old(self).st@, tile as int, bids)
                        && resolution_events(old(self).content, old(self).st@, tile as int, bids, old(self).ev@, final(self).ev@)
                } else {
                    final(self).st@ == old(self).st@ && final(self).ev@ == old(self).ev@
                },
                _ => final(self).st@ == old(self).st@ && final(self).ev@ == old(self).ev@,
            },
    {
        proof {
            lemma_bounded_mono(self.st@, 0, 2000);
        }
        let ghost s0 = self.st@;
        let ghost e0 = self.ev@;
        let tile = match &self.st.turn {
            TurnPhase::BlindAuction { tile, .. } => *tile,
            _ => {
                return;
            },
        };
        let bids = match &self.st.turn {
            TurnPhase::BlindAuction { bids, .. } => crate::state::copy_vec(bids),
            _ => Vec::new(),
        };
        let ghost gb = bids@;
        proof {
            assert(s0.turn == TurnModel::BlindAuction { tile, bids: gb });
        }
        let n = self.st.players.len();
        let mut i: usize = 0;
        while i < n
            invariant
                n == s0.players.len(),
                self.st@ == s0,
                self.ev@ == e0,
                self.ok(2000),
                self.kept(old(self)),
                s0 == old(self).st@,
                s0.turn == (TurnModel::BlindAuction { tile, bids: gb }),
                bids@ == gb,
                gb.len() == n,
                i <= n,
                forall|j: int| 0 <= j < i && alive(s0, j) ==> #[trigger] gb[j] is Some,
            decreases n - i,
        {
            proof {
                assert(s0.players[i as int] == self.st.players@[i as int]@);
            }
            if !self.st.players[i].bankrupt && bids[i].is_none() {
                return;
            }
            i = i + 1;
        }
        let discoverer = self.st.current;
        let content = self.content;
        let floor = content.property(tile).unwrap().price;
        proof {
            assert(crate::state::tile_fits(content.board@[tile as int]));
        }
        let mut raw: Vec<i64> = Vec::new();
        let mut best: Option<usize> = None;
        let mut best_eff: i64 = 0;
        let mut j: usize = 0;
        while j < n
            invariant
                n == s0.players.len(),
                self.st@ == s0,
                self.ev@ == e0,
                bids@ == gb,
                gb.len() == n,
                j <= n,
                discoverer == s0.current,
                floor == prop_of(content, tile as int).price,
                0 <= floor <= crate::state::amount_limit(),
                raw@.len() == j,
                forall|q: int| 0 <= q < j ==> #[trigger] raw@[q] == raw_bid(gb, q),
                best == match auction_winner(s0, gb, floor as int, j as int) {
                    Some(w) => Some(w as usize),
                    None => None::<usize>,
                },
                best matches Some(b) ==> b < j && best_eff == effective_bid(s0, gb, floor as int, b as int),
            decreases n - j,
        {
            proof {
                lemma_winner_alive(s0, gb, floor as int, j as int);
                assert(s0.players[j as int] == self.st.players@[j as int]@);
            }
            let rb = match bids[j] {
                Some(b) => b,
                None => 0,
            };
            raw.push(rb);
            let eff = if j == discoverer && rb == 0 && self.st.players[discoverer].cash >= floor {
                floor
            } else {
                rb
            };
            if !self.st.players[j].bankrupt && eff > 0 {
                match best {
                    None => {
                        best = Some(j);
                        best_eff = eff;
                    },
                    Some(b) => {
                        let wins = eff > best_eff || (eff == best_eff && ((j == discoverer && b != discoverer) || ((j == discoverer) == (b == discoverer) && j < b)));
                        if wins {
                            best = Some(j);
                            best_eff = eff;
                        }
                    },
                }
            }
            j = j + 1;
        }
        proof {
            lemma_winner_alive(s0, gb, floor as int, n as int);
            assert(raw@ =~= raw_bids(gb));
        }
        match best {
            Some(w) => {
                proof {
                    assert(crate::state::turn_bounded(s0.turn, 0));
                    assert(player_bounded(s0.players[w as int], 0));
                    assert(within(best_eff as int, cash_bound(0))) by {
                        if gb[w as int] is Some {
                            let b = gb[w as int]->0;
                            assert(within(b as int, cash_bound(0)));
                        }
                    }
                }
                let settlement = self.apply_market_multiplier(MarketEffect::AcquisitionMultiplier, best_eff);
                let cash = self.st.players[w].cash;
                proof {
                    lemma_cash_ready(content, self.st@, w as int, cash - settlement, 2000);
                }
                self.st.set_cash(w, cash - settlement);
                assert(self.st@.players[w as int].cash == cash - settlement);
                let ts = self.st.tiles[tile];
                let nts = TileState { owner: Some(w), ..ts };
                proof {
                    lemma_tile_ready(content, self.st@, tile as int, nts, 2000);
                    crate::state::lemma_held_update(self.st@.tiles, crate::state::cap_of(content), tile as int, nts, self.st@.tiles.len() as int);
                }
                self.st.set_tile(tile, nts);
                self.ev.push(
                    Event::BlindAuctionResolved { tile, discoverer, winner: Some(w), amount: settlement, bids: raw },
                );
                if w == discoverer {
                    let refund = settlement * DISCOVERER_REFUND_PCT / 100;
                    let c2 = self.st.players[w].cash;
                    proof {
                        assert(c2 == cash - settlement);
                        assert(0 <= refund <= settlement);
                        lemma_cash_ready(content, self.st@, w as int, c2 + refund, 2000);
                    }
                    self.st.set_cash(w, c2 + refund);
                    self.ev.push(Event::DiscovererRefunded { player: w, tile, amount: refund });
                }
                proof {
                    assert(self.ev@.subrange(0, e0.len() as int) =~= e0);
                    let floor_i = floor as int;
                    let out = auction_outcome(content, s0, tile as int, gb);
                    assert(self.st@.players =~= out.players);
                    assert(self.st@.tiles =~= out.tiles);
                    assert forall|q: int| 0 <= q < s0.players.len() implies #[trigger] self.st@.players[q]
                        == (PlayerModel { cash: self.st@.players[q].cash, ..s0.players[q] }) by {
                    }
                }
            },
            None => {
                self.ev.push(
                    Event::BlindAuctionResolved { tile, discoverer, winner: None, amount: 0, bids: raw },
                );
                proof {
                    assert(self.ev@.subrange(0, e0.len() as int) =~= e0);
                }
            },
        }
        self.st.set_turn(TurnPhase::AwaitEnd);
    }
}

} // verus!
