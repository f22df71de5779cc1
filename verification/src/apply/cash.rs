//! Money movement and partial-payment bankruptcy: every debt in the game
//! settles through `charge`.
use vstd::prelude::*;

use super::{
    Exec, calm, cards_low, lemma_cash_ready, lemma_liquidation_ready, lemma_player_ready, lemma_tile_ready,
    ready,
};
use crate::content::GameContent;
use crate::event::Event;
use crate::state::{
    GameModel, GamePhase, GameState, PlayerModel, TileState, TradeModel, TradeOffer, budget_limit, cash_bound, cash_step,
    conglomerate_stock, lemma_bounded_mono, state_wf, subsidiary_stock, within,
};
use crate::strategy::{BankruptcyResolver, RentCalculator};

verus! {

/// A tile after seat `p` leaves the game owing `creditor` (`None` = the
/// bank): `p`'s tiles change hands with their buildings and boosts gone,
/// and a tile the bank takes back is also freed of its mortgage.
pub open spec fn forfeited(ts: TileState, p: int, creditor: Option<usize>) -> TileState {
    if ts.owner == Some(p as usize) {
        TileState {
            owner: creditor,
            houses: 0,
            mortgaged: if creditor is None { false } else { ts.mortgaged },
            boosts: 0,
        }
    } else {
        ts
    }
}

/// The open offers in which seat `p` takes no part, in their order.
pub open spec fn offers_without(ts: Seq<TradeModel>, p: int) -> Seq<TradeModel>
    decreases ts.len(),
{
    if ts.len() == 0 {
        Seq::empty()
    } else {
        let rest = offers_without(ts.drop_last(), p);
        let t = ts.last();
        if t.from == p || t.to == p {
            rest
        } else {
            rest.push(t)
        }
    }
}

/// A seat once it has left the game: out of jail, without jail cards.
pub open spec fn retired(pl: PlayerModel) -> PlayerModel {
    PlayerModel { bankrupt: true, jailed: false, jail_route: None, jail_cards: 0, ..pl }
}

/// `s` after `debtor` paid `amount` in full to `creditor` (`None` = the
/// bank).
pub open spec fn paid(s: GameModel, debtor: int, creditor: Option<usize>, amount: int) -> GameModel {
    let s1 = crate::state::with_cash(s, debtor, s.players[debtor].cash - amount);
    match creditor {
        Some(cr) => crate::state::with_cash(s1, cr as int, s.players[cr as int].cash + amount),
        None => s1,
    }
}

/// `f` is `s` once `debtor`, left with cash `c1` after liquidating, has
/// settled a debt of `amount` to `creditor` (`None` = the bank) that needs
/// `needed` in hand: paid in full when `c1` reaches `needed`; otherwise the
/// creditor receives what cash remains (none if it is not positive) and the
/// debtor goes bankrupt.
pub open spec fn settled_from(s: GameModel, f: GameModel, debtor: int, creditor: Option<usize>, amount: int, needed: int, c1: int) -> bool {
    let pay = if c1 >= needed {
        amount
    } else if c1 > 0 {
        c1
    } else {
        0
    };
    &&& s.players[debtor].cash <= c1
    &&& f.players[debtor].cash == c1 - pay
    &&& (c1 >= needed ==> f.players[debtor].bankrupt == s.players[debtor].bankrupt)
    &&& (c1 < needed ==> f.players[debtor].bankrupt)
    &&& creditor matches Some(cr) ==> f.players[cr as int].cash == s.players[cr as int].cash + pay
}

/// Law: a payment in full moves its amount from the debtor to the
/// creditor, so the table's cash is unchanged, or falls by the amount when
/// the bank is paid.
#[verifier::spinoff_prover]
#[verifier::rlimit(40)]
pub proof fn law_payment_keeps_cash(s: GameModel, debtor: int, creditor: Option<usize>, amount: int)
    requires
        0 <= debtor < s.players.len(),
        creditor matches Some(cr) ==> cr < s.players.len() && cr != debtor,
        i64::MIN <= s.players[debtor].cash - amount <= i64::MAX,
        creditor matches Some(cr) ==> i64::MIN <= s.players[cr as int].cash + amount <= i64::MAX,
    ensures
        crate::state::total_cash(paid(s, debtor, creditor, amount)) == crate::state::total_cash(s) - if creditor is None {
            amount
        } else {
            0
        },
{
    let n = s.players.len() as int;
    let s1 = crate::state::with_cash(s, debtor, s.players[debtor].cash - amount);
    crate::state::lemma_cash_upto_update(s.players, debtor, PlayerModel { cash: (s.players[debtor].cash - amount) as i64, ..s.players[debtor] }, n);
    if let Some(cr) = creditor {
        crate::state::lemma_cash_upto_update(s1.players, cr as int, PlayerModel { cash: (s.players[cr as int].cash + amount) as i64, ..s1.players[cr as int] }, n);
    }
}

/// Every offer left after withdrawing `p`'s is one of `ts` that does not
/// name `p`.
proof fn lemma_offers_without(ts: Seq<TradeModel>, p: int)
    ensures
        forall|j: int| 0 <= j < offers_without(ts, p).len() ==> (#[trigger] offers_without(ts, p)[j]).from != p
            && offers_without(ts, p)[j].to != p && exists|i: int| 0 <= i < ts.len() && ts[i] == offers_without(ts, p)[j],
    decreases ts.len(),
{
    if ts.len() > 0 {
        lemma_offers_without(ts.drop_last(), p);
        let rest = offers_without(ts.drop_last(), p);
        assert forall|j: int| 0 <= j < offers_without(ts, p).len() implies (#[trigger] offers_without(ts, p)[j]).from != p
            && offers_without(ts, p)[j].to != p && exists|i: int| 0 <= i < ts.len() && ts[i] == offers_without(ts, p)[j] by {
            if j < rest.len() {
                let i = choose|i: int| 0 <= i < ts.drop_last().len() && ts.drop_last()[i] == rest[j];
                assert(ts[i] == offers_without(ts, p)[j]);
            } else {
                assert(ts[ts.len() - 1] == offers_without(ts, p)[j]);
            }
        }
    }
}

/// The tiles below `n` that `p` owns, in board order.
pub open spec fn owned_upto(tiles: Seq<TileState>, p: int, n: int) -> Seq<usize>
    decreases n,
{
    if n <= 0 {
        Seq::empty()
    } else if tiles[n - 1].owner == Some(p as usize) {
        owned_upto(tiles, p, n - 1).push((n - 1) as usize)
    } else {
        owned_upto(tiles, p, n - 1)
    }
}

/// One transfer announcement per tile of `tiles`, from `p` to `creditor`.
pub open spec fn forfeits(tiles: Seq<usize>, p: int, creditor: Option<usize>) -> Seq<Event> {
    tiles.map_values(|t: usize| Event::PropertyTransferred { tile: t, from: p as usize, to: creditor })
}

/// The events of `p` going bankrupt to `creditor` in `s`, appended to
/// `before`: a transfer for each tile `p` held, in board order, the
/// bankruptcy, then the end of the game where one seat is left.
pub open spec fn bankrupt_events(s: GameModel, p: int, creditor: Option<usize>, before: Seq<Event>) -> Seq<Event> {
    let e = (before + forfeits(owned_upto(s.tiles, p, s.tiles.len() as int), p, creditor)).push(
        Event::PlayerBankrupt { player: p as usize, creditor },
    );
    let left = GameModel { players: s.players.update(p, retired(s.players[p])), ..s };
    let a = crate::state::alive_upto(left, left.players.len() as int);
    if a.len() == 1 {
        e.push(Event::GameEnded { winner: a[0] })
    } else {
        e
    }
}

proof fn lemma_alive_same_players(a: GameModel, b: GameModel, n: int)
    requires
        a.players == b.players,
    ensures
        crate::state::alive_upto(a, n) == crate::state::alive_upto(b, n),
    decreases n,
{
    if n > 0 {
        lemma_alive_same_players(a, b, n - 1);
    }
}

/// `s` after `p` went bankrupt to `creditor`, the shared pools aside: `p`
/// retired, its tiles forfeited, its open offers withdrawn, and the game
/// over where a single seat is left.
pub open spec fn bankrupted(s: GameModel, p: int, creditor: Option<usize>) -> GameModel {
    let left = GameModel { players: s.players.update(p, retired(s.players[p])), ..s };
    let a = crate::state::alive_upto(left, left.players.len() as int);
    GameModel {
        players: left.players,
        tiles: Seq::new(s.tiles.len(), |t: int| forfeited(s.tiles[t], p, creditor)),
        pending_trades: offers_without(s.pending_trades, p),
        phase: if a.len() == 1 {
            GamePhase::Finished { winner: a[0] }
        } else {
            s.phase
        },
        ..s
    }
}

/// `s` once the resolver `b` has raised what it can for `d` owing
/// `needed`; unchanged when the cash already covers it.
pub open spec fn after_liquidation<B: BankruptcyResolver>(b: &B, c: &GameContent, s: GameModel, d: int, needed: int) -> GameModel {
    if s.players[d].cash < needed {
        b.spec_liquidate(c, s, d, needed)
    } else {
        s
    }
}

/// What the resolver `b` announces doing so.
pub open spec fn liquidation_news<B: BankruptcyResolver>(b: &B, c: &GameContent, s: GameModel, d: int, needed: int) -> Seq<Event> {
    if s.players[d].cash < needed {
        b.spec_liquidation_events(c, s, d, needed)
    } else {
        Seq::empty()
    }
}

/// `f` and `after` are the state and the events once `d` has been charged
/// `amount > 0` for `creditor` (`None` = the bank) with `needed` required in
/// hand, from `s` and `before`: the resolver liquidates when the cash falls
/// short; then the debt is paid in full if the cash now covers it, or the
/// creditor takes what positive cash is left and `d` goes bankrupt to it.
/// The shared pools are left to the stock they keep.
pub open spec fn charged<B: BankruptcyResolver>(
    b: &B,
    c: &GameContent,
    s: GameModel,
    f: GameModel,
    before: Seq<Event>,
    after: Seq<Event>,
    d: int,
    creditor: Option<usize>,
    amount: int,
    needed: int,
) -> bool {
    let s1 = after_liquidation(b, c, s, d, needed);
    let e1 = before + liquidation_news(b, c, s, d, needed);
    let c1 = s1.players[d].cash;
    if c1 >= needed {
        f == paid(s1, d, creditor, amount) && after == e1
    } else {
        let s2 = paid(s1, d, creditor, if c1 > 0 { c1 as int } else { 0 });
        &&& f == (GameModel {
            subsidiaries_available: f.subsidiaries_available,
            conglomerates_available: f.conglomerates_available,
            ..bankrupted(s2, d, creditor)
        })
        &&& after == bankrupt_events(s2, d, creditor, e1)
    }
}

/// `b` is `a` after seat `p` resigned to the bank: `p` retired, its tiles
/// back with the bank, its open offers withdrawn.
pub open spec fn resigned(a: GameModel, b: GameModel, p: int) -> bool {
    &&& b.players == a.players.update(p, retired(a.players[p]))
    &&& b.tiles.len() == a.tiles.len()
    &&& forall|t: int| 0 <= t < a.tiles.len() ==> #[trigger] b.tiles[t] == forfeited(a.tiles[t], p, None)
    &&& b.pending_trades == offers_without(a.pending_trades, p)
}

impl<'e, R: RentCalculator, B: BankruptcyResolver> Exec<'e, R, B> {
    /// Moves `amount` from `debtor` to `creditor` (`None` = bank). Triggers
    /// liquidation, then bankruptcy, when cash cannot stay above the
    /// configured threshold. Callers emit the semantic events; this only
    /// emits distress events.
    pub fn charge(&mut self, debtor: usize, creditor: Option<usize>, amount: i64, Ghost(k): Ghost<int>)
        requires
            old(self).ok(k),
            k + 22 <= budget_limit(),
            debtor < old(self).st@.players.len(),
            creditor matches Some(cr) ==> cr < old(self).st@.players.len() && cr != debtor && amount <= cash_step(),
            amount <= 0x1000_0000_0000_0000,
            creditor matches Some(cr) ==> !old(self).st@.players[cr as int].bankrupt,
        ensures
            forall|q: int| 0 <= q < old(self).st@.players.len() && q != debtor ==> #[trigger] final(self).st@.players[q].bankrupt
                == old(self).st@.players[q].bankrupt,
            final(self).ok(k + 22),
            final(self).kept(old(self)),
            cards_low(old(self).st@) ==> cards_low(final(self).st@),
            final(self).st@.players.len() == old(self).st@.players.len(),
            calm(old(self).st@, final(self).st@),
            amount <= 0 ==> final(self).st@ == old(self).st@,
            amount <= 0 || old(self).st@.players[debtor as int].cash >= amount + old(self).content.rules.bankruptcy_threshold
                ==> final(self).ev@ == old(self).ev@,
            amount > 0 && old(self).st@.players[debtor as int].cash >= amount + old(self).content.rules.bankruptcy_threshold
                ==> final(self).st@ == paid(old(self).st@, debtor as int, creditor, amount as int),
            amount > 0 && old(self).st@.players[debtor as int].cash < amount + old(self).content.rules.bankruptcy_threshold
                ==> exists|c1: int| #[trigger] settled_from(old(self).st@, final(self).st@, debtor as int, creditor,
                amount as int, amount + old(self).content.rules.bankruptcy_threshold, c1),
            final(self).st@.players[debtor as int].bankrupt && !old(self).st@.players[debtor as int].bankrupt
                ==> exists|i: int| old(self).ev@.len() <= i < final(self).ev@.len() && #[trigger] final(self).ev@[i]
                == (Event::PlayerBankrupt { player: debtor, creditor }),
            amount > 0 ==> charged(
                old(self).bankruptcy,
                old(self).content,
                old(self).st@,
                final(self).st@,
                old(self).ev@,
                final(self).ev@,
                debtor as int,
                creditor,
                amount as int,
                amount + old(self).content.rules.bankruptcy_threshold,
            ),
    {
        if amount <= 0 {
            proof {
                lemma_bounded_mono(self.st@, k, k + 22);
            }
            return;
        }
        let threshold = self.content.rules.bankruptcy_threshold;
        let needed = amount + threshold;
        let ghost s0 = self.st@;
        proof {
            assert(crate::state::player_bounded(s0.players[debtor as int], k));
        }
        if self.st.players[debtor].cash < needed {
            self.bankruptcy.liquidate(self.content, &mut self.st, debtor, needed, &mut self.ev);
            proof {
                lemma_liquidation_ready(self.content, s0, self.st@, debtor as int, k);
            }
        } else {
            proof {
                lemma_bounded_mono(self.st@, k, k + 20);
            }
        }
        let ghost k1 = k + 20;
        let ghost s1 = self.st@;
        let ghost e1 = self.ev@;
        proof {
            assert(s1 == after_liquidation(self.bankruptcy, self.content, s0, debtor as int, needed as int));
            assert(e1 =~= old(self).ev@ + liquidation_news(self.bankruptcy, self.content, s0, debtor as int, needed as int));
        }
        let cash = self.st.players[debtor].cash;
        proof {
            assert(crate::state::player_bounded(self.st@.players[debtor as int], k1));
            if let Some(cr) = creditor {
                assert(crate::state::player_bounded(self.st@.players[cr as int], k1));
                assert(self.st@.players[cr as int].cash == s0.players[cr as int].cash);
                assert(crate::state::player_bounded(s0.players[cr as int], k));
            }
            lemma_bounded_mono(self.st@, k1, k + 22);
        }
        if cash >= needed {
            proof {
                lemma_cash_ready(self.content, self.st@, debtor as int, cash - amount, k + 22);
            }
            self.st.set_cash(debtor, cash - amount);
            if let Some(cr) = creditor {
                let cc = self.st.players[cr].cash;
                proof {
                    assert(self.st@.players[cr as int] == s1.players[cr as int]);
                    assert(cc == s0.players[cr as int].cash);
                    lemma_cash_ready(self.content, self.st@, cr as int, cc + amount, k + 22);
                }
                self.st.set_cash(cr, cc + amount);
            }
            proof {
                assert(self.st@.players[debtor as int].bankrupt == s1.players[debtor as int].bankrupt);
                assert(s1.players[debtor as int].bankrupt == s0.players[debtor as int].bankrupt);
                assert(settled_from(s0, self.st@, debtor as int, creditor, amount as int, needed as int, cash as int));
                assert(self.st@.players =~= paid(s1, debtor as int, creditor, amount as int).players);
            }
            return;
        }
        // Partial settlement: the creditor receives whatever cash remains.
        let remaining = if cash > 0 {
            cash
        } else {
            0
        };
        proof {
            lemma_cash_ready(self.content, self.st@, debtor as int, cash - remaining, k + 22);
        }
        self.st.set_cash(debtor, cash - remaining);
        if let Some(cr) = creditor {
            let cc = self.st.players[cr].cash;
            proof {
                assert(self.st@.players[cr as int] == s1.players[cr as int]);
                assert(cc == s0.players[cr as int].cash);
                lemma_cash_ready(self.content, self.st@, cr as int, cc + remaining, k + 22);
            }
            self.st.set_cash(cr, cc + remaining);
        }
        let ghost s2 = self.st@;
        let ghost e2 = self.ev@;
        proof {
            assert(s2.players =~= paid(s1, debtor as int, creditor, remaining as int).players);
            assert(s2 == paid(s1, debtor as int, creditor, remaining as int));
        }
        self.bankrupt(debtor, creditor, Ghost(k + 22));
        proof {
            let fs = forfeits(owned_upto(s2.tiles, debtor as int, s2.tiles.len() as int), debtor as int, creditor);
            let i = (e2.len() + fs.len()) as int;
            assert(self.ev@[i] == (Event::PlayerBankrupt { player: debtor, creditor }));
            assert(self.st@.players[debtor as int].cash == s2.players[debtor as int].cash);
            if let Some(cr) = creditor {
                assert(self.st@.players[cr as int].cash == s2.players[cr as int].cash);
            }
            assert(settled_from(s0, self.st@, debtor as int, creditor, amount as int, needed as int, cash as int));
        }
    }
}

impl<'e, R: RentCalculator, B: BankruptcyResolver> Exec<'e, R, B> {
    /// Takes `p` out of the game: open offers involving `p` are dropped,
    /// `p`'s tiles pass to the creditor (buildings razed, their pool units
    /// released; a tile returning to the bank is also cleared of its
    /// mortgage), and the game ends if one seat is left.
    pub fn bankrupt(&mut self, p: usize, creditor: Option<usize>, Ghost(k): Ghost<int>)
        requires
            old(self).ok(k),
            p < old(self).st@.players.len(),
            creditor matches Some(cr) ==> cr < old(self).st@.players.len(),
            creditor matches Some(cr) ==> !old(self).st@.players[cr as int].bankrupt && cr != p,
        ensures
            final(self).ok(k),
            final(self).kept(old(self)),
            cards_low(old(self).st@) ==> cards_low(final(self).st@),
            final(self).st@.players[p as int].bankrupt,
            final(self).st@.players.len() == old(self).st@.players.len(),
            calm(old(self).st@, final(self).st@),
            final(self).st@.players == old(self).st@.players.update(p as int, retired(old(self).st@.players[p as int])),
            final(self).st@.tiles.len() == old(self).st@.tiles.len(),
            forall|t: int| 0 <= t < old(self).st@.tiles.len() ==> #[trigger] final(self).st@.tiles[t]
                == forfeited(old(self).st@.tiles[t], p as int, creditor),
            final(self).st@.pending_trades == offers_without(old(self).st@.pending_trades, p as int),
            final(self).ev@ == bankrupt_events(old(self).st@, p as int, creditor, old(self).ev@),
            final(self).st@ == (GameModel {
                subsidiaries_available: final(self).st@.subsidiaries_available,
                conglomerates_available: final(self).st@.conglomerates_available,
                ..bankrupted(old(self).st@, p as int, creditor)
            }),
    {
        let ghost s0 = self.st@;
        let ghost e0 = self.ev@;
        let n_players = self.st.players.len();
        let n_tr = self.st.pending_trades.len();
        let mut kept_trades: Vec<TradeOffer> = Vec::new();
        let mut i: usize = 0;
        while i < n_tr
            invariant
                n_tr == self.st.pending_trades@.len(),
                self.st@ == s0,
                self.ev@ == e0,
                ready(self.content, s0, k),
                i <= n_tr,
                forall|j: int| 0 <= j < kept_trades@.len() ==> crate::state::trade_ok(self.content, s0.players.len(), #[trigger] kept_trades@[j]@)
                    && crate::state::trade_bounded(kept_trades@[j]@, k),
                kept_trades@.map_values(|q: TradeOffer| q@) == offers_without(s0.pending_trades.take(i as int), p as int),
            decreases n_tr - i,
        {
            let t = &self.st.pending_trades[i];
            assert(s0.pending_trades[i as int] == t@);
            proof {
                assert(s0.pending_trades.take(i + 1).drop_last() =~= s0.pending_trades.take(i as int));
            }
            if t.from != p && t.to != p {
                let ghost before = kept_trades@;
                kept_trades.push(t.copy_of());
                proof {
                    assert(kept_trades@.map_values(|q: TradeOffer| q@) =~= before.map_values(|q: TradeOffer| q@).push(t@));
                }
            }
            i = i + 1;
        }
        proof {
            assert(s0.pending_trades.take(n_tr as int) =~= s0.pending_trades);
        }
        self.st.pending_trades = kept_trades;
        let ghost s1 = self.st@;
        proof {
            assert(s1 == (crate::state::GameModel { pending_trades: offers_without(s0.pending_trades, p as int), ..s0 }));
        }
        proof {
            lemma_offers_without(s0.pending_trades, p as int);
            assert forall|j: int| 0 <= j < self.st@.pending_trades.len() implies !self.st@.players[(#[trigger] self.st@.pending_trades[j]).from as int].bankrupt
                && !self.st@.players[self.st@.pending_trades[j].to as int].bankrupt by {
                let i = choose|i: int| 0 <= i < s0.pending_trades.len() && s0.pending_trades[i] == self.st@.pending_trades[j];
                assert(s0.pending_trades[i] == self.st@.pending_trades[j]);
            }
            assert forall|j: int| 0 <= j < self.st@.pending_trades.len() implies crate::state::trade_ok(self.content, s0.players.len(), #[trigger] self.st@.pending_trades[j])
                && crate::state::trade_bounded(self.st@.pending_trades[j], k) by {
                assert(self.st@.pending_trades[j] == self.st.pending_trades@[j]@);
            }
        }
        let cap: u8 = if self.content.rules.max_houses_per_property < 5 {
            self.content.rules.max_houses_per_property
        } else {
            5
        };
        let n = self.st.tiles.len();
        let mut t: usize = 0;
        while t < n
            invariant
                n == self.st@.tiles.len(),
                cap == crate::state::cap_of(self.content),
                t <= n,
                self.ok(k),
                self.kept(old(self)),
                p < self.st@.players.len(),
                self.st@.players == s0.players,
                calm(s0, self.st@),
                creditor matches Some(cr) ==> cr < self.st@.players.len(),
                cards_low(s0) ==> cards_low(self.st@),
                self.st@.pending_trades == s1.pending_trades,
                s1.tiles == s0.tiles,
                creditor matches Some(cr) ==> !s0.players[cr as int].bankrupt && cr != p,
                self.st@.phase == s0.phase,
                forall|q: int| 0 <= q < t ==> #[trigger] self.st@.tiles[q] == forfeited(s0.tiles[q], p as int, creditor),
                forall|q: int| t <= q < n ==> #[trigger] self.st@.tiles[q] == s0.tiles[q],
                self.ev@ == e0 + forfeits(owned_upto(s0.tiles, p as int, t as int), p as int, creditor),
            decreases n - t,
        {
            let ts = self.st.tiles[t];
            proof {
                let o = owned_upto(s0.tiles, p as int, t as int);
                assert(o.push(t as usize).map_values(|u: usize| Event::PropertyTransferred { tile: u, from: p, to: creditor })
                    =~= o.map_values(|u: usize| Event::PropertyTransferred { tile: u, from: p, to: creditor }).push(
                    Event::PropertyTransferred { tile: t, from: p, to: creditor }));
                assert(e0 + forfeits(o.push(t as usize), p as int, creditor) =~= (e0 + forfeits(o, p as int, creditor)).push(
                    Event::PropertyTransferred { tile: t, from: p, to: creditor }));
            }
            if ts.owner == Some(p) {
                let ghost before = self.st@;
                proof {
                    crate::state::lemma_held_nonneg_pub(before.tiles, cap, n as int);
                }
                self.st.release_tile_pools(ts.houses, cap);
                let nts = TileState {
                    owner: creditor,
                    houses: 0,
                    mortgaged: if creditor.is_none() { false } else { ts.mortgaged },
                    boosts: 0,
                };
                let ghost mid = self.st@;
                proof {
                    assert(mid == (crate::state::GameModel {
                        subsidiaries_available: mid.subsidiaries_available,
                        conglomerates_available: mid.conglomerates_available,
                        ..before
                    }));
                    assert(state_wf(self.content, mid));
                    crate::state::lemma_held_update(before.tiles, cap, t as int, nts, n as int);
                    assert(subsidiary_stock(self.content, crate::state::with_tile(mid, t as int, nts)) == subsidiary_stock(self.content, before));
                    assert(conglomerate_stock(self.content, crate::state::with_tile(mid, t as int, nts)) == conglomerate_stock(self.content, before));
                    lemma_tile_ready(self.content, mid, t as int, nts, k);
                }
                self.st.set_tile(t, nts);
                proof {
                    assert forall|q: int| 0 <= q < self.st@.tiles.len() implies match (#[trigger] self.st@.tiles[q]).owner {
                        Some(o) => !self.st@.players[o as int].bankrupt,
                        None => true,
                    } by {
                        if q != t {
                            assert(self.st@.tiles[q] == before.tiles[q]);
                            assert(self.st@.players == before.players);
                        } else {
                            assert(self.st@.tiles[q] == nts);
                            assert(self.st@.players == s0.players);
                            if let Some(cr) = creditor {
                                assert(!s0.players[cr as int].bankrupt);
                            }
                        }
                    }
                }
                self.ev.push(Event::PropertyTransferred { tile: t, from: p, to: creditor });
            }
            t = t + 1;
        }
        let mut pl = self.st.players[p].copy_of();
        pl.bankrupt = true;
        pl.jailed = false;
        pl.jail_route = None;
        pl.jail_cards = 0;
        proof {
            assert(crate::state::player_bounded(self.st@.players[p as int], k));
            lemma_player_ready(self.content, self.st@, p as int, pl@, k);
        }
        self.st.set_player(p, pl);
        self.ev.push(Event::PlayerBankrupt { player: p, creditor });
        proof {
            let left = GameModel { players: s0.players.update(p as int, retired(s0.players[p as int])), ..s0 };
            assert(self.st@.players =~= left.players);
            lemma_alive_same_players(self.st@, left, left.players.len() as int);
            assert(s0.tiles.len() == n);
        }
        let ghost pre = self.st@;
        self.check_win(Ghost(k));
        proof {
            let b = bankrupted(s0, p as int, creditor);
            assert(self.st@.tiles =~= b.tiles);
            assert(self.st@.players =~= b.players);
            assert(pre.phase == s0.phase);
            assert(self.st@.phase == b.phase);
            assert(self.st@.pending_trades == b.pending_trades);
        }
    }

    /// Ends the game when a single seat is left.
    pub fn check_win(&mut self, Ghost(k): Ghost<int>)
        requires
            old(self).ok(k),
        ensures
            final(self).ok(k),
            final(self).kept(old(self)),
            final(self).st@ == (crate::state::GameModel { phase: final(self).st@.phase, ..old(self).st@ }),
            final(self).st@.phase is Active ==> final(self).st@.phase == old(self).st@.phase,
            ({
                let a = crate::state::alive_upto(old(self).st@, old(self).st@.players.len() as int);
                final(self).st@.phase == if a.len() == 1 {
                    GamePhase::Finished { winner: a[0] }
                } else {
                    old(self).st@.phase
                }
            }),
            ({
                let a = crate::state::alive_upto(old(self).st@, old(self).st@.players.len() as int);
                final(self).ev@ == if a.len() == 1 {
                    old(self).ev@.push(Event::GameEnded { winner: a[0] })
                } else {
                    old(self).ev@
                }
            }),
    {
        let alive = self.st.alive_players();
        if alive.len() == 1 {
            let w = alive[0];
            self.st.phase = GamePhase::Finished { winner: w };
            self.ev.push(Event::GameEnded { winner: w });
        }
    }
}

} // verus!
