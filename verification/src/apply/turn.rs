//! Turn flow and game-over checks: end of turn and resignation, the turn
//! advance with its forecast and spotlight ticks, the wealth tax, and the
//! win conditions.
use vstd::prelude::*;

use super::{Exec, cards_low, lemma_cash_ready, ready};
use super::cash::resigned;
use crate::content::MarketEffect;
use crate::error::CommandError;
use crate::event::Event;
use crate::state::{
    ActiveMarketEvent, GameModel, GamePhase, TurnModel, TurnPhase, alive, alive_upto, budget_limit,
    cash_bound, count_limit, gap_limit, lemma_alive_upto, lemma_bounded_mono, player_bounded,
    schedule_base, within, full_groups_spec, victory_points_spec, net_worth_spec, best_upto,
};
use crate::content::GameContent;
use crate::strategy::{BankruptcyResolver, RentCalculator};

verus! {

/// Money movements a turn advance may make: the counter, then a wealth
/// tax charging every seat.
pub open spec fn advance_cost() -> int {
    1411
}

/// The seat `j` places after the current one is alive.
pub open spec fn alive_after(s: GameModel, j: int) -> bool {
    alive(s, (s.current + j) % (s.players.len() as int))
}

/// The first living seat after the current one, going round the table
/// (the current seat comes last); the current seat when nobody is alive.
pub open spec fn next_alive(s: GameModel) -> int {
    let n = s.players.len() as int;
    if exists|j: int| 1 <= j <= n && #[trigger] alive_after(s, j) {
        let j = choose|j: int| 1 <= j <= n && #[trigger] alive_after(s, j) && forall|i: int| 1 <= i < j ==> !#[trigger] alive_after(s, i);
        (s.current + j) % n
    } else {
        s.current as int
    }
}

proof fn lemma_first_alive_step(s: GameModel, m: int)
    requires
        exists|j: int| 1 <= j <= m && #[trigger] alive_after(s, j),
    ensures
        exists|j: int| 1 <= j <= m && #[trigger] alive_after(s, j) && forall|i: int| 1 <= i < j ==> !#[trigger] alive_after(s, i),
    decreases m,
{
    if exists|j: int| 1 <= j <= m - 1 && #[trigger] alive_after(s, j) {
        lemma_first_alive_step(s, m - 1);
        let j = choose|j: int| 1 <= j <= m - 1 && #[trigger] alive_after(s, j) && forall|i: int| 1 <= i < j ==> !#[trigger] alive_after(s, i);
        assert(1 <= j <= m && alive_after(s, j) && forall|i: int| 1 <= i < j ==> !#[trigger] alive_after(s, i));
    } else {
        assert(alive_after(s, m));
        assert(forall|i: int| 1 <= i < m ==> !#[trigger] alive_after(s, i));
    }
}

/// Law: the turn passes to a living seat, the first one found going round
/// the table from the seat after the current one: every seat passed over
/// on the way is bankrupt.
pub proof fn law_next_alive(s: GameModel)
    requires
        0 <= s.current < s.players.len(),
        exists|q: int| 0 <= q < s.players.len() && alive(s, q),
    ensures
        ({
            let n = s.players.len() as int;
            let w = next_alive(s);
            &&& 0 <= w < n
            &&& alive(s, w)
            &&& exists|j: int| 1 <= j <= n && #[trigger] alive_after(s, j) && w == (s.current + j) % n && forall|i: int| 1 <= i < j ==> #[trigger] s.players[(
                s.current + i) % n].bankrupt
        }),
{
    let n = s.players.len() as int;
    let q = choose|q: int| 0 <= q < n && alive(s, q);
    let c = s.current as int;
    let j0 = if q > c { q - c } else { q - c + n };
    assert((c + j0) % n == q) by {
        if q > c {
            vstd::arithmetic::div_mod::lemma_small_mod(q as nat, n as nat);
        } else {
            vstd::arithmetic::div_mod::lemma_mod_add_multiples_vanish(q, n);
            vstd::arithmetic::div_mod::lemma_small_mod(q as nat, n as nat);
        }
    }
    assert(alive_after(s, j0));
    lemma_first_alive_step(s, n);
    let j = choose|j: int| 1 <= j <= n && #[trigger] alive_after(s, j) && forall|i: int| 1 <= i < j ==> !#[trigger] alive_after(s, i);
    assert(next_alive(s) == (c + j) % n);
    assert forall|i: int| 1 <= i < j implies #[trigger] s.players[(c + i) % n].bankrupt by {
        assert(!alive_after(s, i));
        assert(0 <= (c + i) % n < n) by {
            vstd::arithmetic::div_mod::lemma_mod_bound(c + i, n);
        }
    }
    assert(0 <= (c + j) % n < n) by {
        vstd::arithmetic::div_mod::lemma_mod_bound(c + j, n);
    }
}

/// The forecast once an active effect whose window has closed expires.
pub open spec fn expired(f: crate::state::ForecastModel, turn: u32) -> crate::state::ForecastModel {
    match f.active {
        Some(a) => if turn >= a.ends_at_turn {
            crate::state::ForecastModel { active: None, ..f }
        } else {
            f
        },
        None => f,
    }
}

/// No effect is active and the first scheduled event's turn has come.
pub open spec fn forecast_due(f: crate::state::ForecastModel, turn: u32) -> bool {
    f.active is None && f.queue.len() > 0 && turn >= f.queue[0].starts_at_turn
}

/// Definition `k` is the first one with id `id`.
pub open spec fn first_event(c: &GameContent, id: Seq<char>, k: int) -> bool {
    &&& 0 <= k < c.market_events@.len()
    &&& c.market_events@[k].id@ == id
    &&& forall|j: int| 0 <= j < k ==> c.market_events@[j].id@ != id
}

/// The first market event definition with id `id`, if any.
pub open spec fn event_def(c: &GameContent, id: Seq<char>) -> Option<crate::content::MarketEventDef> {
    if exists|k: int| #[trigger] first_event(c, id, k) {
        Some(c.market_events@[choose|k: int| #[trigger] first_event(c, id, k)])
    } else {
        None
    }
}

/// `e` announces that the market event `id` took effect for `duration`
/// turns, as `def` defines it.
pub open spec fn announces_market(e: Event, id: Seq<char>, def: crate::content::MarketEventDef, duration: u32) -> bool {
    match e {
        Event::MarketEventActivated { event_id, effect, magnitude_pct, duration_turns } => event_id@ == id && effect
            == def.effect && magnitude_pct == def.magnitude_pct && duration_turns == duration,
        _ => false,
    }
}

/// The events of firing the due event at the head of the queue, appended
/// to `before`: its announcement where the content defines it (followed by
/// the tax notices of a wealth tax), nothing where it does not.
pub open spec fn firing_events(c: &GameContent, s: GameModel, before: Seq<Event>, after: Seq<Event>) -> bool {
    let q = s.forecast.queue[0];
    let n = before.len() as int;
    match event_def(c, q.event_id) {
        Some(d) => {
            &&& n < after.len()
            &&& announces_market(after[n], q.event_id, d, q.duration)
            &&& d.effect != MarketEffect::WealthTax ==> after.len() == n + 1
        },
        None => after == before,
    }
}

/// The events of a forecast tick, appended to `before`: the expiry of an
/// active event whose time is up, then the firing of a due event.
pub open spec fn tick_events(c: &GameContent, s: GameModel, before: Seq<Event>, after: Seq<Event>) -> bool {
    let n = before.len() as int;
    let expiring = s.forecast.active matches Some(a) && s.turn_count >= a.ends_at_turn;
    let m = if expiring { n + 1 } else { n };
    let f1 = expired(s.forecast, s.turn_count);
    &&& m <= after.len()
    &&& expiring ==> (after[n] matches Event::MarketEventExpired { event_id } && event_id@ == s.forecast.active->0.event_id)
    &&& !forecast_due(f1, s.turn_count) ==> after.len() == m
    &&& forecast_due(f1, s.turn_count) ==> firing_events(c, GameModel { forecast: f1, ..s }, after.subrange(0, m), after)
}

/// The events of passing the turn on from `s`, appended to `before`: the
/// next seat's turn starts, the forecast ticks, then a spotlight whose time
/// is up ends.
pub open spec fn advance_events(c: &GameContent, s: GameModel, before: Seq<Event>, after: Seq<Event>) -> bool {
    let next = next_alive(s);
    let s1 = GameModel { current: next as usize, turn: TurnModel::AwaitMove, turn_count: (s.turn_count + 1) as u32, ..s };
    let e1 = before.push(Event::TurnStarted { player: next as usize });
    let ending = s.spotlight matches Some(sp) && s1.turn_count >= sp.expires_at_turn;
    let m = if ending { after.len() - 1 } else { after.len() as int };
    &&& e1.len() <= m
    &&& after.subrange(0, e1.len() as int) == e1
    &&& tick_events(c, s1, e1, after.subrange(0, m))
    &&& ending ==> after.last() == (Event::SpotlightEnded { tile: s.spotlight->0.tile })
}

/// `s` once its due event has fired, before the queue is refilled: the
/// event leaves the queue; a wealth tax is charged to every living seat at
/// once, any other effect becomes the active one for its duration; an
/// unknown id does nothing.
pub open spec fn fired(c: &GameContent, s: GameModel) -> GameModel {
    let f1 = expired(s.forecast, s.turn_count);
    let first = f1.queue[0];
    let s1 = GameModel { forecast: crate::state::ForecastModel { queue: f1.queue.drop_first(), active: None }, ..s };
    match event_def(c, first.event_id) {
        Some(d) => if d.effect == MarketEffect::WealthTax {
            taxed(c, s1, d.magnitude_pct as int, alive_upto(s1, s1.players.len() as int))
        } else {
            GameModel {
                forecast: crate::state::ForecastModel {
                    active: Some(crate::state::ActiveModel {
                        event_id: first.event_id,
                        effect: d.effect,
                        magnitude_pct: d.magnitude_pct,
                        ends_at_turn: (s.turn_count + first.duration) as u32,
                    }),
                    ..s1.forecast
                },
                ..s1
            }
        },
        None => s1,
    }
}

/// The due event is a wealth tax some living seat cannot cover above the
/// bankruptcy threshold, or the game is over.
pub open spec fn tax_uncovered(c: &GameContent, s: GameModel) -> bool {
    let f1 = expired(s.forecast, s.turn_count);
    let s1 = GameModel { forecast: crate::state::ForecastModel { queue: f1.queue.drop_first(), active: None }, ..s };
    match event_def(c, f1.queue[0].event_id) {
        Some(d) => d.effect == MarketEffect::WealthTax && !(s.phase is Active && covers_tax(
            c,
            s1,
            d.magnitude_pct as int,
            alive_upto(s1, s1.players.len() as int),
        )),
        None => false,
    }
}

/// The forecast with one more event drawn at the end of its queue, when
/// the content has market events.
pub open spec fn refilled(c: &GameContent, f: crate::state::ForecastModel, rng: u64, now: u32) -> crate::state::ForecastModel {
    if c.market_events@.len() == 0 {
        f
    } else {
        let def = c.market_events@[(crate::rng::draw(rng) % (c.market_events@.len() as u64)) as int];
        crate::state::ForecastModel {
            queue: f.queue.push(crate::state::ScheduledModel {
                event_id: def.id@,
                starts_at_turn: (schedule_base(f, now) + c.forecast_gap_turns) as u32,
                duration: def.duration_turns,
            }),
            ..f
        }
    }
}

/// The generator after a refill draw, when the content has market events.
pub open spec fn refill_rng(c: &GameContent, rng: u64) -> u64 {
    if c.market_events@.len() == 0 {
        rng
    } else {
        crate::rng::advance(rng)
    }
}

/// What a lookup by id found is the first definition with that id.
proof fn lemma_event_def(c: &GameContent, id: Seq<char>, found: Option<&crate::content::MarketEventDef>)
    requires
        found matches Some(d) ==> exists|k: int|
            0 <= k < c.market_events@.len() && c.market_events@[k] == *d && d.id@ == id && forall|j: int|
                0 <= j < k ==> c.market_events@[j].id@ != id,
        found is None ==> forall|k: int| 0 <= k < c.market_events@.len() ==> c.market_events@[k].id@ != id,
    ensures
        event_def(c, id) == match found {
            Some(d) => Some(*d),
            None => None::<crate::content::MarketEventDef>,
        },
{
    if let Some(d) = found {
        let k = choose|k: int|
            0 <= k < c.market_events@.len() && c.market_events@[k] == *d && d.id@ == id && forall|j: int|
                0 <= j < k ==> c.market_events@[j].id@ != id;
        assert(first_event(c, id, k));
        let k2 = choose|k: int| #[trigger] first_event(c, id, k);
        assert(first_event(c, id, k2));
        if k2 < k {
            assert(c.market_events@[k2].id@ != id);
        } else if k < k2 {
            assert(c.market_events@[k].id@ != id);
        }
    } else {
        assert forall|k: int| !#[trigger] first_event(c, id, k) by {
            if 0 <= k < c.market_events@.len() {
                assert(c.market_events@[k].id@ != id);
            }
        }
    }
}

/// The wealth tax seat `q` owes at `pct` percent: its net worth's share,
/// never below zero.
pub open spec fn wealth_tax_of(c: &GameContent, s: GameModel, q: int, pct: int) -> int {
    let x = net_worth_spec(c, s, q) * pct;
    if x > 0 {
        x / 100
    } else {
        0
    }
}

/// Law: the wealth tax takes `pct` percent of a seat's net worth, rounded
/// down, and nothing from a seat whose net worth is not positive (or at a
/// non-positive rate).
pub proof fn law_wealth_tax(c: &GameContent, s: GameModel, q: int, pct: int)
    requires
        0 <= pct <= 100,
    ensures
        wealth_tax_of(c, s, q, pct) >= 0,
        net_worth_spec(c, s, q) > 0 && pct > 0 ==> wealth_tax_of(c, s, q, pct) == net_worth_spec(c, s, q) * pct / 100,
        net_worth_spec(c, s, q) <= 0 || pct == 0 ==> wealth_tax_of(c, s, q, pct) == 0,
        wealth_tax_of(c, s, q, pct) <= if net_worth_spec(c, s, q) > 0 { net_worth_spec(c, s, q) } else { 0 },
{
    let w = net_worth_spec(c, s, q);
    if w > 0 && pct > 0 {
        assert(w * pct > 0) by (nonlinear_arith)
            requires
                w > 0,
                pct > 0,
        ;
        assert(w * pct / 100 <= w) by (nonlinear_arith)
            requires
                w > 0,
                0 < pct <= 100,
        ;
    } else if pct == 0 {
        assert(w * pct == 0);
    } else {
        assert(w * pct <= 0) by (nonlinear_arith)
            requires
                w <= 0,
                pct >= 0,
        ;
    }
}

/// `s` once each of `seats`, in order, has paid its wealth tax in full to
/// the bank.
pub open spec fn taxed(c: &GameContent, s: GameModel, pct: int, seats: Seq<usize>) -> GameModel
    decreases seats.len(),
{
    if seats.len() == 0 {
        s
    } else {
        let prev = taxed(c, s, pct, seats.drop_last());
        let q = seats.last() as int;
        crate::state::with_cash(prev, q, prev.players[q].cash - wealth_tax_of(c, s, q, pct))
    }
}

/// Every one of `seats` can pay its wealth tax above the bankruptcy
/// threshold.
pub open spec fn covers_tax(c: &GameContent, s: GameModel, pct: int, seats: Seq<usize>) -> bool {
    forall|j: int| 0 <= j < seats.len() ==> s.players[#[trigger] seats[j] as int].cash >= wealth_tax_of(c, s, seats[j] as int, pct)
        + c.rules.bankruptcy_threshold
}

/// Paying the tax changes only the payers' cash.
proof fn lemma_taxed_frame(c: &GameContent, s: GameModel, pct: int, seats: Seq<usize>)
    requires
        forall|j: int| 0 <= j < seats.len() ==> (#[trigger] seats[j]) < s.players.len(),
    ensures
        taxed(c, s, pct, seats) == (GameModel { players: taxed(c, s, pct, seats).players, ..s }),
        taxed(c, s, pct, seats).players.len() == s.players.len(),
        forall|q: int| 0 <= q < s.players.len() && !seats.contains(q as usize) ==> #[trigger] taxed(c, s, pct, seats).players[q]
            == s.players[q],
        forall|q: int| 0 <= q < s.players.len() ==> (#[trigger] taxed(c, s, pct, seats).players[q]) == (crate::state::PlayerModel {
            cash: taxed(c, s, pct, seats).players[q].cash,
            ..s.players[q]
        }),
    decreases seats.len(),
{
    if seats.len() > 0 {
        let d = seats.drop_last();
        lemma_taxed_frame(c, s, pct, d);
        assert forall|q: int| 0 <= q < s.players.len() && !seats.contains(q as usize) implies #[trigger] taxed(c, s, pct, seats).players[q]
            == s.players[q] by {
            assert(q as usize != seats.last());
            if d.contains(q as usize) {
                let j = choose|j: int| 0 <= j < d.len() && d[j] == q as usize;
                assert(seats[j] == q as usize);
            }
        }
    }
}

/// Net worth reads the tiles only, besides the seat's own cash.
proof fn lemma_worth_same(c: &GameContent, a: GameModel, b: GameModel, p: int, n: int)
    requires
        a.tiles == b.tiles,
    ensures
        crate::state::worth_upto(c, a, p, n) == crate::state::worth_upto(c, b, p, n),
    decreases n,
{
    if n > 0 {
        lemma_worth_same(c, a, b, p, n - 1);
    }
}

/// Living seats come in increasing order.
pub proof fn lemma_alive_increasing(s: GameModel, n: int)
    requires
        0 <= n <= s.players.len(),
        s.players.len() <= usize::MAX,
    ensures
        forall|i: int, j: int| 0 <= i < j < alive_upto(s, n).len() ==> alive_upto(s, n)[i] < alive_upto(s, n)[j],
        forall|j: int| 0 <= j < alive_upto(s, n).len() ==> alive_upto(s, n)[j] < n,
    decreases n,
{
    if n > 0 {
        lemma_alive_increasing(s, n - 1);
        let prev = alive_upto(s, n - 1);
        let cur = alive_upto(s, n);
        if alive(s, n - 1) {
            assert(cur == prev.push((n - 1) as usize));
            assert forall|i: int, j: int| 0 <= i < j < cur.len() implies cur[i] < cur[j] by {
                if j < prev.len() {
                    assert(cur[i] == prev[i] && cur[j] == prev[j]);
                    assert(prev[i] < prev[j]);
                } else {
                    assert(cur[i] == prev[i]);
                    assert(prev[i] < n - 1);
                    assert(cur[j] == n - 1);
                }
            }
            assert forall|j: int| 0 <= j < cur.len() implies cur[j] < n by {
                if j < prev.len() {
                    assert(cur[j] == prev[j]);
                }
            }
        }
    }
}

impl<'e, R: RentCalculator, B: BankruptcyResolver> Exec<'e, R, B> {
    pub fn end_turn(&mut self) -> (r: Result<(), CommandError>)
        requires
            old(self).ok(0),
        ensures
            r is Err <==> old(self).st@.turn != TurnModel::AwaitEnd,
            r matches Err(e) ==> e == CommandError::WrongPhase,
            r is Ok ==> final(self).ok(advance_cost()) && final(self).kept(old(self))
                && final(self).st@.players.len() == old(self).st@.players.len(),
            r is Ok && old(self).st@.phase is Active ==> final(self).st@.current == next_alive(old(self).st@)
                && final(self).st@.turn_count == old(self).st@.turn_count + 1
                && advance_events(old(self).content, old(self).st@, old(self).ev@, final(self).ev@),
    {
        if !matches!(self.st.turn, TurnPhase::AwaitEnd) {
            return Err(CommandError::WrongPhase);
        }
        self.advance_turn(Ghost(0));
        Ok(())
    }

    /// Passes the turn to the next living seat, then ticks the market
    /// forecast and the spotlight.
    #[verifier::spinoff_prover]
    #[verifier::rlimit(40)]
    pub fn advance_turn(&mut self, Ghost(k): Ghost<int>)
        requires
            old(self).ok(k),
            k + advance_cost() <= budget_limit(),
        ensures
            final(self).ok(k + advance_cost()),
            final(self).kept(old(self)),
            final(self).st@.players.len() == old(self).st@.players.len(),
            old(self).st@.phase is Active && final(self).st@.phase is Active ==> final(self).st@.turn == TurnModel::AwaitMove,
            old(self).st@.phase is Active ==> final(self).st@.current == next_alive(old(self).st@)
                && final(self).st@.turn_count == old(self).st@.turn_count + 1,
            old(self).st@.phase is Active ==> advance_events(old(self).content, old(self).st@, old(self).ev@, final(self).ev@),
    {
        if !matches!(self.st.phase, GamePhase::Active) {
            proof {
                lemma_bounded_mono(self.st@, k, k + advance_cost());
            }
            return;
        }
        let ghost s0 = self.st@;
        let n = self.st.players.len();
        let mut next = self.st.current;
        let mut i: usize = 0;
        let mut found = false;
        proof {
            vstd::arithmetic::div_mod::lemma_small_mod(s0.current as nat, n as nat);
        }
        while i < n && !found
            invariant
                n == self.st@.players.len(),
                s0 == self.st@,
                s0.current < n,
                next < n,
                i <= n,
                next == (s0.current + i) % (n as int),
                found <==> (i >= 1 && alive(s0, next as int)),
                forall|j: int| 1 <= j < i ==> !#[trigger] alive_after(s0, j),
                found ==> i >= 1,
            decreases n - i,
        {
            proof {
                assert((s0.current + i + 1) % (n as int) == ((s0.current + i) % (n as int) + 1) % (n as int)) by {
                    vstd::arithmetic::div_mod::lemma_add_mod_noop_right(1, s0.current + i, n as int);
                }
            }
            next = (next + 1) % n;
            if !self.st.players[next].bankrupt {
                found = true;
            }
            i = i + 1;
        }
        proof {
            let c = s0.current as int;
            if found {
                assert(alive_after(s0, i as int));
                lemma_first_alive_step(s0, n as int);
                let j = choose|j: int| 1 <= j <= n && #[trigger] alive_after(s0, j) && forall|q: int| 1 <= q < j ==> !#[trigger] alive_after(s0, q);
                if j < i {
                    assert(!alive_after(s0, j));
                } else if j > i {
                    assert(!alive_after(s0, i as int));
                }
                assert(j == i);
            } else {
                assert(i == n);
                assert forall|j: int| 1 <= j <= n implies !#[trigger] alive_after(s0, j) by {
                    if j == n {
                        assert(next as int == (c + n) % (n as int));
                    }
                }
                assert((c + n) % (n as int) == c) by {
                    vstd::arithmetic::div_mod::lemma_mod_add_multiples_vanish(c, n as int);
                    vstd::arithmetic::div_mod::lemma_small_mod(c as nat, n as nat);
                }
            }
        }
        let ghost before = self.st@;
        self.st.current = next;
        self.st.set_turn(TurnPhase::AwaitMove);
        self.st.turn_count = self.st.turn_count + 1;
        proof {
            assert(self.st@ == (GameModel { current: next, turn: TurnModel::AwaitMove, turn_count: self.st@.turn_count, ..before }));
            lemma_bounded_mono(before, k, k + 1);
        }
        self.ev.push(Event::TurnStarted { player: next });
        let ghost s1 = self.st@;
        let ghost e1 = self.ev@;
        self.tick_forecast(Ghost(k + 1));
        let ghost e2 = self.ev@;
        self.tick_spotlight(Ghost(k + advance_cost()));
        proof {
            let fe = self.ev@;
            assert(fe.subrange(0, e2.len() as int) =~= e2);
            assert(fe.subrange(0, e1.len() as int) =~= e1);
            assert(s1 == (GameModel { current: next_alive(s0) as usize, turn: TurnModel::AwaitMove, turn_count: (s0.turn_count + 1) as u32, ..s0 }));
        }
    }

    /// Turn tick of the public forecast: expires the active effect whose
    /// window closed, activates the next scheduled event when due (a
    /// wealth tax resolves at once and never becomes active), and refills
    /// the queue.
    #[verifier::spinoff_prover]
    #[verifier::rlimit(80)]
    pub fn tick_forecast(&mut self, Ghost(k): Ghost<int>)
        requires
            old(self).ok(k),
            k + 1410 <= budget_limit(),
        ensures
            final(self).st@.spotlight == old(self).st@.spotlight,
            final(self).ok(k + 1410),
            final(self).kept(old(self)),
            final(self).st@.players.len() == old(self).st@.players.len(),
            final(self).st@.turn == old(self).st@.turn,
            final(self).st@.phase is Active ==> old(self).st@.phase is Active,
            final(self).st@.current == old(self).st@.current,
            final(self).st@.turn_count == old(self).st@.turn_count,
            ({
                let s = old(self).st@;
                let c = old(self).content;
                let f1 = expired(s.forecast, s.turn_count);
                &&& !forecast_due(f1, s.turn_count) ==> final(self).st@ == (GameModel { forecast: f1, ..s })
                &&& forecast_due(f1, s.turn_count) ==> final(self).st@.forecast == refilled(
                    c,
                    fired(c, s).forecast,
                    s.rng,
                    s.turn_count,
                ) && final(self).st@.rng == refill_rng(c, s.rng)
                &&& forecast_due(f1, s.turn_count) && !tax_uncovered(c, s) ==> final(self).st@ == (GameModel {
                    forecast: refilled(c, fired(c, s).forecast, s.rng, s.turn_count),
                    rng: refill_rng(c, s.rng),
                    ..fired(c, s)
                })
            }),
            tick_events(old(self).content, old(self).st@, old(self).ev@, final(self).ev@),
    {
        let content = self.content;
        let ghost s0 = self.st@;
        let ghost e0 = self.ev@;
        if let Some(active) = &self.st.forecast.active {
            if self.st.turn_count >= active.ends_at_turn {
                let event_id = active.event_id.clone();
                self.st.forecast.active = None;
                self.ev.push(Event::MarketEventExpired { event_id });
            }
        }
        proof {
            assert(self.st@ == (GameModel { forecast: self.st@.forecast, ..s0 }));
            assert(self.st@.forecast.queue == s0.forecast.queue);
            assert(crate::state::forecast_bounded(self.st@.forecast, k));
            assert(self.st@.forecast == expired(s0.forecast, s0.turn_count));
        }
        let qlen = self.st.forecast.queue.len();
        let due = qlen > 0 && self.st.turn_count >= self.st.forecast.queue[0].starts_at_turn;
        if self.st.forecast.active.is_none() && due {
            let ghost smid = self.st@;
            proof {
                assert(expired(smid.forecast, smid.turn_count) == smid.forecast);
                assert(smid == (GameModel { forecast: expired(s0.forecast, s0.turn_count), ..s0 }));
            }
            let ghost emid = self.ev@;
            self.fire_next_event(Ghost(k));
            proof {
                assert(self.ev@.subrange(0, emid.len() as int) =~= emid);
                assert(fired(content, smid) == fired(content, s0));
                assert(tax_uncovered(content, smid) == tax_uncovered(content, s0));
            }
        } else {
            proof {
                lemma_bounded_mono(self.st@, k, k + 1410);
            }
        }
    }

    /// Fires the due event at the head of the queue (no effect being
    /// active), then draws the next one onto the queue.
    #[verifier::spinoff_prover]
    #[verifier::rlimit(80)]
    fn fire_next_event(&mut self, Ghost(k): Ghost<int>)
        requires
            old(self).ok(k),
            k + 1410 <= budget_limit(),
            forecast_due(old(self).st@.forecast, old(self).st@.turn_count),
        ensures
            final(self).st@.spotlight == old(self).st@.spotlight,
            final(self).ok(k + 1410),
            final(self).kept(old(self)),
            final(self).st@.players.len() == old(self).st@.players.len(),
            final(self).st@.turn == old(self).st@.turn,
            final(self).st@.phase is Active ==> old(self).st@.phase is Active,
            final(self).st@.current == old(self).st@.current,
            final(self).st@.turn_count == old(self).st@.turn_count,
            ({
                let s = old(self).st@;
                let c = old(self).content;
                &&& final(self).st@.forecast == refilled(c, fired(c, s).forecast, s.rng, s.turn_count)
                &&& final(self).st@.rng == refill_rng(c, s.rng)
                &&& !tax_uncovered(c, s) ==> final(self).st@ == (GameModel {
                    forecast: refilled(c, fired(c, s).forecast, s.rng, s.turn_count),
                    rng: refill_rng(c, s.rng),
                    ..fired(c, s)
                })
            }),
            firing_events(old(self).content, old(self).st@, old(self).ev@, final(self).ev@),
    {
        let content = self.content;
        let ghost s0 = self.st@;
        let ghost e0 = self.ev@;
        proof {
            assert(crate::state::forecast_bounded(self.st@.forecast, k));
        }
        let ghost s1 = self.st@;
        let scheduled = self.st.forecast.queue.remove(0);
        proof {
            assert(scheduled@ == s1.forecast.queue[0]);
            assert(self.st@.forecast.queue =~= s1.forecast.queue.subrange(1, s1.forecast.queue.len() as int));
            assert(self.st@ == (GameModel { forecast: self.st@.forecast, ..s1 }));
            assert(crate::state::forecast_bounded(self.st@.forecast, k));
        }
        let ghost mut k1: int = k;
        let ghost sd = self.st@;
        proof {
            assert(sd == (GameModel {
                forecast: crate::state::ForecastModel { queue: s1.forecast.queue.drop_first(), active: None },
                ..s0
            }));
        }
        let found = content.market_event(scheduled.event_id.as_str());
        proof {
            lemma_event_def(content, scheduled.event_id@, found);
        }
        if let Some(def) = found {
            let effect = def.effect;
            let magnitude_pct = def.magnitude_pct;
            proof {
                let j = choose|j: int| 0 <= j < content.market_events@.len() && content.market_events@[j] == *def
                    && def.id@ == scheduled.event_id@ && forall|i: int| 0 <= i < j ==> content.market_events@[i].id@ != scheduled.event_id@;
                assert(crate::state::event_fits(content.market_events@[j]));
            }
            self.ev.push(
                Event::MarketEventActivated {
                    event_id: scheduled.event_id.clone(),
                    effect,
                    magnitude_pct,
                    duration_turns: scheduled.duration,
                },
            );
            if effect == MarketEffect::WealthTax {
                self.apply_wealth_tax(magnitude_pct, scheduled.event_id.as_str(), Ghost(k));
                proof {
                    k1 = k + 1408;
                }
            } else {
                let ghost s2 = self.st@;
                proof {
                    assert(scheduled.duration <= gap_limit());
                }
                self.st.forecast.active = Some(
                    ActiveMarketEvent {
                        event_id: scheduled.event_id,
                        effect,
                        magnitude_pct,
                        ends_at_turn: self.st.turn_count + scheduled.duration,
                    },
                );
                proof {
                    assert(self.st@ == (GameModel { forecast: self.st@.forecast, ..s2 }));
                    assert(crate::state::forecast_bounded(self.st@.forecast, k));
                }
            }
        }
        proof {
            lemma_alive_upto(sd, sd.players.len() as int);
            if !tax_uncovered(content, s0) {
                if let Some(d) = event_def(content, scheduled.event_id@) {
                    if d.effect == MarketEffect::WealthTax {
                        lemma_taxed_frame(content, sd, d.magnitude_pct as int, alive_upto(sd, sd.players.len() as int));
                    }
                }
                assert(self.st@ == fired(content, s0));
            }
            if let Some(d) = event_def(content, scheduled.event_id@) {
                if d.effect == MarketEffect::WealthTax {
                    lemma_alive_upto(sd, sd.players.len() as int);
                    lemma_taxed_frame(content, sd, d.magnitude_pct as int, alive_upto(sd, sd.players.len() as int));
                }
            }
            assert(self.st@.forecast == fired(content, s0).forecast);
            assert(self.st@.rng == s0.rng);
        }
        proof {
            lemma_bounded_mono(self.st@, k1, k + 1409);
        }
        self.refill_forecast(Ghost(k + 1409));
    }

    /// Draws the next market event onto the end of the forecast queue.
    #[verifier::spinoff_prover]
    fn refill_forecast(&mut self, Ghost(j): Ghost<int>)
        requires
            old(self).ok(j),
            j + 1 <= budget_limit(),
        ensures
            final(self).ev@ == old(self).ev@,
            final(self).ok(j + 1),
            final(self).kept(old(self)),
            final(self).st@ == (GameModel {
                forecast: refilled(old(self).content, old(self).st@.forecast, old(self).st@.rng, old(self).st@.turn_count),
                rng: refill_rng(old(self).content, old(self).st@.rng),
                ..old(self).st@
            }),
    {
        let content = self.content;
        let now = self.st.turn_count;
        let ghost s3 = self.st@;
        proof {
            assert(crate::state::forecast_bounded(s3.forecast, j));
            if s3.forecast.queue.len() > 0 {
                assert(s3.forecast.queue.last().starts_at_turn <= count_limit() + j * gap_limit());
            }
            assert(j * gap_limit() + gap_limit() == (j + 1) * gap_limit()) by (nonlinear_arith);
            assert((j + 1) * gap_limit() <= 21410 * gap_limit()) by (nonlinear_arith)
                requires
                    j + 1 <= 21410,
            ;
        }
        self.st.forecast.draw_next(content, &mut self.st.rng, now);
        proof {
            assert(self.st@ == (GameModel { forecast: self.st@.forecast, rng: self.st@.rng, ..s3 }));
            lemma_bounded_mono(s3, j, j + 1);
            assert forall|i: int| 0 <= i < self.st@.forecast.queue.len() implies (#[trigger] self.st@.forecast.queue[i]).starts_at_turn
                <= count_limit() + (j + 1) * gap_limit() && self.st@.forecast.queue[i].duration <= gap_limit() by {
                if i < s3.forecast.queue.len() {
                    assert(self.st@.forecast.queue[i] == s3.forecast.queue[i]);
                } else {
                    if content.market_events@.len() > 0 {
                        let idx = (crate::rng::draw(s3.rng) % (content.market_events@.len() as u64)) as int;
                        assert(crate::state::event_fits(content.market_events@[idx]));
                    }
                }
            }
        }
    }

    /// One-shot wealth tax: every living seat pays `net_worth * pct / 100`
    /// (never below zero) through the usual charge and bankruptcy path.
    pub fn apply_wealth_tax(&mut self, pct: i64, event_id: &str, Ghost(k): Ghost<int>)
        requires
            old(self).ok(k),
            k + 1408 <= budget_limit(),
            -100 <= pct <= 100,
        ensures
            final(self).st@.spotlight == old(self).st@.spotlight,
            final(self).ok(k + 1408),
            final(self).kept(old(self)),
            final(self).st@.players.len() == old(self).st@.players.len(),
            final(self).st@.turn == old(self).st@.turn,
            final(self).st@.forecast == old(self).st@.forecast,
            final(self).st@.rng == old(self).st@.rng,
            final(self).st@.phase is Active ==> old(self).st@.phase is Active,
            final(self).st@.current == old(self).st@.current,
            final(self).st@.turn_count == old(self).st@.turn_count,
            ({
                let s = old(self).st@;
                let seats = alive_upto(s, s.players.len() as int);
                s.phase is Active && covers_tax(old(self).content, s, pct as int, seats) ==> final(self).st@ == taxed(
                    old(self).content,
                    s,
                    pct as int,
                    seats,
                )
            }),
    {
        let ghost s0 = self.st@;
        let seats = self.st.alive_players();
        proof {
            lemma_alive_upto(self.st@, self.st@.players.len() as int);
        }
        let m = seats.len();
        let mut i: usize = 0;
        proof {
            lemma_alive_increasing(s0, s0.players.len() as int);
            assert(seats@.take(0) =~= Seq::<usize>::empty());
        }
        while i < m
            invariant
                m == seats@.len(),
                m <= 64,
                i <= m,
                self.ok(k + 22 * i),
                self.kept(old(self)),
                self.st@.players.len() == old(self).st@.players.len(),
                self.st@.spotlight == old(self).st@.spotlight,
                self.st@.turn == old(self).st@.turn,
                self.st@.forecast == old(self).st@.forecast,
                self.st@.rng == old(self).st@.rng,
                self.st@.phase is Active ==> old(self).st@.phase is Active,
                self.st@.current == old(self).st@.current,
                self.st@.turn_count == old(self).st@.turn_count,
                forall|j: int| 0 <= j < m ==> (#[trigger] seats@[j]) < self.st@.players.len(),
                k + 1408 <= budget_limit(),
                -100 <= pct <= 100,
                s0 == old(self).st@,
                seats@ == alive_upto(s0, s0.players.len() as int),
                forall|a: int, b: int| 0 <= a < b < m ==> seats@[a] < seats@[b],
                s0.phase is Active && covers_tax(self.content, s0, pct as int, seats@) ==> self.st@ == taxed(
                    self.content,
                    s0,
                    pct as int,
                    seats@.take(i as int),
                ),
            decreases m - i,
        {
            let p = seats[i];
            let ghost pre = self.st@;
            proof {
                if s0.phase is Active && covers_tax(self.content, s0, pct as int, seats@) {
                    let t = seats@.take(i as int);
                    lemma_taxed_frame(self.content, s0, pct as int, t);
                    assert(!t.contains(p)) by {
                        if t.contains(p) {
                            let j = choose|j: int| 0 <= j < t.len() && t[j] == p;
                            assert(seats@[j] < seats@[i as int]);
                        }
                    }
                    assert(pre.players[p as int] == s0.players[p as int]);
                    assert(pre.tiles == s0.tiles);
                    lemma_worth_same(self.content, pre, s0, p as int, pre.tiles.len() as int);
                }
            }
            proof {
                lemma_bounded_mono(self.st@, k + 22 * i, budget_limit());
                assert(player_bounded(self.st@.players[p as int], budget_limit()));
            }
            let worth = self.st.net_worth(self.content, p);
            proof {
                assert(worth * pct <= 0x100_0000_0000_0000 * 100) by (nonlinear_arith)
                    requires
                        -0x100_0000_0000_0000 <= worth <= 0x100_0000_0000_0000,
                        -100 <= pct <= 100,
                ;
                assert(worth * pct >= -0x100_0000_0000_0000 * 100) by (nonlinear_arith)
                    requires
                        -0x100_0000_0000_0000 <= worth <= 0x100_0000_0000_0000,
                        -100 <= pct <= 100,
                ;
            }
            let raw = worth * pct / 100;
            let amount = if raw > 0 {
                raw
            } else {
                0
            };
            proof {
                if s0.phase is Active && covers_tax(self.content, s0, pct as int, seats@) {
                    assert(amount == wealth_tax_of(self.content, s0, p as int, pct as int));
                    assert(s0.players[seats@[i as int] as int].cash >= wealth_tax_of(self.content, s0, seats@[i as int] as int, pct as int)
                        + self.content.rules.bankruptcy_threshold);
                }
            }
            self.ev.push(Event::CashAdjusted { player: p, delta: -amount, reason: event_id.to_string() });
            self.charge(p, None, amount, Ghost(k + 22 * i));
            proof {
                if s0.phase is Active && covers_tax(self.content, s0, pct as int, seats@) {
                    assert(seats@.take(i + 1).drop_last() =~= seats@.take(i as int));
                    assert(seats@.take(i + 1).last() == p);
                    let next = taxed(self.content, s0, pct as int, seats@.take(i + 1));
                    assert(next == crate::state::with_cash(pre, p as int, pre.players[p as int].cash - amount));
                    if amount > 0 {
                        assert(self.st@ == crate::apply::cash::paid(pre, p as int, None, amount as int));
                    } else {
                        assert(self.st@ == pre);
                        assert(next.players =~= pre.players);
                    }
                    assert(self.st@ == next);
                }
            }
            if matches!(self.st.phase, GamePhase::Finished { .. }) {
                proof {
                    lemma_bounded_mono(self.st@, k + 22 * i + 22, k + 1408);
                }
                return;
            }
            i = i + 1;
        }
        proof {
            lemma_bounded_mono(self.st@, k + 22 * m, k + 1408);
            assert(seats@.take(m as int) =~= seats@);
        }
    }
}

/// Victory points ranked first, net worth second.
pub open spec fn score_key(c: &GameContent, s: GameModel) -> spec_fn(int) -> int {
    |p: int| victory_points_spec(c, s, p) * 0x1000_0000_0000_0000 + net_worth_spec(c, s, p)
}

impl<'e, R: RentCalculator, B: BankruptcyResolver> Exec<'e, R, B> {
    /// Instant win by controlling `rules.win_full_groups` complete colour
    /// groups; the lowest seat wins when two qualify at once.
    pub fn check_group_win(&mut self, Ghost(k): Ghost<int>)
        requires
            old(self).ok(k),
        ensures
            final(self).st@.phase matches GamePhase::Finished { winner } ==> old(self).st@.phase is Active ==> final(self).ev@
                == old(self).ev@.push(Event::WonByGroups {
                winner,
                groups: if full_groups_spec(old(self).content, old(self).st@, winner as int) > 255 {
                    255u8
                } else {
                    full_groups_spec(old(self).content, old(self).st@, winner as int) as u8
                },
            }),
            final(self).ok(k),
            final(self).kept(old(self)),
            final(self).st@ == (GameModel { phase: final(self).st@.phase, ..old(self).st@ }),
            ({
                let s = old(self).st@;
                let need = old(self).content.rules.win_full_groups;
                if s.phase is Active && need > 0 {
                    match final(self).st@.phase {
                        GamePhase::Finished { winner } => alive(s, winner as int)
                            && full_groups_spec(old(self).content, s, winner as int) >= need
                            && forall|q: int| 0 <= q < winner && alive(s, q) ==> full_groups_spec(old(self).content, s, q) < need,
                        GamePhase::Active => forall|q: int| alive(s, q) ==> full_groups_spec(old(self).content, s, q) < need,
                    }
                } else {
                    final(self).st@ == s
                }
            }),
            final(self).st@ == old(self).st@ ==> final(self).ev@ == old(self).ev@,
    {
        if !matches!(self.st.phase, GamePhase::Active) {
            return;
        }
        let need = self.content.rules.win_full_groups;
        if need <= 0 {
            return;
        }
        let ghost s0 = self.st@;
        let n = self.st.players.len();
        let mut p: usize = 0;
        while p < n
            invariant
                n == s0.players.len(),
                self.st@ == s0,
                self.ok(k),
                self.kept(old(self)),
                s0 == old(self).st@,
                self.ev@ == old(self).ev@,
                p <= n,
                need == old(self).content.rules.win_full_groups,
                s0.phase is Active,
                need > 0,
                forall|q: int| 0 <= q < p && alive(s0, q) ==> full_groups_spec(self.content, s0, q) < need,
            decreases n - p,
        {
            proof {
                assert(s0.players[p as int] == self.st.players@[p as int]@);
            }
            if !self.st.players[p].bankrupt {
                let owned = self.st.full_groups_owned(self.content, p);
                if (owned as i64) >= need {
                    let groups: u8 = if owned > 255 { 255 } else { owned as u8 };
                    self.st.phase = GamePhase::Finished { winner: p };
                    assert(self.st@ == (GameModel { phase: GamePhase::Finished { winner: p }, ..s0 }));
                    self.ev.push(Event::WonByGroups { winner: p, groups });
                    return;
                }
            }
            p = p + 1;
        }
    }
}

impl<'e, R: RentCalculator, B: BankruptcyResolver> Exec<'e, R, B> {
    /// Instant win by reaching `rules.win_victory_points`; the lowest seat
    /// wins when two qualify at once.
    pub fn check_points_win(&mut self, Ghost(k): Ghost<int>)
        requires
            old(self).ok(k),
        ensures
            final(self).st@.phase matches GamePhase::Finished { winner } ==> old(self).st@.phase is Active ==> final(self).ev@
                == old(self).ev@.push(Event::WonByPoints {
                player: winner,
                points: victory_points_spec(old(self).content, old(self).st@, winner as int) as i64,
            }),
            final(self).ok(k),
            final(self).kept(old(self)),
            final(self).st@ == (GameModel { phase: final(self).st@.phase, ..old(self).st@ }),
            ({
                let s = old(self).st@;
                let target = old(self).content.rules.win_victory_points;
                if s.phase is Active && target > 0 {
                    match final(self).st@.phase {
                        GamePhase::Finished { winner } => alive(s, winner as int)
                            && victory_points_spec(old(self).content, s, winner as int) >= target
                            && forall|q: int| 0 <= q < winner && alive(s, q) ==> victory_points_spec(old(self).content, s, q) < target,
                        GamePhase::Active => forall|q: int| alive(s, q) ==> victory_points_spec(old(self).content, s, q) < target,
                    }
                } else {
                    final(self).st@ == s
                }
            }),
            final(self).st@ == old(self).st@ ==> final(self).ev@ == old(self).ev@,
    {
        if !matches!(self.st.phase, GamePhase::Active) {
            return;
        }
        let target = self.content.rules.win_victory_points;
        if target <= 0 {
            return;
        }
        let ghost s0 = self.st@;
        let n = self.st.players.len();
        let mut p: usize = 0;
        while p < n
            invariant
                n == s0.players.len(),
                self.st@ == s0,
                self.ok(k),
                self.kept(old(self)),
                s0 == old(self).st@,
                self.ev@ == old(self).ev@,
                p <= n,
                target == old(self).content.rules.win_victory_points,
                s0.phase is Active,
                target > 0,
                forall|q: int| 0 <= q < p && alive(s0, q) ==> victory_points_spec(self.content, s0, q) < target,
            decreases n - p,
        {
            proof {
                assert(s0.players[p as int] == self.st.players@[p as int]@);
                assert(crate::state::player_bounded(s0.players[p as int], k));
            }
            if !self.st.players[p].bankrupt {
                let points = self.st.victory_points(self.content, p);
                if points >= target {
                    self.st.phase = GamePhase::Finished { winner: p };
                    assert(self.st@ == (GameModel { phase: GamePhase::Finished { winner: p }, ..s0 }));
                    self.ev.push(Event::WonByPoints { player: p, points });
                    return;
                }
            }
            p = p + 1;
        }
    }

    /// The doom clock: once the shared conglomerate pool runs dry with
    /// nobody at the point target, the highest score wins, ties broken by
    /// net worth then the lowest seat. Only under the points rules.
    pub fn check_pool_exhaustion_win(&mut self, Ghost(k): Ghost<int>)
        requires
            old(self).ok(k),
        ensures
            final(self).st@.phase matches GamePhase::Finished { winner } ==> old(self).st@.phase is Active ==> final(self).ev@
                == old(self).ev@.push(Event::WonByPoolExhaustion { winner }),
            final(self).ok(k),
            final(self).kept(old(self)),
            final(self).st@ == (GameModel { phase: final(self).st@.phase, ..old(self).st@ }),
            ({
                let s = old(self).st@;
                if s.phase is Active && old(self).content.rules.win_victory_points > 0
                    && s.conglomerates_available == Some(0u64) {
                    match best_upto(s, score_key(old(self).content, s), s.players.len() as int) {
                        Some(w) => final(self).st@.phase == GamePhase::Finished { winner: w as usize },
                        None => final(self).st@ == s,
                    }
                } else {
                    final(self).st@ == s
                }
            }),
            final(self).st@ == old(self).st@ ==> final(self).ev@ == old(self).ev@,
    {
        if !matches!(self.st.phase, GamePhase::Active) {
            return;
        }
        if self.content.rules.win_victory_points <= 0 {
            return;
        }
        if self.st.conglomerates_available != Some(0u64) {
            return;
        }
        let ghost s0 = self.st@;
        let ghost key = score_key(self.content, s0);
        let n = self.st.players.len();
        let mut best: Option<(usize, i64, i64)> = None;
        let mut p: usize = 0;
        proof {
            crate::state::lemma_bounded_mono(s0, k, budget_limit());
        }
        while p < n
            invariant
                n == s0.players.len(),
                self.st@ == s0,
                self.ok(k),
                crate::state::state_bounded(s0, budget_limit()),
                p <= n,
                key == score_key(self.content, s0),
                match best {
                    Some((b, vp, nw)) => best_upto(s0, key, p as int) == Some(b as int)
                        && vp == victory_points_spec(self.content, s0, b as int)
                        && nw == net_worth_spec(self.content, s0, b as int)
                        && within(nw as int, 0x100_0000_0000_0000),
                    None => best_upto(s0, key, p as int) is None,
                },
            decreases n - p,
        {
            proof {
                assert(s0.players[p as int] == self.st.players@[p as int]@);
                assert(crate::state::player_bounded(s0.players[p as int], k));
                assert(crate::state::player_bounded(s0.players[p as int], budget_limit()));
            }
            if !self.st.players[p].bankrupt {
                let vp = self.st.victory_points(self.content, p);
                let nw = self.st.net_worth(self.content, p);
                best = match best {
                    None => Some((p, vp, nw)),
                    Some((b, bvp, bnw)) => {
                        proof {
                            lemma_lex_key(vp as int, nw as int, bvp as int, bnw as int);
                        }
                        if vp > bvp || (vp == bvp && nw > bnw) {
                            Some((p, vp, nw))
                        } else {
                            Some((b, bvp, bnw))
                        }
                    },
                };
            }
            p = p + 1;
        }
        if let Some((w, _, _)) = best {
            self.st.phase = GamePhase::Finished { winner: w };
            assert(self.st@ == (GameModel { phase: GamePhase::Finished { winner: w }, ..s0 }));
            self.ev.push(Event::WonByPoolExhaustion { winner: w });
        }
    }
}

/// Points first, then net worth: the combined key orders as the pair.
proof fn lemma_lex_key(a1: int, a2: int, b1: int, b2: int)
    requires
        within(a2, 0x100_0000_0000_0000),
        within(b2, 0x100_0000_0000_0000),
    ensures
        (a1 > b1 || (a1 == b1 && a2 > b2)) == (a1 * 0x1000_0000_0000_0000 + a2 > b1
            * 0x1000_0000_0000_0000 + b2),
{
    assert((a1 > b1 || (a1 == b1 && a2 > b2)) == (a1 * 0x1000_0000_0000_0000 + a2 > b1
        * 0x1000_0000_0000_0000 + b2)) by (nonlinear_arith)
        requires
            -0x100_0000_0000_0000 <= a2 <= 0x100_0000_0000_0000,
            -0x100_0000_0000_0000 <= b2 <= 0x100_0000_0000_0000,
    ;
}

impl<'e, R: RentCalculator, B: BankruptcyResolver> Exec<'e, R, B> {
    /// Forfeit: `p`'s assets return to the bank. This may complete a
    /// sealed-bid window still waiting on `p`.
    pub fn resign(&mut self, p: usize) -> (r: Result<(), CommandError>)
        requires
            old(self).ok(0),
            p < old(self).st@.players.len(),
        ensures
            r is Ok,
            final(self).ok(2000),
            final(self).kept(old(self)),
            final(self).st@.players.len() == old(self).st@.players.len(),
            final(self).st@.players[p as int].bankrupt,
            !(old(self).st@.phase is Active && old(self).st@.turn is BlindAuction) ==> resigned(old(self).st@, final(self).st@, p as int)
                && crate::apply::calm(old(self).st@, final(self).st@)
                && final(self).ev@ == crate::apply::cash::bankrupt_events(
                old(self).st@,
                p as int,
                None,
                old(self).ev@.push(Event::PlayerResigned { player: p }),
            ),
    {
        self.ev.push(Event::PlayerResigned { player: p });
        self.bankrupt(p, None, Ghost(0));
        if matches!(self.st.phase, GamePhase::Active) && matches!(self.st.turn, TurnPhase::BlindAuction { .. }) {
            let ghost before = self.st@;
            self.maybe_resolve_blind_auction();
            proof {
                assert(self.st@.players[p as int].bankrupt == before.players[p as int].bankrupt);
            }
        } else {
            proof {
                lemma_bounded_mono(self.st@, 0, 2000);
            }
        }
        Ok(())
    }
}

} // verus!
