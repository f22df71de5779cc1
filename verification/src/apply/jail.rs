//! Jail entry and the three exits: the Legal Route, the Corruption bribe
//! with its vote window, and the jail card.
use vstd::prelude::*;

use super::{Exec, cards_low, lemma_cash_ready, lemma_player_ready, ready};
use crate::content::is_jail;
use crate::error::CommandError;
use crate::event::Event;
use crate::state::{
    GameModel, PlayerModel, TurnModel, TurnPhase, alive, budget_limit, lemma_bounded_mono,
    player_bounded,
};
use crate::strategy::{BankruptcyResolver, RentCalculator};

verus! {

impl<'e, R: RentCalculator, B: BankruptcyResolver> Exec<'e, R, B> {
    /// Sends `p` to jail. A Legal Route in progress is revoked: the rent
    /// freeze must not outlive the route, and a normal hand waits for the
    /// next exit.
    pub fn go_to_jail(&mut self, p: usize, Ghost(k): Ghost<int>)
        requires
            old(self).ok(k),
            k + 2 <= budget_limit(),
            p < old(self).st@.players.len(),
        ensures
            final(self).st@.turn_count == old(self).st@.turn_count,
            final(self).ok(k + 2),
            final(self).kept(old(self)),
            cards_low(old(self).st@) ==> cards_low(final(self).st@),
            final(self).st@.players.len() == old(self).st@.players.len(),
            final(self).st@.players[p as int].jailed,
            final(self).st@.players[p as int].jail_route is None,
            is_jail(old(self).content, final(self).st@.players[p as int].position as int),
            final(self).st@.players[p as int].bankrupt == old(self).st@.players[p as int].bankrupt,
            final(self).st@.current == old(self).st@.current,
            final(self).st@.turn == old(self).st@.turn,
            final(self).st@.phase == old(self).st@.phase,
            final(self).st@.tiles == old(self).st@.tiles,
            ({
                let went = Event::WentToJail { player: p, from: old(self).st@.players[p as int].position };
                &&& old(self).ev@.len() < final(self).ev@.len()
                &&& final(self).ev@.last() == went
                &&& old(self).st@.players[p as int].jail_route is None ==> final(self).ev@ == old(self).ev@.push(went)
            }),
    {
        let from = self.st.players[p].position;
        let jail = self.content.jail_position();
        let had_route = self.st.players[p].jail_route.is_some();
        let mut pl = self.st.players[p].copy_of();
        pl.position = jail;
        pl.jailed = true;
        pl.jail_route = None;
        proof {
            assert(player_bounded(self.st@.players[p as int], k));
            lemma_player_ready(self.content, self.st@, p as int, pl@, k);
        }
        self.st.set_player(p, pl);
        if had_route {
            self.maybe_refill_hand(p, Ghost(k));
        } else {
            proof {
                lemma_bounded_mono(self.st@, k, k + 2);
            }
        }
        self.ev.push(Event::WentToJail { player: p, from });
    }
}

/// `order` is a Legal Route: every value of the hand `lo..=hi` exactly
/// once, in any order.
pub open spec fn is_route(order: Seq<u8>, lo: u8, hi: u8) -> bool {
    &&& order.len() == crate::state::full_hand(lo, hi).len()
    &&& forall|i: int| 0 <= i < order.len() ==> lo <= #[trigger] order[i] <= hi
    &&& forall|i: int, j: int| 0 <= i < j < order.len() ==> order[i] != order[j]
}

/// Why a jail exit by `p` is refused before its own check, if it is.
pub open spec fn exit_error(s: GameModel, p: int) -> Option<CommandError> {
    if s.turn != TurnModel::AwaitMove {
        Some(CommandError::WrongPhase)
    } else if !s.players[p].jailed {
        Some(CommandError::NotInJail)
    } else {
        None
    }
}

pub open spec fn route_error(c: &crate::content::GameContent, s: GameModel, p: int, order: Seq<u8>) -> Option<CommandError> {
    if exit_error(s, p) is Some {
        exit_error(s, p)
    } else if !is_route(order, c.rules.velocity_min, c.rules.velocity_max) {
        Some(CommandError::InvalidRoute)
    } else {
        None
    }
}

pub open spec fn bribe_error(s: GameModel, p: int, amount: i64) -> Option<CommandError> {
    if exit_error(s, p) is Some {
        exit_error(s, p)
    } else if amount < 1 || amount > s.players[p].cash {
        Some(CommandError::InsufficientFunds)
    } else {
        None
    }
}

pub open spec fn card_exit_error(s: GameModel, p: int) -> Option<CommandError> {
    if exit_error(s, p) is Some {
        exit_error(s, p)
    } else if s.players[p].jail_cards == 0 {
        Some(CommandError::NoJailCard)
    } else {
        None
    }
}

pub open spec fn vote_error(s: GameModel, p: int) -> Option<CommandError> {
    match s.turn {
        TurnModel::BribeVote { briber, votes, .. } => if p == briber {
            Some(CommandError::NotYourTurn)
        } else if votes[p] is Some {
            Some(CommandError::AlreadyVoted)
        } else {
            None
        },
        _ => Some(CommandError::WrongPhase),
    }
}

/// `s` once seat `p` has taken the Legal Route `order` out of jail: its
/// hand discarded, out of jail, the route locked in.
pub open spec fn route_chosen(s: GameModel, p: int, order: Seq<u8>) -> GameModel {
    crate::state::with_player(s, p, PlayerModel { hand: Seq::empty(), jailed: false, jail_route: Some(order), ..s.players[p] })
}

impl<'e, R: RentCalculator, B: BankruptcyResolver> Exec<'e, R, B> {
    /// Whether `order` is a Legal Route over the full hand.
    fn check_route(&self, order: &Vec<u8>) -> (r: bool)
        ensures
            r == is_route(order@, self.content.rules.velocity_min, self.content.rules.velocity_max),
    {
        let lo = self.content.rules.velocity_min;
        let hi = self.content.rules.velocity_max;
        let want: usize = if lo <= hi { (hi - lo) as usize + 1 } else { 0 };
        if order.len() != want {
            return false;
        }
        let n = order.len();
        let mut i: usize = 0;
        while i < n
            invariant
                n == order@.len(),
                lo == self.content.rules.velocity_min,
                hi == self.content.rules.velocity_max,
                i <= n,
                forall|a: int| 0 <= a < i ==> lo <= #[trigger] order@[a] <= hi,
                forall|a: int, b: int| 0 <= a < b < i ==> order@[a] != order@[b],
            decreases n - i,
        {
            let v = order[i];
            if v < lo || v > hi {
                return false;
            }
            let mut j: usize = 0;
            while j < i
                invariant
                    n == order@.len(),
                    j <= i < n,
                    v == order@[i as int],
                    forall|a: int| 0 <= a < j ==> order@[a] != v,
                decreases i - j,
            {
                if order[j] == v {
                    return false;
                }
                j = j + 1;
            }
            i = i + 1;
        }
        true
    }

    /// Legal Route exit: the hand is discarded, `p` leaves jail at once,
    /// the route locks and its first card plays in the same command.
    pub fn choose_legal_route(&mut self, p: usize, order: Vec<u8>) -> (r: Result<(), CommandError>)
        requires
            !old(self).st@.players[p as int].bankrupt,
            old(self).ok(0),
            cards_low(old(self).st@),
            p < old(self).st@.players.len(),
        ensures
            r is Err <==> route_error(old(self).content, old(self).st@, p as int, order@) is Some,
            r matches Err(e) ==> route_error(old(self).content, old(self).st@, p as int, order@) == Some(e),
            r is Ok ==> final(self).ok(crate::apply::movement::play_cost()) && final(self).kept(old(self))
                && final(self).st@.players.len() == old(self).st@.players.len(),
            r is Ok ==> crate::apply::movement::plain_move(
                old(self).content,
                old(self).rent,
                route_chosen(old(self).st@, p as int, order@),
                final(self).st@,
                p as int,
                order@[0],
            ),
    {
        if !matches!(self.st.turn, TurnPhase::AwaitMove) {
            return Err(CommandError::WrongPhase);
        }
        if !self.st.players[p].jailed {
            return Err(CommandError::NotInJail);
        }
        if !self.check_route(&order) {
            return Err(CommandError::InvalidRoute);
        }
        proof {
            crate::content::lemma_valid_content(self.content);
            assert(order@.len() > 0);
        }
        let mut pl = self.st.players[p].copy_of();
        pl.hand = Vec::new();
        pl.jailed = false;
        let shown = crate::state::copy_vec(&order);
        pl.jail_route = Some(order);
        proof {
            assert(player_bounded(self.st@.players[p as int], 0));
            lemma_player_ready(self.content, self.st@, p as int, pl@, 0);
        }
        let ghost o = order@;
        self.st.set_player(p, pl);
        proof {
            assert(self.st@.players =~= route_chosen(old(self).st@, p as int, o).players);
        }
        self.ev.push(Event::LeftJail { player: p });
        self.ev.push(Event::LegalRouteChosen { player: p, order: shown });
        self.play_route_front(p, Ghost(0));
        Ok(())
    }

    /// Corruption exit: offers `amount` to the table, opening a vote among
    /// the living opponents.
    pub fn offer_bribe(&mut self, p: usize, amount: i64) -> (r: Result<(), CommandError>)
        requires
            old(self).ok(0),
            p < old(self).st@.players.len(),
        ensures
            r is Err <==> bribe_error(old(self).st@, p as int, amount) is Some,
            r matches Err(e) ==> bribe_error(old(self).st@, p as int, amount) == Some(e),
            r is Ok ==> final(self).ok(0) && final(self).kept(old(self)) && final(self).st@ == (GameModel {
                turn: TurnModel::BribeVote {
                    briber: p,
                    amount,
                    votes: Seq::new(old(self).st@.players.len(), |i: int| None::<bool>),
                },
                ..old(self).st@
            }),
            r is Ok ==> final(self).ev@ == old(self).ev@.push(Event::BribeOffered { player: p, amount }),
    {
        if !matches!(self.st.turn, TurnPhase::AwaitMove) {
            return Err(CommandError::WrongPhase);
        }
        if !self.st.players[p].jailed {
            return Err(CommandError::NotInJail);
        }
        if amount < 1 || amount > self.st.players[p].cash {
            return Err(CommandError::InsufficientFunds);
        }
        let n = self.st.players.len();
        let mut votes: Vec<Option<bool>> = Vec::new();
        let mut i: usize = 0;
        while i < n
            invariant
                i <= n,
                votes@ == Seq::new(i as nat, |j: int| None::<bool>),
            decreases n - i,
        {
            votes.push(None);
            i = i + 1;
            assert(votes@ =~= Seq::new(i as nat, |j: int| None::<bool>));
        }
        proof {
            assert(player_bounded(self.st@.players[p as int], 0));
        }
        self.st.set_turn(TurnPhase::BribeVote { briber: p, amount, votes });
        self.ev.push(Event::BribeOffered { player: p, amount });
        Ok(())
    }

    /// Spends a held jail card: an immediate exit, then a normal move the
    /// same turn.
    pub fn use_jail_card(&mut self, p: usize) -> (r: Result<(), CommandError>)
        requires
            old(self).ok(0),
            p < old(self).st@.players.len(),
        ensures
            r is Err <==> card_exit_error(old(self).st@, p as int) is Some,
            r matches Err(e) ==> card_exit_error(old(self).st@, p as int) == Some(e),
            r is Ok ==> final(self).ok(0) && final(self).kept(old(self)) && final(self).st@ == crate::state::with_player(
                old(self).st@,
                p as int,
                PlayerModel {
                    jail_cards: (old(self).st@.players[p as int].jail_cards - 1) as u8,
                    jailed: false,
                    ..old(self).st@.players[p as int]
                },
            ),
            r is Ok ==> final(self).ev@ == old(self).ev@.push(Event::JailCardUsed { player: p }).push(
                Event::LeftJail { player: p },
            ),
    {
        if !matches!(self.st.turn, TurnPhase::AwaitMove) {
            return Err(CommandError::WrongPhase);
        }
        if !self.st.players[p].jailed {
            return Err(CommandError::NotInJail);
        }
        if self.st.players[p].jail_cards == 0 {
            return Err(CommandError::NoJailCard);
        }
        let mut pl = self.st.players[p].copy_of();
        pl.jail_cards = pl.jail_cards - 1;
        pl.jailed = false;
        proof {
            assert(player_bounded(self.st@.players[p as int], 0));
            lemma_player_ready(self.content, self.st@, p as int, pl@, 0);
        }
        self.st.set_player(p, pl);
        self.ev.push(Event::JailCardUsed { player: p });
        self.ev.push(Event::LeftJail { player: p });
        Ok(())
    }
}

/// A living seat other than the briber: one of the voters.
pub open spec fn voter(s: GameModel, briber: int, q: int) -> bool {
    alive(s, q) && q != briber
}

/// Voters below `n`.
pub open spec fn voters_upto(s: GameModel, briber: int, n: int) -> nat
    decreases n,
{
    if n <= 0 {
        0
    } else {
        voters_upto(s, briber, n - 1) + if voter(s, briber, n - 1) { 1nat } else { 0nat }
    }
}

/// Voters below `n` that accepted.
pub open spec fn accepts_upto(s: GameModel, votes: Seq<Option<bool>>, briber: int, n: int) -> nat
    decreases n,
{
    if n <= 0 {
        0
    } else {
        accepts_upto(s, votes, briber, n - 1) + if voter(s, briber, n - 1) && votes[n - 1] == Some(true) {
            1nat
        } else {
            0nat
        }
    }
}

/// The state after the vote closes. Strictly more than half the voters
/// must accept: then the amount is split evenly among them (floored; the
/// remainder stays with the briber) and the briber leaves jail with a
/// live turn. Otherwise no cash moves and the turn degrades to its end.
pub open spec fn bribe_outcome(s: GameModel, briber: int, amount: int, votes: Seq<Option<bool>>) -> GameModel {
    let n = s.players.len() as int;
    let m = voters_upto(s, briber, n);
    let acc = accepts_upto(s, votes, briber, n);
    if acc * 2 > m {
        let share = if m > 0 { amount / (m as int) } else { 0 };
        GameModel {
            players: Seq::new(s.players.len(), |q: int| if q == briber {
                PlayerModel { cash: (s.players[q].cash - share * m) as i64, jailed: false, ..s.players[q] }
            } else if voter(s, briber, q) {
                PlayerModel { cash: (s.players[q].cash + share) as i64, ..s.players[q] }
            } else {
                s.players[q]
            }),
            turn: TurnModel::AwaitMove,
            ..s
        }
    } else {
        GameModel { turn: TurnModel::AwaitEnd, ..s }
    }
}

/// The event that closes the bribe vote: whether it carried, with the
/// accepting and the counted voters.
pub open spec fn bribe_resolved(s: GameModel, briber: int, amount: int, votes: Seq<Option<bool>>) -> Event {
    let n = s.players.len() as int;
    let m = voters_upto(s, briber, n);
    let acc = accepts_upto(s, votes, briber, n);
    Event::BribeResolved {
        briber: briber as usize,
        amount: amount as i64,
        succeeded: acc * 2 > m,
        accepts: acc as usize,
        total: m as usize,
    }
}

/// Law: a bribe carries only when strictly more than half of the voters
/// (the living seats other than the briber) accept. Otherwise, exactly half
/// included, no cash moves, the briber stays as it was (jailed if it was)
/// and the turn awaits its end, and the announcement says it failed. When
/// it carries, the briber leaves jail and its turn goes on to a move.
pub proof fn law_bribe_needs_strict_majority(s: GameModel, briber: int, amount: int, votes: Seq<Option<bool>>)
    requires
        0 <= briber < s.players.len() <= usize::MAX,
    ensures
        ({
            let n = s.players.len() as int;
            let m = voters_upto(s, briber, n);
            let acc = accepts_upto(s, votes, briber, n);
            let out = bribe_outcome(s, briber, amount, votes);
            let ev = bribe_resolved(s, briber, amount, votes);
            &&& 2 * acc <= m ==> out == (GameModel { turn: TurnModel::AwaitEnd, ..s })
            &&& ev is BribeResolved
            &&& 2 * acc <= m ==> !ev->BribeResolved_succeeded
            &&& 2 * acc > m ==> out.turn == TurnModel::AwaitMove && !out.players[briber].jailed
            &&& 2 * acc > m ==> ev->BribeResolved_succeeded
            &&& ev->BribeResolved_accepts == acc && ev->BribeResolved_total == m
        }),
{
    lemma_voters_bound(s, votes, briber, s.players.len() as int);
}

/// Law: a carried bribe splits evenly: each voter receives the amount
/// divided by the number of voters (rounded down), the briber pays that
/// share once per voter and keeps the remainder, and every other seat and
/// the board are untouched.
pub proof fn law_bribe_split(s: GameModel, briber: int, amount: int, votes: Seq<Option<bool>>)
    requires
        0 <= briber < s.players.len() <= usize::MAX,
        2 * accepts_upto(s, votes, briber, s.players.len() as int) > voters_upto(s, briber, s.players.len() as int),
    ensures
        ({
            let n = s.players.len() as int;
            let m = voters_upto(s, briber, n) as int;
            let share = if m > 0 { amount / m } else { 0 };
            let out = bribe_outcome(s, briber, amount, votes);
            &&& out.players.len() == s.players.len()
            &&& out.players[briber].cash == (s.players[briber].cash - share * m) as i64
            &&& forall|q: int| 0 <= q < n && voter(s, briber, q) ==> #[trigger] out.players[q].cash == (s.players[q].cash
                + share) as i64
            &&& forall|q: int| 0 <= q < n && q != briber && !voter(s, briber, q) ==> #[trigger] out.players[q] == s.players[q]
            &&& out.tiles == s.tiles
        }),
{
}

/// The seats after a carried bribe: the briber pays `share` to each voter.
pub open spec fn paid_out(s: GameModel, briber: int, share: int, m: int) -> Seq<PlayerModel> {
    Seq::new(s.players.len(), |q: int| if q == briber {
        PlayerModel { cash: (s.players[q].cash - share * m) as i64, jailed: false, ..s.players[q] }
    } else if voter(s, briber, q) {
        PlayerModel { cash: (s.players[q].cash + share) as i64, ..s.players[q] }
    } else {
        s.players[q]
    })
}

proof fn lemma_paid_out_cash(s: GameModel, briber: int, share: int, m: int, n: int)
    requires
        0 <= n <= s.players.len(),
        0 <= share,
        0 <= m,
        share * m <= crate::state::cash_bound(0),
        share <= crate::state::cash_bound(0),
        forall|q: int| 0 <= q < s.players.len() ==> crate::state::within(#[trigger] s.players[q].cash as int, crate::state::cash_bound(0)),
    ensures
        crate::state::cash_upto(paid_out(s, briber, share, m), n) == crate::state::cash_upto(s.players, n)
            + share * voters_upto(s, briber, n) - if 0 <= briber < n { share * m } else { 0 },
    decreases n,
{
    if n > 0 {
        lemma_paid_out_cash(s, briber, share, m, n - 1);
        let v = voters_upto(s, briber, n - 1);
        assert(share * (v + 1) == share * v + share) by (nonlinear_arith);
        assert(crate::state::within(s.players[n - 1].cash as int, crate::state::cash_bound(0)));
        let np = paid_out(s, briber, share, m);
        let q = n - 1;
        assert(crate::state::cash_upto(np, n) == crate::state::cash_upto(np, n - 1) + np[q].cash);
        assert(crate::state::cash_upto(s.players, n) == crate::state::cash_upto(s.players, n - 1) + s.players[q].cash);
        assert(voters_upto(s, briber, n) == v + if voter(s, briber, q) { 1nat } else { 0nat });
        if q == briber {
            assert(np[q].cash == s.players[q].cash - share * m);
        } else if voter(s, briber, q) {
            assert(np[q].cash == s.players[q].cash + share);
        } else {
            assert(np[q].cash == s.players[q].cash);
        }
        if voter(s, briber, q) {
            assert(share * voters_upto(s, briber, n) == share * v + share);
        } else {
            assert(share * voters_upto(s, briber, n) == share * v);
        }
    } else {
        assert(share * voters_upto(s, briber, n) == 0) by (nonlinear_arith)
            requires
                voters_upto(s, briber, n) == 0,
        ;
    }
}

/// Law: a bribe only moves cash from the briber to the voters; the table's
/// total is unchanged whatever the vote.
#[verifier::spinoff_prover]
#[verifier::rlimit(40)]
pub proof fn law_bribe_keeps_cash(c: &crate::content::GameContent, s: GameModel, p: int, accept: bool)
    requires
        ready(c, s, 0),
        0 <= p < s.players.len(),
        vote_error(s, p) is None,
    ensures
        ({
            let briber = s.turn->BribeVote_briber;
            let amount = s.turn->BribeVote_amount;
            let votes = s.turn->BribeVote_votes.update(p, Some(accept));
            let s1 = GameModel { turn: TurnModel::BribeVote { briber, amount, votes }, ..s };
            &&& crate::state::total_cash(s1) == crate::state::total_cash(s)
            &&& crate::state::total_cash(bribe_outcome(s1, briber as int, amount as int, votes)) == crate::state::total_cash(s)
        }),
{
    let briber = s.turn->BribeVote_briber as int;
    let amount = s.turn->BribeVote_amount as int;
    let votes = s.turn->BribeVote_votes.update(p, Some(accept));
    let s1 = GameModel { turn: TurnModel::BribeVote { briber: briber as usize, amount: amount as i64, votes }, ..s };
    let n = s.players.len() as int;
    let m = voters_upto(s1, briber, n) as int;
    lemma_voters_bound(s1, votes, briber, n);
    assert(0 <= briber < n);
    assert(0 <= amount <= crate::state::cash_bound(0));
    if accepts_upto(s1, votes, briber, n) * 2 > m {
        let share = if m > 0 { amount / m } else { 0 };
        assert(share * m <= amount) by (nonlinear_arith)
            requires
                m > 0 ==> share == amount / m,
                m <= 0 ==> share == 0,
                amount >= 0,
                m >= 0,
        ;
        assert(share <= amount) by (nonlinear_arith)
            requires
                m > 0 ==> share == amount / m,
                m <= 0 ==> share == 0,
                amount >= 0,
                m >= 0,
        ;
        assert(share >= 0) by (nonlinear_arith)
            requires
                m > 0 ==> share == amount / m,
                m <= 0 ==> share == 0,
                amount >= 0,
                m >= 0,
        ;
        assert forall|q: int| 0 <= q < s1.players.len() implies crate::state::within(#[trigger] s1.players[q].cash as int, crate::state::cash_bound(0)) by {
            assert(player_bounded(s.players[q], 0));
        }
        lemma_paid_out_cash(s1, briber, share, m, n);
        assert(bribe_outcome(s1, briber, amount, votes).players == paid_out(s1, briber, share, m));
    }
}

/// Every voter has voted.
pub open spec fn all_voted(s: GameModel, briber: int, votes: Seq<Option<bool>>) -> bool {
    forall|q: int| 0 <= q < s.players.len() && voter(s, briber, q) ==> #[trigger] votes[q] is Some
}

proof fn lemma_voters_bound(s: GameModel, votes: Seq<Option<bool>>, briber: int, n: int)
    ensures
        n >= 0 ==> voters_upto(s, briber, n) <= n,
        accepts_upto(s, votes, briber, n) <= voters_upto(s, briber, n),
    decreases n,
{
    if n > 0 {
        lemma_voters_bound(s, votes, briber, n - 1);
    }
}

impl<'e, R: RentCalculator, B: BankruptcyResolver> Exec<'e, R, B> {
    /// Casts `p`'s vote on the open bribe; resolves it once every voter
    /// has voted.
    pub fn vote_on_bribe(&mut self, p: usize, accept: bool) -> (r: Result<(), CommandError>)
        requires
            old(self).ok(0),
            p < old(self).st@.players.len(),
        ensures
            r is Err <==> vote_error(old(self).st@, p as int) is Some,
            r matches Err(e) ==> vote_error(old(self).st@, p as int) == Some(e),
            r is Ok ==> final(self).ok(1000) && final(self).kept(old(self))
                && final(self).st@.players.len() == old(self).st@.players.len(),
            r is Ok ==> ({
                let briber = old(self).st@.turn->BribeVote_briber;
                let amount = old(self).st@.turn->BribeVote_amount;
                let votes = old(self).st@.turn->BribeVote_votes.update(p as int, Some(accept));
                let s1 = GameModel { turn: TurnModel::BribeVote { briber, amount, votes }, ..old(self).st@ };
                let e1 = old(self).ev@.push(Event::BribeVoteCast { player: p });
                if all_voted(s1, briber as int, votes) {
                    final(self).st@ == bribe_outcome(s1, briber as int, amount as int, votes)
                        && final(self).ev@ == e1.push(bribe_resolved(s1, briber as int, amount as int, votes))
                } else {
                    final(self).st@ == s1 && final(self).ev@ == e1
                }
            }),
    {
        let (briber, amount, voted) = match &self.st.turn {
            TurnPhase::BribeVote { briber, amount, votes } => (*briber, *amount, votes[p].is_some()),
            _ => {
                return Err(CommandError::WrongPhase);
            },
        };
        if p == briber {
            return Err(CommandError::NotYourTurn);
        }
        if voted {
            return Err(CommandError::AlreadyVoted);
        }
        let mut votes = match &self.st.turn {
            TurnPhase::BribeVote { votes, .. } => crate::state::copy_vec(votes),
            _ => Vec::new(),
        };
        votes.set(p, Some(accept));
        self.st.set_turn(TurnPhase::BribeVote { briber, amount, votes });
        self.ev.push(Event::BribeVoteCast { player: p });
        self.maybe_resolve_bribe_vote();
        Ok(())
    }

    /// Resolves the open bribe vote once every voter has voted; a no-op
    /// otherwise. See `bribe_outcome`.
    pub fn maybe_resolve_bribe_vote(&mut self)
        requires
            old(self).ok(0),
        ensures
            final(self).ok(1000),
            final(self).kept(old(self)),
            final(self).st@.players.len() == old(self).st@.players.len(),
            match old(self).st@.turn {
                TurnModel::BribeVote { briber, amount, votes } => if all_voted(old(self).st@, briber as int, votes) {
                    final(self).st@ == bribe_outcome(old(self).st@, briber as int, amount as int, votes)
                        && final(self).ev@ == old(self).ev@.push(bribe_resolved(old(self).st@, briber as int, amount as int, votes))
                } else {
                    final(self).st@ == old(self).st@ && final(self).ev@ == old(self).ev@
                },
                _ => final(self).st@ == old(self).st@ && final(self).ev@ == old(self).ev@,
            },
    {
        proof {
            lemma_bounded_mono(self.st@, 0, 1000);
        }
        let ghost s0 = self.st@;
        let ghost e0 = self.ev@;
        let (briber, amount) = match &self.st.turn {
            TurnPhase::BribeVote { briber, amount, .. } => (*briber, *amount),
            _ => {
                return;
            },
        };
        let votes = match &self.st.turn {
            TurnPhase::BribeVote { votes, .. } => crate::state::copy_vec(votes),
            _ => Vec::new(),
        };
        let ghost gv = votes@;
        proof {
            assert(s0.turn == (TurnModel::BribeVote { briber, amount, votes: gv }));
        }
        let n = self.st.players.len();
        let mut voters: usize = 0;
        let mut accepts: usize = 0;
        let mut i: usize = 0;
        while i < n
            invariant
                n == s0.players.len(),
                self.st@ == s0,
                self.ev@ == e0,
                self.ok(1000),
                self.kept(old(self)),
                s0 == old(self).st@,
                s0.turn == (TurnModel::BribeVote { briber, amount, votes: gv }),
                votes@ == gv,
                gv.len() == n,
                i <= n,
                voters == voters_upto(s0, briber as int, i as int),
                accepts == accepts_upto(s0, gv, briber as int, i as int),
                voters <= i,
                accepts <= voters,
                forall|j: int| 0 <= j < i && voter(s0, briber as int, j) ==> #[trigger] gv[j] is Some,
            decreases n - i,
        {
            proof {
                assert(s0.players[i as int] == self.st.players@[i as int]@);
            }
            if !self.st.players[i].bankrupt && i != briber {
                if votes[i].is_none() {
                    return;
                }
                voters = voters + 1;
                if votes[i] == Some(true) {
                    accepts = accepts + 1;
                }
            }
            i = i + 1;
        }
        let succeeded = accepts * 2 > voters;
        if succeeded {
            let share: i64 = if voters > 0 {
                amount / (voters as i64)
            } else {
                0
            };
            proof {
                lemma_voters_bound(s0, gv, briber as int, n as int);
                assert(crate::state::turn_bounded(s0.turn, 0));
                assert(0 <= share * voters <= amount) by (nonlinear_arith)
                    requires
                        amount >= 0,
                        voters > 0 ==> share == (amount as int) / (voters as int),
                        voters == 0 ==> share == 0,
                ;
                assert(share <= amount) by (nonlinear_arith)
                    requires
                        amount >= 0,
                        voters > 0 ==> share == (amount as int) / (voters as int),
                        voters == 0 ==> share == 0,
                ;
            }
            self.pay_bribe(briber, share, voters, Ghost(gv));
            self.st.set_turn(TurnPhase::AwaitMove);
        } else {
            self.st.set_turn(TurnPhase::AwaitEnd);
        }
        self.ev.push(Event::BribeResolved { briber, amount, succeeded, accepts, total: voters });
        proof {
            let out = bribe_outcome(s0, briber as int, amount as int, gv);
            assert(self.st@.players =~= out.players);
            assert(self.st@ == out);
        }
    }

    /// Moves `share` from the briber to each voter and frees the briber.
    fn pay_bribe(&mut self, briber: usize, share: i64, voters: usize, Ghost(gv): Ghost<Seq<Option<bool>>>)
        requires
            old(self).ok(1000),
            briber < old(self).st@.players.len(),
            voters == voters_upto(old(self).st@, briber as int, old(self).st@.players.len() as int),
            0 <= share <= 0x10_0000_0000_0000,
            voters <= 64,
            0 <= share * voters <= crate::state::cash_bound(0),
            share <= crate::state::cash_bound(0),
            forall|q: int| 0 <= q < old(self).st@.players.len() ==> player_bounded(#[trigger] old(self).st@.players[q], 0),
        ensures
            final(self).ok(1000),
            final(self).kept(old(self)),
            final(self).ev@ == old(self).ev@,
            final(self).st@ == (GameModel {
                players: Seq::new(old(self).st@.players.len(), |q: int| if q == briber {
                    PlayerModel { cash: (old(self).st@.players[q].cash - share * voters) as i64, jailed: false, ..old(self).st@.players[q] }
                } else if voter(old(self).st@, briber as int, q) {
                    PlayerModel { cash: (old(self).st@.players[q].cash + share) as i64, ..old(self).st@.players[q] }
                } else {
                    old(self).st@.players[q]
                }),
                ..old(self).st@
            }),
    {
        let ghost s0 = self.st@;
        let mut pl = self.st.players[briber].copy_of();
        proof {
            assert(player_bounded(s0.players[briber as int], 0));
        }
        pl.cash = pl.cash - share * (voters as i64);
        pl.jailed = false;
        proof {
            lemma_player_ready(self.content, self.st@, briber as int, pl@, 1000);
        }
        self.st.set_player(briber, pl);
        let n = self.st.players.len();
        let mut q: usize = 0;
        while q < n
            invariant
                n == s0.players.len(),
                q <= n,
                self.ok(1000),
                self.kept(old(self)),
                self.ev@ == old(self).ev@,
                s0 == old(self).st@,
                briber < n,
                share <= crate::state::cash_bound(0),
                0 <= share,
                forall|j: int| 0 <= j < n ==> player_bounded(#[trigger] s0.players[j], 0),
                self.st@ == (GameModel { players: self.st@.players, ..s0 }),
                self.st@.players.len() == n,
                forall|j: int| 0 <= j < n ==> #[trigger] self.st@.players[j] == if j == briber {
                    PlayerModel { cash: (s0.players[j].cash - share * voters) as i64, jailed: false, ..s0.players[j] }
                } else if voter(s0, briber as int, j) && j < q {
                    PlayerModel { cash: (s0.players[j].cash + share) as i64, ..s0.players[j] }
                } else {
                    s0.players[j]
                },
            decreases n - q,
        {
            assert(s0.players[q as int] == old(self).st.players@[q as int]@);
            if !self.st.players[q].bankrupt && q != briber {
                let c = self.st.players[q].cash;
                proof {
                    assert(self.st@.players[q as int] == s0.players[q as int]);
                    lemma_cash_ready(self.content, self.st@, q as int, c + share, 1000);
                }
                self.st.set_cash(q, c + share);
            }
            q = q + 1;
        }
        proof {
            let out = Seq::new(s0.players.len(), |j: int| if j == briber {
                PlayerModel { cash: (s0.players[j].cash - share * voters) as i64, jailed: false, ..s0.players[j] }
            } else if voter(s0, briber as int, j) {
                PlayerModel { cash: (s0.players[j].cash + share) as i64, ..s0.players[j] }
            } else {
                s0.players[j]
            });
            assert(self.st@.players =~= out);
        }
    }
}

} // verus!
