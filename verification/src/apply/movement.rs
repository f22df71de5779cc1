//! Movement by card: playing a card, hand refills (the round metronome),
//! board motion and the Go salary.
use vstd::prelude::*;

use super::{Exec, cards_low, lemma_cash_ready, lemma_player_ready, ready};
use crate::error::CommandError;
use crate::event::Event;
use crate::apply::landing::quiet_turn;
use crate::content::GameContent;
use crate::state::{
    GameModel, GameState, Player, PlayerModel, TurnModel, TurnPhase, alive, best_upto,
    budget_limit, cash_bound, cash_key, copy_vec, count_limit, full_hand, lemma_best_alive,
    lemma_bounded_mono, min_cycles_upto, player_bounded, round_spec, with_cash, with_player,
    within,
};
use crate::strategy::{BankruptcyResolver, RentCalculator};
use crate::tuning::ROUND_BONUS_VP;

verus! {

/// Why a movement card cannot be played now, if it cannot.
pub open spec fn movement_error(s: GameModel, p: int, value: u8) -> Option<CommandError> {
    if s.turn != TurnModel::AwaitMove {
        Some(CommandError::WrongPhase)
    } else if s.players[p].jailed {
        Some(CommandError::CardNotPlayable)
    } else if s.players[p].jail_route is Some {
        if s.players[p].jail_route->0[0] != value {
            Some(CommandError::CardNotPlayable)
        } else {
            None
        }
    } else if !s.players[p].hand.contains(value) {
        Some(CommandError::CardNotPlayable)
    } else {
        None
    }
}

/// Landing on a card tile at the end of a move of `value` tiles, `p`
/// draws the next card of `deck`; a card that sends the token nowhere and
/// charges nobody else is carried out from `p`'s standing on arrival
/// (money from the bank, or to it when covered above the bankruptcy
/// threshold; a held jail card; jail), and the turn then awaits its end;
/// the game goes on unless `may_end` lets the win checks that follow a
/// command end it.
pub open spec fn card_on_arrival(
    c: &GameContent,
    s: GameModel,
    f: GameModel,
    p: int,
    value: u8,
    deck: crate::event::DeckKind,
    may_end: bool,
) -> bool {
    let t = (s.players[p].position + value) % (c.board@.len() as int);
    let cash = cash_on_arrival(c, s, p, value);
    let stays = {
        &&& f.players[p].position == t
        &&& f.players[p].bankrupt == s.players[p].bankrupt
        &&& f.tiles == s.tiles
        &&& f.turn == TurnModel::AwaitEnd
        &&& f.current == s.current
        &&& crate::apply::landing::deck_of(f, deck) == crate::apply::landing::deck_of(
            crate::apply::landing::after_draw(s, deck),
            deck,
        )
        &&& !may_end ==> f.phase == s.phase
    };
    match crate::apply::landing::next_card(c, s, deck).effect {
        crate::content::CardEffect::Money { amount } => (amount >= 0 || cash >= -amount + c.rules.bankruptcy_threshold)
            ==> stays && f.players[p].cash == cash + amount,
        crate::content::CardEffect::GetOutOfJail => stays && f.players[p].cash == cash && f.players[p].jail_cards
            == s.players[p].jail_cards + 1,
        crate::content::CardEffect::GoToJail => f.players[p].jailed && crate::content::is_jail(c, f.players[p].position as int)
            && f.turn == TurnModel::AwaitEnd && f.tiles == s.tiles && f.players[p].bankrupt == s.players[p].bankrupt
            && f.current == s.current,
        _ => true,
    }
}

/// The deck a card tile draws from.
pub open spec fn deck_at(c: &GameContent, t: int) -> crate::event::DeckKind {
    if c.board@[t].kind is Chance {
        crate::event::DeckKind::Chance
    } else {
        crate::event::DeckKind::Community
    }
}

/// A card tile whose deck holds cards.
pub open spec fn draws_card(c: &GameContent, s: GameModel, t: int) -> bool {
    (c.board@[t].kind is Chance || c.board@[t].kind is Community)
        && crate::apply::landing::deck_of(s, deck_at(c, t)).order.len() > 0
}

/// What a command's caller sees of a plain move once the turn has
/// settled: after a quiet landing, the mover on the target tile with its
/// Legal Route advanced, the board unchanged, the same seat to act, and the
/// landing's turn unless the game just ended; after a rival's rent (from
/// the base rent the rent rule gives) or a fixed tax paid in full, the money moved and the turn awaiting
/// its end.
pub open spec fn quiet_move<R: RentCalculator>(c: &GameContent, rent: &R, s: GameModel, f: GameModel, p: int, value: u8) -> bool {
    let t = (s.players[p].position + value) % (c.board@.len() as int);
    &&& quiet_turn(c, s, p, t) matches Some(tt) ==> {
        &&& f.players[p].position == t
        &&& f.players[p].jail_route == route_after_play(s.players[p].jail_route)
        &&& f.tiles == s.tiles
        &&& f.current == s.current
        &&& (f.phase is Active ==> f.turn == tt)
    }
    &&& c.board@[t].kind is Property && crate::apply::landing::charges_rent(s, p, t) ==> paid_on_arrival(
            c,
            s,
            f,
            p,
            value,
            s.tiles[t].owner,
            crate::apply::landing::rent_due(c, s, t, rent.spec_rent(c, s.tiles, t)),
            crate::apply::landing::unboosted(s, t).tiles,
            true,
        )
    &&& c.board@[t].kind matches crate::content::TileKind::Tax { amount } ==> (amount > 0 ==> paid_on_arrival(
        c,
        s,
        f,
        p,
        value,
        None,
        amount as int,
        s.tiles,
        true,
    ))
    &&& draws_card(c, s, t) ==> card_on_arrival(c, s, f, p, value, deck_at(c, t), true)
}

/// A Legal Route once its front card is played: the rest of it, or none
/// when that was the last card.
pub open spec fn advanced(route: Seq<u8>) -> Option<Seq<u8>> {
    if route.len() <= 1 {
        None
    } else {
        Some(route.drop_first())
    }
}

/// A seat's Legal Route after it plays a movement card: a route advances,
/// no route stays none.
pub open spec fn route_after_play(route: Option<Seq<u8>>) -> Option<Seq<u8>> {
    match route {
        Some(r) => advanced(r),
        None => None,
    }
}

/// The cash `p` holds on arriving after a move of `value` tiles: the Go
/// salary is added when the move wraps round the board.
pub open spec fn cash_on_arrival(c: &GameContent, s: GameModel, p: int, value: u8) -> int {
    s.players[p].cash + if s.players[p].position + value >= c.board@.len() {
        c.rules.go_salary as int
    } else {
        0
    }
}

/// Landing at the end of a move of `value` tiles, `p` pays `amount` in
/// full to `creditor` (`None` = the bank) from its cash on arrival, when
/// that cash covers it above the bankruptcy threshold; the turn then
/// awaits its end with the board as `tiles`, and the game goes on unless
/// `may_end` lets the win checks that follow a command end it.
pub open spec fn paid_on_arrival(
    c: &GameContent,
    s: GameModel,
    f: GameModel,
    p: int,
    value: u8,
    creditor: Option<usize>,
    amount: int,
    tiles: Seq<crate::state::TileState>,
    may_end: bool,
) -> bool {
    let cash = cash_on_arrival(c, s, p, value);
    cash >= amount + c.rules.bankruptcy_threshold ==> {
        &&& f.players[p].cash == cash - amount
        &&& f.players[p].bankrupt == s.players[p].bankrupt
        &&& creditor matches Some(o) ==> f.players[o as int].cash == s.players[o as int].cash + amount
        &&& f.players[p].position == (s.players[p].position + value) % (c.board@.len() as int)
        &&& f.tiles == tiles
        &&& f.turn == TurnModel::AwaitEnd
        &&& f.current == s.current
        &&& !may_end ==> f.phase == s.phase
    }
}

/// A plain move seen after the win checks that close a command: as long
/// as the mover, the seat to act, stays in the game, the turn does not pass
/// on and only the phase may change.
pub proof fn lemma_move_settled<R: RentCalculator>(c: &GameContent, rent: &R, a: GameModel, h: GameModel, f: GameModel, p: int, value: u8)
    requires
        0 <= p < a.players.len(),
        p == a.current,
        !a.players[p].bankrupt,
        plain_move(c, rent, a, h, p, value),
        !crate::apply::passes_turn(h) ==> f == crate::apply::wins_settled(c, h),
    ensures
        quiet_move(c, rent, a, f, p, value),
{
    let t = (a.players[p].position + value) % (c.board@.len() as int);
    let stays = h.current == a.current && !h.players[p].bankrupt;
    if stays {
        assert(!crate::apply::passes_turn(h));
        assert(f == (GameModel { phase: f.phase, ..h }));
    }
    if quiet_turn(c, a, p, t) is Some {
        assert(!h.players[p].bankrupt);
    }
}

/// A card drawn on arrival carries over from the state the token arrived
/// in (`s3`) to the state the move started from (`s0`).
proof fn lemma_card_on_arrival<R: RentCalculator>(c: &GameContent, rent: &R, s0: GameModel, s3: GameModel, f: GameModel, p: int, value: u8)
    requires
        0 <= p < s0.players.len(),
        c.board@.len() > 0,
        s3.players.len() == s0.players.len(),
        s3.players[p].position == (s0.players[p].position + value) % (c.board@.len() as int),
        s3.players[p].cash == cash_on_arrival(c, s0, p, value),
        s3.players[p].bankrupt == s0.players[p].bankrupt,
        s3.players[p].jail_cards == s0.players[p].jail_cards,
        s3.tiles == s0.tiles,
        s3.current == s0.current,
        s3.phase == s0.phase,
        s3.chance_deck == s0.chance_deck,
        s3.community_deck == s0.community_deck,
        crate::state::player_bounded(s0.players[p], crate::state::budget_limit()),
        ({
            let t = s3.players[p].position as int;
            draws_card(c, s3, t) ==> crate::apply::landing::card_settled(
                c,
                rent,
                crate::apply::landing::after_draw(s3, deck_at(c, t)),
                f,
                p,
                crate::apply::landing::next_card(c, s3, deck_at(c, t)),
                0,
            )
        }),
        draws_card(c, s0, (s0.players[p].position + value) % (c.board@.len() as int)),
    ensures
        card_on_arrival(
            c,
            s0,
            f,
            p,
            value,
            deck_at(c, (s0.players[p].position + value) % (c.board@.len() as int)),
            false,
        ),
{
    let t = (s0.players[p].position + value) % (c.board@.len() as int);
    let deck = deck_at(c, t);
    assert(crate::apply::landing::deck_of(s3, deck) == crate::apply::landing::deck_of(s0, deck));
    assert(draws_card(c, s3, t));
    assert(crate::apply::landing::next_card(c, s3, deck) == crate::apply::landing::next_card(c, s0, deck));
    let a3 = crate::apply::landing::after_draw(s3, deck);
    assert(a3.players == s3.players && a3.tiles == s3.tiles && a3.current == s3.current && a3.phase == s3.phase);
    assert(crate::apply::landing::deck_of(a3, deck) == crate::apply::landing::deck_of(
        crate::apply::landing::after_draw(s0, deck),
        deck,
    ));
}

/// What the landing at the end of a plain move did to the state the token
/// arrived in (`s3`) carries over to the state the move started from
/// (`s0`): the mover's hand or route may have changed in between, and its
/// hand may have been refilled.
proof fn lemma_plain_move<R: RentCalculator>(
    c: &GameContent,
    rent: &R,
    s0: GameModel,
    s1: GameModel,
    s2: GameModel,
    s3: GameModel,
    f: GameModel,
    p: int,
    value: u8,
)
    requires
        0 <= p < s0.players.len(),
        c.board@.len() > 0,
        crate::state::state_wf(c, s0),
        crate::state::state_bounded(s0, crate::state::budget_limit()),
        s3.players[p].position == (s0.players[p].position + value) % (c.board@.len() as int),
        s2.players[p].position + value >= c.board@.len() ==> i64::MIN <= s2.players[p].cash + c.rules.go_salary <= i64::MAX,
        s1 == with_player(s0, p, PlayerModel {
            hand: s1.players[p].hand,
            jail_route: s1.players[p].jail_route,
            ..s0.players[p]
        }),
        s1.players[p].jail_route == route_after_play(s0.players[p].jail_route),
        s2.players.len() == s1.players.len(),
        s2.forecast == s1.forecast,
        s2.spotlight == s1.spotlight,
        s2.chance_deck == s1.chance_deck,
        s2.community_deck == s1.community_deck,
        s2.tiles == s1.tiles,
        s2.phase == s1.phase,
        s2.current == s1.current,
        forall|q: int| 0 <= q < s1.players.len() ==> (#[trigger] s2.players[q]).cash == s1.players[q].cash
            && s2.players[q].position == s1.players[q].position && s2.players[q].jail_route == s1.players[q].jail_route
            && s2.players[q].bankrupt == s1.players[q].bankrupt && s2.players[q].jail_cards == s1.players[q].jail_cards,
        ({
            let raw = s2.players[p].position + value;
            let moved = with_player(s2, p, PlayerModel {
                position: (raw % (c.board@.len() as int)) as usize,
                ..s2.players[p]
            });
            s3 == if raw >= c.board@.len() {
                with_cash(moved, p, moved.players[p].cash + c.rules.go_salary)
            } else {
                moved
            }
        }),
        ({
            let t = s3.players[p].position as int;
            &&& quiet_turn(c, s3, p, t) matches Some(tt) ==> f == (GameModel { turn: tt, ..s3 })
            &&& draws_card(c, s3, t) ==> crate::apply::landing::card_settled(
                c,
                rent,
                crate::apply::landing::after_draw(s3, deck_at(c, t)),
                f,
                p,
                crate::apply::landing::next_card(c, s3, deck_at(c, t)),
                0,
            )
            &&& c.board@[t].kind is GoToJail ==> f.players[p].jailed && crate::content::is_jail(c, f.players[p].position as int)
                && f.turn == TurnModel::AwaitEnd && f.tiles == s3.tiles
            &&& c.board@[t].kind is Property && crate::apply::landing::charges_rent(s3, p, t)
                ==> crate::apply::landing::rent_settled(c, s3, f, p, t, rent.spec_rent(c, s3.tiles, t))
            &&& c.board@[t].kind matches crate::content::TileKind::Tax { amount } ==> (amount > 0
                && s3.players[p].cash >= amount + c.rules.bankruptcy_threshold ==> f == (GameModel {
                turn: TurnModel::AwaitEnd,
                ..crate::apply::cash::paid(s3, p, None, amount as int)
            }))
        }),
    ensures
        plain_move(c, rent, s0, f, p, value),
{
    let t = (s0.players[p].position + value) % (c.board@.len() as int);
    assert(s2.players[p].position == s1.players[p].position && s2.players[p].cash == s1.players[p].cash
        && s2.players[p].bankrupt == s1.players[p].bankrupt);
    assert(s1.players[p].position == s0.players[p].position);
    let raw = s2.players[p].position + value;
    let moved = with_player(s2, p, PlayerModel {
        position: (raw % (c.board@.len() as int)) as usize,
        ..s2.players[p]
    });
    assert(s3.players[p].position == t);
    assert(s3.players[p].cash == cash_on_arrival(c, s0, p, value));
    assert(s3.tiles == s0.tiles);
    assert(s3.phase == s0.phase && s3.current == s0.current);
    assert(s3.forecast == s0.forecast && s3.spotlight == s0.spotlight);
    assert forall|q: int| 0 <= q < s0.players.len() && q != p implies #[trigger] s3.players[q].cash == s0.players[q].cash
        && s3.players[q].jail_route == s0.players[q].jail_route by {
        assert(s2.players[q].cash == s1.players[q].cash);
    }
    assert forall|q: int| 0 <= q < s0.players.len() implies #[trigger] s3.players[q].bankrupt == s0.players[q].bankrupt by {
        assert(s2.players[q].bankrupt == s1.players[q].bankrupt);
    }
    if quiet_turn(c, s0, p, t) is Some {
        if let Some(o) = s0.tiles[t].owner {
            if o as int != p {
                assert(s3.players[o as int].jail_route == s0.players[o as int].jail_route);
            }
        }
        assert(quiet_turn(c, s3, p, t) == quiet_turn(c, s0, p, t));
    }
    if draws_card(c, s0, t) {
        lemma_card_on_arrival(c, rent, s0, s3, f, p, value);
    }
    if c.board@[t].kind is Property && crate::apply::landing::charges_rent(s0, p, t) {
        let o = s0.tiles[t].owner->0 as int;
        assert(s3.players[o].jail_route == s0.players[o].jail_route);
        assert(crate::apply::landing::charges_rent(s3, p, t));
        let base = rent.spec_rent(c, s0.tiles, t);
        let due = crate::apply::landing::rent_due(c, s0, t, base);
        assert(crate::apply::landing::rent_due(c, s3, t, base) == due);
        assert(crate::apply::landing::unboosted(s3, t).tiles == crate::apply::landing::unboosted(s0, t).tiles);
        assert(crate::state::player_bounded(s0.players[o], crate::state::budget_limit()));
        assert(s3.players[o].cash == s0.players[o].cash);
        assert(paid_on_arrival(c, s0, f, p, value, s0.tiles[t].owner, due, crate::apply::landing::unboosted(s0, t).tiles, false));
    }
}

/// A plain move of `value` tiles by `p` from `s` ending in `f`: where the
/// landing is quiet the mover stands on the target tile with its Legal
/// Route advanced, the board and everyone's standing are unchanged, and
/// the turn is the landing's; a go-to-jail tile jails the mover and ends
/// the move; a rival's rent (from the base rent the rent rule gives)
/// and a fixed tax are paid in full when the mover's cash covers them.
pub open spec fn plain_move<R: RentCalculator>(c: &GameContent, rent: &R, s: GameModel, f: GameModel, p: int, value: u8) -> bool {
    let t = (s.players[p].position + value) % (c.board@.len() as int);
    &&& c.board@[t].kind is Property && crate::apply::landing::charges_rent(s, p, t) ==> paid_on_arrival(
            c,
            s,
            f,
            p,
            value,
            s.tiles[t].owner,
            crate::apply::landing::rent_due(c, s, t, rent.spec_rent(c, s.tiles, t)),
            crate::apply::landing::unboosted(s, t).tiles,
            false,
        )
    &&& c.board@[t].kind matches crate::content::TileKind::Tax { amount } ==> (amount > 0 ==> paid_on_arrival(
        c,
        s,
        f,
        p,
        value,
        None,
        amount as int,
        s.tiles,
        false,
    ))
    &&& draws_card(c, s, t) ==> card_on_arrival(c, s, f, p, value, deck_at(c, t), false)
    &&& quiet_turn(c, s, p, t) matches Some(tt) ==> {
        &&& f.players[p].position == t
        &&& f.players[p].jail_route == route_after_play(s.players[p].jail_route)
        &&& f.tiles == s.tiles
        &&& f.turn == tt
        &&& f.phase == s.phase
        &&& f.current == s.current
        &&& forall|q: int| 0 <= q < s.players.len() ==> #[trigger] f.players[q].bankrupt == s.players[q].bankrupt
    }
    &&& c.board@[t].kind is GoToJail ==> f.players[p].jailed && crate::content::is_jail(c, f.players[p].position as int)
        && f.turn == TurnModel::AwaitEnd
}

/// `a` is `s` once `p` has played `value` from its hand and walked to the
/// target tile: only `p`'s hand, its hand count, its position and its cash
/// (by the Go salary), and the seats' round bonuses differ.
pub open spec fn arrived(c: &GameContent, s: GameModel, a: GameModel, p: int, value: u8) -> bool {
    let t = (s.players[p].position + value) % (c.board@.len() as int);
    &&& a == (GameModel { players: a.players, ..s })
    &&& a.players.len() == s.players.len()
    &&& a.players[p] == (PlayerModel {
        position: t as usize,
        cash: cash_on_arrival(c, s, p, value) as i64,
        hand: a.players[p].hand,
        hands_cycled: a.players[p].hands_cycled,
        round_bonus_vp: a.players[p].round_bonus_vp,
        ..s.players[p]
    })
    &&& forall|q: int| 0 <= q < s.players.len() && q != p ==> #[trigger] a.players[q]
        == (PlayerModel { round_bonus_vp: a.players[q].round_bonus_vp, ..s.players[q] })
}

/// The events of playing `value` from the hand, appended to `before`: the
/// card played, the move at `m` (with the salary where Go was passed), then
/// the landing resolved from the arrival state `a`.
pub open spec fn walked<R: RentCalculator>(
    c: &GameContent,
    rent: &R,
    s: GameModel,
    a: GameModel,
    p: int,
    value: u8,
    before: Seq<Event>,
    after: Seq<Event>,
    m: int,
) -> bool {
    let from = s.players[p].position;
    let raw = from + value;
    let passed = raw >= c.board@.len();
    let upto = if passed { m + 2 } else { m + 1 };
    &&& arrived(c, s, a, p, value)
    &&& before.len() < m
    &&& upto <= after.len()
    &&& after[before.len() as int] == (Event::MovementCardPlayed { player: p as usize, value })
    &&& after[m] == (Event::Moved {
        player: p as usize,
        from,
        to: (raw % (c.board@.len() as int)) as usize,
        passed_go: passed,
    })
    &&& passed ==> after[m + 1] == (Event::SalaryPaid { player: p as usize, amount: c.rules.go_salary })
    &&& crate::apply::landing::landing_events(c, rent, a, p, 0, after.subrange(0, upto), after)
}

/// The events of a move played from the hand: see `walked`.
pub open spec fn move_events<R: RentCalculator>(
    c: &GameContent,
    rent: &R,
    s: GameModel,
    p: int,
    value: u8,
    before: Seq<Event>,
    after: Seq<Event>,
) -> bool {
    exists|a: GameModel, m: int| #[trigger] walked(c, rent, s, a, p, value, before, after, m)
}

impl<'e, R: RentCalculator, B: BankruptcyResolver> Exec<'e, R, B> {
    pub fn pay_salary(&mut self, p: usize, Ghost(k): Ghost<int>)
        requires
            old(self).ok(k),
            k + 1 <= budget_limit(),
            p < old(self).st@.players.len(),
        ensures
            final(self).st@.turn_count == old(self).st@.turn_count,
            final(self).ok(k + 1),
            final(self).kept(old(self)),
            cards_low(old(self).st@) ==> cards_low(final(self).st@),
            final(self).st@ == with_cash(
                old(self).st@,
                p as int,
                old(self).st@.players[p as int].cash + old(self).content.rules.go_salary,
            ),
            i64::MIN <= old(self).st@.players[p as int].cash + old(self).content.rules.go_salary <= i64::MAX,
            final(self).ev@ == old(self).ev@.push(Event::SalaryPaid { player: p, amount: old(self).content.rules.go_salary }),
    {
        let amount = self.content.rules.go_salary;
        let cash = self.st.players[p].cash;
        proof {
            lemma_bounded_mono(self.st@, k, k + 1);
            assert(player_bounded(self.st@.players[p as int], k));
            lemma_cash_ready(self.content, self.st@, p as int, cash + amount, k + 1);
        }
        self.st.set_cash(p, cash + amount);
        self.ev.push(Event::SalaryPaid { player: p, amount });
    }

    /// Moves `steps` tiles forward, paying the salary when passing Go.
    pub fn move_forward(&mut self, p: usize, steps: usize, Ghost(k): Ghost<int>)
        requires
            old(self).ok(k),
            k + 1 <= budget_limit(),
            p < old(self).st@.players.len(),
            steps <= 255,
        ensures
            final(self).st@.turn_count == old(self).st@.turn_count,
            final(self).ok(k + 1),
            final(self).kept(old(self)),
            cards_low(old(self).st@) ==> cards_low(final(self).st@),
            final(self).st@.players.len() == old(self).st@.players.len(),
            final(self).st@.players[p as int].position == (old(self).st@.players[p as int].position
                + steps) % (old(self).content.board@.len() as int),
            final(self).st@.turn == old(self).st@.turn,
            final(self).st@.phase == old(self).st@.phase,
            final(self).st@.tiles == old(self).st@.tiles,
            old(self).st@.players[p as int].position + steps >= old(self).content.board@.len() ==> i64::MIN
                <= old(self).st@.players[p as int].cash + old(self).content.rules.go_salary <= i64::MAX,
            ({
                let s = old(self).st@;
                let raw = s.players[p as int].position + steps;
                let moved = with_player(s, p as int, PlayerModel {
                    position: (raw % (old(self).content.board@.len() as int)) as usize,
                    ..s.players[p as int]
                });
                final(self).st@ == if raw >= old(self).content.board@.len() {
                    with_cash(moved, p as int, moved.players[p as int].cash + old(self).content.rules.go_salary)
                } else {
                    moved
                }
            }),
            ({
                let s = old(self).st@;
                let from = s.players[p as int].position;
                let raw = from + steps;
                let moved = Event::Moved {
                    player: p,
                    from,
                    to: (raw % (old(self).content.board@.len() as int)) as usize,
                    passed_go: raw >= old(self).content.board@.len(),
                };
                final(self).ev@ == if raw >= old(self).content.board@.len() {
                    old(self).ev@.push(moved).push(Event::SalaryPaid { player: p, amount: old(self).content.rules.go_salary })
                } else {
                    old(self).ev@.push(moved)
                }
            }),
    {
        let len = self.content.board.len();
        let from = self.st.players[p].position;
        let raw = from + steps;
        let passed_go = raw >= len;
        let to = raw % len;
        let mut pl = self.st.players[p].copy_of();
        pl.position = to;
        proof {
            assert(player_bounded(self.st@.players[p as int], k));
            lemma_player_ready(self.content, self.st@, p as int, pl@, k);
        }
        self.st.set_player(p, pl);
        self.ev.push(Event::Moved { player: p, from, to, passed_go });
        if passed_go {
            self.pay_salary(p, Ghost(k));
        } else {
            proof {
                lemma_bounded_mono(self.st@, k, k + 1);
            }
        }
    }

    /// Direct placement by a card. The salary is paid only for a forward
    /// wrap the card allows; backward moves never pay.
    pub fn teleport(&mut self, p: usize, to: usize, collect_go: bool, Ghost(k): Ghost<int>)
        requires
            old(self).ok(k),
            k + 1 <= budget_limit(),
            p < old(self).st@.players.len(),
            to < old(self).content.board@.len(),
        ensures
            final(self).st@.turn_count == old(self).st@.turn_count,
            final(self).ok(k + 1),
            final(self).kept(old(self)),
            cards_low(old(self).st@) ==> cards_low(final(self).st@),
            final(self).st@.players.len() == old(self).st@.players.len(),
            final(self).st@.players[p as int].position == to,
            final(self).st@.turn == old(self).st@.turn,
            final(self).st@.phase == old(self).st@.phase,
            final(self).st@.tiles == old(self).st@.tiles,
            ({
                let s = old(self).st@;
                let from = s.players[p as int].position;
                let passed = collect_go && to < from;
                let moved_state = with_player(s, p as int, PlayerModel { position: to, ..s.players[p as int] });
                let moved = Event::Moved { player: p, from, to, passed_go: passed };
                &&& passed ==> i64::MIN <= s.players[p as int].cash + old(self).content.rules.go_salary <= i64::MAX
                &&& final(self).st@ == if passed {
                    with_cash(moved_state, p as int, s.players[p as int].cash + old(self).content.rules.go_salary)
                } else {
                    moved_state
                }
                &&& final(self).ev@ == if passed {
                    old(self).ev@.push(moved).push(Event::SalaryPaid { player: p, amount: old(self).content.rules.go_salary })
                } else {
                    old(self).ev@.push(moved)
                }
            }),
    {
        let from = self.st.players[p].position;
        let passed_go = (collect_go && to <= from && to != from) || (collect_go && to == 0 && from != 0);
        let mut pl = self.st.players[p].copy_of();
        pl.position = to;
        proof {
            assert(player_bounded(self.st@.players[p as int], k));
            lemma_player_ready(self.content, self.st@, p as int, pl@, k);
        }
        self.st.set_player(p, pl);
        self.ev.push(Event::Moved { player: p, from, to, passed_go });
        if passed_go {
            self.pay_salary(p, Ghost(k));
        } else {
            proof {
                lemma_bounded_mono(self.st@, k, k + 1);
            }
        }
    }

    /// The round number: the fewest hands cycled among surviving seats.
    pub fn round_number(&self) -> (r: u32)
        ensures
            r == round_spec(self.st@),
    {
        let n = self.st.players.len();
        let mut best: Option<u32> = None;
        let mut i: usize = 0;
        while i < n
            invariant
                n == self.st@.players.len(),
                i <= n,
                best == min_cycles_upto(self.st@, i as int),
            decreases n - i,
        {
            let pl = &self.st.players[i];
            assert(self.st@.players[i as int] == pl@);
            if !pl.bankrupt {
                best = match best {
                    Some(m) => if pl.hands_cycled < m {
                        Some(pl.hands_cycled)
                    } else {
                        Some(m)
                    },
                    None => Some(pl.hands_cycled),
                };
            }
            i = i + 1;
        }
        match best {
            Some(m) => m,
            None => 0,
        }
    }

    /// The strictly-richest surviving seat (the lowest seat on ties) banks
    /// the permanent round bonus.
    pub fn award_round_bonus(&mut self, Ghost(k): Ghost<int>)
        requires
            old(self).ok(k),
            k + 1 <= budget_limit(),
        ensures
            final(self).st@.turn_count == old(self).st@.turn_count,
            final(self).ok(k + 1),
            final(self).kept(old(self)),
            cards_low(old(self).st@) ==> cards_low(final(self).st@),
            final(self).st@.players.len() == old(self).st@.players.len(),
            forall|q: int| 0 <= q < old(self).st@.players.len() ==> #[trigger] final(self).st@.players[q]
                == (PlayerModel { round_bonus_vp: final(self).st@.players[q].round_bonus_vp, ..old(self).st@.players[q] }),
            final(self).st@ == (GameModel { players: final(self).st@.players, ..old(self).st@ }),
            match best_upto(old(self).st@, cash_key(old(self).st@), old(self).st@.players.len() as int) {
                Some(w) => final(self).st@ == with_player(
                    old(self).st@,
                    w,
                    PlayerModel {
                        round_bonus_vp: (old(self).st@.players[w].round_bonus_vp + ROUND_BONUS_VP) as i64,
                        ..old(self).st@.players[w]
                    },
                ),
                None => final(self).st@ == old(self).st@,
            },
    {
        let ghost s0 = self.st@;
        let n = self.st.players.len();
        let mut best: Option<usize> = None;
        let mut i: usize = 0;
        while i < n
            invariant
                n == self.st@.players.len(),
                self.st@ == s0,
                i <= n,
                best matches Some(b) ==> b < n,
                best == match best_upto(s0, cash_key(s0), i as int) {
                    Some(b) => Some(b as usize),
                    None => None::<usize>,
                },
            decreases n - i,
        {
            proof {
                lemma_best_alive(s0, cash_key(s0), i as int);
            }
            let pl = &self.st.players[i];
            assert(s0.players[i as int] == pl@);
            if !pl.bankrupt {
                best = match best {
                    Some(b) => if pl.cash > self.st.players[b].cash {
                        Some(i)
                    } else {
                        Some(b)
                    },
                    None => Some(i),
                };
            }
            i = i + 1;
        }
        proof {
            lemma_best_alive(s0, cash_key(s0), n as int);
            lemma_bounded_mono(self.st@, k, k + 1);
        }
        if let Some(w) = best {
            let mut pl = self.st.players[w].copy_of();
            proof {
                assert(player_bounded(self.st@.players[w as int], k));
            }
            pl.round_bonus_vp = pl.round_bonus_vp + ROUND_BONUS_VP;
            proof {
                assert(player_bounded(self.st@.players[w as int], k + 1));
                lemma_player_ready(self.content, self.st@, w as int, pl@, k + 1);
            }
            self.st.set_player(w, pl);
            self.ev.push(Event::RoundBonusAwarded { player: w, points: ROUND_BONUS_VP });
        }
        proof {
            assert forall|q: int| 0 <= q < s0.players.len() implies #[trigger] self.st@.players[q]
                == (PlayerModel { round_bonus_vp: self.st@.players[q].round_bonus_vp, ..s0.players[q] }) by {
            }
        }
    }
}

impl<'e, R: RentCalculator, B: BankruptcyResolver> Exec<'e, R, B> {
    /// Refills `p`'s hand the instant it empties and ticks its hands
    /// cycled; under the points rules, lifting the round number awards the
    /// round bonus.
    pub fn maybe_refill_hand(&mut self, p: usize, Ghost(k): Ghost<int>)
        requires
            old(self).ok(k),
            k + 2 <= budget_limit(),
            p < old(self).st@.players.len(),
        ensures
            final(self).st@.turn_count == old(self).st@.turn_count,
            final(self).ok(k + 2),
            final(self).kept(old(self)),
            cards_low(old(self).st@) ==> cards_low(final(self).st@),
            final(self).st@.players.len() == old(self).st@.players.len(),
            forall|q: int| 0 <= q < old(self).st@.players.len() ==> (#[trigger] final(self).st@.players[q]).position
                == old(self).st@.players[q].position && final(self).st@.players[q].bankrupt
                == old(self).st@.players[q].bankrupt && final(self).st@.players[q].jailed
                == old(self).st@.players[q].jailed && final(self).st@.players[q].jail_route
                == old(self).st@.players[q].jail_route,
            final(self).st@.turn == old(self).st@.turn,
            final(self).st@.phase == old(self).st@.phase,
            final(self).st@.tiles == old(self).st@.tiles,
            final(self).st@.current == old(self).st@.current,
            old(self).st@.players[p as int].hand.len() > 0 ==> final(self).st@ == old(self).st@,
            final(self).st@.forecast == old(self).st@.forecast,
            final(self).st@.spotlight == old(self).st@.spotlight,
            final(self).st@.chance_deck == old(self).st@.chance_deck,
            final(self).st@.community_deck == old(self).st@.community_deck,
            forall|q: int| 0 <= q < old(self).st@.players.len() ==> (#[trigger] final(self).st@.players[q]).cash
                == old(self).st@.players[q].cash && final(self).st@.players[q].jail_cards == old(self).st@.players[q].jail_cards,
            old(self).st@.players[p as int].hand.len() == 0 ==> final(self).st@.players[p as int].hand
                == full_hand(old(self).content.rules.velocity_min, old(self).content.rules.velocity_max),
            final(self).st@ == (GameModel { players: final(self).st@.players, ..old(self).st@ }),
            final(self).st@.players[p as int] == (PlayerModel {
                hand: final(self).st@.players[p as int].hand,
                hands_cycled: final(self).st@.players[p as int].hands_cycled,
                round_bonus_vp: final(self).st@.players[p as int].round_bonus_vp,
                ..old(self).st@.players[p as int]
            }),
            forall|q: int| 0 <= q < old(self).st@.players.len() && q != p ==> #[trigger] final(self).st@.players[q]
                == (PlayerModel { round_bonus_vp: final(self).st@.players[q].round_bonus_vp, ..old(self).st@.players[q] }),
    {
        if self.st.players[p].hand.len() > 0 {
            proof {
                lemma_bounded_mono(self.st@, k, k + 2);
            }
            return;
        }
        let round_before = self.round_number();
        let mut pl = self.st.players[p].copy_of();
        pl.hand = crate::state::make_hand(self.content.rules.velocity_min, self.content.rules.velocity_max);
        proof {
            assert(player_bounded(self.st@.players[p as int], k));
        }
        pl.hands_cycled = pl.hands_cycled + 1;
        proof {
            lemma_bounded_mono(self.st@, k, k + 1);
            lemma_player_ready(self.content, self.st@, p as int, pl@, k + 1);
        }
        self.st.set_player(p, pl);
        if self.content.rules.win_victory_points > 0 && self.round_number() > round_before {
            self.award_round_bonus(Ghost(k + 1));
        } else {
            proof {
                lemma_bounded_mono(self.st@, k + 1, k + 2);
            }
        }
    }
}

/// Money movements a card play may make: a refill, a move, a landing.
pub open spec fn play_cost() -> int {
    3 + crate::apply::landing::land_cost(0)
}

impl<'e, R: RentCalculator, B: BankruptcyResolver> Exec<'e, R, B> {
    /// Plays one card from the hand (or the front of a Legal Route),
    /// moving that many tiles and resolving the landing.
    pub fn play_movement_card(&mut self, p: usize, value: u8) -> (r: Result<(), CommandError>)
        requires
            !old(self).st@.players[p as int].bankrupt,
            old(self).ok(0),
            cards_low(old(self).st@),
            p < old(self).st@.players.len(),
        ensures
            r is Ok ==> final(self).st@.turn_count == old(self).st@.turn_count,
            r is Err <==> movement_error(old(self).st@, p as int, value) is Some,
            r matches Err(e) ==> movement_error(old(self).st@, p as int, value) == Some(e),
            r is Ok ==> final(self).ok(play_cost()) && final(self).kept(old(self))
                && final(self).st@.players.len() == old(self).st@.players.len(),
            r is Ok ==> plain_move(old(self).content, old(self).rent, old(self).st@, final(self).st@, p as int, value),
            r is Ok && old(self).st@.players[p as int].jail_route is None ==> move_events(
                old(self).content,
                old(self).rent,
                old(self).st@,
                p as int,
                value,
                old(self).ev@,
                final(self).ev@,
            ),
    {
        if !matches!(self.st.turn, TurnPhase::AwaitMove) {
            return Err(CommandError::WrongPhase);
        }
        if self.st.players[p].jailed {
            return Err(CommandError::CardNotPlayable);
        }
        let ghost s0 = self.st@;
        proof {
            assert(s0.players[p as int] == self.st.players@[p as int]@);
        }
        if let Some(route) = &self.st.players[p].jail_route {
            if route[0] != value {
                return Err(CommandError::CardNotPlayable);
            }
            self.play_route_front(p, Ghost(0));
            return Ok(());
        }
        let hand = &self.st.players[p].hand;
        let n = hand.len();
        let mut idx: usize = 0;
        while idx < n && hand[idx] != value
            invariant
                n == hand@.len(),
                idx <= n,
                forall|j: int| 0 <= j < idx ==> hand@[j] != value,
            decreases n - idx,
        {
            idx = idx + 1;
        }
        if idx == n {
            proof {
                assert(!hand@.contains(value));
            }
            return Err(CommandError::CardNotPlayable);
        }
        proof {
            assert(hand@.contains(value));
        }
        let mut pl = self.st.players[p].copy_of();
        pl.hand.remove(idx);
        proof {
            assert(player_bounded(self.st@.players[p as int], 0));
            lemma_player_ready(self.content, self.st@, p as int, pl@, 0);
        }
        self.st.set_player(p, pl);
        let ghost e0 = self.ev@;
        self.ev.push(Event::MovementCardPlayed { player: p, value });
        let ghost s1 = self.st@;
        self.maybe_refill_hand(p, Ghost(0));
        let ghost s2 = self.st@;
        let ghost e2 = self.ev@;
        self.move_forward(p, value as usize, Ghost(2));
        let ghost s3 = self.st@;
        let ghost e3 = self.ev@;
        proof {
            let t = s3.players[p as int].position as int;
            assert(s3.tiles == s0.tiles);
            assert forall|o: int| 0 <= o < s0.players.len() implies #[trigger] s3.players[o].jail_route
                == s0.players[o].jail_route && s3.players[o].bankrupt == s0.players[o].bankrupt by {
                assert(s2.players[o].jail_route == s1.players[o].jail_route);
            }
            assert(quiet_turn(self.content, s3, p as int, t) == quiet_turn(self.content, s0, p as int, t));
        }
        self.resolve_landing(p, 0, Ghost(3));
        proof {
            assert(s1 == with_player(s0, p as int, PlayerModel {
                hand: s1.players[p as int].hand,
                jail_route: s1.players[p as int].jail_route,
                ..s0.players[p as int]
            }));
            lemma_bounded_mono(s0, 0, budget_limit());
            lemma_plain_move(self.content, self.rent, s0, s1, s2, s3, self.st@, p as int, value);
            let fe = self.ev@;
            assert(fe.subrange(0, e3.len() as int) =~= e3);
            assert(fe[e0.len() as int] == e2[e0.len() as int]);
            assert(fe[e2.len() as int] == e3[e2.len() as int]);
            if s0.players[p as int].position + value >= self.content.board@.len() {
                assert(fe[e2.len() + 1int] == e3[e2.len() + 1int]);
            }
            assert(arrived(self.content, s0, s3, p as int, value));
            assert(walked(self.content, self.rent, s0, s3, p as int, value, e0, fe, e2.len() as int));
        }
        Ok(())
    }

    /// Plays the front card of an active Legal Route. The hand stays empty
    /// for the whole route and refills only when it ends, so the route
    /// ticks the round metronome once.
    pub fn play_route_front(&mut self, p: usize, Ghost(k): Ghost<int>)
        requires
            !old(self).st@.players[p as int].bankrupt,
            old(self).ok(k),
            k + play_cost() <= budget_limit(),
            cards_low(old(self).st@),
            p < old(self).st@.players.len(),
            old(self).st@.players[p as int].jail_route is Some,
        ensures
            final(self).st@.turn_count == old(self).st@.turn_count,
            final(self).ok(k + play_cost()),
            final(self).kept(old(self)),
            final(self).st@.players.len() == old(self).st@.players.len(),
            ({
                let route = old(self).st@.players[p as int].jail_route->0;
                plain_move(old(self).content, old(self).rent, old(self).st@, final(self).st@, p as int, route[0])
            }),
    {
        let ghost s0 = self.st@;
        let mut pl = self.st.players[p].copy_of();
        let mut route = match pl.jail_route {
            Some(r) => r,
            None => Vec::new(),
        };
        proof {
            assert(self.st@.players[p as int].jail_route == Some(route@));
            assert(route@.len() > 0);
        }
        let value = route.remove(0);
        let done = route.len() == 0;
        pl.jail_route = if done {
            None
        } else {
            Some(route)
        };
        proof {
            assert(player_bounded(self.st@.players[p as int], k));
            lemma_player_ready(self.content, self.st@, p as int, pl@, k);
        }
        self.st.set_player(p, pl);
        self.ev.push(Event::MovementCardPlayed { player: p, value });
        let ghost s1 = self.st@;
        proof {
            assert(s1 == with_player(s0, p as int, PlayerModel {
                hand: s1.players[p as int].hand,
                jail_route: s1.players[p as int].jail_route,
                ..s0.players[p as int]
            }));
            assert(s1.players[p as int].jail_route == advanced(s0.players[p as int].jail_route->0));
        }
        if done {
            self.maybe_refill_hand(p, Ghost(k));
        } else {
            proof {
                lemma_bounded_mono(self.st@, k, k + 2);
            }
        }
        let ghost s2 = self.st@;
        self.move_forward(p, value as usize, Ghost(k + 2));
        let ghost s3 = self.st@;
        self.resolve_landing(p, 0, Ghost(k + 3));
        proof {
            lemma_bounded_mono(s0, k, budget_limit());
            lemma_plain_move(self.content, self.rent, s0, s1, s2, s3, self.st@, p as int, value);
        }
    }
}

} // verus!
