//! Parcello game engine: synchronous, with no I/O. `Engine::apply` takes the
//! state by reference and returns the next one; randomness comes from a
//! generator state stored inside `GameState`, never from the environment.
//! What the contracts fix of each command's result is stated on
//! `Engine::apply`; the opening of a game is fixed by its seed.
use vstd::prelude::*;

pub mod bot;
pub mod command;
pub mod console;
pub mod content;
pub mod error;
pub mod event;
pub mod mods;
pub mod protocol;
pub mod rng;
pub mod state;
pub mod strategy;
pub mod view;

mod apply;
mod tuning;

pub use apply::{
    advance_events, bankrupt_events, estate_events, gate_error, handled, handled_events, handler_error, jail_events, offer_events, law_auction_settlement, law_auction_winner, law_bribe_keeps_cash, law_effective_bid, law_wealth_tax, law_bribe_needs_strict_majority, law_bribe_split, law_build_then_sell, law_forward_card_move, law_next_alive,
    law_mortgage_keeps_worth, law_mortgage_then_redeem, law_payment_keeps_cash, law_trade_keeps_cash, move_events, next_alive, passes_turn, quiet_move, ready, resigned, route_chosen,
    rejection, seat_by_id, window_events, wins_settled,
};
pub use command::{CommandKind, PlayerCommand};
pub use content::{
    CardDef, CardEffect, GameContent, MarketEffect, MarketEventDef, PropertyDef, RentModel,
    RuleParams, TileDef, TileKind,
};
pub use error::{CommandError, ContentError};
pub use event::{DeckKind, Event, extends};
pub use state::{
    ActiveMarketEvent, GamePhase, GameState, MarketForecast, Player, PlayerId, ScheduledEvent,
    Spotlight, TileState, TradeOffer, TurnPhase,
};
pub use strategy::{
    BankruptcyResolver, RentCalculator, StandardLiquidation, StandardRent, after_sale, levels_after_sale,
    sale_phase, sale_pick, sold_as, sold_down, strips,
};
pub use view::{ClientView, PlayerView};

use std::sync::Arc;

verus! {

/// Authoritative rule executor for one room: built once from the resolved
/// content and immutable for the room's lifetime. The rent and liquidation
/// strategies can be substituted at room creation.
pub struct Engine<R: RentCalculator = StandardRent, B: BankruptcyResolver = StandardLiquidation> {
    content: Arc<GameContent>,
    rent: R,
    bankruptcy: B,
}

impl<R: RentCalculator, B: BankruptcyResolver> Engine<R, B> {
    /// The content this engine runs.
    pub closed spec fn rules(&self) -> GameContent {
        *self.content
    }

    /// The rent rule this engine charges by.
    pub closed spec fn rent_rule(&self) -> R {
        self.rent
    }

    #[verifier::type_invariant]
    closed spec fn runs_valid_content(&self) -> bool {
        content::content_valid(&*self.content) && state::content_fits(&*self.content)
    }
}

impl Engine<StandardRent, StandardLiquidation> {
    /// Builds an engine with the default strategies. Fails if the content
    /// breaks a board invariant (see `GameContent::validate`).
    pub fn new(content: Arc<GameContent>) -> (r: Result<Self, ContentError>)
        requires
            state::content_fits(&*content),
        ensures
            content::validation_error(&*content) is Some <==> r is Err,
            r matches Err(e) ==> content::validation_error(&*content) == Some(e),
            r matches Ok(engine) ==> engine.rules() == *content,
    {
        match content.validate() {
            Err(e) => Err(e),
            Ok(()) => Ok(Engine { content, rent: StandardRent, bankruptcy: StandardLiquidation }),
        }
    }
}

/// Net worth of each seat, as a ranking key.
pub open spec fn worth_key(c: &GameContent, s: state::GameModel) -> spec_fn(int) -> int {
    |p: int| state::net_worth_spec(c, s, p)
}

/// The winner of a game stopped by the clock: the richest survivor by net
/// worth, the lowest seat on ties; seat 0 when nobody survives.
pub open spec fn time_winner(c: &GameContent, s: state::GameModel) -> usize {
    match state::best_upto(s, worth_key(c, s), s.players.len() as int) {
        Some(w) => w as usize,
        None => 0,
    }
}

/// Law: a game stopped by the clock goes to a surviving seat whose net
/// worth no survivor exceeds, the lowest such seat on ties.
pub proof fn law_time_winner(c: &GameContent, s: state::GameModel)
    requires
        exists|j: int| 0 <= j < s.players.len() && state::alive(s, j),
        s.players.len() <= usize::MAX,
    ensures
        ({
            let w = time_winner(c, s) as int;
            &&& 0 <= w < s.players.len()
            &&& state::alive(s, w)
            &&& forall|j: int| 0 <= j < s.players.len() && state::alive(s, j) ==> state::net_worth_spec(c, s, j)
                <= state::net_worth_spec(c, s, w) && (state::net_worth_spec(c, s, j) == state::net_worth_spec(c, s, w)
                ==> w <= j)
        }),
{
    state::law_best_is_lowest_of_the_top(s, worth_key(c, s), s.players.len() as int);
    let j0 = choose|j: int| 0 <= j < s.players.len() && state::alive(s, j);
    assert(state::alive(s, j0));
    assert(state::best_upto(s, worth_key(c, s), s.players.len() as int) is Some);
    let w = time_winner(c, s) as int;
    assert(Some(w) == state::best_upto(s, worth_key(c, s), s.players.len() as int));
    assert forall|j: int| 0 <= j < s.players.len() && state::alive(s, j) implies state::net_worth_spec(c, s, j)
        <= state::net_worth_spec(c, s, w) && (state::net_worth_spec(c, s, j) == state::net_worth_spec(c, s, w)
        ==> w <= j) by {
        assert(worth_key(c, s)(j) == state::net_worth_spec(c, s, j));
        assert(worth_key(c, s)(w) == state::net_worth_spec(c, s, w));
    }
}

impl<R: RentCalculator, B: BankruptcyResolver> Engine<R, B> {
    /// Substitutes the rent strategy.
    pub fn with_rent<R2: RentCalculator>(self, rent: R2) -> (r: Engine<R2, B>)
        ensures
            r.rules() == self.rules(),
    {
        proof {
            use_type_invariant(&self);
        }
        Engine { content: self.content, rent, bankruptcy: self.bankruptcy }
    }

    /// Substitutes the liquidation strategy.
    pub fn with_bankruptcy<B2: BankruptcyResolver>(self, resolver: B2) -> (r: Engine<R, B2>)
        ensures
            r.rules() == self.rules(),
    {
        proof {
            use_type_invariant(&self);
        }
        Engine { content: self.content, rent: self.rent, bankruptcy: resolver }
    }

    pub fn content(&self) -> (r: &Arc<GameContent>)
        ensures
            **r == self.rules(),
    {
        &self.content
    }

    /// The initial state of a new game. The seed drives every future draw:
    /// two games with the same players, content and seed are identical.
    pub fn new_game(&self, players: Vec<(PlayerId, String)>, seed: u64) -> (r: GameState)
        requires
            players@.len() >= 2,
        ensures
            state::opening_position(&self.rules(), players@, r@),
            state::opening_draws(&self.rules(), players@.len() as int, seed, r@),
            state::state_wf(&self.rules(), r@),
    {
        proof {
            use_type_invariant(self);
        }
        GameState::new(&*self.content, players, seed)
    }

    /// The single command pipeline: validate, apply, emit events. Refused
    /// commands return the reason and leave the caller's state untouched;
    /// accepted ones return the successor state and the events describing
    /// what happened, in order.
    pub fn apply(&self, state: &GameState, cmd: &PlayerCommand) -> (r: Result<(GameState, Vec<Event>), CommandError>)
        requires
            state::state_fits(&self.rules(), state@),
        ensures
            r is Err <==> rejection(&self.rules(), state@, *cmd) is Some,
            r matches Err(e) ==> rejection(&self.rules(), state@, *cmd) == Some(e@),
            r matches Ok((s, _)) ==> state::state_wf(&self.rules(), s@) && state::sound(s@)
                && state::state_bounded(s@, state::budget_limit())
                && state::pools_fit(&self.rules(), s@)
                && state::subsidiary_stock(&self.rules(), s@) == state::subsidiary_stock(&self.rules(), state@)
                && state::conglomerate_stock(&self.rules(), s@) == state::conglomerate_stock(&self.rules(), state@),
            r matches Ok((s, _)) ==> match handled(&self.rules(), state@, seat_by_id(state@, cmd.player@)->0, cmd.kind) {
                Some(h) => !passes_turn(h) ==> s@ == wins_settled(&self.rules(), h),
                None => true,
            },
            r matches Ok((s, _)) ==> match cmd.kind {
                CommandKind::PlayMovementCard { value } => {
                    let p = seat_by_id(state@, cmd.player@)->0;
                    quiet_move(&self.rules(), &self.rent_rule(), state@, s@, p, value)
                },
                CommandKind::ChooseLegalRoute { order } => {
                    let p = seat_by_id(state@, cmd.player@)->0;
                    quiet_move(&self.rules(), &self.rent_rule(), route_chosen(state@, p, order@), s@, p, order@[0])
                },
                _ => true,
            },
            r matches Ok((s, es)) ==> match cmd.kind {
                CommandKind::PlayMovementCard { value } => {
                    let p = seat_by_id(state@, cmd.player@)->0;
                    state@.players[p].jail_route is None && s@.phase is Active && s@.turn_count == state@.turn_count
                        ==> move_events(&self.rules(), &self.rent_rule(), state@, p, value, Seq::empty(), es@)
                },
                _ => true,
            },
            r matches Ok((s, es)) ==> (cmd.kind is EndTurn && s@.phase is Active && s@.turn_count == state@.turn_count + 1
                ==> advance_events(&self.rules(), state@, Seq::empty(), es@)),
            r matches Ok((s, _)) ==> (cmd.kind is EndTurn ==> state@.turn_count + 1 <= s@.turn_count <= state@.turn_count + 2
                && (s@.turn_count == state@.turn_count + 1 ==> s@.current == next_alive(state@))),
            r matches Ok((s, es)) ==> match (
                handled(&self.rules(), state@, seat_by_id(state@, cmd.player@)->0, cmd.kind),
                handled_events(&self.rules(), state@, seat_by_id(state@, cmd.player@)->0, cmd.kind),
            ) {
                (Some(h), Some(e)) => !passes_turn(h) && wins_settled(&self.rules(), h) == h ==> es@ == e,
                _ => true,
            },
            r matches Ok((s, es)) ==> match handled(&self.rules(), state@, seat_by_id(state@, cmd.player@)->0, cmd.kind) {
                Some(h) => !passes_turn(h) && wins_settled(&self.rules(), h) == h ==> window_events(
                    &self.rules(),
                    state@,
                    seat_by_id(state@, cmd.player@)->0,
                    cmd.kind,
                    Seq::empty(),
                    es@,
                ),
                None => true,
            },
            r matches Ok((s, es)) ==> (cmd.kind is Resign && s@.phase is Active && s@.turn_count == state@.turn_count ==> {
                let p = seat_by_id(state@, cmd.player@)->0;
                !(state@.turn is BlindAuction) ==> es@ == bankrupt_events(
                    state@,
                    p,
                    None,
                    seq![Event::PlayerResigned { player: p as usize }],
                )
            }),
            r matches Ok((s, _)) ==> (cmd.kind is Resign ==> {
                let p = seat_by_id(state@, cmd.player@)->0;
                !(state@.turn is BlindAuction) && p != state@.current && !state@.players[state@.current as int].bankrupt
                    ==> resigned(state@, s@, p)
            }),
    {
        proof {
            use_type_invariant(self);
        }
        apply::apply(&*self.content, &self.rent, &self.bankruptcy, state, cmd)
    }

    /// Ends a time-boxed game: the richest survivor by net worth wins, the
    /// lowest seat on ties. Called by the session layer when the clock
    /// expires, not a player command; a no-op on a finished game.
    pub fn finish_on_time(&self, state: &GameState) -> (r: (GameState, Vec<Event>))
        requires
            state::state_fits(&self.rules(), state@),
        ensures
            state@.phase is Finished ==> r.0@ == state@ && r.1@.len() == 0,
            state@.phase is Active ==> r.0@ == (state::GameModel {
                phase: GamePhase::Finished { winner: time_winner(&self.rules(), state@) },
                ..state@
            }) && r.1@ == seq![Event::TimeUp { winner: time_winner(&self.rules(), state@) }],
    {
        proof {
            use_type_invariant(self);
        }
        let content = &*self.content;
        if !matches!(state.phase, GamePhase::Active) {
            return (state.copy_of(), Vec::new());
        }
        let ghost s0 = state@;
        let ghost key = worth_key(content, s0);
        let n = state.players.len();
        let mut best: Option<(usize, i64)> = None;
        let mut p: usize = 0;
        proof {
            state::lemma_bounded_mono(s0, 0, state::budget_limit());
        }
        while p < n
            invariant
                n == s0.players.len(),
                s0 == state@,
                state::state_fits(content, s0),
                state::state_bounded(s0, state::budget_limit()),
                state::content_fits(content),
                p <= n,
                key == worth_key(content, s0),
                match best {
                    Some((b, w)) => state::best_upto(s0, key, p as int) == Some(b as int)
                        && w == state::net_worth_spec(content, s0, b as int),
                    None => state::best_upto(s0, key, p as int) is None,
                },
            decreases n - p,
        {
            proof {
                assert(s0.players[p as int] == state.players@[p as int]@);
                assert(state::player_bounded(s0.players[p as int], state::budget_limit()));
            }
            if !state.players[p].bankrupt {
                let w = state.net_worth(content, p);
                best = match best {
                    None => Some((p, w)),
                    Some((b, bw)) => if w > bw {
                        Some((p, w))
                    } else {
                        Some((b, bw))
                    },
                };
            }
            p = p + 1;
        }
        proof {
            state::lemma_best_alive(s0, key, n as int);
        }
        let winner = match best {
            Some((b, _)) => b,
            None => 0,
        };
        let mut next = state.copy_of();
        next.phase = GamePhase::Finished { winner };
        let mut events = Vec::new();
        events.push(Event::TimeUp { winner });
        proof {
            assert(events@ =~= seq![Event::TimeUp { winner }]);
        }
        (next, events)
    }
}

} // verus!
