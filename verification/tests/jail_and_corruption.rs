//! Jail entry and the three exits: jail cards, Legal Routes
//! and their rent freeze, Corruption bribes and vote windows.
//!
#![allow(dead_code)]
#![allow(unused_imports)]
use parcello::strategy::StandardRent;
use parcello::{
    ActiveMarketEvent, CardDef, CardEffect, ClientView, CommandError, CommandKind, Engine, Event,
    GameContent, GamePhase, GameState, MarketEffect, MarketEventDef, PlayerCommand, PropertyDef,
    RentCalculator, RentModel, RuleParams, Spotlight, TileDef, TileKind, TurnPhase,
};
use std::sync::Arc;

pub fn tile(id: &str, name: &str, kind: TileKind) -> TileDef {
    TileDef {
        id: id.into(),
        name: name.into(),
        kind,
    }
}

pub fn prop(group: &str, price: i64, house_cost: i64, rents: [i64; 6]) -> TileKind {
    TileKind::Property(PropertyDef {
        group: group.into(),
        price,
        house_cost,
        rents,
        rent_model: RentModel::Houses,
    })
}

pub fn scaled_prop(group: &str, price: i64, rents: [i64; 6], rent_model: RentModel) -> TileKind {
    TileKind::Property(PropertyDef {
        group: group.into(),
        price,
        house_cost: 0,
        rents,
        rent_model,
    })
}

/// 0 go, 1 park, 2-3 transit pair (group-scaled), 4 works (dice-scaled), 5 jail.
/// 0 go, 1 park, 2-3 transit pair (group-scaled), 4 jail.
pub fn transit_board() -> GameContent {
    GameContent {
        board: vec![
            tile("go", "Go", TileKind::Go),
            tile("park", "Park", TileKind::FreeParking),
            tile(
                "station_a",
                "Station A",
                scaled_prop(
                    "transit",
                    200,
                    [25, 50, 100, 200, 0, 0],
                    RentModel::GroupScaled,
                ),
            ),
            tile(
                "station_b",
                "Station B",
                scaled_prop(
                    "transit",
                    200,
                    [25, 50, 100, 200, 0, 0],
                    RentModel::GroupScaled,
                ),
            ),
            tile("jail", "Jail", TileKind::Jail),
        ],
        chance: vec![],
        community: vec![],
        rules: RuleParams::default(),
        market_events: vec![],
        forecast_gap_turns: 0,
    }
}

/// 9-tile board without card tiles: deterministic without deck control.
/// 0 go, 1 tax(100), 2-3 brown pair, 4 parking, 5 jail, 6 navy, 7 go-to-jail, 8 parking.
pub fn plain_board() -> GameContent {
    GameContent {
        board: vec![
            tile("go", "Go", TileKind::Go),
            tile("tax", "City Tax", TileKind::Tax { amount: 100 }),
            tile(
                "ave_a",
                "Ave A",
                prop("brown", 60, 50, [2, 10, 30, 90, 160, 250]),
            ),
            tile(
                "ave_b",
                "Ave B",
                prop("brown", 60, 50, [4, 20, 60, 180, 320, 450]),
            ),
            tile("park_1", "Park", TileKind::FreeParking),
            tile("jail", "Jail", TileKind::Jail),
            tile(
                "blvd",
                "Blvd",
                prop("navy", 100, 50, [10, 50, 150, 450, 625, 750]),
            ),
            tile("gtj", "Go To Jail", TileKind::GoToJail),
            tile("park_2", "Park", TileKind::FreeParking),
        ],
        chance: vec![],
        community: vec![],
        rules: RuleParams::default(),
        market_events: vec![],
        forecast_gap_turns: 0,
    }
}

pub fn engine_with(content: GameContent) -> Engine {
    Engine::new(Arc::new(content)).expect("valid test content")
}

pub fn two_players(engine: &Engine) -> GameState {
    let mut st = engine.new_game(
        vec![("p0".into(), "Alice".into()), ("p1".into(), "Bob".into())],
        42,
    );
    // The starting player is seed-drawn;
    // these tests script p0's moves, so pin the draw back to seat 0.
    st.current = 0;
    st
}

pub fn cmd(player: &str, kind: CommandKind) -> PlayerCommand {
    PlayerCommand {
        player: player.into(),
        kind,
    }
}

// By-value on purpose: ~100 call sites build the command inline and a
// reference would just add `&` noise to every one.
#[allow(clippy::needless_pass_by_value)]
pub fn step(engine: &Engine, st: &GameState, c: PlayerCommand) -> (GameState, Vec<Event>) {
    engine.apply(st, &c).expect("command accepted")
}

/// Plays a movement card for `player` - the deterministic
/// replacement for a dice roll; `value` must be in the player's hand.
pub fn play(engine: &Engine, st: &GameState, player: &str, value: u8) -> (GameState, Vec<Event>) {
    step(
        engine,
        st,
        cmd(player, CommandKind::PlayMovementCard { value }),
    )
}

pub fn card_board(chance: Vec<CardDef>) -> GameContent {
    GameContent {
        board: vec![
            tile("go", "Go", TileKind::Go),
            tile(
                "ave_a",
                "Ave A",
                prop("brown", 60, 50, [2, 10, 30, 90, 160, 250]),
            ),
            tile(
                "ave_b",
                "Ave B",
                prop("brown", 60, 50, [4, 20, 60, 180, 320, 450]),
            ),
            tile("chance", "Chance", TileKind::Chance),
            tile("jail", "Jail", TileKind::Jail),
        ],
        chance,
        community: vec![],
        rules: RuleParams::default(),
        market_events: vec![],
        forecast_gap_turns: 0,
    }
}

pub fn engine_with_rules(set: impl FnOnce(&mut RuleParams)) -> Engine {
    let mut content = plain_board();
    set(&mut content.rules);
    Engine::new(Arc::new(content)).expect("valid content")
}

/// A single market event definition, for tests that need exactly one.
pub fn market_event(
    id: &str,
    effect: MarketEffect,
    magnitude_pct: i64,
    duration_turns: u32,
) -> MarketEventDef {
    MarketEventDef {
        id: id.into(),
        name: id.into(),
        effect,
        magnitude_pct,
        duration_turns,
    }
}

pub fn engine_with_forecast(
    events: Vec<MarketEventDef>,
    gap_turns: u32,
    set_rules: impl FnOnce(&mut RuleParams),
) -> Engine {
    let mut content = plain_board();
    content.market_events = events;
    content.forecast_gap_turns = gap_turns;
    set_rules(&mut content.rules);
    Engine::new(Arc::new(content)).expect("valid content")
}

pub fn offer(
    to: &str,
    give_cash: i64,
    give_tiles: &[&str],
    receive_cash: i64,
    receive_tiles: &[&str],
) -> CommandKind {
    CommandKind::ProposeTrade {
        to: to.into(),
        give_cash,
        give_tiles: give_tiles
            .iter()
            .map(std::string::ToString::to_string)
            .collect(),
        receive_cash,
        receive_tiles: receive_tiles
            .iter()
            .map(std::string::ToString::to_string)
            .collect(),
    }
}

/// 0 go, 1-2 two owned-property candidates (brown pair), 3 the Exposition
/// corner, 4 jail. A 5-tile ring so a single movement card (1..=5, the
/// default velocity range) can land directly on any tile without wrapping.
pub fn spotlight_board() -> GameContent {
    GameContent {
        board: vec![
            tile("go", "Go", TileKind::Go),
            tile(
                "ave_a",
                "Ave A",
                prop("brown", 60, 50, [2, 10, 30, 90, 160, 250]),
            ),
            tile(
                "ave_b",
                "Ave B",
                prop("brown", 60, 50, [4, 20, 60, 180, 320, 450]),
            ),
            tile("exposition", "The Exposition", TileKind::Spotlight),
            tile("jail", "Jail", TileKind::Jail),
        ],
        chance: vec![],
        community: vec![],
        rules: RuleParams::default(),
        market_events: vec![],
        forecast_gap_turns: 0,
    }
}

pub fn spotlight_engine(set: impl FnOnce(&mut RuleParams)) -> Engine {
    let mut content = spotlight_board();
    set(&mut content.rules);
    Engine::new(Arc::new(content)).expect("valid content")
}

/// 0 go, 1 filler property, 2 the Audit (5-25% of net worth), 3 jail.
pub fn audit_board() -> GameContent {
    GameContent {
        board: vec![
            tile("go", "Go", TileKind::Go),
            tile(
                "ave_a",
                "Ave A",
                prop("brown", 60, 50, [2, 10, 30, 90, 160, 250]),
            ),
            tile(
                "audit",
                "The Audit",
                TileKind::NetWorthTax {
                    min_pct: 5,
                    max_pct: 25,
                },
            ),
            tile("jail", "Jail", TileKind::Jail),
        ],
        chance: vec![],
        community: vec![],
        rules: RuleParams::default(),
        market_events: vec![],
        forecast_gap_turns: 0,
    }
}


#[test]
fn jail_card_is_held_then_spent_to_leave_jail() {
    let card = CardDef {
        id: "jail_free".into(),
        text: "Get out of jail free.".into(),
        effect: CardEffect::GetOutOfJail,
    };
    let engine = engine_with(card_board(vec![card]));
    let st = two_players(&engine);

    // Landing on chance banks the card instead of resolving an effect.
    let (mut st, ev) = play(&engine, &st, "p0", 3);
    assert!(
        ev.iter()
            .any(|e| matches!(e, Event::JailCardReceived { player: 0 }))
    );
    assert_eq!(st.players[0].jail_cards, 1);
    assert_eq!(st.turn, TurnPhase::AwaitEnd);

    // Test shortcut: place p0 in jail with the turn back in hand.
    st.players[0].position = 4;
    st.players[0].jailed = true;
    st.turn = TurnPhase::AwaitMove;

    let (st, ev) = step(&engine, &st, cmd("p0", CommandKind::UseJailCard));
    assert!(
        ev.iter()
            .any(|e| matches!(e, Event::JailCardUsed { player: 0 }))
    );
    assert!(
        ev.iter()
            .any(|e| matches!(e, Event::LeftJail { player: 0 }))
    );
    assert_eq!(st.players[0].jail_cards, 0);
    assert!(!st.players[0].jailed);
    assert_eq!(st.players[0].cash, 1500, "the card costs nothing");
    assert_eq!(
        st.turn,
        TurnPhase::AwaitMove,
        "player still plays a card normally"
    );

    // Card 3 is already spent from the first move; 2 is still in hand.
    let (st, _) = play(&engine, &st, "p0", 2);
    assert_eq!(st.players[0].position, 1);
}

#[test]
fn jail_card_rejections_never_mutate() {
    let engine = engine_with(plain_board());
    let mut st = two_players(&engine);

    // Not in jail.
    assert_eq!(
        engine
            .apply(&st, &cmd("p0", CommandKind::UseJailCard))
            .unwrap_err(),
        CommandError::NotInJail
    );
    // In jail without a card.
    st.players[0].position = 5;
    st.players[0].jailed = true;
    assert_eq!(
        engine
            .apply(&st, &cmd("p0", CommandKind::UseJailCard))
            .unwrap_err(),
        CommandError::NoJailCard
    );
    assert!(st.players[0].jailed);
}

#[test]
fn legal_route_rejects_a_non_permutation_order_without_mutating() {
    let engine = engine_with(plain_board());
    let mut st = two_players(&engine);
    st.players[0].position = 5; // jail tile
    st.players[0].jailed = true;

    assert_eq!(
        engine
            .apply(
                &st,
                &cmd(
                    "p0",
                    CommandKind::ChooseLegalRoute {
                        order: vec![1, 2, 3, 4] // missing 5: not a full permutation
                    }
                )
            )
            .unwrap_err(),
        CommandError::InvalidRoute
    );
    assert!(st.players[0].jailed, "rejection must not mutate");
    assert_eq!(st.players[0].jail_route, None);
}

#[test]
fn legal_route_freezes_rent_and_freeze_ends_when_route_completes() {
    let engine = engine_with(plain_board());
    let mut st = two_players(&engine);
    st.tiles[6].owner = Some(0); // p0's navy tile: singleton full group, rent 20
    st.players[0].position = 5; // jail tile
    st.players[0].jailed = true;

    let order: Vec<u8> = (1..=5).collect();
    let (st, ev) = step(
        &engine,
        &st,
        cmd(
            "p0",
            CommandKind::ChooseLegalRoute {
                order: order.clone(),
            },
        ),
    );
    assert!(
        ev.iter()
            .any(|e| matches!(e, Event::LeftJail { player: 0 }))
    );
    assert!(ev.iter().any(|e| matches!(
        e,
        Event::LegalRouteChosen { player: 0, order: o } if *o == order
    )));
    assert!(!st.players[0].jailed);
    assert_eq!(st.players[0].jail_route, Some(vec![2, 3, 4, 5]));
    assert_eq!(
        st.players[0].position, 6,
        "route front (1) moved p0 onto their own navy tile"
    );

    // Hand off to p1: while p0's route is active, p1 pays no rent landing
    // on p0's tile.
    let (st, _) = step(&engine, &st, cmd("p0", CommandKind::EndTurn));
    let mut st = st;
    st.players[1].hand = vec![5];
    st.players[1].position = 1; // 1 + 5 = 6
    let (st, ev) = play(&engine, &st, "p1", 5);
    assert!(
        !ev.iter().any(|e| matches!(e, Event::RentPaid { .. })),
        "visitors play free while the owner is mid-route"
    );
    assert_eq!(st.players[1].cash, 1500, "no rent charged");
    assert_eq!(st.turn, TurnPhase::AwaitEnd);

    // Once the route ends, rent resumes normally.
    let mut st = st;
    st.players[0].jail_route = None;
    st.players[1].hand = vec![5];
    st.players[1].position = 1;
    st.turn = TurnPhase::AwaitMove;
    let (st, ev) = play(&engine, &st, "p1", 5);
    assert!(ev.iter().any(|e| matches!(
        e,
        Event::RentPaid {
            tile: 6,
            amount: 20,
            ..
        }
    )));
    assert_eq!(st.players[1].cash, 1500 - 20);
}

#[test]
fn corruption_bribe_succeeds_when_the_lone_opponent_accepts() {
    let engine = engine_with(plain_board());
    let mut st = two_players(&engine);
    st.players[0].position = 5; // jail tile
    st.players[0].jailed = true;

    let (st, ev) = step(
        &engine,
        &st,
        cmd("p0", CommandKind::OfferBribe { amount: 100 }),
    );
    assert!(ev.iter().any(|e| matches!(
        e,
        Event::BribeOffered {
            player: 0,
            amount: 100
        }
    )));
    assert!(matches!(
        st.turn,
        TurnPhase::BribeVote {
            briber: 0,
            amount: 100,
            ..
        }
    ));

    // The briber cannot vote on their own bribe.
    assert_eq!(
        engine
            .apply(&st, &cmd("p0", CommandKind::VoteOnBribe { accept: true }))
            .unwrap_err(),
        CommandError::NotYourTurn
    );

    let (st, ev) = step(
        &engine,
        &st,
        cmd("p1", CommandKind::VoteOnBribe { accept: true }),
    );
    assert!(ev.iter().any(|e| matches!(
        e,
        Event::BribeResolved {
            briber: 0,
            amount: 100,
            succeeded: true,
            accepts: 1,
            total: 1,
        }
    )));
    assert!(!st.players[0].jailed);
    assert_eq!(st.turn, TurnPhase::AwaitMove);
    assert_eq!(
        st.players[0].cash,
        1500 - 100,
        "the lone opponent takes the whole amount"
    );
    assert_eq!(st.players[1].cash, 1500 + 100);
}

#[test]
fn corruption_bribe_succeeds_with_majority_and_splits_by_floor_division() {
    let engine = engine_with(plain_board());
    let st = engine.new_game(
        vec![
            ("p0".into(), "P0".into()),
            ("p1".into(), "P1".into()),
            ("p2".into(), "P2".into()),
            ("p3".into(), "P3".into()),
        ],
        7,
    );
    let mut st = st;
    st.current = 0; // seed-drawn starter; the script needs p0
    st.players[0].position = 5;
    st.players[0].jailed = true;

    let (st, _) = step(
        &engine,
        &st,
        cmd("p0", CommandKind::OfferBribe { amount: 100 }),
    );

    // Double-voting rejects without mutating the tally.
    let (st, _) = step(
        &engine,
        &st,
        cmd("p1", CommandKind::VoteOnBribe { accept: true }),
    );
    assert_eq!(
        engine
            .apply(&st, &cmd("p1", CommandKind::VoteOnBribe { accept: false }))
            .unwrap_err(),
        CommandError::AlreadyVoted
    );

    let (st, _) = step(
        &engine,
        &st,
        cmd("p2", CommandKind::VoteOnBribe { accept: false }),
    );
    // 2 of 3 opponents accept: strictly more than half, success without unanimity.
    let (st, ev) = step(
        &engine,
        &st,
        cmd("p3", CommandKind::VoteOnBribe { accept: true }),
    );
    assert!(ev.iter().any(|e| matches!(
        e,
        Event::BribeResolved {
            briber: 0,
            amount: 100,
            succeeded: true,
            accepts: 2,
            total: 3,
        }
    )));
    assert!(!st.players[0].jailed);
    // 100 / 3 = 33 floored; only 99 leaves the briber, the remainder stays.
    assert_eq!(st.players[0].cash, 1500 - 99);
    assert_eq!(st.players[1].cash, 1500 + 33);
    assert_eq!(
        st.players[2].cash,
        1500 + 33,
        "rejecting voters still get a share"
    );
    assert_eq!(st.players[3].cash, 1500 + 33);
}

#[test]
fn corruption_bribe_fails_without_majority_and_degrades_to_await_end() {
    let engine = engine_with(plain_board());
    let mut st = two_players(&engine);
    st.players[0].position = 5;
    st.players[0].jailed = true;

    let (st, _) = step(
        &engine,
        &st,
        cmd("p0", CommandKind::OfferBribe { amount: 100 }),
    );
    let (st, ev) = step(
        &engine,
        &st,
        cmd("p1", CommandKind::VoteOnBribe { accept: false }),
    );
    assert!(ev.iter().any(|e| matches!(
        e,
        Event::BribeResolved {
            briber: 0,
            amount: 100,
            succeeded: false,
            accepts: 0,
            total: 1,
        }
    )));
    assert!(st.players[0].jailed, "the bribe failing does not un-jail");
    assert_eq!(
        st.turn,
        TurnPhase::AwaitEnd,
        "turn degrades, retry available next turn"
    );
    assert_eq!(st.players[0].cash, 1500, "no cash moves on a failed bribe");
    assert_eq!(st.players[1].cash, 1500);

    // Retry next turn: the same jailed player can offer again once back in
    // AwaitMove - the failure does not lock them out.
    let mut st = st;
    st.turn = TurnPhase::AwaitMove;
    let (_st, ev) = step(
        &engine,
        &st,
        cmd("p0", CommandKind::OfferBribe { amount: 50 }),
    );
    assert!(ev.iter().any(|e| matches!(
        e,
        Event::BribeOffered {
            player: 0,
            amount: 50
        }
    )));
}

#[test]
fn a_route_landing_on_go_to_jail_revokes_parole_and_refills_the_hand() {
    let engine = engine_with(plain_board());
    let mut st = two_players(&engine);
    st.players[0].position = 5; // jail tile
    st.players[0].jailed = true;

    // Front card (2) moves p0 from jail (5) straight onto go-to-jail (7).
    let order = vec![2, 1, 3, 4, 5];
    let (st, ev) = step(
        &engine,
        &st,
        cmd(
            "p0",
            CommandKind::ChooseLegalRoute {
                order: order.clone(),
            },
        ),
    );
    assert!(
        ev.iter()
            .any(|e| matches!(e, Event::WentToJail { player: 0, .. }))
    );
    assert!(
        st.players[0].jailed,
        "landing back on go-to-jail mid-route re-jails the player"
    );
    assert_eq!(
        st.players[0].jail_route, None,
        "the unfinished route must not survive re-imprisonment"
    );
    assert_eq!(st.players[0].position, 5);
    assert_eq!(
        st.players[0].hand,
        vec![1, 2, 3, 4, 5],
        "a normal hand is waiting for whichever jail exit comes next"
    );
    assert_eq!(
        st.players[0].hands_cycled, 1,
        "the abandoned route still ticks exactly one refill"
    );
}

#[test]
fn bankruptcy_during_a_route_purges_the_freeze_state_cleanly() {
    let card = CardDef {
        id: "crushing_debt".into(),
        text: "Pay a crushing debt.".into(),
        effect: CardEffect::Money { amount: -1000 },
    };
    let engine = engine_with(card_board(vec![card]));
    let mut st = two_players(&engine);
    st.tiles[1].owner = Some(0); // p0 owns ave_a before going bankrupt
    st.players[0].position = 4; // jail tile
    st.players[0].jailed = true;
    st.players[0].cash = 5;

    // A custom (non-ascending) route whose front card lands p0 straight on
    // the chance tile: 4 (jail) + 4 = 3 (mod 5).
    let order = vec![4, 1, 2, 3, 5];
    let (st, ev) = step(
        &engine,
        &st,
        cmd(
            "p0",
            CommandKind::ChooseLegalRoute {
                order: order.clone(),
            },
        ),
    );
    assert!(ev.iter().any(|e| matches!(
        e,
        Event::PlayerBankrupt {
            player: 0,
            creditor: None
        }
    )));
    assert!(st.players[0].bankrupt);
    assert_eq!(
        st.players[0].jail_route, None,
        "the freeze state must not survive a mid-route bankruptcy"
    );
    assert!(!st.players[0].jailed);
    assert_eq!(st.tiles[1].owner, None, "the tile returns to the bank");
}
