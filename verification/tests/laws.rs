//! The library's cross-operation properties on concrete games.
use std::sync::Arc;

use parcello::{
    CommandKind, Engine, Event, GameContent, GameState, PlayerCommand, PropertyDef, RentModel,
    RuleParams, TileDef, TileKind, TurnPhase,
};

fn tile(id: &str, kind: TileKind) -> TileDef {
    TileDef {
        id: id.into(),
        name: id.into(),
        kind,
    }
}

fn prop(group: &str, price: i64, house_cost: i64) -> TileKind {
    TileKind::Property(PropertyDef {
        group: group.into(),
        price,
        house_cost,
        rents: [2, 10, 30, 90, 160, 250],
        rent_model: RentModel::Houses,
    })
}

fn board(price: i64, house_cost: i64) -> GameContent {
    GameContent {
        board: vec![
            tile("go", TileKind::Go),
            tile("park", TileKind::FreeParking),
            tile("ave_a", prop("brown", price, house_cost)),
            tile("ave_b", prop("brown", price, house_cost)),
            tile("jail", TileKind::Jail),
        ],
        chance: vec![],
        community: vec![],
        rules: RuleParams::default(),
        market_events: vec![],
        forecast_gap_turns: 0,
    }
}

fn game(engine: &Engine, seats: usize) -> GameState {
    let players = (0..seats)
        .map(|i| (format!("p{i}"), format!("P{i}")))
        .collect();
    let mut st = engine.new_game(players, 7);
    st.current = 0;
    st
}

fn cmd(player: &str, kind: CommandKind) -> PlayerCommand {
    PlayerCommand {
        player: player.into(),
        kind,
    }
}

fn total_cash(st: &GameState) -> i64 {
    st.players.iter().map(|p| p.cash).sum()
}

#[test]
fn build_then_sell_costs_half_the_house_and_restores_the_board() {
    let engine = Engine::new(Arc::new(board(60, 51))).unwrap();
    let mut st = game(&engine, 2);
    st.tiles[2].owner = Some(0);
    st.tiles[3].owner = Some(0);
    let (built, _) = engine
        .apply(&st, &cmd("p0", CommandKind::Build { tile: "ave_a".into() }))
        .unwrap();
    assert_eq!(built.tiles[2].houses, 1);
    let (sold, _) = engine
        .apply(&built, &cmd("p0", CommandKind::SellHouse { tile: "ave_a".into() }))
        .unwrap();
    assert_eq!(sold.tiles, st.tiles);
    assert_eq!(sold.players[0].cash, 1500 - 51 + 25);
    assert_eq!(sold.subsidiaries_available, st.subsidiaries_available);
}

#[test]
fn mortgage_then_redeem_costs_the_interest() {
    let engine = Engine::new(Arc::new(board(60, 50))).unwrap();
    let mut st = game(&engine, 2);
    st.tiles[2].owner = Some(0);
    let (m, _) = engine
        .apply(&st, &cmd("p0", CommandKind::Mortgage { tile: "ave_a".into() }))
        .unwrap();
    assert!(m.tiles[2].mortgaged);
    assert_eq!(m.players[0].cash, 1530);
    let (u, _) = engine
        .apply(&m, &cmd("p0", CommandKind::Unmortgage { tile: "ave_a".into() }))
        .unwrap();
    assert_eq!(u.tiles, st.tiles);
    assert_eq!(u.players[0].cash, 1500 - 3);
}

#[test]
fn mortgage_keeps_net_worth_for_an_even_price_only() {
    let even = Engine::new(Arc::new(board(60, 50))).unwrap();
    let mut st = game(&even, 2);
    st.tiles[2].owner = Some(0);
    let before = st.net_worth(even.content(), 0);
    let (m, _) = even
        .apply(&st, &cmd("p0", CommandKind::Mortgage { tile: "ave_a".into() }))
        .unwrap();
    assert_eq!(m.net_worth(even.content(), 0), before);

    let odd = Engine::new(Arc::new(board(61, 50))).unwrap();
    let mut st = game(&odd, 2);
    st.tiles[2].owner = Some(0);
    let before = st.net_worth(odd.content(), 0);
    let (m, _) = odd
        .apply(&st, &cmd("p0", CommandKind::Mortgage { tile: "ave_a".into() }))
        .unwrap();
    assert_eq!(m.net_worth(odd.content(), 0), before - 1);
}

#[test]
fn accepted_trade_keeps_the_table_cash() {
    let engine = Engine::new(Arc::new(board(60, 50))).unwrap();
    let mut st = game(&engine, 2);
    st.tiles[2].owner = Some(0);
    let (offered, _) = engine
        .apply(
            &st,
            &cmd(
                "p0",
                CommandKind::ProposeTrade {
                    to: "p1".into(),
                    give_cash: 0,
                    give_tiles: vec!["ave_a".into()],
                    receive_cash: 120,
                    receive_tiles: vec![],
                },
            ),
        )
        .unwrap();
    let id = offered.pending_trades[0].id;
    let (done, _) = engine
        .apply(&offered, &cmd("p1", CommandKind::AcceptTrade { trade: id }))
        .unwrap();
    assert_eq!(total_cash(&done), total_cash(&st));
    assert_eq!(done.players[0].cash, 1620);
    assert_eq!(done.tiles[2].owner, Some(1));
}

#[test]
fn carried_bribe_keeps_the_table_cash() {
    let engine = Engine::new(Arc::new(board(60, 50))).unwrap();
    let mut st = game(&engine, 4);
    st.players[0].jailed = true;
    st.turn = TurnPhase::AwaitMove;
    let (open, _) = engine
        .apply(&st, &cmd("p0", CommandKind::OfferBribe { amount: 100 }))
        .unwrap();
    let mut cur = open;
    for voter in ["p1", "p2", "p3"] {
        cur = engine
            .apply(&cur, &cmd(voter, CommandKind::VoteOnBribe { accept: true }))
            .unwrap()
            .0;
    }
    assert_eq!(total_cash(&cur), total_cash(&st));
    assert_eq!(cur.players[0].cash, 1500 - 99);
    assert_eq!(cur.players[1].cash, 1533);
}

#[test]
fn rent_paid_in_full_keeps_the_table_cash() {
    let engine = Engine::new(Arc::new(board(60, 50))).unwrap();
    let mut st = game(&engine, 2);
    st.tiles[3].owner = Some(1);
    st.players[0].hand = vec![3];
    st.turn = TurnPhase::AwaitMove;
    let (s, _) = engine
        .apply(&st, &cmd("p0", CommandKind::PlayMovementCard { value: 3 }))
        .unwrap();
    assert_eq!(s.players[0].position, 3);
    assert_eq!(s.players[0].cash, 1500 - 2);
    assert_eq!(s.players[1].cash, 1500 + 2);
    assert_eq!(total_cash(&s), total_cash(&st));
    assert_eq!(s.turn, TurnPhase::AwaitEnd);
    assert_eq!(s.current, 0);
}

#[test]
fn a_tax_tile_takes_its_amount_for_the_bank() {
    let mut content = board(60, 50);
    content.board[1] = tile("tax", TileKind::Tax { amount: 100 });
    let engine = Engine::new(Arc::new(content)).unwrap();
    let mut st = game(&engine, 2);
    st.players[0].hand = vec![1];
    st.turn = TurnPhase::AwaitMove;
    let (s, _) = engine
        .apply(&st, &cmd("p0", CommandKind::PlayMovementCard { value: 1 }))
        .unwrap();
    assert_eq!(s.players[0].cash, 1400);
    assert_eq!(total_cash(&s), total_cash(&st) - 100);
    assert_eq!(s.tiles, st.tiles);
}

#[test]
fn ending_the_turn_skips_seats_that_left_the_game() {
    let engine = Engine::new(Arc::new(board(60, 50))).unwrap();
    let mut st = game(&engine, 3);
    st.players[1].bankrupt = true;
    st.turn = TurnPhase::AwaitEnd;
    let (s, _) = engine.apply(&st, &cmd("p0", CommandKind::EndTurn)).unwrap();
    assert_eq!(s.current, 2);
    assert_eq!(s.turn_count, st.turn_count + 1);
    assert_eq!(s.turn, TurnPhase::AwaitMove);
    let mut st = s;
    st.turn = TurnPhase::AwaitEnd;
    let (s, _) = engine.apply(&st, &cmd("p2", CommandKind::EndTurn)).unwrap();
    assert_eq!(s.current, 0);
}

#[test]
fn resigning_off_turn_hands_the_tiles_back_and_withdraws_the_offers() {
    let engine = Engine::new(Arc::new(board(60, 50))).unwrap();
    let mut st = game(&engine, 3);
    st.tiles[2].owner = Some(1);
    st.tiles[2].mortgaged = true;
    st.tiles[3].owner = Some(2);
    let (st, _) = engine
        .apply(
            &st,
            &cmd(
                "p1",
                CommandKind::ProposeTrade {
                    to: "p2".into(),
                    give_cash: 10,
                    give_tiles: vec![],
                    receive_cash: 0,
                    receive_tiles: vec!["ave_b".into()],
                },
            ),
        )
        .unwrap();
    assert_eq!(st.pending_trades.len(), 1);
    let (s, _) = engine.apply(&st, &cmd("p1", CommandKind::Resign)).unwrap();
    assert!(s.players[1].bankrupt);
    assert_eq!(s.tiles[2].owner, None);
    assert!(!s.tiles[2].mortgaged);
    assert_eq!(s.tiles[3], st.tiles[3]);
    assert!(s.pending_trades.is_empty());
    assert_eq!(s.current, 0);
    assert_eq!(s.players[1].cash, st.players[1].cash);
}

#[test]
fn owner_actions_announce_exactly_what_they_did() {
    let engine = Engine::new(Arc::new(board(60, 50))).unwrap();
    let mut st = game(&engine, 2);
    st.tiles[2].owner = Some(0);
    st.tiles[3].owner = Some(0);
    let (built, events) = engine
        .apply(&st, &cmd("p0", CommandKind::Build { tile: "ave_a".into() }))
        .unwrap();
    assert_eq!(
        events,
        vec![Event::HouseBuilt { player: 0, tile: 2, houses: 1, cost: 50 }]
    );
    let (_, events) = engine
        .apply(&built, &cmd("p0", CommandKind::SellHouse { tile: "ave_a".into() }))
        .unwrap();
    assert_eq!(
        events,
        vec![Event::HouseSold { player: 0, tile: 2, houses: 0, refund: 25 }]
    );
    let (_, events) = engine
        .apply(&st, &cmd("p0", CommandKind::Mortgage { tile: "ave_b".into() }))
        .unwrap();
    assert_eq!(
        events,
        vec![Event::PropertyMortgaged { player: 0, tile: 3, value: 30 }]
    );
}

#[test]
fn an_accepted_trade_announces_the_acceptance_then_each_transfer() {
    let engine = Engine::new(Arc::new(board(60, 50))).unwrap();
    let mut st = game(&engine, 2);
    st.tiles[2].owner = Some(0);
    st.tiles[3].owner = Some(1);
    let (st, events) = engine
        .apply(
            &st,
            &cmd(
                "p0",
                CommandKind::ProposeTrade {
                    to: "p1".into(),
                    give_cash: 0,
                    give_tiles: vec!["ave_a".into()],
                    receive_cash: 5,
                    receive_tiles: vec!["ave_b".into()],
                },
            ),
        )
        .unwrap();
    let id = st.pending_trades[0].id;
    assert_eq!(events, vec![Event::TradeProposed { trade: id, from: 0, to: 1 }]);
    let (s, events) = engine
        .apply(&st, &cmd("p1", CommandKind::AcceptTrade { trade: id }))
        .unwrap();
    assert_eq!(
        events,
        vec![
            Event::TradeAccepted { trade: id, from: 0, to: 1 },
            Event::PropertyTransferred { tile: 2, from: 0, to: Some(1) },
            Event::PropertyTransferred { tile: 3, from: 1, to: Some(0) },
        ]
    );
    assert_eq!(s.tiles[2].owner, Some(1));
    assert_eq!(s.tiles[3].owner, Some(0));
}

#[test]
fn a_route_card_moves_the_token_and_advances_the_route() {
    let engine = Engine::new(Arc::new(board(60, 50))).unwrap();
    let mut st = game(&engine, 2);
    st.players[0].hand = vec![];
    st.players[0].jail_route = Some(vec![1, 2]);
    st.turn = TurnPhase::AwaitMove;
    let refused = engine.apply(&st, &cmd("p0", CommandKind::PlayMovementCard { value: 2 }));
    assert!(refused.is_err());
    let (s, _) = engine
        .apply(&st, &cmd("p0", CommandKind::PlayMovementCard { value: 1 }))
        .unwrap();
    assert_eq!(s.players[0].position, 1);
    assert_eq!(s.players[0].jail_route, Some(vec![2]));
    assert_eq!(s.turn, TurnPhase::AwaitEnd);
    assert_eq!(s.tiles, st.tiles);
}

#[test]
fn choosing_a_legal_route_plays_its_first_card_at_once() {
    let engine = Engine::new(Arc::new(board(60, 50))).unwrap();
    let mut st = game(&engine, 2);
    st.players[0].jailed = true;
    st.players[0].position = 4;
    st.turn = TurnPhase::AwaitMove;
    let order = vec![2, 1, 3, 4, 5];
    let (s, _) = engine
        .apply(&st, &cmd("p0", CommandKind::ChooseLegalRoute { order: order.clone() }))
        .unwrap();
    assert!(!s.players[0].jailed);
    assert!(s.players[0].hand.is_empty());
    assert_eq!(s.players[0].position, 1);
    assert_eq!(s.players[0].jail_route, Some(vec![1, 3, 4, 5]));
    assert_eq!(s.turn, TurnPhase::AwaitEnd);
}
