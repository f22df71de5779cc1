//! Console lines into client messages.
use parcello::console::parse_command;
use parcello::protocol::{ClientMessage, RoomSettings};
use parcello::{CommandKind, RuleParams};

fn ids() -> Vec<String> {
    vec!["id:a".into(), "id:b".into()]
}

fn settings() -> Option<RoomSettings> {
    Some(RoomSettings {
        game_seconds: None,
        turn_seconds: Some(30),
        time_bank_seconds: None,
        rules: RuleParams::default(),
    })
}

fn cmd(line: &str) -> Option<CommandKind> {
    match parse_command(&ids(), &settings(), line) {
        Some(ClientMessage::Cmd { cmd }) => Some(cmd),
        _ => None,
    }
}

#[test]
fn lone_words() {
    assert_eq!(parse_command(&ids(), &None, "start"), Some(ClientMessage::Start));
    assert_eq!(parse_command(&ids(), &None, "  again "), Some(ClientMessage::PlayAgain));
    assert_eq!(parse_command(&ids(), &None, "rmbot"), Some(ClientMessage::RemoveBot));
    assert_eq!(cmd("end"), Some(CommandKind::EndTurn));
    assert_eq!(cmd("card"), Some(CommandKind::UseJailCard));
    assert_eq!(parse_command(&ids(), &None, "start now"), None);
    assert_eq!(parse_command(&ids(), &None, "   "), None);
    assert_eq!(parse_command(&ids(), &None, "dance"), None);
}

#[test]
fn commands_with_numbers() {
    assert_eq!(cmd("play 3"), Some(CommandKind::PlayMovementCard { value: 3 }));
    assert_eq!(cmd("play 300"), None);
    assert_eq!(cmd("bid -5"), Some(CommandKind::SubmitBlindBid { amount: -5 }));
    assert_eq!(cmd("bribe +120"), Some(CommandKind::OfferBribe { amount: 120 }));
    assert_eq!(cmd("bribe x"), None);
    assert_eq!(cmd("accept 4294967295"), Some(CommandKind::AcceptTrade { trade: u32::MAX }));
    assert_eq!(cmd("accept 4294967296"), None);
    assert_eq!(cmd("route 4,x,2,,1"), Some(CommandKind::ChooseLegalRoute { order: vec![4, 2, 1] }));
    assert_eq!(cmd("vote yes"), Some(CommandKind::VoteOnBribe { accept: true }));
    assert_eq!(cmd("vote maybe"), None);
}

#[test]
fn tiles_and_offers() {
    assert_eq!(cmd("build ave_a"), Some(CommandKind::Build { tile: "ave_a".into() }));
    assert_eq!(cmd("redeem ave_b extra"), Some(CommandKind::Unmortgage { tile: "ave_b".into() }));
    assert_eq!(
        cmd("offer 1 50 ave_a,,ave_b 0 -"),
        Some(CommandKind::ProposeTrade {
            to: "id:b".into(),
            give_cash: 50,
            give_tiles: vec!["ave_a".into(), "ave_b".into()],
            receive_cash: 0,
            receive_tiles: vec![],
        })
    );
    assert_eq!(cmd("offer 2 50 - 0 -"), None);
    assert_eq!(cmd("offer 1 50 -"), None);
}

#[test]
fn settings_and_feedback() {
    match parse_command(&ids(), &settings(), "set turn off") {
        Some(ClientMessage::Configure { settings }) => {
            assert_eq!(settings.turn_seconds, None);
        }
        other => panic!("expected settings, got {other:?}"),
    }
    match parse_command(&ids(), &settings(), "set max_houses 4") {
        Some(ClientMessage::Configure { settings }) => {
            assert_eq!(settings.rules.max_houses_per_property, 4);
            assert_eq!(settings.turn_seconds, Some(30));
        }
        other => panic!("expected settings, got {other:?}"),
    }
    assert_eq!(parse_command(&ids(), &None, "set game 60"), None);
    assert_eq!(parse_command(&ids(), &settings(), "set colour 3"), None);
    assert_eq!(
        parse_command(&ids(), &None, "feedback 5 good   game"),
        Some(ClientMessage::Feedback { rating: 5, comment: Some("good game".into()) })
    );
    assert_eq!(
        parse_command(&ids(), &None, "feedback 4"),
        Some(ClientMessage::Feedback { rating: 4, comment: None })
    );
}
