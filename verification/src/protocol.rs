//! Message shapes exchanged between the server and its clients. The wire
//! encoding (tagged JSON) is the transport's business; these are the
//! values it carries.
use vstd::prelude::*;

use crate::command::CommandKind;
use crate::content::RuleParams;

verus! {

/// Per-room settings the host edits in the lobby: the time limits plus
/// the full effective rule set. The server clamps every field before
/// applying it.
#[derive(Debug, Clone, Copy, PartialEq)]
pub struct RoomSettings {
    /// Total game length in seconds; `None` = untimed.
    pub game_seconds: Option<u64>,
    /// Per-turn limit in seconds; `None` = no turn limit.
    pub turn_seconds: Option<u64>,
    /// Personal reserve in seconds an acting seat may draw on to overrun
    /// the turn limit, for the whole match; `None` or 0 disables it.
    pub time_bank_seconds: Option<u64>,
    /// The rule scalars used when the game starts.
    pub rules: RuleParams,
}

/// Identity presented on connect.
#[derive(Debug, Clone, PartialEq)]
pub struct AuthPayload {
    /// Player token issued by an identity service.
    pub token: Option<String>,
    /// Guest display name.
    pub guest_name: Option<String>,
    /// Public handle a token-authenticated player chooses to be shown as.
    pub display_name: Option<String>,
    /// Per-seat reconnect token, to re-take a seat after a disconnect.
    pub reconnect: Option<String>,
}

impl Default for AuthPayload {
    fn default() -> (r: Self)
        ensures
            r.token is None && r.guest_name is None && r.display_name is None && r.reconnect is None,
    {
        AuthPayload { token: None, guest_name: None, display_name: None, reconnect: None }
    }
}

#[derive(Debug, Clone, PartialEq)]
pub enum ClientMessage {
    /// Create a room and join it as host (seat 0); `mods` picks the room's
    /// ordered mod list, `None` or empty for the server's default.
    Create { auth: AuthPayload, mods: Option<Vec<String>> },
    /// Join an existing room by code; the same identity reattaches to its
    /// seat.
    Join { code: String, auth: AuthPayload },
    /// Watch a room without a seat; without a code the server picks one.
    Spectate { code: Option<String>, auth: AuthPayload },
    /// Host only, in the lobby: add a bot seat.
    AddBot,
    /// Host only, in the lobby: drop the last bot seat added.
    RemoveBot,
    /// Host only, in the lobby: replace the room settings.
    Configure { settings: RoomSettings },
    /// Host only, in the lobby: start the game.
    Start,
    /// After a game: replay in the same room.
    PlayAgain,
    /// Leave the room, keeping the connection.
    Leave,
    /// In-game player command, relayed to the engine.
    Cmd { cmd: CommandKind },
    /// Post-game survey: a 1-5 rating and an optional comment.
    Feedback { rating: u8, comment: Option<String> },
    /// This client has rendered every update through `through_seq`.
    AnimationDone { through_seq: u64 },
    /// Ask which mod ids the server can resolve.
    ListMods,
    /// Enter the ranked queue (token identities only).
    QueueRanked { auth: AuthPayload },
    /// Leave the ranked queue.
    CancelQueue,
    /// Ask for the caller's ladder record.
    GetRating { auth: AuthPayload },
    Ping,
}

/// Public lobby info for one seat.
#[derive(Debug, Clone, PartialEq, Eq)]
pub struct SeatInfo {
    pub seat: usize,
    pub player_id: String,
    pub name: String,
    pub connected: bool,
    /// A server-driven bot seat, not a human connection.
    pub is_bot: bool,
}

} // verus!
