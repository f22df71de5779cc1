//! Every player action is a value that flows through the single
//! `Engine::apply` pipeline; the full command log is the audit trail and
//! the replay source.
use vstd::prelude::*;

use crate::state::PlayerId;

verus! {

#[derive(Debug, Clone, PartialEq)]
pub struct PlayerCommand {
    pub player: PlayerId,
    pub kind: CommandKind,
}

#[derive(Debug, Clone, PartialEq)]
pub enum CommandKind {
    /// Play one card from the hand, moving that many tiles and resolving
    /// the landing. While a Legal Route is served only its front value is
    /// accepted; a jailed player uses a jail exit instead.
    PlayMovementCard { value: u8 },
    /// Build one house on an owned tile (full group required).
    Build { tile: String },
    /// Offer a trade to another player; at least one side must be
    /// non-empty. Allowed any time outside auctions and votes.
    ProposeTrade {
        to: String,
        give_cash: i64,
        give_tiles: Vec<String>,
        receive_cash: i64,
        receive_tiles: Vec<String>,
    },
    /// Recipient accepts an open offer (re-validated at this moment).
    AcceptTrade { trade: u32 },
    /// Recipient declines an open offer.
    DeclineTrade { trade: u32 },
    /// Proposer withdraws their own offer.
    CancelTrade { trade: u32 },
    /// Submit one sealed bid for the open auction window; `0` abstains.
    /// The discoverer's implicit floor is list price; an explicit non-zero
    /// discoverer bid must meet it.
    SubmitBlindBid { amount: i64 },
    /// Sell one house back to the bank for half its cost (even-sell rule).
    SellHouse { tile: String },
    /// Seize a rival's property on the landing tile for a premium; the
    /// former owner is compensated.
    Expropriate { tile: String },
    /// Raise an owned tile's rent one step for a fee.
    BoostRent { tile: String },
    /// Mortgage an owned tile for half its price (group must be house-free).
    Mortgage { tile: String },
    /// Lift a mortgage for the mortgage value plus 10% interest.
    Unmortgage { tile: String },
    /// Legal Route exit: `order` must be a permutation of the full hand.
    /// Leaves jail at once, locks the route, and plays its first card.
    ChooseLegalRoute { order: Vec<u8> },
    /// Corruption exit: offers `amount` (1..=cash) to the table, opening a
    /// vote among living opponents.
    OfferBribe { amount: i64 },
    /// Vote on an open bribe; the briber never votes on their own offer.
    VoteOnBribe { accept: bool },
    /// Spend a held get-out-of-jail-free card.
    UseJailCard,
    EndTurn,
    /// Forfeit: assets return to the bank. Allowed at any time.
    Resign,
}

/// A command as a mathematical value: text as sequences of characters.
pub enum CommandModel {
    PlayMovementCard { value: u8 },
    Build { tile: Seq<char> },
    ProposeTrade {
        to: Seq<char>,
        give_cash: i64,
        give_tiles: Seq<Seq<char>>,
        receive_cash: i64,
        receive_tiles: Seq<Seq<char>>,
    },
    AcceptTrade { trade: u32 },
    DeclineTrade { trade: u32 },
    CancelTrade { trade: u32 },
    SubmitBlindBid { amount: i64 },
    SellHouse { tile: Seq<char> },
    Expropriate { tile: Seq<char> },
    BoostRent { tile: Seq<char> },
    Mortgage { tile: Seq<char> },
    Unmortgage { tile: Seq<char> },
    ChooseLegalRoute { order: Seq<u8> },
    OfferBribe { amount: i64 },
    VoteOnBribe { accept: bool },
    UseJailCard,
    EndTurn,
    Resign,
}

impl View for CommandKind {
    type V = CommandModel;

    open spec fn view(&self) -> CommandModel {
        match self {
            CommandKind::PlayMovementCard { value } => CommandModel::PlayMovementCard { value: *value },
            CommandKind::Build { tile } => CommandModel::Build { tile: tile@ },
            CommandKind::ProposeTrade { to, give_cash, give_tiles, receive_cash, receive_tiles } => CommandModel::ProposeTrade {
                to: to@,
                give_cash: *give_cash,
                give_tiles: give_tiles@.map_values(|x: String| x@),
                receive_cash: *receive_cash,
                receive_tiles: receive_tiles@.map_values(|x: String| x@),
            },
            CommandKind::AcceptTrade { trade } => CommandModel::AcceptTrade { trade: *trade },
            CommandKind::DeclineTrade { trade } => CommandModel::DeclineTrade { trade: *trade },
            CommandKind::CancelTrade { trade } => CommandModel::CancelTrade { trade: *trade },
            CommandKind::SubmitBlindBid { amount } => CommandModel::SubmitBlindBid { amount: *amount },
            CommandKind::SellHouse { tile } => CommandModel::SellHouse { tile: tile@ },
            CommandKind::Expropriate { tile } => CommandModel::Expropriate { tile: tile@ },
            CommandKind::BoostRent { tile } => CommandModel::BoostRent { tile: tile@ },
            CommandKind::Mortgage { tile } => CommandModel::Mortgage { tile: tile@ },
            CommandKind::Unmortgage { tile } => CommandModel::Unmortgage { tile: tile@ },
            CommandKind::ChooseLegalRoute { order } => CommandModel::ChooseLegalRoute { order: order@ },
            CommandKind::OfferBribe { amount } => CommandModel::OfferBribe { amount: *amount },
            CommandKind::VoteOnBribe { accept } => CommandModel::VoteOnBribe { accept: *accept },
            CommandKind::UseJailCard => CommandModel::UseJailCard,
            CommandKind::EndTurn => CommandModel::EndTurn,
            CommandKind::Resign => CommandModel::Resign,
        }
    }
}

} // verus!
