//! Errors returned by the validate step of the command pipeline and by
//! content validation at room creation.
use vstd::prelude::*;

verus! {

/// Command rejection. Rejections never mutate state; the transport layer
/// forwards them to the issuing player only.
#[derive(Debug, Clone, PartialEq, Eq)]
pub enum CommandError {
    GameFinished,
    UnknownPlayer,
    Bankrupt,
    NotYourTurn,
    WrongPhase,
    UnknownTile { tile: String },
    NotAProperty,
    NotOwner,
    GroupIncomplete,
    BuildLimit,
    NotBuildable,
    UnevenBuild,
    NoHouses,
    MortgagedInGroup,
    AlreadyMortgaged,
    NotMortgaged,
    HousesInGroup,
    TradeNotFound,
    NotTradeParty,
    TradeInvalid,
    TradeLimit,
    InsufficientFunds,
    AlreadyBid,
    BidBelowFloor,
    NotInJail,
    NoJailCard,
    ExpropriationDisabled,
    NotExpropriable,
    NotOnTile,
    PoolExhausted,
    RentBoostDisabled,
    BoostLimit,
    CardNotPlayable,
    InvalidRoute,
    AlreadyVoted,
}

/// Content invariant violations, detected once at room creation.
#[derive(Debug, Clone, PartialEq, Eq)]
pub enum ContentError {
    EmptyBoard,
    FirstTileNotGo,
    JailTileCount(usize),
    EmptyDeck(&'static str),
    DuplicateTileId(String),
    InvalidProperty(String),
    CardTargetsUnknownTile { card: String, tile: String },
    InvalidVelocityRange,
    InvalidNetWorthTax(String),
}

/// A rejection as a mathematical value: the unknown tile's id as a
/// sequence of characters, every other rejection as itself.
pub enum RejectionModel {
    UnknownTile(Seq<char>),
    Plain(CommandError),
}

impl View for CommandError {
    type V = RejectionModel;

    open spec fn view(&self) -> RejectionModel {
        match self {
            CommandError::UnknownTile { tile } => RejectionModel::UnknownTile(tile@),
            _ => RejectionModel::Plain(*self),
        }
    }
}

} // verus!
