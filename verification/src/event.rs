//! Typed events emitted after each state transition: the animation feed
//! for clients and the passive hook surface for mods. Player fields are
//! seat indices.
use vstd::prelude::*;

use crate::content::MarketEffect;

verus! {

#[derive(Debug, Clone, Copy, PartialEq, Eq, Structural)]
pub enum DeckKind {
    Chance,
    Community,
}

#[derive(Debug, Clone, PartialEq, Eq)]
pub enum Event {
    TurnStarted { player: usize },
    /// A movement card was played: `value` tiles forward.
    MovementCardPlayed { player: usize, value: u8 },
    Moved { player: usize, from: usize, to: usize, passed_go: bool },
    SalaryPaid { player: usize, amount: i64 },
    /// A sealed-bid window opened on an unowned property; the discoverer
    /// holds an implicit floor bid of `floor` (list price).
    BlindAuctionOpened { tile: usize, discoverer: usize, floor: i64 },
    /// A seat submitted its bid; the amount stays hidden until resolution.
    BlindBidSubmitted { player: usize },
    /// Every living seat has bid. `winner = None` means every effective bid
    /// was zero; `bids` reveals every raw submission (`0` where unset).
    BlindAuctionResolved {
        tile: usize,
        discoverer: usize,
        winner: Option<usize>,
        amount: i64,
        bids: Vec<i64>,
    },
    /// The discoverer won its own auction and the bank rebates part of what
    /// it just paid; always follows the resolution that charged in full.
    DiscovererRefunded { player: usize, tile: usize, amount: i64 },
    TradeProposed { trade: u32, from: usize, to: usize },
    /// Followed by one `PropertyTransferred` per tile that changed hands.
    TradeAccepted { trade: u32, from: usize, to: usize },
    TradeDeclined { trade: u32, from: usize, to: usize },
    TradeCancelled { trade: u32, from: usize, to: usize },
    RentPaid { from: usize, to: usize, tile: usize, amount: i64 },
    TaxPaid { player: usize, tile: usize, amount: i64 },
    CardDrawn { player: usize, deck: DeckKind, card: String, text: String },
    /// Money moved to or from the bank outside of rent and tax.
    CashAdjusted { player: usize, delta: i64, reason: String },
    HouseBuilt { player: usize, tile: usize, houses: u8, cost: i64 },
    HouseSold { player: usize, tile: usize, houses: u8, refund: i64 },
    /// A rival's property was seized; improved tiles liquidate on seizure,
    /// paying `from` `liquidation_refund` on top of the compensation.
    Expropriated {
        player: usize,
        from: usize,
        tile: usize,
        cost: i64,
        liquidated: u8,
        liquidation_refund: i64,
    },
    RentBoosted { player: usize, tile: usize, boosts: u8, cost: i64 },
    /// The first rent collected at a boosted rate consumed the boost.
    RentBoostConsumed { tile: usize },
    PropertyMortgaged { player: usize, tile: usize, value: i64 },
    PropertyUnmortgaged { player: usize, tile: usize, cost: i64 },
    /// `from` is the tile the player stood on when sent.
    WentToJail { player: usize, from: usize },
    JailCardReceived { player: usize },
    JailCardUsed { player: usize },
    LeftJail { player: usize },
    /// Legal Route chosen: `order` is the full locked, public plan.
    LegalRouteChosen { player: usize, order: Vec<u8> },
    BribeOffered { player: usize, amount: i64 },
    /// A vote was cast; the choice stays hidden until resolution.
    BribeVoteCast { player: usize },
    /// The bribe vote closed; `accepts`/`total` is the only tally revealed.
    BribeResolved { briber: usize, amount: i64, succeeded: bool, accepts: usize, total: usize },
    /// `to = None` means the property returned to the bank.
    PropertyTransferred { tile: usize, from: usize, to: Option<usize> },
    PlayerBankrupt { player: usize, creditor: Option<usize> },
    PlayerResigned { player: usize },
    GameEnded { winner: usize },
    /// A time-boxed game hit its limit; the richest survivor wins.
    TimeUp { winner: usize },
    /// Instant win by controlling `groups` complete colour groups.
    WonByGroups { winner: usize, groups: u8 },
    /// Reached the victory-point target.
    WonByPoints { player: usize, points: i64 },
    /// The conglomerate pool ran dry with nobody at the target yet.
    WonByPoolExhaustion { winner: usize },
    MarketEventActivated {
        event_id: String,
        effect: MarketEffect,
        magnitude_pct: i64,
        duration_turns: u32,
    },
    MarketEventExpired { event_id: String },
    /// The strictly-richest survivor banked the per-round bonus.
    RoundBonusAwarded { player: usize, points: i64 },
    /// The Exposition corner put a property in the spotlight;
    /// `duration_turns <= 0` means permanent.
    SpotlightStarted { tile: usize, rent_pct: i64, duration_turns: i64 },
    SpotlightEnded { tile: usize },
}

/// `after` begins with every event of `before`, in order.
pub open spec fn extends(before: Seq<Event>, after: Seq<Event>) -> bool {
    &&& before.len() <= after.len()
    &&& forall|i: int| 0 <= i < before.len() ==> #[trigger] after[i] == before[i]
}

} // verus!
