//! Fixed engine-policy numbers, grouped so a balance pass reads one file.
//! Mod-facing knobs live in `RuleParams`.
use vstd::prelude::*;

verus! {

/// Card chains ("advance to X" landing on another card tile) are bounded
/// to keep resolution finite regardless of content.
pub const MAX_CARD_CHAIN_DEPTH: u8 = 4;

/// Anti-spam cap on standing trade offers per proposer.
pub const MAX_OPEN_TRADES_PER_PLAYER: usize = 4;

/// Rent-boost level cap and per-step rent increase.
pub const MAX_RENT_BOOSTS: u8 = 3;

pub const RENT_BOOST_STEP_PCT: i64 = 50;

/// A discoverer that wins its own auction pays in full, then the bank
/// hands back this percent of what it paid.
pub const DISCOVERER_REFUND_PCT: i64 = 10;

/// A mortgage advances this percent of list price; it is also what a
/// mortgaged tile is worth and buys out at.
pub const MORTGAGE_VALUE_PCT: i64 = 50;

/// Redeeming a mortgage costs the principal plus this percent, floored.
pub const MORTGAGE_INTEREST_PCT: i64 = 10;

/// Selling or liquidating a building refunds this percent of build cost.
pub const HOUSE_REFUND_PCT: i64 = 50;

/// Victory-point weights.
pub const VP_PER_FULL_GROUP: i64 = 3;

pub const VP_PER_CONGLOMERATE: i64 = 2;

pub const VP_PER_GROUP_SCALED: i64 = 1;

/// Permanent victory points banked by the round's strictly-richest survivor.
pub const ROUND_BONUS_VP: i64 = 2;

/// Public market forecast queue length.
pub const FORECAST_QUEUE_LEN: usize = 3;

/// `Spotlight::expires_at_turn` sentinel for a permanent spotlight.
pub const SPOTLIGHT_NO_EXPIRY: u32 = 4294967295;

} // verus!
