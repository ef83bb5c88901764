//! Configuration constants of the orderbook engine.
//!
//! Monetary constants are ledger base units of one millionth of a USD; times
//! are nanoseconds unless named otherwise.

use vstd::prelude::*;

verus! {

/// Size of one chunk: three USD.
pub const CHUNK_SIZE_E6: u64 = 3_000_000;

/// Maximum number of chunks per order.
pub const MAX_CHUNKS_ALLOWED: u64 = 30;

/// Ceiling on the available orderbook: two thousand USD.
pub const MAX_ORDERBOOK_E6: u64 = 2_000_000_000;

/// Ceiling on one maker's active orders: two hundred seventy USD.
pub const MAX_MAKER_TOTAL_ORDERS_E6: u64 = 270_000_000;

/// Confirmations required before a claim is honoured.
pub const CONFIRMATION_DEPTH: u64 = 18;

/// Seconds between chain synchronisation rounds.
pub const SYNC_INTERVAL_SECONDS: u64 = 900;

/// Satoshis in one BSV.
pub const SATOSHIS_PER_BSV: u64 = 100_000_000;

/// Total maker fee, in basis points.
pub const MAKER_FEE_BPS: u64 = 700;

/// Non-refundable activation fee sent to the treasury, in basis points.
pub const ACTIVATION_FEE_BPS: u64 = 250;

/// Incentive retained in escrow and paid to the filler, in basis points.
pub const FILLER_INCENTIVE_BPS: u64 = 450;

/// Security deposit and timeout penalty, in percent.
pub const SECURITY_DEPOSIT_PERCENT: u64 = 10;

/// How many times its security deposit a filler may have pending.
pub const MAX_LOCK_MULTIPLIER: u64 = 10;

/// Resubmission penalty, in basis points.
pub const RESUBMISSION_PENALTY_BPS: u64 = 200;

/// Block headers kept in the retention window.
pub const MAX_BLOCKS_TO_KEEP: u64 = 288;

/// Reorg depths examined in one synchronisation call.
pub const MAX_REORG_CHECK_PER_CALL: u64 = 50;

/// How long a trade may stay locked without a submission: forty-five minutes.
pub const TRADE_TIMEOUT_NS: u64 = 2_700_000_000_000;

/// Wait between submission and release: three hours.
pub const USDC_RELEASE_WAIT_NS: u64 = 10_800_000_000_000;

/// Window in which a submitted transaction may be replaced: two hours.
pub const RESUBMISSION_WINDOW_NS: u64 = 7_200_000_000_000;

/// Window in which a submitted trade must be claimed: twenty-four hours.
pub const TRADE_CLAIM_EXPIRY_NS: u64 = 86_400_000_000_000;

/// Ledger transfer fee: one cent.
pub const CKUSDC_TRANSFER_FEE_E6: u64 = 10_000;

/// How long finished orders and trades are retained: seven days, in seconds.
pub const RETENTION_SECONDS: u64 = 604_800;

/// Cap on the audit log.
pub const MAX_ADMIN_EVENTS: u64 = 10_000;

/// Cached prices older than this are stale: five minutes.
pub const PRICE_CACHE_DURATION_NS: u64 = 300_000_000_000;

/// Cycle balance under which new orders are refused.
pub const MIN_CYCLES_FOR_NEW_ORDERS: u128 = 500_000_000_000;

} // verus!
