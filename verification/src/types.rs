//! Entity types of the orderbook: orders, chunks, trades, filler accounts and
//! the audit log.
//!
//! All monetary amounts are ledger base units of one millionth of a USD
//! (`_e6` fields), prices are base units of USD per BSV, and times are
//! nanoseconds.

use vstd::prelude::*;

verus! {

/// An opaque ledger principal: a short byte string naming an account owner.
#[derive(Clone, Debug)]
pub struct PrincipalId {
    pub bytes: Vec<u8>,
}

impl View for PrincipalId {
    type V = Seq<u8>;

    open spec fn view(&self) -> Seq<u8> {
        self.bytes@
    }
}

impl PrincipalId {
    /// The anonymous principal: the single byte 0x04.
    pub open spec fn spec_is_anonymous(&self) -> bool {
        self@ == seq![0x04u8]
    }

    pub fn anonymous() -> (r: PrincipalId)
        ensures
            r.spec_is_anonymous(),
    {
        let mut bytes: Vec<u8> = Vec::new();
        bytes.push(0x04);
        proof {
            assert(bytes@ =~= seq![0x04u8]);
        }
        PrincipalId { bytes }
    }

    pub fn is_anonymous(&self) -> (r: bool)
        ensures
            r == self.spec_is_anonymous(),
    {
        if self.bytes.len() != 1 {
            proof {
                assert(self@ != seq![0x04u8]);
            }
            false
        } else {
            let r = self.bytes[0] == 0x04;
            proof {
                if r {
                    assert(self@ =~= seq![0x04u8]);
                } else {
                    assert(self@ != seq![0x04u8]);
                }
            }
            r
        }
    }

    /// An equal copy of the principal.
    pub fn duplicate(&self) -> (r: PrincipalId)
        ensures
            r@ == self@,
    {
        PrincipalId { bytes: vstd::slice::slice_to_vec(self.bytes.as_slice()) }
    }

    pub fn eq_principal(&self, other: &PrincipalId) -> (r: bool)
        ensures
            r == (self@ == other@),
    {
        slice_eq(self.bytes.as_slice(), other.bytes.as_slice())
    }
}

/// Compare two byte slices for equality.
pub fn slice_eq(a: &[u8], b: &[u8]) -> (r: bool)
    ensures
        r == (a@ == b@),
{
    if a.len() != b.len() {
        return false;
    }
    let mut i: usize = 0;
    while i < a.len()
        invariant
            i <= a.len(),
            a@.len() == b@.len(),
            forall|j: int| 0 <= j < i ==> a@[j] == b@[j],
        decreases a.len() - i,
    {
        if a[i] != b[i] {
            return false;
        }
        i = i + 1;
    }
    proof {
        assert(a@ =~= b@);
    }
    true
}

/// Compare two string slices for equality of their character views.
pub fn str_eq(a: &str, b: &str) -> (r: bool)
    ensures
        r == (a@ == b@),
{
    let r = slice_eq(a.as_bytes(), b.as_bytes());
    proof {
        vstd::utf8::encode_utf8_decode_utf8(a@);
        vstd::utf8::encode_utf8_decode_utf8(b@);
    }
    r
}

/// Lifecycle states of an order.
#[derive(Clone, Copy, Debug, PartialEq, Eq, Structural)]
pub enum OrderStatus {
    Active,
    Idle,
    PartiallyFilled,
    Filled,
    Cancelled,
    Refunded,
}

/// Lifecycle states of a refund request.
#[derive(Clone, Copy, Debug, PartialEq, Eq, Structural)]
pub enum RefundStatus {
    Pending,
    Sent,
    Confirmed,
    Failed,
}

/// Lifecycle states of a chunk.
#[derive(Clone, Copy, Debug, PartialEq, Eq, Structural)]
pub enum ChunkStatus {
    Available,
    Locked,
    Filled,
    Idle,
    Refunding,
    Refunded,
}

impl ChunkStatus {
    /// A chunk in a terminal state never transitions again.
    pub open spec fn is_terminal(self) -> bool {
        self is Filled || self is Refunded
    }
}

/// Lifecycle states of a trade.
#[derive(Clone, Copy, Debug, PartialEq, Eq, Structural)]
pub enum TradeStatus {
    ChunksLocked,
    TxSubmitted,
    ReadyForRelease,
    WithdrawalConfirmed,
    Cancelled,
    PenaltyApplied,
}

impl TradeStatus {
    /// Whether a trade in this state still holds chunk locks.
    pub open spec fn holds_locks(self) -> bool {
        self is ChunksLocked || self is TxSubmitted
    }

    /// Whether a trade in this state still counts against the filler's
    /// security capacity.
    pub open spec fn is_pending(self) -> bool {
        self is ChunksLocked || self is TxSubmitted || self is ReadyForRelease
    }

    /// Whether a trade in this state is finished for retention purposes.
    pub open spec fn is_final(self) -> bool {
        self is WithdrawalConfirmed || self is Cancelled || self is PenaltyApplied
    }
}

/// A maker's intent to sell USD for BSV at a capped price.
#[derive(Clone, Debug)]
pub struct Order {
    pub id: u64,
    pub maker: PrincipalId,
    pub amount_e6: u64,
    pub total_deposited_e6: Option<u64>,
    pub activation_fee_e6: Option<u64>,
    pub filler_incentive_reserved_e6: Option<u64>,
    pub deposit_subaccount: Vec<u8>,
    pub max_bsv_price_e6: u64,
    pub allow_partial_fill: bool,
    pub bsv_address: String,
    pub status: OrderStatus,
    pub chunks: Vec<u64>,
    pub created_at: u64,
    pub funded_at: Option<u64>,
    pub total_filled_e6: u64,
    pub total_locked_e6: u64,
    pub total_idle_e6: u64,
    pub total_refunded_e6: u64,
}

/// An atomic fixed-size slice of an order: the indivisible unit of matching.
#[derive(Clone, Debug)]
pub struct Chunk {
    pub id: u64,
    pub order_id: u64,
    pub amount_e6: u64,
    pub status: ChunkStatus,
    pub locked_by: Option<u64>,
    pub filled_at: Option<u64>,
    pub bsv_address: String,
    pub sats_amount: Option<u64>,
    pub max_bsv_price_e6: u64,
}

/// A chunk locked into a trade, with its satoshi amount resolved at the
/// agreed price.
#[derive(Clone, Debug)]
pub struct LockedChunk {
    pub chunk_id: u64,
    pub order_id: u64,
    pub amount_e6: u64,
    pub bsv_address: String,
    pub sats_amount: u64,
}

/// A filler's commitment to pay BSV for a set of chunks from one order.
#[derive(Clone, Debug)]
pub struct Trade {
    pub id: u64,
    pub order_id: u64,
    pub filler: PrincipalId,
    pub amount_e6: u64,
    pub locked_chunks: Vec<LockedChunk>,
    pub agreed_bsv_price_e6: u64,
    pub min_bsv_price_e6: u64,
    pub status: TradeStatus,
    pub bsv_tx_hex: Option<String>,
    pub created_at: u64,
    pub tx_submitted_at: Option<u64>,
    pub lock_expires_at: u64,
    pub release_available_at: Option<u64>,
    pub claim_expires_at: Option<u64>,
    pub withdrawal_initiated_at: Option<u64>,
    pub withdrawal_confirmed_at: Option<u64>,
}

impl Trade {
    /// The chunk ids this trade holds, in order.
    pub open spec fn spec_chunk_ids(self) -> Seq<u64> {
        self.locked_chunks@.map_values(|lc: LockedChunk| lc.chunk_id)
    }
}

/// Per-filler aggregate statistics; the collateral itself lives on the
/// ledger.
#[derive(Clone, Debug)]
pub struct FillerAccount {
    pub id: PrincipalId,
    pub pending_trades_total_e6: u64,
    pub total_trades: u64,
    pub successful_trades: u64,
    pub penalties_paid_e6: u64,
    pub created_at: u64,
}

/// What an audit-log entry records.
#[derive(Clone, Debug)]
pub enum AdminEventType {
    PenaltyApplied { trade_id: u64, order_id: Option<u64>, penalty_e6: u64 },
    TradeExpiredToTreasury { trade_id: u64, order_id: u64, amount_sent_e6: u64 },
    BlockInsertionError { block_height: u64 },
    NewOrdersEnabled,
    NewOrdersDisabled,
}

/// An append-only audit-log entry.
#[derive(Clone, Debug)]
pub struct AdminEvent {
    pub id: u64,
    pub timestamp: u64,
    pub event_type: AdminEventType,
}

/// A BSV transaction id used as a key of the used-transaction index.
#[derive(Clone, Debug)]
pub struct TxidKey(pub String);

/// A trade id stored as the value of the used-transaction index.
#[derive(Clone, Copy, Debug, PartialEq, Eq, Structural)]
pub struct TradeIdValue(pub u64);

impl TradeIdValue {
    /// The eight-byte little-endian rendering of the trade id.
    pub fn to_bytes(&self) -> (r: Vec<u8>)
        ensures
            r@ == crate::codec::le_bytes(self.0 as int, 8),
    {
        let mut out: Vec<u8> = Vec::new();
        crate::codec::write_le(&mut out, self.0, 8);
        proof {
            assert(out@ =~= crate::codec::le_bytes(self.0 as int, 8));
        }
        out
    }

    /// Read a trade id back from its little-endian rendering.
    pub fn from_bytes(bytes: &[u8]) -> (r: TradeIdValue)
        requires
            bytes@.len() >= 8,
        ensures
            r.0 == crate::codec::le_val(bytes@.subrange(0, 8)),
    {
        let mut cursor: usize = 0;
        let v = crate::codec::read_u64_le(bytes, &mut cursor).unwrap();
        TradeIdValue(v)
    }
}

} // verus!
