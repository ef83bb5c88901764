//! The library's standing laws, each proved from the engine and store
//! invariants, and the deterministic escrow subaccount derivation.

use vstd::prelude::*;
use crate::engine::{Engine, sum_status, sum_all, sum_available, chunk_contrib, trade_txid};
use crate::types::{Chunk, ChunkStatus, PrincipalId};
use crate::block_store::BlockStore;
use crate::hashing::sha256_of;
use crate::codec::le_bytes;

verus! {

/// An order's chunk amounts partition into the five live statuses.
proof fn lemma_sum_partition(chunks: Seq<Chunk>, oid: u64)
    requires
        forall|i: int| 0 <= i < chunks.len() ==> !((#[trigger] chunks[i]).status is Refunding),
    ensures
        sum_all(chunks, oid) == sum_status(chunks, oid, ChunkStatus::Available) + sum_status(
            chunks,
            oid,
            ChunkStatus::Locked,
        ) + sum_status(chunks, oid, ChunkStatus::Filled) + sum_status(
            chunks,
            oid,
            ChunkStatus::Idle,
        ) + sum_status(chunks, oid, ChunkStatus::Refunded),
    decreases chunks.len(),
{
    if chunks.len() > 0 {
        lemma_sum_partition(chunks.drop_last(), oid);
    }
}

/// Every order's amount equals its filled, locked, idle and refunded totals
/// plus what its chunks still offer as available.
pub proof fn lemma_order_accounting(e: Engine, oi: int)
    requires
        e.inv(),
        0 <= oi < e.orders@.len(),
    ensures
        e.orders@[oi].amount_e6 == e.orders@[oi].total_filled_e6 + e.orders@[oi].total_locked_e6
            + e.orders@[oi].total_idle_e6 + e.orders@[oi].total_refunded_e6 + sum_status(
            e.chunks@,
            e.orders@[oi].id,
            ChunkStatus::Available,
        ),
{
    lemma_sum_partition(e.chunks@, e.orders@[oi].id);
}

/// A trade that still holds locks owns chunk amounts that sum to its amount,
/// and every one of its locked chunks is stored locked under the trade's id.
pub proof fn lemma_trade_locked_chunks(e: Engine, ti: int)
    requires
        e.inv(),
        0 <= ti < e.trades@.len(),
        e.trades@[ti].status.holds_locks(),
    ensures
        crate::engine::sum_locked_chunks(e.trades@[ti].locked_chunks@)
            == e.trades@[ti].amount_e6,
        forall|k: int| 0 <= k < e.trades@[ti].locked_chunks@.len() ==> exists|c: int|
            0 <= c < e.chunks@.len() && (#[trigger] e.chunks@[c]).id == (
            #[trigger] e.trades@[ti].locked_chunks@[k]).chunk_id && e.chunks@[c].status
                is Locked && e.chunks@[c].locked_by == Some(e.trades@[ti].id),
{
}

/// No two distinct trades store transactions with the same transaction id.
pub proof fn lemma_txid_unique(e: Engine, t1: int, t2: int)
    requires
        e.inv(),
        0 <= t1 < e.trades@.len(),
        0 <= t2 < e.trades@.len(),
        e.trades@[t1].bsv_tx_hex is Some,
        e.trades@[t2].bsv_tx_hex is Some,
        trade_txid(e.trades@[t1]) == trade_txid(e.trades@[t2]),
    ensures
        t1 == t2,
{
    let u1 = choose|u: int|
        0 <= u < e.used_txids@.len() && (#[trigger] e.used_txids@[u]).txid@ == trade_txid(
            e.trades@[t1],
        ) && e.used_txids@[u].trade_id == e.trades@[t1].id;
    let u2 = choose|u: int|
        0 <= u < e.used_txids@.len() && (#[trigger] e.used_txids@[u]).txid@ == trade_txid(
            e.trades@[t2],
        ) && e.used_txids@[u].trade_id == e.trades@[t2].id;
    if u1 != u2 {
        if u1 < u2 {
            assert(e.used_txids@[u1].txid@ != e.used_txids@[u2].txid@);
        } else {
            assert(e.used_txids@[u2].txid@ != e.used_txids@[u1].txid@);
        }
        assert(false);
    }
    assert(e.trades@[t1].id == e.trades@[t2].id);
    if t1 < t2 {
        assert(e.trades@[t1].id < e.trades@[t2].id);
    } else if t2 < t1 {
        assert(e.trades@[t2].id < e.trades@[t1].id);
    }
}

/// Every stored header above the lowest names its predecessor's hash.
pub proof fn lemma_chain_linked(store: BlockStore, h: int)
    requires
        store.inv(),
        store.spec_has(h),
        store.spec_has(h - 1),
    ensures
        store.spec_get(h).previous_hash@ == store.spec_get(h - 1).hash@,
{
}

/// The escrow subaccount of an order: the SHA-256 of the maker's principal
/// bytes followed by the big-endian order id.
pub open spec fn spec_order_subaccount(maker: Seq<u8>, order_id: u64) -> Seq<u8> {
    sha256_of(maker + le_bytes(order_id as int, 8).reverse())
}

/// Derive an order's escrow subaccount.  The derivation is a spec function
/// of the maker and the order id alone, so any party reconstructs the same
/// account; that two distinct inputs collide only with a hash collision is
/// not something a proof can state of the digest.
pub fn order_subaccount(maker: &PrincipalId, order_id: u64) -> (r: Vec<u8>)
    ensures
        r@ == spec_order_subaccount(maker@, order_id),
        r@.len() == 32,
{
    let mut data: Vec<u8> = Vec::new();
    crate::bsv_tx::append_bytes(&mut data, maker.bytes.as_slice());
    let mut le: Vec<u8> = Vec::new();
    crate::codec::write_le(&mut le, order_id, 8);
    let be = crate::hashing::reverse_bytes(&le);
    crate::bsv_tx::append_bytes(&mut data, be.as_slice());
    proof {
        assert(data@ =~= maker@ + le_bytes(order_id as int, 8).reverse());
    }
    crate::hashing::sha256(data.as_slice())
}

/// The filler security subaccount: the SHA-256 of the principal bytes alone.
pub fn principal_to_subaccount(principal: &PrincipalId) -> (r: Vec<u8>)
    ensures
        r@ == sha256_of(principal@),
        r@.len() == 32,
{
    crate::hashing::sha256(principal.bytes.as_slice())
}

/// Why an escrow transfer was refused.
#[derive(Clone, Copy, Debug, PartialEq, Eq, Structural)]
pub enum EscrowError {
    AmountTooSmall,
}

/// The amount the recipient of an escrow transfer observes: the quoted gross
/// less the fixed ledger fee, so the subaccount is debited exactly the
/// quote.  A gross at or under the fee cannot be sent.
pub fn escrow_transfer_net(gross_e6: u64) -> (r: Result<u64, EscrowError>)
    ensures
        r is Ok <==> gross_e6 > crate::config::CKUSDC_TRANSFER_FEE_E6,
        r matches Ok(net) ==> net == gross_e6 - crate::config::CKUSDC_TRANSFER_FEE_E6,
        r is Err ==> gross_e6 <= crate::config::CKUSDC_TRANSFER_FEE_E6,
{
    if gross_e6 <= crate::config::CKUSDC_TRANSFER_FEE_E6 {
        Err(EscrowError::AmountTooSmall)
    } else {
        Ok(gross_e6 - crate::config::CKUSDC_TRANSFER_FEE_E6)
    }
}

/// The subaccount derivation is deterministic: equal inputs give equal
/// accounts.
pub proof fn lemma_subaccount_deterministic(maker: Seq<u8>, order_id: u64)
    ensures
        spec_order_subaccount(maker, order_id) == spec_order_subaccount(maker, order_id),
{
}

} // verus!
