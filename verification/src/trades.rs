//! The trade state machine: submission of the BSV payment, resubmission,
//! claiming against an SPV proof, and the timeout transitions.

use vstd::prelude::*;
use crate::types::{Chunk, ChunkStatus, Order, Trade, TradeStatus, PrincipalId, LockedChunk};
use crate::engine::{Engine, trade_txid, find_trade_idx, UsedTxid, order_same_except_totals};
use crate::types::OrderStatus;
use crate::hashing::{is_hex_text, bytes_of_hex, txid_of_bytes};
use crate::bsv_tx::{parse_tx, outputs_pay_chunks, parse_bsv_transaction};
use crate::config::{
    USDC_RELEASE_WAIT_NS, TRADE_CLAIM_EXPIRY_NS, RESUBMISSION_WINDOW_NS, TRADE_TIMEOUT_NS,
    SECURITY_DEPOSIT_PERCENT, RESUBMISSION_PENALTY_BPS, FILLER_INCENTIVE_BPS,
};

verus! {

/// Why a trade operation was rejected.
#[derive(Clone, Copy, Debug, PartialEq, Eq, Structural)]
pub enum TradeError {
    Anonymous,
    TradeNotFound,
    NotFiller,
    WrongStatus,
    LockExpired,
    BadTransaction,
    TxAlreadyUsed { trade_id: u64 },
    OutputMismatch,
    ResubmissionWindowExpired,
    InsufficientSecurity,
    NoSubmission,
    ReleaseNotReached,
    ClaimExpired,
    TxMismatch,
    OrderNotFound,
    NotExpired,
    VerificationFailed,
    BlockMissing { height: u64 },
    InsufficientConfirmations,
    PriceStale,
    MinPriceAboveMarket,
    ExceedsLockCapacity,
    NoMatchingChunks,
    CannotFillCompletely,
}

/// Whether a stored trade with this id sits locked past its lock expiry.
pub open spec fn is_expired_lock(e: Engine, tid: u64, now: u64) -> bool {
    exists|t: int|
        0 <= t < e.trades@.len() && (#[trigger] e.trades@[t]).id == tid && e.trades@[t].status
            is ChunksLocked && now > e.trades@[t].lock_expires_at
}

/// Whether a stored trade with this id sits submitted past its claim expiry.
pub open spec fn is_expired_claim(e: Engine, tid: u64, now: u64) -> bool {
    exists|t: int|
        0 <= t < e.trades@.len() && (#[trigger] e.trades@[t]).id == tid && e.trades@[t].status
            is TxSubmitted && (e.trades@[t].claim_expires_at matches Some(ce) && now > ce)
}

/// Whether some stored trade has the given id.
pub open spec fn has_trade_id(trades: Seq<Trade>, tid: u64) -> bool {
    exists|i: int| 0 <= i < trades.len() && (#[trigger] trades[i]).id == tid
}

/// A transaction id held by a trade other than the given one.
pub open spec fn txid_used_by_other(e: Engine, txid: Seq<char>, trade_id: u64) -> bool {
    exists|u: int|
        0 <= u < e.used_txids@.len() && (#[trigger] e.used_txids@[u]).txid@ == txid
            && e.used_txids@[u].trade_id != trade_id
}

/// The non-transactional guards of `submit_bsv_transaction`: the caller is
/// the named filler of a stored trade that still awaits its submission, and
/// the lock has not expired.
pub open spec fn submit_guards_ok(e: Engine, ti: int, caller: PrincipalId, now: u64) -> bool {
    &&& !caller.spec_is_anonymous()
    &&& 0 <= ti < e.trades@.len()
    &&& e.trades@[ti].filler@ == caller@
    &&& e.trades@[ti].status is ChunksLocked
    &&& now <= e.trades@[ti].lock_expires_at
}

/// The trade value produced by a successful submission.
pub open spec fn submitted_trade(t: Trade, hex: String, now: u64) -> Trade {
    Trade {
        status: TradeStatus::TxSubmitted,
        bsv_tx_hex: Some(hex),
        tx_submitted_at: Some(now),
        release_available_at: Some((now + USDC_RELEASE_WAIT_NS) as u64),
        claim_expires_at: Some((now + TRADE_CLAIM_EXPIRY_NS) as u64),
        ..t
    }
}

impl Engine {
    /// Submit the BSV payment for a trade.  The transaction must parse, pay
    /// every locked chunk exactly, and carry a transaction id no other trade
    /// has used; it must arrive from the trade's filler before the lock
    /// expires.
    pub fn submit_bsv_transaction(
        &mut self,
        trade_id: u64,
        caller: &PrincipalId,
        raw_tx_hex: String,
        now: u64,
    ) -> (r: Result<(), TradeError>)
        requires
            old(self).inv(),
            now <= u64::MAX - TRADE_CLAIM_EXPIRY_NS,
        ensures
            final(self).inv(),
            match r {
                Ok(_) => exists|ti: int|
                    {
                        &&& submit_guards_ok(*old(self), ti, *caller, now)
                        &&& (#[trigger] old(self).trades@[ti]).id == trade_id
                        &&& is_hex_text(raw_tx_hex@)
                        &&& !txid_used_by_other(
                            *old(self),
                            txid_of_bytes(bytes_of_hex(raw_tx_hex@)),
                            trade_id,
                        )
                        &&& parse_tx(bytes_of_hex(raw_tx_hex@)) matches Some(m)
                            && outputs_pay_chunks(
                            m.outputs,
                            old(self).trades@[ti].locked_chunks@,
                        )
                        &&& final(self).trades@ == old(self).trades@.update(
                            ti,
                            submitted_trade(old(self).trades@[ti], raw_tx_hex, now),
                        )
                        &&& final(self).chunks@ == old(self).chunks@
                        &&& final(self).orders@ == old(self).orders@
                    },
                Err(e) => {
                    &&& *final(self) == *old(self)
                    &&& match e {
                        TradeError::Anonymous => caller.spec_is_anonymous(),
                        TradeError::TradeNotFound => !has_trade_id(old(self).trades@, trade_id),
                        TradeError::NotFiller => exists|ti: int|
                            0 <= ti < old(self).trades@.len() && (
                            #[trigger] old(self).trades@[ti]).id == trade_id && old(self).trades@[ti].filler@ != caller@,
                        TradeError::WrongStatus => exists|ti: int|
                            0 <= ti < old(self).trades@.len() && (
                            #[trigger] old(self).trades@[ti]).id == trade_id && !(old(self).trades@[ti].status is ChunksLocked),
                        TradeError::LockExpired => exists|ti: int|
                            0 <= ti < old(self).trades@.len() && (
                            #[trigger] old(self).trades@[ti]).id == trade_id && now > old(self).trades@[ti].lock_expires_at,
                        TradeError::BadTransaction => !is_hex_text(raw_tx_hex@) || parse_tx(
                            bytes_of_hex(raw_tx_hex@),
                        ) is None,
                        TradeError::TxAlreadyUsed { trade_id: other } => other != trade_id
                            && exists|u: int|
                            0 <= u < old(self).used_txids@.len() && (#[trigger] old(self).used_txids@[u]).txid@ == txid_of_bytes(bytes_of_hex(raw_tx_hex@))
                                && old(self).used_txids@[u].trade_id == other,
                        TradeError::OutputMismatch => exists|ti: int|
                            {
                                &&& 0 <= ti < old(self).trades@.len()
                                &&& (#[trigger] old(self).trades@[ti]).id == trade_id
                                &&& parse_tx(bytes_of_hex(raw_tx_hex@)) matches Some(m)
                                    && !outputs_pay_chunks(
                                    m.outputs,
                                    old(self).trades@[ti].locked_chunks@,
                                )
                            },
                        _ => false,
                    }
                },
            },
    {
        if caller.is_anonymous() {
            return Err(TradeError::Anonymous);
        }
        let ti = match find_trade_idx(&self.trades, trade_id) {
            Some(i) => i,
            None => {
                return Err(TradeError::TradeNotFound);
            },
        };
        if !self.trades[ti].filler.eq_principal(caller) {
            return Err(TradeError::NotFiller);
        }
        if !matches!(self.trades[ti].status, TradeStatus::ChunksLocked) {
            return Err(TradeError::WrongStatus);
        }
        if now > self.trades[ti].lock_expires_at {
            return Err(TradeError::LockExpired);
        }
        let txid = match crate::spv::compute_txid(raw_tx_hex.as_str()) {
            Ok(t) => t,
            Err(_) => {
                return Err(TradeError::BadTransaction);
            },
        };
        let mut txid_known = false;
        match self.get_trade_using_tx(txid.as_str()) {
            Some(other) => {
                if other != trade_id {
                    return Err(TradeError::TxAlreadyUsed { trade_id: other });
                }
                txid_known = true;
            },
            None => {},
        }
        let parsed = match parse_bsv_transaction(raw_tx_hex.as_str()) {
            Ok(p) => p,
            Err(_) => {
                return Err(TradeError::BadTransaction);
            },
        };
        match crate::bsv_tx::validate_transaction_outputs(&parsed, &self.trades[ti].locked_chunks) {
            Ok(_) => {},
            Err(_) => {
                return Err(TradeError::OutputMismatch);
            },
        }
        if !txid_known {
            self.mark_bsv_tx_used(txid, trade_id);
            proof {
                assert(self.used_txids@[self.used_txids@.len() - 1].txid@ == txid_of_bytes(
                    bytes_of_hex(raw_tx_hex@),
                ));
                assert(self.used_txids@[self.used_txids@.len() - 1].trade_id == trade_id);
            }
        }
        proof {
            assert(exists|u: int|
                0 <= u < self.used_txids@.len() && (#[trigger] self.used_txids@[u]).txid@
                    == txid_of_bytes(bytes_of_hex(raw_tx_hex@)) && self.used_txids@[u].trade_id
                    == trade_id);
        }
        let ghost pre = *self;
        self.trades[ti].status = TradeStatus::TxSubmitted;
        self.trades[ti].bsv_tx_hex = Some(raw_tx_hex);
        self.trades[ti].tx_submitted_at = Some(now);
        self.trades[ti].release_available_at = Some(now + USDC_RELEASE_WAIT_NS);
        self.trades[ti].claim_expires_at = Some(now + TRADE_CLAIM_EXPIRY_NS);
        proof {
            let tidx = ti as int;
            assert(self.trades@ =~= old(self).trades@.update(
                tidx,
                submitted_trade(old(self).trades@[tidx], self.trades@[tidx].bsv_tx_hex.unwrap(), now),
            ));
            assert(self.trades@[tidx] == submitted_trade(old(self).trades@[tidx], self.trades@[tidx].bsv_tx_hex.unwrap(), now));
            assert forall|t: int, k: int|
                0 <= t < self.trades@.len() && 0 <= k < self.trades@[t].locked_chunks@.len()
                    && self.trades@[t].status.holds_locks() implies exists|c: int|
                0 <= c < self.chunks@.len() && (#[trigger] self.chunks@[c]).id == (
                #[trigger] self.trades@[t].locked_chunks@[k]).chunk_id && self.chunks@[c].status
                    is Locked && self.chunks@[c].locked_by == Some(self.trades@[t].id) by {
                let c = choose|c: int|
                    0 <= c < old(self).chunks@.len() && (#[trigger] old(self).chunks@[c]).id
                        == old(self).trades@[t].locked_chunks@[k].chunk_id && old(self).chunks@[c].status is Locked && old(self).chunks@[c].locked_by == Some(
                        old(self).trades@[t].id,
                    );
                assert(self.chunks@[c] == old(self).chunks@[c]);
            }
            assert forall|t: int|
                0 <= t < self.trades@.len() && (#[trigger] self.trades@[t]).bsv_tx_hex
                    is Some implies exists|u: int|
                0 <= u < self.used_txids@.len() && (#[trigger] self.used_txids@[u]).txid@
                    == trade_txid(self.trades@[t]) && self.used_txids@[u].trade_id
                    == self.trades@[t].id by {
                if t == tidx {
                    assert(self.trades@[tidx].bsv_tx_hex.unwrap()@ == raw_tx_hex@);
                    assert(trade_txid(self.trades@[t]) == txid_of_bytes(
                        bytes_of_hex(raw_tx_hex@),
                    ));
                    let u = choose|u: int|
                        0 <= u < self.used_txids@.len() && (#[trigger] self.used_txids@[u]).txid@
                            == txid_of_bytes(bytes_of_hex(raw_tx_hex@))
                            && self.used_txids@[u].trade_id == trade_id;
                    assert(self.used_txids@[u].txid@ == trade_txid(self.trades@[t]));
                } else {
                    let u = choose|u: int|
                        0 <= u < old(self).used_txids@.len() && (#[trigger] old(self).used_txids@[u]).txid@ == trade_txid(old(self).trades@[t]) && old(self).used_txids@[u].trade_id == old(self).trades@[t].id;
                    assert(self.used_txids@[u] == old(self).used_txids@[u]);
                }
            }
        }
        Ok(())
    }
}

/// Updating one trade without touching its identity, lock list, amount or
/// stored transaction — and without reviving a dead trade — preserves the
/// engine invariant.
pub proof fn lemma_trade_update_preserves(pre: Engine, post: Engine, ti: int)
    requires
        pre.inv(),
        0 <= ti < pre.trades@.len(),
        post.chunks@ == pre.chunks@,
        post.orders@ == pre.orders@,
        post.used_txids@ == pre.used_txids@,
        post.next_order_id == pre.next_order_id,
        post.next_chunk_id == pre.next_chunk_id,
        post.next_trade_id == pre.next_trade_id,
        post.trades@ == pre.trades@.update(ti, post.trades@[ti]),
        post.trades@[ti].id == pre.trades@[ti].id,
        post.trades@[ti].locked_chunks@ == pre.trades@[ti].locked_chunks@,
        post.trades@[ti].amount_e6 == pre.trades@[ti].amount_e6,
        post.trades@[ti].bsv_tx_hex == pre.trades@[ti].bsv_tx_hex,
        post.trades@[ti].status.holds_locks() ==> pre.trades@[ti].status.holds_locks(),
    ensures
        post.inv(),
{
    assert(crate::engine::sum_locked_chunks(post.trades@[ti].locked_chunks@)
        == crate::engine::sum_locked_chunks(pre.trades@[ti].locked_chunks@));
    assert forall|t: int, k: int|
        0 <= t < post.trades@.len() && 0 <= k < post.trades@[t].locked_chunks@.len()
            && post.trades@[t].status.holds_locks() implies exists|c: int|
        0 <= c < post.chunks@.len() && (#[trigger] post.chunks@[c]).id == (
        #[trigger] post.trades@[t].locked_chunks@[k]).chunk_id && post.chunks@[c].status
            is Locked && post.chunks@[c].locked_by == Some(post.trades@[t].id) by {
        let c = choose|c: int|
            0 <= c < pre.chunks@.len() && (#[trigger] pre.chunks@[c]).id
                == pre.trades@[t].locked_chunks@[k].chunk_id && pre.chunks@[c].status is Locked
                && pre.chunks@[c].locked_by == Some(pre.trades@[t].id);
        assert(post.chunks@[c] == pre.chunks@[c]);
    }
    assert forall|t: int|
        0 <= t < post.trades@.len() && (#[trigger] post.trades@[t]).bsv_tx_hex
            is Some implies exists|u: int|
        0 <= u < post.used_txids@.len() && (#[trigger] post.used_txids@[u]).txid@ == trade_txid(
            post.trades@[t],
        ) && post.used_txids@[u].trade_id == post.trades@[t].id by {
        assert(trade_txid(post.trades@[t]) == trade_txid(pre.trades@[t]));
        let u = choose|u: int|
            0 <= u < pre.used_txids@.len() && (#[trigger] pre.used_txids@[u]).txid@ == trade_txid(
                pre.trades@[t],
            ) && pre.used_txids@[u].trade_id == pre.trades@[t].id;
        assert(post.used_txids@[u] == pre.used_txids@[u]);
    }
}

/// A dead trade's chunks are referenced by no trade that still holds locks:
/// while it lived, each of its chunks was stamped with its id, and a chunk
/// carries one stamp.
pub proof fn lemma_dead_trade_chunks_free(pre: Engine, post: Engine, ti: int, ids: Seq<u64>)
    requires
        pre.inv(),
        0 <= ti < pre.trades@.len(),
        pre.trades@[ti].status.holds_locks(),
        post.chunks@ == pre.chunks@,
        post.trades@ == pre.trades@.update(ti, post.trades@[ti]),
        !post.trades@[ti].status.holds_locks(),
        post.trades@[ti].locked_chunks@ == pre.trades@[ti].locked_chunks@,
        forall|x: u64| crate::chunks::contains_id(ids, x) ==> exists|k: int|
            0 <= k < pre.trades@[ti].locked_chunks@.len() && (
            #[trigger] pre.trades@[ti].locked_chunks@[k]).chunk_id == x,
    ensures
        crate::chunks::no_live_trade_references(post, ids),
{
    assert forall|t: int, k: int|
        0 <= t < post.trades@.len() && post.trades@[t].status.holds_locks() && 0 <= k
            < post.trades@[t].locked_chunks@.len() implies !crate::chunks::contains_id(
        ids,
        (#[trigger] post.trades@[t].locked_chunks@[k]).chunk_id,
    ) by {
        if crate::chunks::contains_id(ids, post.trades@[t].locked_chunks@[k].chunk_id) {
            assert(t != ti);
            assert(post.trades@[t] == pre.trades@[t]);
            let cid = post.trades@[t].locked_chunks@[k].chunk_id;
            let k1 = choose|k1: int|
                0 <= k1 < pre.trades@[ti].locked_chunks@.len() && (
                #[trigger] pre.trades@[ti].locked_chunks@[k1]).chunk_id == cid;
            let c1 = choose|c: int|
                0 <= c < pre.chunks@.len() && (#[trigger] pre.chunks@[c]).id
                    == pre.trades@[ti].locked_chunks@[k1].chunk_id && pre.chunks@[c].status
                    is Locked && pre.chunks@[c].locked_by == Some(pre.trades@[ti].id);
            let c2 = choose|c: int|
                0 <= c < pre.chunks@.len() && (#[trigger] pre.chunks@[c]).id
                    == pre.trades@[t].locked_chunks@[k].chunk_id && pre.chunks@[c].status
                    is Locked && pre.chunks@[c].locked_by == Some(pre.trades@[t].id);
            if c1 != c2 {
                if c1 < c2 {
                    assert(pre.chunks@[c1].id < pre.chunks@[c2].id);
                } else {
                    assert(pre.chunks@[c2].id < pre.chunks@[c1].id);
                }
                assert(false);
            }
            assert(pre.trades@[ti].id == pre.trades@[t].id);
            if ti < t {
                assert(pre.trades@[ti].id < pre.trades@[t].id);
            } else {
                assert(pre.trades@[t].id < pre.trades@[ti].id);
            }
            assert(false);
        }
    }
}

/// Membership of an id list survives appending, and the appended id is a
/// member.
pub proof fn lemma_contains_id_push(ids: Seq<u64>, x: u64)
    ensures
        forall|id: u64| crate::chunks::contains_id(ids, id) ==> #[trigger] crate::chunks::contains_id(
            ids.push(x),
            id,
        ),
        crate::chunks::contains_id(ids.push(x), x),
{
    assert forall|id: u64|
        crate::chunks::contains_id(ids, id) implies #[trigger] crate::chunks::contains_id(
        ids.push(x),
        id,
    ) by {
        let k = choose|k: int| 0 <= k < ids.len() && ids[k] == id;
        assert(ids.push(x)[k] == id);
    }
    assert(ids.push(x)[ids.len() as int] == x);
}

impl Engine {
    /// The ids of trades whose lock has expired without a submission.
    pub fn expired_lock_trade_ids(&self, now: u64) -> (r: Vec<u64>)
        ensures
            forall|k: int| 0 <= k < r@.len() ==> is_expired_lock(*self, #[trigger] r@[k], now),
            forall|t: int|
                0 <= t < self.trades@.len() && (#[trigger] self.trades@[t]).status
                    is ChunksLocked && now > self.trades@[t].lock_expires_at
                    ==> crate::chunks::contains_id(r@, self.trades@[t].id),
    {
        let mut out: Vec<u64> = Vec::new();
        let mut t: usize = 0;
        while t < self.trades.len()
            invariant
                t <= self.trades@.len(),
                forall|k: int| 0 <= k < out@.len() ==> is_expired_lock(
                    *self,
                    #[trigger] out@[k],
                    now,
                ),
                forall|t2: int|
                    0 <= t2 < t && (#[trigger] self.trades@[t2]).status is ChunksLocked && now
                        > self.trades@[t2].lock_expires_at ==> crate::chunks::contains_id(
                        out@,
                        self.trades@[t2].id,
                    ),
            decreases self.trades@.len() - t,
        {
            if matches!(self.trades[t].status, TradeStatus::ChunksLocked) && now
                > self.trades[t].lock_expires_at {
                let ghost pre = out@;
                out.push(self.trades[t].id);
                proof {
                    assert(is_expired_lock(*self, self.trades@[t as int].id, now));
                    lemma_contains_id_push(pre, self.trades@[t as int].id);
                }
            }
            t = t + 1;
        }
        out
    }

    /// The ids of submitted trades whose claim window has closed.
    pub fn expired_claim_trade_ids(&self, now: u64) -> (r: Vec<u64>)
        ensures
            forall|k: int| 0 <= k < r@.len() ==> is_expired_claim(*self, #[trigger] r@[k], now),
            forall|t: int|
                0 <= t < self.trades@.len() && (#[trigger] self.trades@[t]).status
                    is TxSubmitted && (self.trades@[t].claim_expires_at matches Some(ce) && now
                    > ce) ==> crate::chunks::contains_id(r@, self.trades@[t].id),
    {
        let mut out: Vec<u64> = Vec::new();
        let mut t: usize = 0;
        while t < self.trades.len()
            invariant
                t <= self.trades@.len(),
                forall|k: int| 0 <= k < out@.len() ==> is_expired_claim(
                    *self,
                    #[trigger] out@[k],
                    now,
                ),
                forall|t2: int|
                    0 <= t2 < t && (#[trigger] self.trades@[t2]).status is TxSubmitted && (
                    self.trades@[t2].claim_expires_at matches Some(ce) && now > ce)
                        ==> crate::chunks::contains_id(out@, self.trades@[t2].id),
            decreases self.trades@.len() - t,
        {
            if matches!(self.trades[t].status, TradeStatus::TxSubmitted) {
                match self.trades[t].claim_expires_at {
                    Some(ce) => {
                        if now > ce {
                            let ghost pre = out@;
                            out.push(self.trades[t].id);
                            proof {
                                assert(is_expired_claim(*self, self.trades@[t as int].id, now));
                                lemma_contains_id_push(pre, self.trades@[t as int].id);
                            }
                        }
                    },
                    None => {},
                }
            }
            t = t + 1;
        }
        out
    }

    /// Apply the lock-expiry transition: the trade never saw a submission in
    /// time, so it dies with a penalty and its chunks return to the book.
    /// Returns the penalty the filler owes the maker, which the caller
    /// settles best-effort on the ledger.
    pub fn apply_lock_expiry(&mut self, trade_id: u64, now: u64) -> (r: Result<u64, TradeError>)
        requires
            old(self).inv(),
            old(self).next_admin_event_id < u64::MAX,
        ensures
            final(self).inv(),
            match r {
                Ok(penalty) => exists|ti: int|
                    {
                        &&& 0 <= ti < old(self).trades@.len()
                        &&& (#[trigger] old(self).trades@[ti]).id == trade_id
                        &&& old(self).trades@[ti].status is ChunksLocked
                        &&& now > old(self).trades@[ti].lock_expires_at
                        &&& final(self).trades@[ti] == (Trade {
                            status: TradeStatus::PenaltyApplied,
                            ..old(self).trades@[ti]
                        })
                        &&& final(self).trades@ == old(self).trades@.update(
                            ti,
                            final(self).trades@[ti],
                        )
                        &&& penalty == old(self).trades@[ti].amount_e6 * SECURITY_DEPOSIT_PERCENT
                            / 100
                        &&& forall|ci: int|
                            0 <= ci < old(self).chunks@.len() ==> (
                            #[trigger] final(self).chunks@[ci]) == old(self).chunks@[ci]
                                || crate::chunks::contains_id(
                                old(self).trades@[ti].spec_chunk_ids(),
                                old(self).chunks@[ci].id,
                            )
                        &&& forall|ci: int|
                            0 <= ci < old(self).chunks@.len() && crate::chunks::contains_id(
                                old(self).trades@[ti].spec_chunk_ids(),
                                (#[trigger] old(self).chunks@[ci]).id,
                            ) ==> exists|oi: int|
                                0 <= oi < old(self).orders@.len() && (#[trigger] old(self).orders@[oi]).id == old(self).chunks@[ci].order_id && final(self).chunks@[ci] == (Chunk {
                                    status: crate::chunks::unlock_status(
                                        old(self).cached_bsv_price_e6,
                                        old(self).orders@[oi].max_bsv_price_e6,
                                    ),
                                    locked_by: None,
                                    ..old(self).chunks@[ci]
                                })
                        &&& final(self).admin_events@.len() >= 1 && (final(self).admin_events@.last().event_type matches
                            crate::types::AdminEventType::PenaltyApplied {
                            trade_id: tid2,
                            ..
                        } && tid2 == trade_id)
                        &&& forall|f: int|
                            0 <= f < old(self).filler_accounts@.len() ==> (#[trigger] final(self).filler_accounts@[f]) == old(self).filler_accounts@[f] || old(self).filler_accounts@[f].id@ == old(self).trades@[ti].filler@
                    },
                Err(e) => {
                    &&& final(self).chunks@ == old(self).chunks@
                    &&& final(self).trades@ == old(self).trades@
                    &&& match e {
                        TradeError::TradeNotFound => !has_trade_id(old(self).trades@, trade_id),
                        TradeError::WrongStatus => exists|ti: int|
                            0 <= ti < old(self).trades@.len() && (
                            #[trigger] old(self).trades@[ti]).id == trade_id && !(old(self).trades@[ti].status is ChunksLocked),
                        TradeError::NotExpired => exists|ti: int|
                            0 <= ti < old(self).trades@.len() && (
                            #[trigger] old(self).trades@[ti]).id == trade_id && now <= old(self).trades@[ti].lock_expires_at,
                        _ => false,
                    }
                },
            },
    {
        let ti = match find_trade_idx(&self.trades, trade_id) {
            Some(i) => i,
            None => {
                return Err(TradeError::TradeNotFound);
            },
        };
        if !matches!(self.trades[ti].status, TradeStatus::ChunksLocked) {
            return Err(TradeError::WrongStatus);
        }
        if now <= self.trades[ti].lock_expires_at {
            return Err(TradeError::NotExpired);
        }
        let amount = self.trades[ti].amount_e6;
        let filler_copy = self.trades[ti].filler.duplicate();
        let oid = self.trades[ti].order_id;
        let ids = trade_chunk_ids(&self.trades[ti]);
        let ghost pre = *self;
        self.trades[ti].status = TradeStatus::PenaltyApplied;
        proof {
            assert(self.trades@ =~= pre.trades@.update(ti as int, self.trades@[ti as int]));
            lemma_trade_update_preserves(pre, *self, ti as int);
            assert forall|x: u64| crate::chunks::contains_id(ids@, x) implies exists|k: int|
                0 <= k < pre.trades@[ti as int].locked_chunks@.len() && (
                #[trigger] pre.trades@[ti as int].locked_chunks@[k]).chunk_id == x by {
                let j = choose|j: int| 0 <= j < ids@.len() && (#[trigger] ids@[j]) == x;
                assert(pre.trades@[ti as int].locked_chunks@[j].chunk_id == x);
            }
            lemma_dead_trade_chunks_free(pre, *self, ti as int, ids@);
        }
        let ghost mid = *self;
        self.unlock_chunks(&ids);
        proof {
            assert(self.trades@ == mid.trades@);
            assert(self.trades@[ti as int] == (Trade {
                status: TradeStatus::PenaltyApplied,
                ..old(self).trades@[ti as int]
            }));
            assert(ids@ =~= old(self).trades@[ti as int].spec_chunk_ids());
            assert(mid.chunks@ == old(self).chunks@);
            assert(mid.orders@ == old(self).orders@);
        }
        let penalty: u64 = ((amount as u128) * (SECURITY_DEPOSIT_PERCENT as u128) / 100) as u64;
        proof {
            assert((amount as u128) * (SECURITY_DEPOSIT_PERCENT as u128) / 100 == amount
                * SECURITY_DEPOSIT_PERCENT / 100) by (nonlinear_arith);
            assert(amount * SECURITY_DEPOSIT_PERCENT / 100 <= amount) by (nonlinear_arith);
        }
        let ghost before_extras = *self;
        self.record_filler_penalty(&filler_copy, penalty);
        self.create_admin_event(
            crate::types::AdminEventType::PenaltyApplied {
                trade_id,
                order_id: Some(oid),
                penalty_e6: penalty,
            },
            now,
        );
        proof {
            lemma_counter_bump_preserves_inv(before_extras, *self);
        }
        Ok(penalty)
    }

    /// Finish a claim: the trade's payment has been verified and the escrow
    /// released, so the trade completes and its chunks are filled.
    pub fn commit_claim(&mut self, trade_id: u64, now: u64) -> (r: Result<(), TradeError>)
        requires
            old(self).inv(),
        ensures
            final(self).inv(),
            match r {
                Ok(_) => exists|ti: int|
                    {
                        &&& 0 <= ti < old(self).trades@.len()
                        &&& (#[trigger] old(self).trades@[ti]).id == trade_id
                        &&& old(self).trades@[ti].status is TxSubmitted
                        &&& final(self).trades@[ti] == (Trade {
                            status: TradeStatus::WithdrawalConfirmed,
                            withdrawal_initiated_at: Some(now),
                            withdrawal_confirmed_at: Some(now),
                            ..old(self).trades@[ti]
                        })
                        &&& final(self).trades@ == old(self).trades@.update(
                            ti,
                            final(self).trades@[ti],
                        )
                        &&& forall|ci: int|
                            0 <= ci < old(self).chunks@.len() && crate::chunks::contains_id(
                                final(self).trades@[ti].spec_chunk_ids(),
                                (#[trigger] old(self).chunks@[ci]).id,
                            ) ==> final(self).chunks@[ci] == (Chunk {
                                status: ChunkStatus::Filled,
                                locked_by: None,
                                filled_at: Some(now),
                                ..old(self).chunks@[ci]
                            })
                        &&& forall|ci: int|
                            0 <= ci < old(self).chunks@.len() ==> (
                            #[trigger] final(self).chunks@[ci]) == old(self).chunks@[ci]
                                || crate::chunks::contains_id(
                                old(self).trades@[ti].spec_chunk_ids(),
                                old(self).chunks@[ci].id,
                            )
                        &&& forall|oi: int|
                            0 <= oi < old(self).orders@.len() ==> (
                            #[trigger] final(self).orders@[oi]) == old(self).orders@[oi] || (
                            final(self).orders@[oi].total_filled_e6 > 0 && final(self).orders@[oi].status == (
                            if final(self).orders@[oi].total_filled_e6 >= final(self).orders@[oi].amount_e6 {
                                crate::types::OrderStatus::Filled
                            } else {
                                crate::types::OrderStatus::PartiallyFilled
                            }))
                        &&& forall|f: int|
                            0 <= f < old(self).filler_accounts@.len() ==> (#[trigger] final(self).filler_accounts@[f]) == old(self).filler_accounts@[f] || (old(self).filler_accounts@[f].id@ == old(self).trades@[ti].filler@ && final(self).filler_accounts@[f].successful_trades as int == vstd::math::min(
                                old(self).filler_accounts@[f].successful_trades + 1,
                                u64::MAX as int,
                            ))
                    },
                Err(e) => {
                    &&& final(self).chunks@ == old(self).chunks@
                    &&& final(self).trades@ == old(self).trades@
                    &&& match e {
                        TradeError::TradeNotFound => !has_trade_id(old(self).trades@, trade_id),
                        TradeError::WrongStatus => exists|ti: int|
                            0 <= ti < old(self).trades@.len() && (
                            #[trigger] old(self).trades@[ti]).id == trade_id && !(old(self).trades@[ti].status is TxSubmitted),
                        _ => false,
                    }
                },
            },
    {
        let ti = match find_trade_idx(&self.trades, trade_id) {
            Some(i) => i,
            None => {
                return Err(TradeError::TradeNotFound);
            },
        };
        if !matches!(self.trades[ti].status, TradeStatus::TxSubmitted) {
            return Err(TradeError::WrongStatus);
        }
        let filler_copy = self.trades[ti].filler.duplicate();
        let ids = trade_chunk_ids(&self.trades[ti]);
        proof {
            assert(ids@ =~= self.trades@[ti as int].spec_chunk_ids());
        }
        let ghost pre = *self;
        self.trades[ti].status = TradeStatus::WithdrawalConfirmed;
        self.trades[ti].withdrawal_initiated_at = Some(now);
        self.trades[ti].withdrawal_confirmed_at = Some(now);
        proof {
            assert(self.trades@ =~= pre.trades@.update(ti as int, self.trades@[ti as int]));
            lemma_trade_update_preserves(pre, *self, ti as int);
            assert forall|x: u64| crate::chunks::contains_id(ids@, x) implies exists|k: int|
                0 <= k < pre.trades@[ti as int].locked_chunks@.len() && (
                #[trigger] pre.trades@[ti as int].locked_chunks@[k]).chunk_id == x by {
                let j = choose|j: int| 0 <= j < ids@.len() && (#[trigger] ids@[j]) == x;
                assert(pre.trades@[ti as int].locked_chunks@[j].chunk_id == x);
            }
            lemma_dead_trade_chunks_free(pre, *self, ti as int, ids@);
        }
        let ghost mid = *self;
        self.mark_chunks_filled(&ids, now);
        proof {
            assert(self.trades@ == mid.trades@);
        }
        let ghost before_extras = *self;
        self.record_filler_success(&filler_copy);
        proof {
            lemma_counter_bump_preserves_inv(before_extras, *self);
        }
        Ok(())
    }

    /// Reclaim a submitted trade whose claim window has closed: the escrow
    /// goes to the treasury, the chunks count as filled, and the trade ends
    /// cancelled.  Returns the penalty the filler owes the treasury.
    pub fn commit_reclaim(&mut self, trade_id: u64, now: u64) -> (r: Result<u64, TradeError>)
        requires
            old(self).inv(),
            old(self).next_admin_event_id < u64::MAX - 1,
        ensures
            final(self).inv(),
            match r {
                Ok(penalty) => exists|ti: int|
                    {
                        &&& 0 <= ti < old(self).trades@.len()
                        &&& (#[trigger] old(self).trades@[ti]).id == trade_id
                        &&& old(self).trades@[ti].status is TxSubmitted
                        &&& old(self).trades@[ti].claim_expires_at matches Some(ce) && now > ce
                        &&& final(self).trades@[ti] == (Trade {
                            status: TradeStatus::Cancelled,
                            withdrawal_confirmed_at: Some(now),
                            ..old(self).trades@[ti]
                        })
                        &&& final(self).trades@ == old(self).trades@.update(
                            ti,
                            final(self).trades@[ti],
                        )
                        &&& penalty == old(self).trades@[ti].amount_e6 * SECURITY_DEPOSIT_PERCENT
                            / 100
                        &&& forall|ci: int|
                            0 <= ci < old(self).chunks@.len() && crate::chunks::contains_id(
                                old(self).trades@[ti].spec_chunk_ids(),
                                (#[trigger] old(self).chunks@[ci]).id,
                            ) ==> final(self).chunks@[ci] == (Chunk {
                                status: ChunkStatus::Filled,
                                locked_by: None,
                                filled_at: Some(now),
                                ..old(self).chunks@[ci]
                            })
                        &&& forall|ci: int|
                            0 <= ci < old(self).chunks@.len() ==> (
                            #[trigger] final(self).chunks@[ci]) == old(self).chunks@[ci]
                                || crate::chunks::contains_id(
                                old(self).trades@[ti].spec_chunk_ids(),
                                old(self).chunks@[ci].id,
                            )
                        &&& forall|oi: int|
                            0 <= oi < old(self).orders@.len() ==> (
                            #[trigger] final(self).orders@[oi]) == old(self).orders@[oi] || (
                            final(self).orders@[oi].total_filled_e6 > 0 && final(self).orders@[oi].status == (
                            if final(self).orders@[oi].total_filled_e6 >= final(self).orders@[oi].amount_e6 {
                                crate::types::OrderStatus::Filled
                            } else {
                                crate::types::OrderStatus::PartiallyFilled
                            }))
                        &&& final(self).admin_events@.len() >= 1 && (final(self).admin_events@.last().event_type matches
                            crate::types::AdminEventType::TradeExpiredToTreasury {
                            trade_id: tid2,
                            ..
                        } && tid2 == trade_id)
                        &&& forall|f: int|
                            0 <= f < old(self).filler_accounts@.len() ==> (#[trigger] final(self).filler_accounts@[f]) == old(self).filler_accounts@[f] || old(self).filler_accounts@[f].id@ == old(self).trades@[ti].filler@
                    },
                Err(e) => {
                    &&& final(self).chunks@ == old(self).chunks@
                    &&& final(self).trades@ == old(self).trades@
                    &&& match e {
                        TradeError::TradeNotFound => !has_trade_id(old(self).trades@, trade_id),
                        TradeError::WrongStatus => exists|ti: int|
                            0 <= ti < old(self).trades@.len() && (
                            #[trigger] old(self).trades@[ti]).id == trade_id && !(old(self).trades@[ti].status is TxSubmitted),
                        TradeError::NotExpired => exists|ti: int|
                            0 <= ti < old(self).trades@.len() && (
                            #[trigger] old(self).trades@[ti]).id == trade_id && !(old(self).trades@[ti].claim_expires_at matches Some(ce) && now > ce),
                        _ => false,
                    }
                },
            },
    {
        let ti = match find_trade_idx(&self.trades, trade_id) {
            Some(i) => i,
            None => {
                return Err(TradeError::TradeNotFound);
            },
        };
        if !matches!(self.trades[ti].status, TradeStatus::TxSubmitted) {
            return Err(TradeError::WrongStatus);
        }
        let expired = match self.trades[ti].claim_expires_at {
            Some(ce) => now > ce,
            None => false,
        };
        if !expired {
            return Err(TradeError::NotExpired);
        }
        let amount = self.trades[ti].amount_e6;
        let filler_copy = self.trades[ti].filler.duplicate();
        let oid = self.trades[ti].order_id;
        let ids = trade_chunk_ids(&self.trades[ti]);
        proof {
            assert(ids@ =~= self.trades@[ti as int].spec_chunk_ids());
        }
        let ghost pre = *self;
        self.trades[ti].status = TradeStatus::Cancelled;
        self.trades[ti].withdrawal_confirmed_at = Some(now);
        proof {
            assert(self.trades@ =~= pre.trades@.update(ti as int, self.trades@[ti as int]));
            lemma_trade_update_preserves(pre, *self, ti as int);
            assert forall|x: u64| crate::chunks::contains_id(ids@, x) implies exists|k: int|
                0 <= k < pre.trades@[ti as int].locked_chunks@.len() && (
                #[trigger] pre.trades@[ti as int].locked_chunks@[k]).chunk_id == x by {
                let j = choose|j: int| 0 <= j < ids@.len() && (#[trigger] ids@[j]) == x;
                assert(pre.trades@[ti as int].locked_chunks@[j].chunk_id == x);
            }
            lemma_dead_trade_chunks_free(pre, *self, ti as int, ids@);
        }
        let ghost mid = *self;
        self.mark_chunks_filled(&ids, now);
        proof {
            assert(self.trades@ == mid.trades@);
        }
        let penalty: u64 = ((amount as u128) * (SECURITY_DEPOSIT_PERCENT as u128) / 100) as u64;
        proof {
            assert((amount as u128) * (SECURITY_DEPOSIT_PERCENT as u128) / 100 == amount
                * SECURITY_DEPOSIT_PERCENT / 100) by (nonlinear_arith);
            assert(amount * SECURITY_DEPOSIT_PERCENT / 100 <= amount) by (nonlinear_arith);
        }
        proof {
            assert((amount as u128) * ((10000 + FILLER_INCENTIVE_BPS) as u128)
                <= 340282366920938463463374607431768211455u128) by (nonlinear_arith)
                requires
                    amount <= 18446744073709551615u64,
            ;
            assert((amount as u128) * ((10000 + FILLER_INCENTIVE_BPS) as u128) / 10000 <= (
            2u128) * (amount as u128)) by (nonlinear_arith);
        }
        let gross_wide: u128 = (amount as u128) * ((10000 + FILLER_INCENTIVE_BPS) as u128)
            / 10000;
        let gross: u64 = if gross_wide > u64::MAX as u128 {
            u64::MAX
        } else {
            gross_wide as u64
        };
        let ghost before_extras = *self;
        self.record_filler_penalty(&filler_copy, penalty);
        self.create_admin_event(
            crate::types::AdminEventType::PenaltyApplied {
                trade_id,
                order_id: Some(oid),
                penalty_e6: penalty,
            },
            now,
        );
        self.create_admin_event(
            crate::types::AdminEventType::TradeExpiredToTreasury {
                trade_id,
                order_id: oid,
                amount_sent_e6: gross,
            },
            now,
        );
        proof {
            lemma_counter_bump_preserves_inv(before_extras, *self);
        }
        Ok(penalty)
    }
}

/// What the caller must settle on the ledger once a claim has passed every
/// check: the order whose escrow pays, and the gross payout.
#[derive(Clone, Copy, Debug, PartialEq, Eq, Structural)]
pub struct ClaimPlan {
    pub order_id: u64,
    pub payout_e6: u128,
}

/// The guards of a claim that do not involve the proof: the caller is the
/// filler of a stored, submitted trade, the presented transaction is the
/// stored one, and `now` lies inside the claim window.
pub open spec fn claim_guards_ok(
    e: Engine,
    ti: int,
    caller: PrincipalId,
    tx_hex: Seq<char>,
    now: u64,
) -> bool {
    &&& !caller.spec_is_anonymous()
    &&& 0 <= ti < e.trades@.len()
    &&& e.trades@[ti].filler@ == caller@
    &&& e.trades@[ti].status is TxSubmitted
    &&& e.trades@[ti].bsv_tx_hex matches Some(stored)
        && crate::block_store::ascii_lower_eq(
        vstd::utf8::encode_utf8(tx_hex),
        vstd::utf8::encode_utf8(stored@),
    )
    &&& e.trades@[ti].release_available_at matches Some(rt) && now >= rt
    &&& e.trades@[ti].claim_expires_at matches Some(ce) && now <= ce
}

impl Engine {
    /// Check a claim against the stored trade and the block store: caller,
    /// status, transaction identity, release and expiry windows, and the SPV
    /// proof with its confirmations.  On success, the returned plan names
    /// the escrow to debit and the gross payout owed to the filler.
    pub fn check_claim(
        &self,
        store: &crate::block_store::BlockStore,
        trade_id: u64,
        caller: &PrincipalId,
        tx_hex: &str,
        bump_hex: &str,
        now: u64,
    ) -> (r: Result<ClaimPlan, TradeError>)
        requires
            store.inv(),
        ensures
            match r {
                Ok(plan) => exists|ti: int|
                    {
                        &&& claim_guards_ok(*self, ti, *caller, tx_hex@, now)
                        &&& (#[trigger] self.trades@[ti]).id == trade_id
                        &&& crate::spv::spec_spv_ok(*store, tx_hex@, bump_hex@)
                        &&& crate::spv::spec_confirmations(
                            *store,
                            crate::bump::parse_bump(
                                crate::hashing::bytes_of_hex(bump_hex@),
                            ).unwrap().block_height as int,
                        ) >= crate::config::CONFIRMATION_DEPTH
                        &&& crate::engine::has_order_id(self.orders@, self.trades@[ti].order_id)
                        &&& plan.order_id == self.trades@[ti].order_id
                        &&& plan.payout_e6 == self.trades@[ti].amount_e6 * (10000
                            + FILLER_INCENTIVE_BPS) / 10000
                    },
                Err(e) => match e {
                    TradeError::Anonymous => caller.spec_is_anonymous(),
                    TradeError::TradeNotFound => !has_trade_id(self.trades@, trade_id),
                    TradeError::NotFiller => exists|ti: int|
                        0 <= ti < self.trades@.len() && (#[trigger] self.trades@[ti]).id
                            == trade_id && self.trades@[ti].filler@ != caller@,
                    TradeError::WrongStatus => exists|ti: int|
                        0 <= ti < self.trades@.len() && (#[trigger] self.trades@[ti]).id
                            == trade_id && !(self.trades@[ti].status is TxSubmitted),
                    TradeError::NoSubmission => exists|ti: int|
                        0 <= ti < self.trades@.len() && (#[trigger] self.trades@[ti]).id
                            == trade_id && (self.trades@[ti].bsv_tx_hex is None
                            || self.trades@[ti].release_available_at is None
                            || self.trades@[ti].claim_expires_at is None),
                    TradeError::TxMismatch => exists|ti: int|
                        0 <= ti < self.trades@.len() && (#[trigger] self.trades@[ti]).id
                            == trade_id && (self.trades@[ti].bsv_tx_hex matches Some(stored)
                            && !crate::block_store::ascii_lower_eq(
                            vstd::utf8::encode_utf8(tx_hex@),
                            vstd::utf8::encode_utf8(stored@),
                        )),
                    TradeError::ReleaseNotReached => exists|ti: int|
                        0 <= ti < self.trades@.len() && (#[trigger] self.trades@[ti]).id
                            == trade_id && (self.trades@[ti].release_available_at matches Some(
                            rt,
                        ) && now < rt),
                    TradeError::ClaimExpired => exists|ti: int|
                        0 <= ti < self.trades@.len() && (#[trigger] self.trades@[ti]).id
                            == trade_id && (self.trades@[ti].claim_expires_at matches Some(ce)
                            && now > ce),
                    TradeError::VerificationFailed => !crate::spv::spec_spv_ok(
                        *store,
                        tx_hex@,
                        bump_hex@,
                    ),
                    TradeError::BlockMissing { height } => {
                        &&& !crate::spv::spec_spv_ok(*store, tx_hex@, bump_hex@)
                        &&& crate::hashing::is_hex_text(bump_hex@)
                        &&& (crate::bump::parse_bump(
                            crate::hashing::bytes_of_hex(bump_hex@),
                        ) matches Some(p) && p.block_height == height)
                        &&& !store.spec_has(height as int)
                    },
                    TradeError::InsufficientConfirmations => crate::spv::spec_confirmations(
                        *store,
                        crate::bump::parse_bump(
                            crate::hashing::bytes_of_hex(bump_hex@),
                        ).unwrap().block_height as int,
                    ) < crate::config::CONFIRMATION_DEPTH,
                    TradeError::OrderNotFound => exists|ti: int|
                        0 <= ti < self.trades@.len() && (#[trigger] self.trades@[ti]).id
                            == trade_id && !crate::engine::has_order_id(
                            self.orders@,
                            self.trades@[ti].order_id,
                        ),
                    _ => false,
                },
            },
    {
        if caller.is_anonymous() {
            return Err(TradeError::Anonymous);
        }
        let ti = match find_trade_idx(&self.trades, trade_id) {
            Some(i) => i,
            None => {
                return Err(TradeError::TradeNotFound);
            },
        };
        if !self.trades[ti].filler.eq_principal(caller) {
            return Err(TradeError::NotFiller);
        }
        if !matches!(self.trades[ti].status, TradeStatus::TxSubmitted) {
            return Err(TradeError::WrongStatus);
        }
        let stored_match = match &self.trades[ti].bsv_tx_hex {
            Some(stored) => crate::block_store::eq_ignore_ascii_case(tx_hex, stored.as_str()),
            None => {
                return Err(TradeError::NoSubmission);
            },
        };
        if !stored_match {
            return Err(TradeError::TxMismatch);
        }
        match self.trades[ti].release_available_at {
            Some(rt) => {
                if now < rt {
                    return Err(TradeError::ReleaseNotReached);
                }
            },
            None => {
                return Err(TradeError::NoSubmission);
            },
        }
        match self.trades[ti].claim_expires_at {
            Some(ce) => {
                if now > ce {
                    return Err(TradeError::ClaimExpired);
                }
            },
            None => {
                return Err(TradeError::NoSubmission);
            },
        }
        let verification = match crate::spv::verify_tx_raw(store, tx_hex, bump_hex) {
            Ok(v) => v,
            Err(crate::spv::SpvError::BlockMissing { height }) => {
                return Err(TradeError::BlockMissing { height });
            },
            Err(_) => {
                return Err(TradeError::VerificationFailed);
            },
        };
        if !verification.verified {
            return Err(TradeError::InsufficientConfirmations);
        }
        let oid = self.trades[ti].order_id;
        match crate::engine::find_order_idx(&self.orders, oid) {
            Some(_) => {},
            None => {
                return Err(TradeError::OrderNotFound);
            },
        }
        let amount = self.trades[ti].amount_e6;
        let payout: u128 = (amount as u128) * ((10000 + FILLER_INCENTIVE_BPS) as u128) / 10000;
        proof {
            assert((amount as u128) * ((10000 + FILLER_INCENTIVE_BPS) as u128) / 10000 == amount
                * (10000 + FILLER_INCENTIVE_BPS) / 10000) by (nonlinear_arith);
        }
        Ok(ClaimPlan { order_id: oid, payout_e6: payout })
    }

    /// Check a claim whose block lies outside the local header window against
    /// a header fetched from the archival companion: the same guards as
    /// `check_claim`, with the merkle check made against the supplied header.
    /// The archive keeps only deeply confirmed blocks, so a match there counts
    /// as sufficiently confirmed.
    pub fn check_claim_archive(
        &self,
        trade_id: u64,
        caller: &PrincipalId,
        tx_hex: &str,
        bump_hex: &str,
        now: u64,
        header: &crate::block_store::BlockHeader,
    ) -> (r: Result<ClaimPlan, TradeError>)
        ensures
            match r {
                Ok(plan) => exists|ti: int|
                    {
                        &&& claim_guards_ok(*self, ti, *caller, tx_hex@, now)
                        &&& (#[trigger] self.trades@[ti]).id == trade_id
                        &&& crate::spv::spec_spv_ok_header(*header, tx_hex@, bump_hex@)
                        &&& crate::engine::has_order_id(self.orders@, self.trades@[ti].order_id)
                        &&& plan.order_id == self.trades@[ti].order_id
                        &&& plan.payout_e6 == self.trades@[ti].amount_e6 * (10000
                            + FILLER_INCENTIVE_BPS) / 10000
                    },
                Err(e) => match e {
                    TradeError::Anonymous => caller.spec_is_anonymous(),
                    TradeError::TradeNotFound => !has_trade_id(self.trades@, trade_id),
                    TradeError::NotFiller => exists|ti: int|
                        0 <= ti < self.trades@.len() && (#[trigger] self.trades@[ti]).id
                            == trade_id && self.trades@[ti].filler@ != caller@,
                    TradeError::WrongStatus => exists|ti: int|
                        0 <= ti < self.trades@.len() && (#[trigger] self.trades@[ti]).id
                            == trade_id && !(self.trades@[ti].status is TxSubmitted),
                    TradeError::NoSubmission => exists|ti: int|
                        0 <= ti < self.trades@.len() && (#[trigger] self.trades@[ti]).id
                            == trade_id && (self.trades@[ti].bsv_tx_hex is None
                            || self.trades@[ti].release_available_at is None
                            || self.trades@[ti].claim_expires_at is None),
                    TradeError::TxMismatch => exists|ti: int|
                        0 <= ti < self.trades@.len() && (#[trigger] self.trades@[ti]).id
                            == trade_id && (self.trades@[ti].bsv_tx_hex matches Some(stored)
                            && !crate::block_store::ascii_lower_eq(
                            vstd::utf8::encode_utf8(tx_hex@),
                            vstd::utf8::encode_utf8(stored@),
                        )),
                    TradeError::ReleaseNotReached => exists|ti: int|
                        0 <= ti < self.trades@.len() && (#[trigger] self.trades@[ti]).id
                            == trade_id && (self.trades@[ti].release_available_at matches Some(
                            rt,
                        ) && now < rt),
                    TradeError::ClaimExpired => exists|ti: int|
                        0 <= ti < self.trades@.len() && (#[trigger] self.trades@[ti]).id
                            == trade_id && (self.trades@[ti].claim_expires_at matches Some(ce)
                            && now > ce),
                    TradeError::VerificationFailed => !crate::spv::spec_spv_ok_header(
                        *header,
                        tx_hex@,
                        bump_hex@,
                    ),
                    TradeError::OrderNotFound => exists|ti: int|
                        0 <= ti < self.trades@.len() && (#[trigger] self.trades@[ti]).id
                            == trade_id && !crate::engine::has_order_id(
                            self.orders@,
                            self.trades@[ti].order_id,
                        ),
                    _ => false,
                },
            },
    {
        if caller.is_anonymous() {
            return Err(TradeError::Anonymous);
        }
        let ti = match find_trade_idx(&self.trades, trade_id) {
            Some(i) => i,
            None => {
                return Err(TradeError::TradeNotFound);
            },
        };
        if !self.trades[ti].filler.eq_principal(caller) {
            return Err(TradeError::NotFiller);
        }
        if !matches!(self.trades[ti].status, TradeStatus::TxSubmitted) {
            return Err(TradeError::WrongStatus);
        }
        let stored_match = match &self.trades[ti].bsv_tx_hex {
            Some(stored) => crate::block_store::eq_ignore_ascii_case(tx_hex, stored.as_str()),
            None => {
                return Err(TradeError::NoSubmission);
            },
        };
        if !stored_match {
            return Err(TradeError::TxMismatch);
        }
        match self.trades[ti].release_available_at {
            Some(rt) => {
                if now < rt {
                    return Err(TradeError::ReleaseNotReached);
                }
            },
            None => {
                return Err(TradeError::NoSubmission);
            },
        }
        match self.trades[ti].claim_expires_at {
            Some(ce) => {
                if now > ce {
                    return Err(TradeError::ClaimExpired);
                }
            },
            None => {
                return Err(TradeError::NoSubmission);
            },
        }
        match crate::spv::verify_tx_raw_with_header(header, tx_hex, bump_hex) {
            Ok(_) => {},
            Err(_) => {
                return Err(TradeError::VerificationFailed);
            },
        }
        let oid = self.trades[ti].order_id;
        match crate::engine::find_order_idx(&self.orders, oid) {
            Some(_) => {},
            None => {
                return Err(TradeError::OrderNotFound);
            },
        }
        let amount = self.trades[ti].amount_e6;
        let payout: u128 = (amount as u128) * ((10000 + FILLER_INCENTIVE_BPS) as u128) / 10000;
        proof {
            assert((amount as u128) * ((10000 + FILLER_INCENTIVE_BPS) as u128) / 10000 == amount
                * (10000 + FILLER_INCENTIVE_BPS) / 10000) by (nonlinear_arith);
        }
        Ok(ClaimPlan { order_id: oid, payout_e6: payout })
    }
}

/// The guards of a resubmission: a submitted trade of this filler, still
/// inside the resubmission window measured from the first submission.
pub open spec fn resubmit_guards_ok(e: Engine, ti: int, caller: PrincipalId, now: u64) -> bool {
    &&& !caller.spec_is_anonymous()
    &&& 0 <= ti < e.trades@.len()
    &&& e.trades@[ti].filler@ == caller@
    &&& e.trades@[ti].status is TxSubmitted
    &&& e.trades@[ti].tx_submitted_at matches Some(t0) && now <= t0 + RESUBMISSION_WINDOW_NS
    &&& e.trades@[ti].bsv_tx_hex is Some
}

impl Engine {
    /// Check a resubmission: the guards, the penalty owed, and the filler's
    /// available security against it.  Returns the penalty the caller must
    /// settle before committing the replacement.
    pub fn check_resubmit(
        &self,
        trade_id: u64,
        caller: &PrincipalId,
        raw_tx_hex: &str,
        now: u64,
        available_security_e6: u64,
    ) -> (r: Result<u64, TradeError>)
        requires
            self.inv(),
        ensures
            match r {
                Ok(penalty) => exists|ti: int|
                    {
                        &&& resubmit_guards_ok(*self, ti, *caller, now)
                        &&& (#[trigger] self.trades@[ti]).id == trade_id
                        &&& penalty == self.trades@[ti].amount_e6 * RESUBMISSION_PENALTY_BPS
                            / 10000
                        &&& available_security_e6 >= penalty
                        &&& is_hex_text(raw_tx_hex@)
                        &&& !txid_used_by_other(
                            *self,
                            txid_of_bytes(bytes_of_hex(raw_tx_hex@)),
                            trade_id,
                        )
                        &&& parse_tx(bytes_of_hex(raw_tx_hex@)) matches Some(m)
                            && outputs_pay_chunks(m.outputs, self.trades@[ti].locked_chunks@)
                    },
                Err(e) => match e {
                    TradeError::Anonymous => caller.spec_is_anonymous(),
                    TradeError::TradeNotFound => !has_trade_id(self.trades@, trade_id),
                    TradeError::NotFiller => exists|ti: int|
                        0 <= ti < self.trades@.len() && (#[trigger] self.trades@[ti]).id
                            == trade_id && self.trades@[ti].filler@ != caller@,
                    TradeError::WrongStatus => exists|ti: int|
                        0 <= ti < self.trades@.len() && (#[trigger] self.trades@[ti]).id
                            == trade_id && !(self.trades@[ti].status is TxSubmitted),
                    TradeError::NoSubmission => exists|ti: int|
                        0 <= ti < self.trades@.len() && (#[trigger] self.trades@[ti]).id
                            == trade_id && (self.trades@[ti].tx_submitted_at is None
                            || self.trades@[ti].bsv_tx_hex is None),
                    TradeError::ResubmissionWindowExpired => exists|ti: int|
                        0 <= ti < self.trades@.len() && (#[trigger] self.trades@[ti]).id
                            == trade_id && (self.trades@[ti].tx_submitted_at matches Some(t0)
                            && now > t0 + RESUBMISSION_WINDOW_NS),
                    TradeError::InsufficientSecurity => exists|ti: int|
                        0 <= ti < self.trades@.len() && (#[trigger] self.trades@[ti]).id
                            == trade_id && available_security_e6 < self.trades@[ti].amount_e6
                            * RESUBMISSION_PENALTY_BPS / 10000,
                    TradeError::BadTransaction => !is_hex_text(raw_tx_hex@) || parse_tx(
                        bytes_of_hex(raw_tx_hex@),
                    ) is None,
                    TradeError::TxAlreadyUsed { trade_id: other } => other != trade_id
                        && exists|u: int|
                        0 <= u < self.used_txids@.len() && (
                        #[trigger] self.used_txids@[u]).txid@ == txid_of_bytes(
                            bytes_of_hex(raw_tx_hex@),
                        ) && self.used_txids@[u].trade_id == other,
                    TradeError::OutputMismatch => exists|ti: int|
                        {
                            &&& 0 <= ti < self.trades@.len()
                            &&& (#[trigger] self.trades@[ti]).id == trade_id
                            &&& parse_tx(bytes_of_hex(raw_tx_hex@)) matches Some(m)
                                && !outputs_pay_chunks(
                                m.outputs,
                                self.trades@[ti].locked_chunks@,
                            )
                        },
                    _ => false,
                },
            },
    {
        if caller.is_anonymous() {
            return Err(TradeError::Anonymous);
        }
        let ti = match find_trade_idx(&self.trades, trade_id) {
            Some(i) => i,
            None => {
                return Err(TradeError::TradeNotFound);
            },
        };
        if !self.trades[ti].filler.eq_principal(caller) {
            return Err(TradeError::NotFiller);
        }
        if !matches!(self.trades[ti].status, TradeStatus::TxSubmitted) {
            return Err(TradeError::WrongStatus);
        }
        let t0 = match self.trades[ti].tx_submitted_at {
            Some(t) => t,
            None => {
                return Err(TradeError::NoSubmission);
            },
        };
        if matches!(self.trades[ti].bsv_tx_hex, None) {
            return Err(TradeError::NoSubmission);
        }
        if (now as u128) > (t0 as u128) + (RESUBMISSION_WINDOW_NS as u128) {
            return Err(TradeError::ResubmissionWindowExpired);
        }
        let amount = self.trades[ti].amount_e6;
        let penalty: u64 = ((amount as u128) * (RESUBMISSION_PENALTY_BPS as u128) / 10000) as u64;
        proof {
            assert((amount as u128) * (RESUBMISSION_PENALTY_BPS as u128) / 10000 == amount
                * RESUBMISSION_PENALTY_BPS / 10000) by (nonlinear_arith);
            assert(amount * RESUBMISSION_PENALTY_BPS / 10000 <= amount) by (nonlinear_arith);
        }
        if available_security_e6 < penalty {
            return Err(TradeError::InsufficientSecurity);
        }
        let txid = match crate::spv::compute_txid(raw_tx_hex) {
            Ok(t) => t,
            Err(_) => {
                return Err(TradeError::BadTransaction);
            },
        };
        match self.get_trade_using_tx(txid.as_str()) {
            Some(other) => {
                if other != trade_id {
                    return Err(TradeError::TxAlreadyUsed { trade_id: other });
                }
            },
            None => {},
        }
        let parsed = match parse_bsv_transaction(raw_tx_hex) {
            Ok(p) => p,
            Err(_) => {
                return Err(TradeError::BadTransaction);
            },
        };
        match crate::bsv_tx::validate_transaction_outputs(&parsed, &self.trades[ti].locked_chunks) {
            Ok(_) => {},
            Err(_) => {
                return Err(TradeError::OutputMismatch);
            },
        }
        proof {
            assert(!txid_used_by_other(
                *self,
                txid_of_bytes(bytes_of_hex(raw_tx_hex@)),
                trade_id,
            )) by {
                if txid_used_by_other(*self, txid_of_bytes(bytes_of_hex(raw_tx_hex@)), trade_id) {
                    let a = choose|a: int|
                        0 <= a < self.used_txids@.len() && (#[trigger] self.used_txids@[a]).txid@
                            == txid_of_bytes(bytes_of_hex(raw_tx_hex@))
                            && self.used_txids@[a].trade_id != trade_id;
                    let b = choose|b: int|
                        0 <= b < self.used_txids@.len() && (#[trigger] self.used_txids@[b]).txid@
                            == txid_of_bytes(bytes_of_hex(raw_tx_hex@))
                            && self.used_txids@[b].trade_id == trade_id;
                    if a < b {
                        assert(self.used_txids@[a].txid@ != self.used_txids@[b].txid@);
                    } else if b < a {
                        assert(self.used_txids@[b].txid@ != self.used_txids@[a].txid@);
                    }
                    assert(false);
                }
            }
        }
        Ok(penalty)
    }

    /// Commit a resubmission once the penalty has been settled: the stored
    /// transaction is replaced, the old transaction id freed, the new one
    /// registered, and the release timer restarted.  The claim expiry and
    /// the submission time are deliberately left alone: the claim window is
    /// never extended by resubmitting.
    #[verifier::rlimit(60)]
    pub fn resubmit_bsv_transaction(
        &mut self,
        trade_id: u64,
        caller: &PrincipalId,
        raw_tx_hex: String,
        now: u64,
    ) -> (r: Result<(), TradeError>)
        requires
            old(self).inv(),
            now <= u64::MAX - USDC_RELEASE_WAIT_NS,
        ensures
            final(self).inv(),
            match r {
                Ok(_) => exists|ti: int|
                    {
                        &&& resubmit_guards_ok(*old(self), ti, *caller, now)
                        &&& (#[trigger] old(self).trades@[ti]).id == trade_id
                        &&& is_hex_text(raw_tx_hex@)
                        &&& !txid_used_by_other(
                            *old(self),
                            txid_of_bytes(bytes_of_hex(raw_tx_hex@)),
                            trade_id,
                        )
                        &&& parse_tx(bytes_of_hex(raw_tx_hex@)) matches Some(m)
                            && outputs_pay_chunks(
                            m.outputs,
                            old(self).trades@[ti].locked_chunks@,
                        )
                        &&& final(self).trades@ == old(self).trades@.update(
                            ti,
                            final(self).trades@[ti],
                        )
                        &&& final(self).trades@[ti] == (Trade {
                            bsv_tx_hex: Some(raw_tx_hex),
                            release_available_at: Some((now + USDC_RELEASE_WAIT_NS) as u64),
                            ..old(self).trades@[ti]
                        })
                        &&& final(self).chunks@ == old(self).chunks@
                        &&& final(self).orders@ == old(self).orders@
                        &&& exists|u: int|
                            0 <= u < final(self).used_txids@.len() && (#[trigger] final(self).used_txids@[u]).txid@ == txid_of_bytes(bytes_of_hex(raw_tx_hex@))
                                && final(self).used_txids@[u].trade_id == trade_id
                        &&& (trade_txid(old(self).trades@[ti]) != txid_of_bytes(
                            bytes_of_hex(raw_tx_hex@),
                        ) ==> forall|u: int|
                            0 <= u < final(self).used_txids@.len() ==> (#[trigger] final(self).used_txids@[u]).txid@ != trade_txid(old(self).trades@[ti]))
                    },
                Err(e) => {
                    &&& final(self).trades@ == old(self).trades@
                    &&& final(self).chunks@ == old(self).chunks@
                    &&& final(self).orders@ == old(self).orders@
                    &&& final(self).used_txids@ == old(self).used_txids@
                    &&& match e {
                        TradeError::Anonymous => caller.spec_is_anonymous(),
                        TradeError::TradeNotFound => !has_trade_id(old(self).trades@, trade_id),
                        TradeError::NotFiller => exists|ti: int|
                            0 <= ti < old(self).trades@.len() && (
                            #[trigger] old(self).trades@[ti]).id == trade_id && old(self).trades@[ti].filler@ != caller@,
                        TradeError::WrongStatus => exists|ti: int|
                            0 <= ti < old(self).trades@.len() && (
                            #[trigger] old(self).trades@[ti]).id == trade_id && !(old(self).trades@[ti].status is TxSubmitted),
                        TradeError::NoSubmission => exists|ti: int|
                            0 <= ti < old(self).trades@.len() && (
                            #[trigger] old(self).trades@[ti]).id == trade_id && (old(self).trades@[ti].tx_submitted_at is None || old(self).trades@[ti].bsv_tx_hex is None),
                        TradeError::ResubmissionWindowExpired => exists|ti: int|
                            0 <= ti < old(self).trades@.len() && (
                            #[trigger] old(self).trades@[ti]).id == trade_id && (old(self).trades@[ti].tx_submitted_at matches Some(t0) && now > t0
                                + RESUBMISSION_WINDOW_NS),
                        TradeError::BadTransaction => !is_hex_text(raw_tx_hex@) || parse_tx(
                            bytes_of_hex(raw_tx_hex@),
                        ) is None || exists|ti: int|
                            0 <= ti < old(self).trades@.len() && (
                            #[trigger] old(self).trades@[ti]).id == trade_id && (old(self).trades@[ti].bsv_tx_hex matches Some(stored) && !is_hex_text(
                                stored@,
                            )),
                        TradeError::TxAlreadyUsed { trade_id: other } => other != trade_id
                            && exists|u: int|
                            0 <= u < old(self).used_txids@.len() && (#[trigger] old(self).used_txids@[u]).txid@ == txid_of_bytes(bytes_of_hex(raw_tx_hex@))
                                && old(self).used_txids@[u].trade_id == other,
                        TradeError::OutputMismatch => exists|ti: int|
                            {
                                &&& 0 <= ti < old(self).trades@.len()
                                &&& (#[trigger] old(self).trades@[ti]).id == trade_id
                                &&& parse_tx(bytes_of_hex(raw_tx_hex@)) matches Some(m)
                                    && !outputs_pay_chunks(
                                    m.outputs,
                                    old(self).trades@[ti].locked_chunks@,
                                )
                            },
                        _ => false,
                    }
                },
            },
    {
        if caller.is_anonymous() {
            return Err(TradeError::Anonymous);
        }
        let ti = match find_trade_idx(&self.trades, trade_id) {
            Some(i) => i,
            None => {
                return Err(TradeError::TradeNotFound);
            },
        };
        if !self.trades[ti].filler.eq_principal(caller) {
            return Err(TradeError::NotFiller);
        }
        if !matches!(self.trades[ti].status, TradeStatus::TxSubmitted) {
            return Err(TradeError::WrongStatus);
        }
        let t0 = match self.trades[ti].tx_submitted_at {
            Some(t) => t,
            None => {
                return Err(TradeError::NoSubmission);
            },
        };
        if (now as u128) > (t0 as u128) + (RESUBMISSION_WINDOW_NS as u128) {
            return Err(TradeError::ResubmissionWindowExpired);
        }
        let old_txid = match &self.trades[ti].bsv_tx_hex {
            Some(stored) => match crate::spv::compute_txid(stored.as_str()) {
                Ok(t) => t,
                Err(_) => {
                    return Err(TradeError::BadTransaction);
                },
            },
            None => {
                return Err(TradeError::NoSubmission);
            },
        };
        let new_txid = match crate::spv::compute_txid(raw_tx_hex.as_str()) {
            Ok(t) => t,
            Err(_) => {
                return Err(TradeError::BadTransaction);
            },
        };
        match self.get_trade_using_tx(new_txid.as_str()) {
            Some(other) => {
                if other != trade_id {
                    return Err(TradeError::TxAlreadyUsed { trade_id: other });
                }
            },
            None => {},
        }
        let parsed = match parse_bsv_transaction(raw_tx_hex.as_str()) {
            Ok(p) => p,
            Err(_) => {
                return Err(TradeError::BadTransaction);
            },
        };
        match crate::bsv_tx::validate_transaction_outputs(&parsed, &self.trades[ti].locked_chunks) {
            Ok(_) => {},
            Err(_) => {
                return Err(TradeError::OutputMismatch);
            },
        }
        let ghost pre = *self;
        proof {
            assert(!txid_used_by_other(
                pre,
                txid_of_bytes(bytes_of_hex(raw_tx_hex@)),
                trade_id,
            )) by {
                if txid_used_by_other(pre, txid_of_bytes(bytes_of_hex(raw_tx_hex@)), trade_id) {
                    let a = choose|a: int|
                        0 <= a < pre.used_txids@.len() && (#[trigger] pre.used_txids@[a]).txid@
                            == txid_of_bytes(bytes_of_hex(raw_tx_hex@))
                            && pre.used_txids@[a].trade_id != trade_id;
                    let b = choose|b: int|
                        0 <= b < pre.used_txids@.len() && (#[trigger] pre.used_txids@[b]).txid@
                            == txid_of_bytes(bytes_of_hex(raw_tx_hex@))
                            && pre.used_txids@[b].trade_id == trade_id;
                    if a < b {
                        assert(pre.used_txids@[a].txid@ != pre.used_txids@[b].txid@);
                    } else if b < a {
                        assert(pre.used_txids@[b].txid@ != pre.used_txids@[a].txid@);
                    }
                    assert(false);
                }
            }
        }
        self.unmark_bsv_tx(old_txid.as_str());
        self.trades[ti].bsv_tx_hex = Some(raw_tx_hex);
        self.trades[ti].release_available_at = Some(now + USDC_RELEASE_WAIT_NS);
        let used_already = self.is_bsv_tx_used(new_txid.as_str());
        let ghost mid = *self;
        if !used_already {
            self.mark_bsv_tx_used(new_txid, trade_id);
        }
        proof {
            let tidx = ti as int;
            let new_id = txid_of_bytes(bytes_of_hex(raw_tx_hex@));
            let old_id = trade_txid(pre.trades@[tidx]);
            assert(self.trades@ =~= pre.trades@.update(tidx, self.trades@[tidx]));
            assert forall|a: int, b: int|
                0 <= a < b < self.used_txids@.len() implies (
            #[trigger] self.used_txids@[a]).txid@ != (#[trigger] self.used_txids@[b]).txid@ by {
                if b == mid.used_txids@.len() {
                    assert(self.used_txids@[a] == mid.used_txids@[a]);
                    assert(!mid.spec_txid_used(new_id));
                }
            }
            assert forall|t: int, k: int|
                0 <= t < self.trades@.len() && 0 <= k < self.trades@[t].locked_chunks@.len()
                    && self.trades@[t].status.holds_locks() implies exists|c: int|
                0 <= c < self.chunks@.len() && (#[trigger] self.chunks@[c]).id == (
                #[trigger] self.trades@[t].locked_chunks@[k]).chunk_id && self.chunks@[c].status
                    is Locked && self.chunks@[c].locked_by == Some(self.trades@[t].id) by {
                let c = choose|c: int|
                    0 <= c < pre.chunks@.len() && (#[trigger] pre.chunks@[c]).id
                        == pre.trades@[t].locked_chunks@[k].chunk_id && pre.chunks@[c].status
                        is Locked && pre.chunks@[c].locked_by == Some(pre.trades@[t].id);
                assert(self.chunks@[c] == pre.chunks@[c]);
            }
            assert forall|t: int|
                0 <= t < self.trades@.len() && (#[trigger] self.trades@[t]).bsv_tx_hex
                    is Some implies exists|u: int|
                0 <= u < self.used_txids@.len() && (#[trigger] self.used_txids@[u]).txid@
                    == trade_txid(self.trades@[t]) && self.used_txids@[u].trade_id
                    == self.trades@[t].id by {
                if t == tidx {
                    assert(self.trades@[tidx].bsv_tx_hex.unwrap()@ == raw_tx_hex@);
                    assert(trade_txid(self.trades@[t]) == new_id);
                    if used_already {
                        let u = choose|u: int|
                            0 <= u < mid.used_txids@.len() && (
                            #[trigger] mid.used_txids@[u]).txid@ == new_id;
                        assert(pre.used_txids@.contains(mid.used_txids@[u]));
                        let v = choose|v: int|
                            0 <= v < pre.used_txids@.len() && (#[trigger] pre.used_txids@[v])
                                == mid.used_txids@[u];
                        assert(pre.used_txids@[v].trade_id == trade_id);
                        assert(self.used_txids@[u] == mid.used_txids@[u]);
                        assert(self.used_txids@[u].txid@ == new_id
                            && self.used_txids@[u].trade_id == trade_id);
                    } else {
                        assert(self.used_txids@[self.used_txids@.len() - 1].txid@ == new_id);
                        assert(self.used_txids@[self.used_txids@.len() - 1].trade_id == trade_id);
                    }
                } else {
                    assert(pre.trades@[t] == self.trades@[t]);
                    let v = choose|v: int|
                        0 <= v < pre.used_txids@.len() && (#[trigger] pre.used_txids@[v]).txid@
                            == trade_txid(pre.trades@[t]) && pre.used_txids@[v].trade_id
                            == pre.trades@[t].id;
                    assert(pre.used_txids@[v].txid@ != old_id) by {
                        if pre.used_txids@[v].txid@ == old_id {
                            let w = choose|w: int|
                                0 <= w < pre.used_txids@.len() && (
                                #[trigger] pre.used_txids@[w]).txid@ == old_id
                                    && pre.used_txids@[w].trade_id == trade_id;
                            if v < w {
                                assert(pre.used_txids@[v].txid@ != pre.used_txids@[w].txid@);
                            } else if w < v {
                                assert(pre.used_txids@[w].txid@ != pre.used_txids@[v].txid@);
                            }
                            assert(pre.trades@[t].id == trade_id);
                            if t < tidx {
                                assert(pre.trades@[t].id < pre.trades@[tidx].id);
                            } else {
                                assert(pre.trades@[tidx].id < pre.trades@[t].id);
                            }
                            assert(false);
                        }
                    }
                    assert(mid.used_txids@.contains(pre.used_txids@[v]));
                    let u = choose|u: int|
                        0 <= u < mid.used_txids@.len() && (#[trigger] mid.used_txids@[u])
                            == pre.used_txids@[v];
                    assert(self.used_txids@[u] == mid.used_txids@[u]);
                }
            }
        }
        Ok(())
    }
}

/// The pending amount a filler already has locked across live trades.
pub open spec fn pending_trades_total(trades: Seq<Trade>, filler: Seq<u8>) -> int
    decreases trades.len(),
{
    if trades.len() == 0 {
        0
    } else {
        pending_trades_total(trades.drop_last(), filler) + (
        if trades.last().filler@ == filler && trades.last().status.is_pending() {
            trades.last().amount_e6 as int
        } else {
            0
        })
    }
}

/// `pending_trades_total` after appending one trade.
pub proof fn lemma_pending_push(trades: Seq<Trade>, t: Trade, filler: Seq<u8>)
    ensures
        pending_trades_total(trades.push(t), filler) == pending_trades_total(trades, filler) + (
        if t.filler@ == filler && t.status.is_pending() {
            t.amount_e6 as int
        } else {
            0
        }),
{
    assert(trades.push(t).drop_last() =~= trades);
    assert(trades.push(t).last() == t);
}

/// The guards of trade creation: an authenticated caller, a fresh nonzero
/// cached price at or above the requested floor, and enough security for
/// the requested lock.
pub open spec fn create_trades_accepted(
    e: Engine,
    caller: PrincipalId,
    requested_e6: u64,
    min_bsv_price_e6: u64,
    now: u64,
    security_balance_e6: u64,
) -> bool {
    &&& !caller.spec_is_anonymous()
    &&& e.cached_bsv_price_e6 > 0
    &&& now >= e.last_price_update
    &&& now - e.last_price_update < crate::config::PRICE_CACHE_DURATION_NS
    &&& min_bsv_price_e6 > 0
    &&& min_bsv_price_e6 <= e.cached_bsv_price_e6
    &&& requested_e6 > 0
    &&& security_balance_e6 >= requested_e6 * SECURITY_DEPOSIT_PERCENT / 100
    &&& pending_trades_total(e.trades@, caller@) + requested_e6 <= security_balance_e6
        * crate::config::MAX_LOCK_MULTIPLIER
}

/// Whether the price cache is fresh and nonzero: the precondition of any
/// trading decision.
pub open spec fn price_fresh(e: Engine, now: u64) -> bool {
    &&& e.cached_bsv_price_e6 > 0
    &&& now >= e.last_price_update
    &&& now - e.last_price_update < crate::config::PRICE_CACHE_DURATION_NS
}

/// Whether the order at index `oi` lists a chunk that a matching walk with
/// `remaining` still to fill would take: stored, available, owned by the
/// order, and no larger than the remainder.
pub open spec fn order_has_takeable_chunk(
    orders: Seq<Order>,
    chunks: Seq<Chunk>,
    oi: int,
    remaining: int,
) -> bool {
    exists|k: int, c: int|
        0 <= k < orders[oi].chunks@.len() && 0 <= c < chunks.len() && (#[trigger] chunks[c]).id
            == (#[trigger] orders[oi].chunks@[k]) && chunks[c].status is Available
            && chunks[c].order_id == orders[oi].id && chunks[c].amount_e6 <= remaining
}

/// Whether any eligible order (active or partially filled, with a cap at or
/// above the agreed price) lists a takeable chunk for the remainder.
pub open spec fn has_matching_chunk(
    orders: Seq<Order>,
    chunks: Seq<Chunk>,
    agreed: u64,
    remaining: int,
) -> bool {
    exists|oi: int|
        0 <= oi < orders.len() && ((#[trigger] orders[oi]).status is Active || orders[oi].status
            is PartiallyFilled) && orders[oi].max_bsv_price_e6 >= agreed
            && order_has_takeable_chunk(orders, chunks, oi, remaining)
}

/// What holds of every trade created in one matching round.
pub open spec fn new_trade_wf(
    t: Trade,
    caller: PrincipalId,
    agreed_price_e6: u64,
    min_bsv_price_e6: u64,
    now: u64,
) -> bool {
    &&& t.filler@ == caller@
    &&& t.status is ChunksLocked
    &&& t.agreed_bsv_price_e6 == agreed_price_e6
    &&& t.min_bsv_price_e6 == min_bsv_price_e6
    &&& t.created_at == now
    &&& t.lock_expires_at == now + TRADE_TIMEOUT_NS
    &&& t.bsv_tx_hex is None
    &&& t.tx_submitted_at is None
    &&& t.locked_chunks@.len() > 0
    &&& forall|k: int| 0 <= k < t.locked_chunks@.len() ==> (
    #[trigger] t.locked_chunks@[k]).sats_amount == t.locked_chunks@[k].amount_e6
        * crate::config::SATOSHIS_PER_BSV / (agreed_price_e6 as int)
    &&& forall|k: int| 0 <= k < t.locked_chunks@.len() ==> (
    #[trigger] t.locked_chunks@[k]).order_id == t.order_id
}

impl Engine {
    /// The pending amount a filler already has locked across live trades.
    pub fn pending_trades_total_e6(&self, filler: &PrincipalId) -> (r: u128)
        ensures
            r == pending_trades_total(self.trades@, filler@),
    {
        let mut total: u128 = 0;
        let mut i: usize = 0;
        while i < self.trades.len()
            invariant
                i <= self.trades@.len(),
                total == pending_trades_total(self.trades@.take(i as int), filler@),
                total <= i * 0x1_0000_0000_0000_0000,
            decreases self.trades@.len() - i,
        {
            let ghost pre = self.trades@.take(i as int);
            let t = &self.trades[i];
            if t.filler.eq_principal(filler) && (matches!(t.status, TradeStatus::ChunksLocked)
                || matches!(t.status, TradeStatus::TxSubmitted) || matches!(
                t.status,
                TradeStatus::ReadyForRelease,
            )) {
                total = total + t.amount_e6 as u128;
            }
            i = i + 1;
            proof {
                assert(self.trades@.take(i as int) =~= pre.push(self.trades@[i - 1]));
                lemma_pending_push(pre, self.trades@[i - 1], filler@);
            }
        }
        proof {
            assert(self.trades@.take(self.trades@.len() as int) =~= self.trades@);
        }
        total
    }

}



/// The engine invariant survives bumping an id counter: the stores are
/// untouched and every id stays below the larger counter.
pub proof fn lemma_counter_bump_preserves_inv(pre: Engine, post: Engine)
    requires
        pre.inv(),
        post.orders@ == pre.orders@,
        post.chunks@ == pre.chunks@,
        post.trades@ == pre.trades@,
        post.used_txids@ == pre.used_txids@,
        post.next_order_id >= pre.next_order_id,
        post.next_chunk_id >= pre.next_chunk_id,
        post.next_trade_id >= pre.next_trade_id,
    ensures
        post.inv(),
{
    assert forall|i: int| 0 <= i < post.orders@.len() implies (#[trigger] post.orders@[i]).id
        < post.next_order_id by {
        assert(post.orders@[i] == pre.orders@[i]);
    }
    assert forall|i: int| 0 <= i < post.chunks@.len() implies (#[trigger] post.chunks@[i]).id
        < post.next_chunk_id by {
        assert(post.chunks@[i] == pre.chunks@[i]);
    }
    assert forall|i: int| 0 <= i < post.trades@.len() implies (#[trigger] post.trades@[i]).id
        < post.next_trade_id by {
        assert(post.trades@[i] == pre.trades@[i]);
    }
    crate::engine::lemma_txids_carry(pre, post);
    lemma_locking_carry_local(pre, post);
    assert forall|i: int| 0 <= i < post.orders@.len() implies {
        let o = #[trigger] post.orders@[i];
        &&& o.total_filled_e6 == crate::engine::sum_status(
            post.chunks@,
            o.id,
            ChunkStatus::Filled,
        )
        &&& o.total_locked_e6 == crate::engine::sum_status(
            post.chunks@,
            o.id,
            ChunkStatus::Locked,
        )
        &&& o.total_idle_e6 == crate::engine::sum_status(post.chunks@, o.id, ChunkStatus::Idle)
        &&& o.total_refunded_e6 == crate::engine::sum_status(
            post.chunks@,
            o.id,
            ChunkStatus::Refunded,
        )
        &&& o.amount_e6 == crate::engine::sum_all(post.chunks@, o.id)
    } by {
        assert(post.orders@[i] == pre.orders@[i]);
    }
    assert forall|i: int| 0 <= i < post.chunks@.len() implies crate::engine::has_order_id(
        post.orders@,
        (#[trigger] post.chunks@[i]).order_id,
    ) by {
        assert(post.chunks@[i] == pre.chunks@[i]);
        let w = choose|w: int|
            0 <= w < pre.orders@.len() && (#[trigger] pre.orders@[w]).id
                == pre.chunks@[i].order_id;
        assert(post.orders@[w].id == post.chunks@[i].order_id);
    }
    assert forall|i: int| 0 <= i < post.chunks@.len() implies !((
    #[trigger] post.chunks@[i]).status is Refunding) && (post.chunks@[i]).amount_e6
        == crate::config::CHUNK_SIZE_E6 by {
        assert(post.chunks@[i] == pre.chunks@[i]);
    }
}

/// The locking discipline carried between states with equal trades and
/// chunks.
proof fn lemma_locking_carry_local(pre: Engine, post: Engine)
    requires
        pre.inv_locking(),
        post.trades@ == pre.trades@,
        post.chunks@ == pre.chunks@,
    ensures
        post.inv_locking(),
{
    crate::engine::lemma_locking_carry(pre, post);
}

impl Engine {
    /// Append one freshly grouped trade.  The group's chunks are already
    /// locked under the new id, which is above every stored trade's id.
    #[verifier::rlimit(100)]
    #[verifier::spinoff_prover]
    fn push_new_trade(
        &mut self,
        trade_id: u64,
        order_id: u64,
        group: Vec<LockedChunk>,
        group_amount: u64,
        caller: &PrincipalId,
        agreed: u64,
        min_bsv_price_e6: u64,
        now: u64,
    )
        requires
            old(self).inv(),
            now <= u64::MAX - TRADE_TIMEOUT_NS,
            group@.len() > 0,
            group_amount == crate::engine::sum_locked_chunks(group@),
            forall|g: int| 0 <= g < group@.len() ==> (#[trigger] group@[g]).order_id == order_id,
            forall|g: int| 0 <= g < group@.len() ==> (#[trigger] group@[g]).sats_amount
                == group@[g].amount_e6 * crate::config::SATOSHIS_PER_BSV / (agreed as int),
            forall|g: int| 0 <= g < group@.len() ==> exists|c: int|
                0 <= c < old(self).chunks@.len() && (#[trigger] old(self).chunks@[c]).id == (
                #[trigger] group@[g]).chunk_id && old(self).chunks@[c].status is Locked && old(self).chunks@[c].locked_by == Some(trade_id),
            forall|t: int| 0 <= t < old(self).trades@.len() ==> (
            #[trigger] old(self).trades@[t]).id < trade_id,
            trade_id < old(self).next_trade_id,
        ensures
            final(self).inv(),
            final(self).trades@ == old(self).trades@.push(final(self).trades@.last()),
            final(self).trades@.last() == (Trade {
                id: trade_id,
                order_id,
                filler: final(self).trades@.last().filler,
                amount_e6: group_amount,
                locked_chunks: final(self).trades@.last().locked_chunks,
                agreed_bsv_price_e6: agreed,
                min_bsv_price_e6,
                status: TradeStatus::ChunksLocked,
                bsv_tx_hex: None,
                created_at: now,
                tx_submitted_at: None,
                lock_expires_at: (now + TRADE_TIMEOUT_NS) as u64,
                release_available_at: None,
                claim_expires_at: None,
                withdrawal_initiated_at: None,
                withdrawal_confirmed_at: None,
            }),
            final(self).trades@.last().filler@ == caller@,
            final(self).trades@.last().locked_chunks@ == group@,
            new_trade_wf(final(self).trades@.last(), *caller, agreed, min_bsv_price_e6, now),
            final(self).chunks@ == old(self).chunks@,
            final(self).orders@ == old(self).orders@,
            final(self).used_txids@ == old(self).used_txids@,
            *final(self) == (Engine { trades: final(self).trades, ..*old(self) }),
    {
        let trade = Trade {
            id: trade_id,
            order_id,
            filler: caller.duplicate(),
            amount_e6: group_amount,
            locked_chunks: group,
            agreed_bsv_price_e6: agreed,
            min_bsv_price_e6,
            status: TradeStatus::ChunksLocked,
            bsv_tx_hex: None,
            created_at: now,
            tx_submitted_at: None,
            lock_expires_at: now + TRADE_TIMEOUT_NS,
            release_available_at: None,
            claim_expires_at: None,
            withdrawal_initiated_at: None,
            withdrawal_confirmed_at: None,
        };
        let ghost before_push = *self;
        self.trades.push(trade);
        proof {
            assert forall|t: int, k2: int|
                0 <= t < self.trades@.len() && 0 <= k2 < self.trades@[t].locked_chunks@.len()
                    && self.trades@[t].status.holds_locks() implies exists|c: int|
                0 <= c < self.chunks@.len() && (#[trigger] self.chunks@[c]).id == (
                #[trigger] self.trades@[t].locked_chunks@[k2]).chunk_id && self.chunks@[c].status
                    is Locked && self.chunks@[c].locked_by == Some(self.trades@[t].id) by {
                if t < before_push.trades@.len() {
                    assert(self.trades@[t] == before_push.trades@[t]);
                    let c = choose|c: int|
                        0 <= c < before_push.chunks@.len() && (
                        #[trigger] before_push.chunks@[c]).id
                            == before_push.trades@[t].locked_chunks@[k2].chunk_id
                            && before_push.chunks@[c].status is Locked
                            && before_push.chunks@[c].locked_by == Some(
                            before_push.trades@[t].id,
                        );
                    assert(self.chunks@[c] == before_push.chunks@[c]);
                } else {
                    assert(self.trades@[t].locked_chunks@ == group@);
                    assert(self.trades@[t].id == trade_id);
                    let c = choose|c: int|
                        0 <= c < old(self).chunks@.len() && (#[trigger] old(self).chunks@[c]).id == group@[k2].chunk_id && old(self).chunks@[c].status
                            is Locked && old(self).chunks@[c].locked_by == Some(trade_id);
                    assert(self.chunks@[c] == old(self).chunks@[c]);
                }
            }
            lemma_txids_carry_push(before_push, *self);
        }
    }
}

/// The used-transaction discipline survives pushing a trade that stores no
/// transaction.
proof fn lemma_txids_carry_push(pre: Engine, post: Engine)
    requires
        pre.inv_txids(),
        post.trades@ == pre.trades@.push(post.trades@.last()),
        post.trades@.last().bsv_tx_hex is None,
        post.used_txids@ == pre.used_txids@,
    ensures
        post.inv_txids(),
{
    assert forall|t: int|
        0 <= t < post.trades@.len() && (#[trigger] post.trades@[t]).bsv_tx_hex
            is Some implies exists|u: int|
        0 <= u < post.used_txids@.len() && (#[trigger] post.used_txids@[u]).txid@
            == crate::engine::trade_txid(post.trades@[t]) && post.used_txids@[u].trade_id
            == post.trades@[t].id by {
        assert(t < pre.trades@.len());
        assert(post.trades@[t] == pre.trades@[t]);
        let v = choose|v: int|
            0 <= v < pre.used_txids@.len() && (#[trigger] pre.used_txids@[v]).txid@
                == crate::engine::trade_txid(pre.trades@[t]) && pre.used_txids@[v].trade_id
                == pre.trades@[t].id;
        assert(post.used_txids@[v] == pre.used_txids@[v]);
    }
    assert forall|i: int, j: int|
        0 <= i < j < post.used_txids@.len() implies (#[trigger] post.used_txids@[i]).txid@ != (
        #[trigger] post.used_txids@[j]).txid@ by {
        assert(post.used_txids@[i] == pre.used_txids@[i]);
        assert(post.used_txids@[j] == pre.used_txids@[j]);
    }
}

impl Engine {
    /// Take the available chunks of one order that fit the remaining
    /// request, in stored order, locking each under the given trade id.
    /// Chunks larger than the remainder are skipped, never split.  Returns
    /// the locked-chunk list and its summed amount.
    #[verifier::loop_isolation(false)]
    #[verifier::rlimit(100)]
    #[verifier::spinoff_prover]
    fn take_from_order(
        &mut self,
        oi: usize,
        trade_id: u64,
        requested_e6: u64,
        total_filled: u64,
        agreed: u64,
    ) -> (r: (Vec<LockedChunk>, u64))
        requires
            old(self).inv(),
            oi < old(self).orders@.len(),
            total_filled <= requested_e6,
            agreed > 0,
        ensures
            final(self).inv(),
            final(self).trades@ == old(self).trades@,
            final(self).used_txids@ == old(self).used_txids@,
            final(self).orders@.len() == old(self).orders@.len(),
            forall|o2: int| 0 <= o2 < old(self).orders@.len()
                ==> crate::engine::order_same_except_totals(
                #[trigger] old(self).orders@[o2],
                final(self).orders@[o2],
            ),
            final(self).chunks@.len() == old(self).chunks@.len(),
            final(self).next_order_id == old(self).next_order_id,
            final(self).next_chunk_id == old(self).next_chunk_id,
            final(self).next_trade_id == old(self).next_trade_id,
            final(self).cached_bsv_price_e6 == old(self).cached_bsv_price_e6,
            final(self).last_price_update == old(self).last_price_update,
            final(self).new_orders_enabled == old(self).new_orders_enabled,
            final(self).admin_events@ == old(self).admin_events@,
            final(self).filler_accounts@ == old(self).filler_accounts@,
            r.1 == crate::engine::sum_locked_chunks(r.0@),
            total_filled + r.1 <= requested_e6,
            forall|g: int| 0 <= g < r.0@.len() ==> (#[trigger] r.0@[g]).order_id == old(self).orders@[oi as int].id,
            forall|g: int| 0 <= g < r.0@.len() ==> (#[trigger] r.0@[g]).sats_amount
                == r.0@[g].amount_e6 * crate::config::SATOSHIS_PER_BSV / (agreed as int),
            forall|g: int| 0 <= g < r.0@.len() ==> exists|c: int|
                0 <= c < final(self).chunks@.len() && (#[trigger] final(self).chunks@[c]).id == (
                #[trigger] r.0@[g]).chunk_id && final(self).chunks@[c].status is Locked && final(self).chunks@[c].locked_by == Some(trade_id),
            forall|ci: int|
                0 <= ci < old(self).chunks@.len() ==> (#[trigger] final(self).chunks@[ci])
                    == old(self).chunks@[ci] || (old(self).chunks@[ci].status is Available
                    && final(self).chunks@[ci] == (Chunk {
                    status: ChunkStatus::Locked,
                    locked_by: Some(trade_id),
                    ..old(self).chunks@[ci]
                })),
            r.0@.len() == 0 ==> final(self).chunks@ == old(self).chunks@ && final(self).orders@
                == old(self).orders@,
            r.0@.len() == 0 ==> !order_has_takeable_chunk(
                old(self).orders@,
                old(self).chunks@,
                oi as int,
                requested_e6 - total_filled,
            ),
            !order_has_takeable_chunk(
                final(self).orders@,
                final(self).chunks@,
                oi as int,
                requested_e6 - total_filled - r.1,
            ),
    {
        let order_id = self.orders[oi].id;
        let n_chunk_ids = self.orders[oi].chunks.len();
        let ghost chunk_list = self.orders@[oi as int].chunks@;
        let mut group: Vec<LockedChunk> = Vec::new();
        let mut group_amount: u64 = 0;
        let mut k: usize = 0;
        while k < n_chunk_ids && total_filled + group_amount < requested_e6
            invariant
                self.inv(),
                k <= n_chunk_ids,
                oi < self.orders@.len(),
                self.orders@[oi as int].chunks@ == chunk_list,
                n_chunk_ids == chunk_list.len(),
                total_filled + group_amount <= requested_e6,
                self.trades@ == old(self).trades@,
                self.used_txids@ == old(self).used_txids@,
                self.orders@.len() == old(self).orders@.len(),
                self.chunks@.len() == old(self).chunks@.len(),
                self.next_order_id == old(self).next_order_id,
                self.next_chunk_id == old(self).next_chunk_id,
                self.next_trade_id == old(self).next_trade_id,
                self.cached_bsv_price_e6 == old(self).cached_bsv_price_e6,
                self.last_price_update == old(self).last_price_update,
                self.new_orders_enabled == old(self).new_orders_enabled,
                self.admin_events@ == old(self).admin_events@,
                self.filler_accounts@ == old(self).filler_accounts@,
                forall|o2: int| 0 <= o2 < old(self).orders@.len()
                    ==> crate::engine::order_same_except_totals(
                    #[trigger] old(self).orders@[o2],
                    self.orders@[o2],
                ),
                group_amount == crate::engine::sum_locked_chunks(group@),
                forall|g: int| 0 <= g < group@.len() ==> (#[trigger] group@[g]).order_id
                    == order_id,
                forall|g: int| 0 <= g < group@.len() ==> (#[trigger] group@[g]).sats_amount
                    == group@[g].amount_e6 * crate::config::SATOSHIS_PER_BSV / (agreed as int),
                forall|g: int| 0 <= g < group@.len() ==> exists|c: int|
                    0 <= c < self.chunks@.len() && (#[trigger] self.chunks@[c]).id == (
                    #[trigger] group@[g]).chunk_id && self.chunks@[c].status is Locked
                        && self.chunks@[c].locked_by == Some(trade_id),
                forall|ci: int|
                    0 <= ci < old(self).chunks@.len() ==> (#[trigger] self.chunks@[ci]) == old(self).chunks@[ci] || (old(self).chunks@[ci].status is Available
                        && self.chunks@[ci] == (Chunk {
                        status: ChunkStatus::Locked,
                        locked_by: Some(trade_id),
                        ..old(self).chunks@[ci]
                    })),
                group@.len() == 0 ==> self.chunks@ == old(self).chunks@ && self.orders@ == old(self).orders@,
                forall|k2: int, c: int|
                    0 <= k2 < k && 0 <= c < self.chunks@.len() && (#[trigger] self.chunks@[c]).id
                        == (#[trigger] chunk_list[k2]) && self.chunks@[c].status is Available
                        && self.chunks@[c].order_id == order_id ==> !(self.chunks@[c].amount_e6
                        <= requested_e6 - total_filled - group_amount),
            decreases n_chunk_ids - k,
        {
            let cid = self.orders[oi].chunks[k];
            match crate::engine::find_chunk_idx(&self.chunks, cid) {
                Some(ci) => {
                    let remaining = requested_e6 - total_filled - group_amount;
                    proof {
                        assert forall|c: int|
                            0 <= c < self.chunks@.len() && (#[trigger] self.chunks@[c]).id
                                == cid implies c == ci as int by {
                            assert(self.chunks@[c].id == self.chunks@[ci as int].id);
                            if c < ci as int {
                                assert(self.chunks@[c].id < self.chunks@[ci as int].id);
                            }
                            if c > ci as int {
                                assert(self.chunks@[c].id > self.chunks@[ci as int].id);
                            }
                        }
                    }
                    if matches!(self.chunks[ci].status, ChunkStatus::Available)
                        && self.chunks[ci].amount_e6 <= remaining
                        && self.chunks[ci].order_id == order_id {
                        let amount = self.chunks[ci].amount_e6;
                        let address = self.chunks[ci].bsv_address.clone();
                        let sats: u64 = ((amount as u128) * (
                        crate::config::SATOSHIS_PER_BSV as u128) / (agreed as u128)) as u64;
                        proof {
                            assert(amount == crate::config::CHUNK_SIZE_E6);
                            assert((amount as u128) * (crate::config::SATOSHIS_PER_BSV as u128)
                                / (agreed as int) == amount * crate::config::SATOSHIS_PER_BSV / (
                            agreed as int)) by (nonlinear_arith)
                                requires
                                    agreed > 0,
                            ;
                            assert(amount * crate::config::SATOSHIS_PER_BSV / (agreed as int)
                                <= amount * crate::config::SATOSHIS_PER_BSV)
                                by (nonlinear_arith)
                                requires
                                    agreed > 0,
                            ;
                        }
                        let ghost before_lock = *self;
                        let fa = self.chunks[ci].filled_at;
                        self.set_chunk_state(ci, ChunkStatus::Locked, Some(trade_id), fa);
                        proof {
                            assert forall|t: int, k2: int|
                                0 <= t < self.trades@.len() && 0 <= k2
                                    < self.trades@[t].locked_chunks@.len()
                                    && self.trades@[t].status.holds_locks() implies exists|
                                c: int,
                            |
                                0 <= c < self.chunks@.len() && (#[trigger] self.chunks@[c]).id
                                    == (#[trigger] self.trades@[t].locked_chunks@[k2]).chunk_id
                                    && self.chunks@[c].status is Locked
                                    && self.chunks@[c].locked_by == Some(self.trades@[t].id) by {
                                let c = choose|c: int|
                                    0 <= c < before_lock.chunks@.len() && (
                                    #[trigger] before_lock.chunks@[c]).id
                                        == before_lock.trades@[t].locked_chunks@[k2].chunk_id
                                        && before_lock.chunks@[c].status is Locked
                                        && before_lock.chunks@[c].locked_by == Some(
                                        before_lock.trades@[t].id,
                                    );
                                assert(self.chunks@[c] == before_lock.chunks@[c]);
                            }
                            crate::engine::lemma_txids_carry(before_lock, *self);
                            assert forall|g: int|
                                0 <= g < group@.len() implies exists|c: int|
                                0 <= c < self.chunks@.len() && (#[trigger] self.chunks@[c]).id
                                    == (#[trigger] group@[g]).chunk_id && self.chunks@[c].status
                                    is Locked && self.chunks@[c].locked_by == Some(trade_id) by {
                                let c = choose|c: int|
                                    0 <= c < before_lock.chunks@.len() && (
                                    #[trigger] before_lock.chunks@[c]).id == group@[g].chunk_id
                                        && before_lock.chunks@[c].status is Locked
                                        && before_lock.chunks@[c].locked_by == Some(trade_id);
                                assert(self.chunks@[c] == before_lock.chunks@[c]);
                            }
                        }
                        let ghost pre_group = group@;
                        group.push(
                            LockedChunk {
                                chunk_id: cid,
                                order_id,
                                amount_e6: amount,
                                bsv_address: address,
                                sats_amount: sats,
                            },
                        );
                        group_amount = group_amount + amount;
                        proof {
                            crate::engine::lemma_sum_locked_push(pre_group, group@.last());
                            assert(self.chunks@[ci as int].id == cid);
                        }
                    }
                },
                None => {},
            }
            k = k + 1;
        }
        proof {
            assert forall|k2: int, c: int|
                0 <= k2 < chunk_list.len() && 0 <= c < self.chunks@.len() && (
            #[trigger] self.chunks@[c]).id == (#[trigger] chunk_list[k2])
                && self.chunks@[c].status is Available && self.chunks@[c].order_id
                == order_id implies !(self.chunks@[c].amount_e6 <= requested_e6 - total_filled
                - group_amount) by {
                if k2 >= k as int {
                    assert(total_filled + group_amount >= requested_e6);
                    assert(self.chunks@[c].amount_e6 == crate::config::CHUNK_SIZE_E6);
                }
            }
            assert(self.orders@[oi as int].id == order_id);
            assert(!order_has_takeable_chunk(
                self.orders@,
                self.chunks@,
                oi as int,
                requested_e6 - total_filled - group_amount,
            ));
            if group@.len() == 0 {
                assert(!order_has_takeable_chunk(
                    old(self).orders@,
                    old(self).chunks@,
                    oi as int,
                    requested_e6 - total_filled,
                ));
            }
        }
        (group, group_amount)
    }
}


/// The summed amounts of a run of trades.
pub open spec fn sum_trade_amounts(ts: Seq<Trade>) -> int
    decreases ts.len(),
{
    if ts.len() == 0 {
        0
    } else {
        sum_trade_amounts(ts.drop_last()) + ts.last().amount_e6 as int
    }
}

/// Summed trade amounts after appending one trade.
pub proof fn lemma_sum_trade_amounts_push(ts: Seq<Trade>, t: Trade)
    ensures
        sum_trade_amounts(ts.push(t)) == sum_trade_amounts(ts) + t.amount_e6,
{
    assert(ts.push(t).drop_last() =~= ts);
    assert(ts.push(t).last() == t);
}

/// One matching step keeps the walk's completeness: an earlier order's chunk
/// takeable after the step, at the smaller remainder, was takeable before
/// it, and the stepped order's own completeness is given.
proof fn lemma_matching_completeness_step(
    pre: Engine,
    post: Engine,
    oi: int,
    agreed: u64,
    requested: int,
    tf0: int,
    tf1: int,
)
    requires
        0 <= oi < pre.orders@.len(),
        post.orders@.len() == pre.orders@.len(),
        post.chunks@.len() == pre.chunks@.len(),
        tf0 <= tf1,
        forall|o2: int|
            0 <= o2 < pre.orders@.len() ==> crate::engine::order_same_except_totals(
                #[trigger] pre.orders@[o2],
                post.orders@[o2],
            ),
        forall|ci: int|
            0 <= ci < pre.chunks@.len() ==> (#[trigger] post.chunks@[ci]) == pre.chunks@[ci]
                || !(post.chunks@[ci].status is Available),
        forall|o2: int|
            0 <= o2 < oi && ((#[trigger] pre.orders@[o2]).status is Active
                || pre.orders@[o2].status is PartiallyFilled)
                && pre.orders@[o2].max_bsv_price_e6 >= agreed ==> !order_has_takeable_chunk(
                pre.orders@,
                pre.chunks@,
                o2,
                requested - tf0,
            ),
        !order_has_takeable_chunk(post.orders@, post.chunks@, oi, requested - tf1),
    ensures
        forall|o2: int|
            0 <= o2 < oi + 1 && ((#[trigger] post.orders@[o2]).status is Active
                || post.orders@[o2].status is PartiallyFilled)
                && post.orders@[o2].max_bsv_price_e6 >= agreed ==> !order_has_takeable_chunk(
                post.orders@,
                post.chunks@,
                o2,
                requested - tf1,
            ),
{
    assert forall|o2: int|
        0 <= o2 < oi + 1 && ((#[trigger] post.orders@[o2]).status is Active
            || post.orders@[o2].status is PartiallyFilled) && post.orders@[o2].max_bsv_price_e6
            >= agreed implies !order_has_takeable_chunk(
        post.orders@,
        post.chunks@,
        o2,
        requested - tf1,
    ) by {
        if o2 < oi && order_has_takeable_chunk(post.orders@, post.chunks@, o2, requested - tf1) {
            let (k2, c) = choose|k2: int, c: int|
                0 <= k2 < post.orders@[o2].chunks@.len() && 0 <= c < post.chunks@.len() && (
                #[trigger] post.chunks@[c]).id == (#[trigger] post.orders@[o2].chunks@[k2])
                    && post.chunks@[c].status is Available && post.chunks@[c].order_id
                    == post.orders@[o2].id && post.chunks@[c].amount_e6 <= requested - tf1;
            assert(post.chunks@[c] == pre.chunks@[c]);
            assert(crate::engine::order_same_except_totals(pre.orders@[o2], post.orders@[o2]));
            assert(pre.orders@[o2].chunks@ == post.orders@[o2].chunks@);
            assert(pre.orders@[o2].id == post.orders@[o2].id);
            assert(order_has_takeable_chunk(pre.orders@, pre.chunks@, o2, requested - tf0));
            assert(false);
        }
    }
}

impl Engine {
    /// How much a matching round could take right now, without taking it:
    /// the same walk as `create_trades`, with no state change.
    fn measure_matching_total(&self, requested_e6: u64, agreed: u64) -> (r: u64)
        requires
            self.inv(),
        ensures
            r <= requested_e6,
    {
        let mut total: u64 = 0;
        let n_orders = self.orders.len();
        let mut oi: usize = 0;
        while oi < n_orders
            invariant
                self.inv(),
                oi <= n_orders,
                n_orders == self.orders@.len(),
                total <= requested_e6,
            decreases n_orders - oi,
        {
            if total >= requested_e6 {
                break ;
            }
            let eligible = (matches!(self.orders[oi].status, OrderStatus::Active) || matches!(
                self.orders[oi].status,
                OrderStatus::PartiallyFilled,
            )) && self.orders[oi].max_bsv_price_e6 >= agreed;
            if eligible {
                let order_id = self.orders[oi].id;
                let n_chunk_ids = self.orders[oi].chunks.len();
                let mut k: usize = 0;
                while k < n_chunk_ids
                    invariant
                        self.inv(),
                        k <= n_chunk_ids,
                        oi < self.orders@.len(),
                        n_chunk_ids == self.orders@[oi as int].chunks@.len(),
                        total <= requested_e6,
                    decreases n_chunk_ids - k,
                {
                    if total >= requested_e6 {
                        break ;
                    }
                    let cid = self.orders[oi].chunks[k];
                    match crate::engine::find_chunk_idx(&self.chunks, cid) {
                        Some(ci) => {
                            let remaining = requested_e6 - total;
                            if matches!(self.chunks[ci].status, ChunkStatus::Available)
                                && self.chunks[ci].amount_e6 <= remaining
                                && self.chunks[ci].order_id == order_id {
                                total = total + self.chunks[ci].amount_e6;
                            }
                        },
                        None => {},
                    }
                    k = k + 1;
                }
            }
            oi = oi + 1;
        }
        total
    }

    /// Match a filler request against the book, first come first served:
    /// walk the stored orders in creation order, take available chunks that
    /// fit the remaining request, group each order's takes into one trade,
    /// and lock everything taken.  The agreed price is the engine's cached
    /// market price, never a caller-supplied value; a chunk larger than the
    /// remainder is skipped, never split.  With `allow_partial` false the
    /// request must be fillable in full, checked before any state changes.
    #[verifier::loop_isolation(false)]
    #[verifier::rlimit(100)]
    #[verifier::spinoff_prover]
    pub fn create_trades(
        &mut self,
        caller: &PrincipalId,
        requested_e6: u64,
        min_bsv_price_e6: u64,
        allow_partial: bool,
        security_balance_e6: u64,
        now: u64,
    ) -> (r: Result<Vec<u64>, TradeError>)
        requires
            old(self).inv(),
            now <= u64::MAX - TRADE_TIMEOUT_NS,
            old(self).next_trade_id <= u64::MAX - old(self).orders@.len(),
        ensures
            final(self).inv(),
            match r {
                Ok(ids) => {
                    &&& create_trades_accepted(
                        *old(self),
                        *caller,
                        requested_e6,
                        min_bsv_price_e6,
                        now,
                        security_balance_e6,
                    )
                    &&& final(self).trades@.len() > old(self).trades@.len()
                    &&& final(self).trades@.subrange(0, old(self).trades@.len() as int) == old(self).trades@
                    &&& forall|t: int|
                        old(self).trades@.len() <= t < final(self).trades@.len()
                            ==> new_trade_wf(
                            #[trigger] final(self).trades@[t],
                            *caller,
                            old(self).cached_bsv_price_e6,
                            min_bsv_price_e6,
                            now,
                        )
                    &&& ids@.len() == final(self).trades@.len() - old(self).trades@.len()
                    &&& forall|i: int|
                        0 <= i < ids@.len() ==> (#[trigger] ids@[i])
                            == final(self).trades@[old(self).trades@.len() + i].id
                    &&& sum_trade_amounts(
                        final(self).trades@.skip(old(self).trades@.len() as int),
                    ) <= requested_e6
                    &&& (!allow_partial ==> sum_trade_amounts(
                        final(self).trades@.skip(old(self).trades@.len() as int),
                    ) == requested_e6)
                    &&& (sum_trade_amounts(
                        final(self).trades@.skip(old(self).trades@.len() as int),
                    ) < requested_e6 ==> !has_matching_chunk(
                        final(self).orders@,
                        final(self).chunks@,
                        old(self).cached_bsv_price_e6,
                        requested_e6 - sum_trade_amounts(
                            final(self).trades@.skip(old(self).trades@.len() as int),
                        ),
                    ))
                    &&& final(self).orders@.len() == old(self).orders@.len()
                    &&& forall|ci: int|
                        0 <= ci < old(self).chunks@.len() ==> (
                        #[trigger] final(self).chunks@[ci]) == old(self).chunks@[ci] || (old(self).chunks@[ci].status is Available && final(self).chunks@[ci].status
                            is Locked)
                },
                Err(e) => {
                    &&& (e != TradeError::CannotFillCompletely ==> final(self).trades@ == old(self).trades@ && final(self).chunks@ == old(self).chunks@ && final(self).orders@
                        == old(self).orders@ && final(self).used_txids@ == old(self).used_txids@)
                    &&& final(self).used_txids@ == old(self).used_txids@
                    &&& match e {
                        TradeError::Anonymous => caller.spec_is_anonymous(),
                        TradeError::PriceStale => !caller.spec_is_anonymous() && !price_fresh(
                            *old(self),
                            now,
                        ),
                        TradeError::MinPriceAboveMarket => !caller.spec_is_anonymous()
                            && price_fresh(*old(self), now) && (min_bsv_price_e6 == 0
                            || min_bsv_price_e6 > old(self).cached_bsv_price_e6),
                        TradeError::NoMatchingChunks => {
                            &&& !caller.spec_is_anonymous()
                            &&& price_fresh(*old(self), now)
                            &&& 0 < min_bsv_price_e6 <= old(self).cached_bsv_price_e6
                            &&& (requested_e6 == 0 || !has_matching_chunk(
                                old(self).orders@,
                                old(self).chunks@,
                                old(self).cached_bsv_price_e6,
                                requested_e6 as int,
                            ))
                        },
                        TradeError::InsufficientSecurity => {
                            &&& !caller.spec_is_anonymous()
                            &&& price_fresh(*old(self), now)
                            &&& 0 < min_bsv_price_e6 <= old(self).cached_bsv_price_e6
                            &&& requested_e6 > 0
                            &&& security_balance_e6 < requested_e6 * SECURITY_DEPOSIT_PERCENT
                                / 100
                        },
                        TradeError::ExceedsLockCapacity => {
                            &&& !caller.spec_is_anonymous()
                            &&& price_fresh(*old(self), now)
                            &&& 0 < min_bsv_price_e6 <= old(self).cached_bsv_price_e6
                            &&& requested_e6 > 0
                            &&& security_balance_e6 >= requested_e6 * SECURITY_DEPOSIT_PERCENT
                                / 100
                            &&& pending_trades_total(old(self).trades@, caller@) + requested_e6
                                > security_balance_e6 * crate::config::MAX_LOCK_MULTIPLIER
                        },
                        TradeError::CannotFillCompletely => !allow_partial,
                        _ => false,
                    }
                },
            },
    {
        if caller.is_anonymous() {
            return Err(TradeError::Anonymous);
        }
        if self.cached_bsv_price_e6 == 0 || now < self.last_price_update || now
            - self.last_price_update >= crate::config::PRICE_CACHE_DURATION_NS {
            return Err(TradeError::PriceStale);
        }
        let agreed = self.cached_bsv_price_e6;
        if min_bsv_price_e6 == 0 || min_bsv_price_e6 > agreed {
            return Err(TradeError::MinPriceAboveMarket);
        }
        if requested_e6 == 0 {
            return Err(TradeError::NoMatchingChunks);
        }
        proof {
            assert((requested_e6 as u128) * (SECURITY_DEPOSIT_PERCENT as u128)
                <= 184467440737095516150u128) by (nonlinear_arith)
                requires
                    requested_e6 <= 18446744073709551615u64,
            ;
            assert((requested_e6 as u128) * (SECURITY_DEPOSIT_PERCENT as u128) / 100
                <= requested_e6) by (nonlinear_arith);
            assert((requested_e6 as u128) * (SECURITY_DEPOSIT_PERCENT as u128) / 100
                == requested_e6 * SECURITY_DEPOSIT_PERCENT / 100) by (nonlinear_arith);
        }
        let required_security: u64 = ((requested_e6 as u128) * (SECURITY_DEPOSIT_PERCENT as u128)
            / 100) as u64;
        if security_balance_e6 < required_security {
            return Err(TradeError::InsufficientSecurity);
        }
        let pending = self.pending_trades_total_e6(caller);
        proof {
            assert((security_balance_e6 as u128) * (crate::config::MAX_LOCK_MULTIPLIER as u128)
                <= 184467440737095516150u128) by (nonlinear_arith)
                requires
                    security_balance_e6 <= 18446744073709551615u64,
            ;
        }
        let max_allowed: u128 = (security_balance_e6 as u128) * (
        crate::config::MAX_LOCK_MULTIPLIER as u128);
        if requested_e6 as u128 > max_allowed || pending > max_allowed - requested_e6 as u128 {
            return Err(TradeError::ExceedsLockCapacity);
        }
        if !allow_partial {
            let obtainable = self.measure_matching_total(requested_e6, agreed);
            if obtainable < requested_e6 {
                return Err(TradeError::CannotFillCompletely);
            }
        }
        let mut created: Vec<u64> = Vec::new();
        let mut total_filled: u64 = 0;
        let n_orders = self.orders.len();
        let ghost pre = *old(self);
        let mut oi: usize = 0;
        while oi < n_orders && total_filled < requested_e6
            invariant
                self.inv(),
                oi <= n_orders,
                n_orders == self.orders@.len(),
                total_filled <= requested_e6,
                self.orders@.len() == pre.orders@.len(),
                self.trades@.len() >= pre.trades@.len(),
                self.trades@.subrange(0, pre.trades@.len() as int) == pre.trades@,
                self.chunks@.len() == pre.chunks@.len(),
                self.used_txids@ == pre.used_txids@,
                self.cached_bsv_price_e6 == pre.cached_bsv_price_e6,
                self.last_price_update == pre.last_price_update,
                self.new_orders_enabled == pre.new_orders_enabled,
                self.next_order_id == pre.next_order_id,
                self.next_chunk_id == pre.next_chunk_id,
                self.next_trade_id <= pre.next_trade_id + oi,
                agreed == pre.cached_bsv_price_e6,
                agreed > 0,
                forall|t: int|
                    pre.trades@.len() <= t < self.trades@.len() ==> new_trade_wf(
                        #[trigger] self.trades@[t],
                        *caller,
                        pre.cached_bsv_price_e6,
                        min_bsv_price_e6,
                        now,
                    ),
                created@.len() == self.trades@.len() - pre.trades@.len(),
                forall|i: int| 0 <= i < created@.len() ==> (#[trigger] created@[i])
                    == self.trades@[pre.trades@.len() + i].id,
                total_filled == sum_trade_amounts(self.trades@.skip(pre.trades@.len() as int)),
                forall|ci: int|
                    0 <= ci < pre.chunks@.len() ==> (#[trigger] self.chunks@[ci])
                        == pre.chunks@[ci] || (pre.chunks@[ci].status is Available
                        && self.chunks@[ci].status is Locked),
                created@.len() == 0 ==> self.trades@ == pre.trades@ && self.chunks@
                    == pre.chunks@ && self.orders@ == pre.orders@,
                forall|o2: int|
                    0 <= o2 < oi && ((#[trigger] self.orders@[o2]).status is Active
                        || self.orders@[o2].status is PartiallyFilled)
                        && self.orders@[o2].max_bsv_price_e6 >= agreed
                        ==> !order_has_takeable_chunk(
                        self.orders@,
                        self.chunks@,
                        o2,
                        requested_e6 - total_filled,
                    ),
            decreases n_orders - oi,
        {
            let eligible = (matches!(self.orders[oi].status, OrderStatus::Active) || matches!(
                self.orders[oi].status,
                OrderStatus::PartiallyFilled,
            )) && self.orders[oi].max_bsv_price_e6 >= agreed;
            if eligible {
                let ghost at_pre_alloc = *self;
                let ghost tf0 = total_filled;
                let trade_id = self.create_trade_id();
                proof {
                    lemma_counter_bump_preserves_inv(at_pre_alloc, *self);
                }
                let order_id = self.orders[oi].id;
                let (group, group_amount) = self.take_from_order(
                    oi,
                    trade_id,
                    requested_e6,
                    total_filled,
                    agreed,
                );
                if group.len() > 0 {
                    let ghost suffix_before = self.trades@.skip(pre.trades@.len() as int);
                    self.push_new_trade(
                        trade_id,
                        order_id,
                        group,
                        group_amount,
                        caller,
                        agreed,
                        min_bsv_price_e6,
                        now,
                    );
                    created.push(trade_id);
                    total_filled = total_filled + group_amount;
                    proof {
                        assert(self.trades@.subrange(0, pre.trades@.len() as int)
                            =~= pre.trades@);
                        assert(self.trades@.skip(pre.trades@.len() as int) =~= suffix_before.push(
                            self.trades@.last(),
                        ));
                        lemma_sum_trade_amounts_push(suffix_before, self.trades@.last());
                    }
                }
                proof {
                    // The walk's completeness carries over the take: what it
                    // left takeable in an earlier order would have been
                    // takeable before, against the invariant; the current
                    // order's own completeness is the take's postcondition.
                    assert forall|c2: int|
                        0 <= c2 < at_pre_alloc.chunks@.len() implies (
                    #[trigger] self.chunks@[c2]) == at_pre_alloc.chunks@[c2] || !(
                    self.chunks@[c2].status is Available) by {}
                    lemma_matching_completeness_step(
                        at_pre_alloc,
                        *self,
                        oi as int,
                        agreed,
                        requested_e6 as int,
                        tf0 as int,
                        total_filled as int,
                    );
                }
            }
            oi = oi + 1;
        }
        if created.len() == 0 {
            proof {
                assert(self.trades@.skip(pre.trades@.len() as int) =~= Seq::<Trade>::empty());
                assert(total_filled == 0);
                assert(!has_matching_chunk(
                    self.orders@,
                    self.chunks@,
                    agreed,
                    requested_e6 - total_filled,
                ));
                assert(self.orders@ == pre.orders@ && self.chunks@ == pre.chunks@);
            }
            return Err(TradeError::NoMatchingChunks);
        }
        if !allow_partial && total_filled < requested_e6 {
            return Err(TradeError::CannotFillCompletely);
        }
        proof {
            if total_filled < requested_e6 {
                assert(!has_matching_chunk(
                    self.orders@,
                    self.chunks@,
                    agreed,
                    requested_e6 - total_filled,
                ));
            }
        }
        Ok(created)
    }
}


impl Engine {
    /// Drop audit-log entries older than the retention cutoff.
    #[verifier::loop_isolation(false)]
    pub fn cleanup_old_admin_events(&mut self, cutoff: u64) -> (r: u64)
        requires
            old(self).inv(),
        ensures
            final(self).inv(),
            forall|i: int| 0 <= i < final(self).admin_events@.len() ==> (#[trigger] final(self).admin_events@[i]).timestamp >= cutoff,
            forall|i: int| 0 <= i < final(self).admin_events@.len() ==> old(self).admin_events@.contains(#[trigger] final(self).admin_events@[i]),
            forall|i: int|
                0 <= i < old(self).admin_events@.len() && (#[trigger] old(
                    self,
                ).admin_events@[i]).timestamp >= cutoff ==> final(self).admin_events@.contains(
                    old(self).admin_events@[i],
                ),
            final(self).trades@ == old(self).trades@,
            final(self).chunks@ == old(self).chunks@,
            final(self).orders@ == old(self).orders@,
            final(self).used_txids@ == old(self).used_txids@,
            r == old(self).admin_events@.len() - final(self).admin_events@.len(),
    {
        let mut removed: u64 = 0;
        let total0 = self.admin_events.len();
        let mut i: usize = 0;
        while i < self.admin_events.len()
            invariant
                self.inv(),
                i <= self.admin_events@.len(),
                old(self).admin_events@.len() == total0,
                removed == old(self).admin_events@.len() - self.admin_events@.len(),
                forall|j: int| 0 <= j < i ==> (#[trigger] self.admin_events@[j]).timestamp
                    >= cutoff,
                forall|j: int| 0 <= j < self.admin_events@.len() ==> old(self).admin_events@.contains(#[trigger] self.admin_events@[j]),
                forall|i2: int|
                    0 <= i2 < old(self).admin_events@.len() && (#[trigger] old(
                        self,
                    ).admin_events@[i2]).timestamp >= cutoff ==> self.admin_events@.contains(
                        old(self).admin_events@[i2],
                    ),
                self.trades@ == old(self).trades@,
                self.chunks@ == old(self).chunks@,
                self.orders@ == old(self).orders@,
                self.used_txids@ == old(self).used_txids@,
                self.next_order_id == old(self).next_order_id,
                self.next_chunk_id == old(self).next_chunk_id,
                self.next_trade_id == old(self).next_trade_id,
            decreases self.admin_events@.len() - i,
        {
            if self.admin_events[i].timestamp < cutoff {
                let ghost pre_ev = self.admin_events@;
                let ghost pre_self = *self;
                self.admin_events.remove(i);
                removed = removed + 1;
                proof {
                    lemma_counter_bump_preserves_inv(pre_self, *self);
                    assert forall|j: int|
                        0 <= j < self.admin_events@.len() implies old(self).admin_events@.contains(#[trigger] self.admin_events@[j]) by {
                        if j < i {
                            assert(self.admin_events@[j] == pre_ev[j]);
                        } else {
                            assert(self.admin_events@[j] == pre_ev[j + 1]);
                        }
                    }
                    assert forall|j: int|
                        0 <= j < i implies (#[trigger] self.admin_events@[j]).timestamp
                        >= cutoff by {
                        assert(self.admin_events@[j] == pre_ev[j]);
                    }
                    assert forall|i2: int|
                        0 <= i2 < old(self).admin_events@.len() && (#[trigger] old(
                            self,
                        ).admin_events@[i2]).timestamp >= cutoff implies self.admin_events@.contains(
                        old(self).admin_events@[i2],
                    ) by {
                        let j = choose|j: int|
                            0 <= j < pre_ev.len() && pre_ev[j] == old(self).admin_events@[i2];
                        assert(pre_ev[j].timestamp >= cutoff);
                        assert(j != i as int);
                        if j < i as int {
                            assert(self.admin_events@[j] == pre_ev[j]);
                        } else {
                            assert(self.admin_events@[j - 1] == pre_ev[j]);
                        }
                    }
                }
            } else {
                i = i + 1;
            }
        }
        removed
    }

    /// Drop finished trades older than the retention cutoff; live trades
    /// are never touched.  The used-transaction index keeps its entries, so
    /// an old transaction can never be replayed into a new trade.
    #[verifier::loop_isolation(false)]
    #[verifier::rlimit(100)]
    #[verifier::spinoff_prover]
    pub fn cleanup_old_trades(&mut self, cutoff: u64) -> (r: u64)
        requires
            old(self).inv(),
        ensures
            final(self).inv(),
            forall|t: int|
                0 <= t < final(self).trades@.len() ==> old(self).trades@.contains(
                    #[trigger] final(self).trades@[t],
                ),
            forall|t: int|
                0 <= t < final(self).trades@.len() ==> !((#[trigger] final(self).trades@[t]).status.is_final() && final(self).trades@[t].created_at < cutoff),
            forall|t: int|
                0 <= t < old(self).trades@.len() && !((#[trigger] old(
                    self,
                ).trades@[t]).status.is_final() && old(self).trades@[t].created_at < cutoff)
                    ==> final(self).trades@.contains(old(self).trades@[t]),
            final(self).chunks@ == old(self).chunks@,
            final(self).orders@ == old(self).orders@,
            final(self).used_txids@ == old(self).used_txids@,
            r == old(self).trades@.len() - final(self).trades@.len(),
    {
        let mut removed: u64 = 0;
        let total0 = self.trades.len();
        let mut i: usize = 0;
        while i < self.trades.len()
            invariant
                self.inv(),
                i <= self.trades@.len(),
                old(self).trades@.len() == total0,
                removed == old(self).trades@.len() - self.trades@.len(),
                forall|t: int| 0 <= t < i ==> !((#[trigger] self.trades@[t]).status.is_final()
                    && self.trades@[t].created_at < cutoff),
                forall|t: int| 0 <= t < self.trades@.len() ==> old(self).trades@.contains(
                    #[trigger] self.trades@[t],
                ),
                forall|t: int|
                    0 <= t < old(self).trades@.len() && !((#[trigger] old(
                        self,
                    ).trades@[t]).status.is_final() && old(self).trades@[t].created_at < cutoff)
                        ==> self.trades@.contains(old(self).trades@[t]),
                self.chunks@ == old(self).chunks@,
                self.orders@ == old(self).orders@,
                self.used_txids@ == old(self).used_txids@,
                self.next_order_id == old(self).next_order_id,
                self.next_chunk_id == old(self).next_chunk_id,
                self.next_trade_id == old(self).next_trade_id,
            decreases self.trades@.len() - i,
        {
            let drop_it = (matches!(self.trades[i].status, TradeStatus::WithdrawalConfirmed)
                || matches!(self.trades[i].status, TradeStatus::Cancelled) || matches!(
                self.trades[i].status,
                TradeStatus::PenaltyApplied,
            )) && self.trades[i].created_at < cutoff;
            if drop_it {
                let ghost pre = *self;
                self.trades.remove(i);
                removed = removed + 1;
                proof {
                    let ridx = i as int;
                    assert forall|t: int|
                        0 <= t < self.trades@.len() implies #[trigger] self.trades@[t] == (
                    if t < ridx {
                        pre.trades@[t]
                    } else {
                        pre.trades@[t + 1]
                    }) by {
                        if t < ridx {
                            assert(pre.trades@.remove(ridx)[t] == pre.trades@[t]);
                        } else {
                            assert(pre.trades@.remove(ridx)[t] == pre.trades@[t + 1]);
                        }
                    }
                    assert forall|a: int, b: int|
                        0 <= a < b < self.trades@.len() implies (
                    #[trigger] self.trades@[a]).id < (#[trigger] self.trades@[b]).id by {
                        let a2 = if a < ridx { a } else { a + 1 };
                        let b2 = if b < ridx { b } else { b + 1 };
                        assert(pre.trades@[a2].id < pre.trades@[b2].id);
                    }
                    assert forall|t: int|
                        0 <= t < self.trades@.len() implies (#[trigger] self.trades@[t]).id
                        < self.next_trade_id by {
                        let t2 = if t < ridx { t } else { t + 1 };
                        assert(pre.trades@[t2].id < pre.next_trade_id);
                    }
                    assert forall|t: int|
                        0 <= t < self.trades@.len() implies crate::engine::sum_locked_chunks(
                        (#[trigger] self.trades@[t]).locked_chunks@,
                    ) == self.trades@[t].amount_e6 by {
                        let t2 = if t < ridx { t } else { t + 1 };
                        assert(self.trades@[t] == pre.trades@[t2]);
                    }
                    assert forall|t: int, k: int|
                        0 <= t < self.trades@.len() && 0 <= k
                            < self.trades@[t].locked_chunks@.len()
                            && self.trades@[t].status.holds_locks() implies exists|c: int|
                        0 <= c < self.chunks@.len() && (#[trigger] self.chunks@[c]).id == (
                        #[trigger] self.trades@[t].locked_chunks@[k]).chunk_id
                            && self.chunks@[c].status is Locked && self.chunks@[c].locked_by
                            == Some(self.trades@[t].id) by {
                        let t2 = if t < ridx { t } else { t + 1 };
                        assert(self.trades@[t] == pre.trades@[t2]);
                        let c = choose|c: int|
                            0 <= c < pre.chunks@.len() && (#[trigger] pre.chunks@[c]).id
                                == pre.trades@[t2].locked_chunks@[k].chunk_id
                                && pre.chunks@[c].status is Locked && pre.chunks@[c].locked_by
                                == Some(pre.trades@[t2].id);
                        assert(self.chunks@[c] == pre.chunks@[c]);
                    }
                    assert forall|t: int|
                        0 <= t < self.trades@.len() && (#[trigger] self.trades@[t]).bsv_tx_hex
                            is Some implies exists|u: int|
                        0 <= u < self.used_txids@.len() && (#[trigger] self.used_txids@[u]).txid@
                            == trade_txid(self.trades@[t]) && self.used_txids@[u].trade_id
                            == self.trades@[t].id by {
                        let t2 = if t < ridx { t } else { t + 1 };
                        assert(self.trades@[t] == pre.trades@[t2]);
                        let u = choose|u: int|
                            0 <= u < pre.used_txids@.len() && (#[trigger] pre.used_txids@[u]).txid@
                                == trade_txid(pre.trades@[t2]) && pre.used_txids@[u].trade_id
                                == pre.trades@[t2].id;
                        assert(self.used_txids@[u] == pre.used_txids@[u]);
                    }
                    assert forall|t: int|
                        0 <= t < self.trades@.len() implies old(self).trades@.contains(
                        #[trigger] self.trades@[t],
                    ) by {
                        let t2 = if t < ridx { t } else { t + 1 };
                        assert(self.trades@[t] == pre.trades@[t2]);
                    }
                    assert forall|t: int|
                        0 <= t < i implies !((#[trigger] self.trades@[t]).status.is_final()
                        && self.trades@[t].created_at < cutoff) by {
                        assert(self.trades@[t] == pre.trades@[t]);
                    }
                    assert forall|t3: int|
                        0 <= t3 < old(self).trades@.len() && !((#[trigger] old(
                            self,
                        ).trades@[t3]).status.is_final() && old(self).trades@[t3].created_at
                            < cutoff) implies self.trades@.contains(old(self).trades@[t3]) by {
                        let j = choose|j: int|
                            0 <= j < pre.trades@.len() && pre.trades@[j] == old(
                                self,
                            ).trades@[t3];
                        assert(j != ridx);
                        if j < ridx {
                            assert(self.trades@[j] == pre.trades@[j]);
                        } else {
                            assert(self.trades@[j - 1] == pre.trades@[j]);
                        }
                    }
                }
            } else {
                i = i + 1;
            }
        }
        removed
    }
}

/// The chunk ids a trade holds.
pub fn trade_chunk_ids(t: &Trade) -> (r: Vec<u64>)
    ensures
        r@.len() == t.locked_chunks@.len(),
        forall|k: int| 0 <= k < r@.len() ==> r@[k] == (
        #[trigger] t.locked_chunks@[k]).chunk_id,
{
    let mut out: Vec<u64> = Vec::new();
    let mut k: usize = 0;
    while k < t.locked_chunks.len()
        invariant
            k <= t.locked_chunks@.len(),
            out@.len() == k,
            forall|j: int| 0 <= j < k ==> out@[j] == (#[trigger] t.locked_chunks@[j]).chunk_id,
        decreases t.locked_chunks@.len() - k,
    {
        out.push(t.locked_chunks[k].chunk_id);
        k = k + 1;
    }
    out
}

} // verus!
