//! Chunk transitions: locking into trades, unlocking on expiry, and marking
//! filled, each keeping the engine's accounting in step.

use vstd::prelude::*;
use crate::types::{Order, Chunk, ChunkStatus, OrderStatus, TradeStatus};
use crate::engine::{
    Engine, chunk_same_except_state, order_same_except_totals, find_order_idx, find_chunk_idx,
    has_order_id,
};

verus! {

/// Whether an id list holds an id.
pub open spec fn contains_id(ids: Seq<u64>, id: u64) -> bool {
    exists|k: int| 0 <= k < ids.len() && ids[k] == id
}

/// Why a chunk operation failed.
#[derive(Clone, Copy, Debug, PartialEq, Eq, Structural)]
pub enum ChunkOpError {
    ChunkNotAvailable { chunk_id: u64 },
}

/// An order with only its accounting totals or status changed.
pub open spec fn order_same_except_totals_or_status(a: Order, b: Order) -> bool {
    b == (Order {
        total_filled_e6: b.total_filled_e6,
        total_locked_e6: b.total_locked_e6,
        total_idle_e6: b.total_idle_e6,
        total_refunded_e6: b.total_refunded_e6,
        status: b.status,
        ..a
    })
}

/// A chunk with only its status and lock stamp changed.
pub open spec fn chunk_same_except_status_lock(a: Chunk, b: Chunk) -> bool {
    b == (Chunk { status: b.status, locked_by: b.locked_by, ..a })
}

/// No trade that still holds locks references any of the listed chunk ids.
pub open spec fn no_live_trade_references(e: Engine, ids: Seq<u64>) -> bool {
    forall|t: int, k: int|
        0 <= t < e.trades@.len() && e.trades@[t].status.holds_locks() && 0 <= k
            < e.trades@[t].locked_chunks@.len() ==> !contains_id(
            ids,
            (#[trigger] e.trades@[t].locked_chunks@[k]).chunk_id,
        )
}

impl Engine {
    /// Lock every listed chunk into a trade.  Fails on the first listed
    /// chunk that exists but is not available; chunks locked before the
    /// failure stay locked, as the states are re-examined by the periodic
    /// timers.
    #[verifier::loop_isolation(false)]
    pub fn lock_chunks_for_trade(&mut self, chunk_ids: &Vec<u64>, trade_id: u64) -> (r: Result<
        (),
        ChunkOpError,
    >)
        requires
            old(self).inv(),
        ensures
            final(self).inv_ids(),
            final(self).inv_accounting(),
            final(self).inv_txids(),
            final(self).chunks@.len() == old(self).chunks@.len(),
            final(self).trades@ == old(self).trades@,
            final(self).used_txids@ == old(self).used_txids@,
            final(self).admin_events@ == old(self).admin_events@,
            final(self).next_trade_id == old(self).next_trade_id,
            final(self).cached_bsv_price_e6 == old(self).cached_bsv_price_e6,
            final(self).new_orders_enabled == old(self).new_orders_enabled,
            final(self).orders@.len() == old(self).orders@.len(),
            forall|oi: int| 0 <= oi < old(self).orders@.len() ==> order_same_except_totals(
                #[trigger] old(self).orders@[oi],
                final(self).orders@[oi],
            ),
            forall|ci: int|
                0 <= ci < old(self).chunks@.len() ==> (#[trigger] final(self).chunks@[ci])
                    == old(self).chunks@[ci] || (old(self).chunks@[ci].status is Available
                    && final(self).chunks@[ci] == (Chunk {
                    status: ChunkStatus::Locked,
                    locked_by: Some(trade_id),
                    ..old(self).chunks@[ci]
                }) && contains_id(chunk_ids@, old(self).chunks@[ci].id)),
            r is Ok ==> forall|ci: int|
                0 <= ci < old(self).chunks@.len() && contains_id(
                    chunk_ids@,
                    (#[trigger] old(self).chunks@[ci]).id,
                ) ==> final(self).chunks@[ci] == (Chunk {
                    status: ChunkStatus::Locked,
                    locked_by: Some(trade_id),
                    ..old(self).chunks@[ci]
                }),
            old(self).inv_locking() && no_live_trade_references(*old(self), chunk_ids@)
                ==> final(self).inv_locking(),
            r is Err ==> exists|ci: int|
                0 <= ci < old(self).chunks@.len() && contains_id(
                    chunk_ids@,
                    (#[trigger] old(self).chunks@[ci]).id,
                ) && !(old(self).chunks@[ci].status is Available) && !(old(
                    self,
                ).chunks@[ci].status is Locked && old(self).chunks@[ci].locked_by == Some(
                    trade_id,
                )),
    {
        let ghost old_engine = *old(self);
        let mut k: usize = 0;
        while k < chunk_ids.len()
            invariant
                self.inv_ids(),
                self.inv_accounting(),
                self.chunks@.len() == old(self).chunks@.len(),
                self.trades@ == old(self).trades@,
                self.used_txids@ == old(self).used_txids@,
                self.admin_events@ == old(self).admin_events@,
                self.next_trade_id == old(self).next_trade_id,
                self.cached_bsv_price_e6 == old(self).cached_bsv_price_e6,
                self.new_orders_enabled == old(self).new_orders_enabled,
                self.orders@.len() == old(self).orders@.len(),
                self.next_order_id == old(self).next_order_id,
                self.next_chunk_id == old(self).next_chunk_id,
                k <= chunk_ids@.len(),
                forall|oi: int| 0 <= oi < old(self).orders@.len() ==> order_same_except_totals(
                    #[trigger] old(self).orders@[oi],
                    self.orders@[oi],
                ),
                forall|ci: int|
                    0 <= ci < old(self).chunks@.len() ==> (#[trigger] self.chunks@[ci]) == old(
                        self,
                    ).chunks@[ci] || (old(self).chunks@[ci].status is Available
                        && self.chunks@[ci] == (Chunk {
                        status: ChunkStatus::Locked,
                        locked_by: Some(trade_id),
                        ..old(self).chunks@[ci]
                    }) && contains_id(chunk_ids@, old(self).chunks@[ci].id)),
                forall|ci: int|
                    0 <= ci < old(self).chunks@.len() && (exists|j: int|
                        0 <= j < k && chunk_ids@[j] == (#[trigger] old(self).chunks@[ci]).id)
                        ==> self.chunks@[ci] == (Chunk {
                        status: ChunkStatus::Locked,
                        locked_by: Some(trade_id),
                        ..old(self).chunks@[ci]
                    }),
            decreases chunk_ids@.len() - k,
        {
            let cid = chunk_ids[k];
            match find_chunk_idx(&self.chunks, cid) {
                Some(ci) => {
                    if !matches!(self.chunks[ci].status, ChunkStatus::Available) {
                        proof {
                            if old(self).chunks@[ci as int].status is Available {
                                assert(self.chunks@[ci as int] == (Chunk {
                                    status: ChunkStatus::Locked,
                                    locked_by: Some(trade_id),
                                    ..old(self).chunks@[ci as int]
                                }));
                            }
                        }
                        if matches!(self.chunks[ci].status, ChunkStatus::Locked)
                            && matches!(self.chunks[ci].locked_by, Some(t) if t == trade_id) {
                            k = k + 1;
                            continue ;
                        }
                        proof {
                            assert(self.chunks@[ci as int] == old(self).chunks@[ci as int]);
                            assert(contains_id(chunk_ids@, old(self).chunks@[ci as int].id));
                        }
                        return Err(ChunkOpError::ChunkNotAvailable { chunk_id: cid });
                    }
                    let ghost pre = *self;
                    let fa = self.chunks[ci].filled_at;
                    self.set_chunk_state(ci, ChunkStatus::Locked, Some(trade_id), fa);
                    proof {
                        assert(old(self).chunks@[ci as int] == pre.chunks@[ci as int]);
                        assert(contains_id(chunk_ids@, old(self).chunks@[ci as int].id));
                        assert forall|c2: int|
                            0 <= c2 < old(self).chunks@.len() implies (
                        #[trigger] self.chunks@[c2]) == old(self).chunks@[c2] || (old(
                            self,
                        ).chunks@[c2].status is Available && self.chunks@[c2] == (Chunk {
                            status: ChunkStatus::Locked,
                            locked_by: Some(trade_id),
                            ..old(self).chunks@[c2]
                        }) && contains_id(chunk_ids@, old(self).chunks@[c2].id)) by {
                            if c2 != ci as int {
                                assert(self.chunks@[c2] == pre.chunks@[c2]);
                            }
                        }
                    }
                    k = k + 1;
                },
                None => {
                    k = k + 1;
                },
            }
        }
        proof {
            lock_preserves_locking(old_engine, *self, chunk_ids@, trade_id);
        }
        Ok(())
    }
}

/// The status an unlocked chunk returns to: available while the market is at
/// or under the order's cap, idle otherwise.
pub open spec fn unlock_status(price_e6: u64, max_bsv_price_e6: u64) -> ChunkStatus {
    if price_e6 > max_bsv_price_e6 {
        ChunkStatus::Idle
    } else {
        ChunkStatus::Available
    }
}

impl Engine {
    /// Return every listed chunk from a dead trade to the orderbook:
    /// available while the cached price respects the order's cap, idle
    /// otherwise.  The listed chunks must not be referenced by any trade
    /// that still holds locks.
    #[verifier::loop_isolation(false)]
    pub fn unlock_chunks(&mut self, chunk_ids: &Vec<u64>)
        requires
            old(self).inv(),
            no_live_trade_references(*old(self), chunk_ids@),
        ensures
            final(self).inv(),
            final(self).chunks@.len() == old(self).chunks@.len(),
            final(self).trades@ == old(self).trades@,
            final(self).used_txids@ == old(self).used_txids@,
            final(self).admin_events@ == old(self).admin_events@,
            final(self).filler_accounts@ == old(self).filler_accounts@,
            final(self).next_admin_event_id == old(self).next_admin_event_id,
            final(self).orders@.len() == old(self).orders@.len(),
            forall|oi: int| 0 <= oi < old(self).orders@.len() ==> order_same_except_totals(
                #[trigger] old(self).orders@[oi],
                final(self).orders@[oi],
            ),
            forall|ci: int|
                0 <= ci < old(self).chunks@.len() ==> (#[trigger] final(self).chunks@[ci])
                    == old(self).chunks@[ci] || (contains_id(
                    chunk_ids@,
                    old(self).chunks@[ci].id,
                ) && chunk_same_except_status_lock(
                    old(self).chunks@[ci],
                    final(self).chunks@[ci],
                )),
            forall|ci: int|
                0 <= ci < old(self).chunks@.len() && contains_id(
                    chunk_ids@,
                    (#[trigger] old(self).chunks@[ci]).id,
                ) ==> exists|oi: int|
                    0 <= oi < old(self).orders@.len() && (#[trigger] old(self).orders@[oi]).id
                        == old(self).chunks@[ci].order_id && final(self).chunks@[ci] == (Chunk {
                        status: unlock_status(
                            old(self).cached_bsv_price_e6,
                            old(self).orders@[oi].max_bsv_price_e6,
                        ),
                        locked_by: None,
                        ..old(self).chunks@[ci]
                    }),
    {
        let ghost old_engine = *old(self);
        let mut k: usize = 0;
        while k < chunk_ids.len()
            invariant
                self.inv_ids(),
                self.inv_accounting(),
                self.chunks@.len() == old(self).chunks@.len(),
                self.trades@ == old(self).trades@,
                self.used_txids@ == old(self).used_txids@,
                self.admin_events@ == old(self).admin_events@,
                self.filler_accounts@ == old(self).filler_accounts@,
                self.next_admin_event_id == old(self).next_admin_event_id,
                self.cached_bsv_price_e6 == old(self).cached_bsv_price_e6,
                self.new_orders_enabled == old(self).new_orders_enabled,
                self.orders@.len() == old(self).orders@.len(),
                self.next_order_id == old(self).next_order_id,
                self.next_chunk_id == old(self).next_chunk_id,
                self.next_trade_id == old(self).next_trade_id,
                k <= chunk_ids@.len(),
                forall|oi: int| 0 <= oi < old(self).orders@.len() ==> order_same_except_totals(
                    #[trigger] old(self).orders@[oi],
                    self.orders@[oi],
                ),
                forall|ci: int|
                    0 <= ci < old(self).chunks@.len() ==> (#[trigger] self.chunks@[ci]) == old(
                        self,
                    ).chunks@[ci] || (contains_id(chunk_ids@, old(self).chunks@[ci].id)
                        && chunk_same_except_status_lock(
                        old(self).chunks@[ci],
                        self.chunks@[ci],
                    )),
                forall|ci: int|
                    0 <= ci < old(self).chunks@.len() && (exists|j: int|
                        0 <= j < k && chunk_ids@[j] == (#[trigger] old(self).chunks@[ci]).id)
                        ==> exists|oi: int|
                        0 <= oi < old(self).orders@.len() && (#[trigger] old(
                            self,
                        ).orders@[oi]).id == old(self).chunks@[ci].order_id
                            && self.chunks@[ci] == (Chunk {
                            status: unlock_status(
                                old(self).cached_bsv_price_e6,
                                old(self).orders@[oi].max_bsv_price_e6,
                            ),
                            locked_by: None,
                            ..old(self).chunks@[ci]
                        }),
            decreases chunk_ids@.len() - k,
        {
            let cid = chunk_ids[k];
            match find_chunk_idx(&self.chunks, cid) {
                Some(ci) => {
                    let oid = self.chunks[ci].order_id;
                    let oi = match find_order_idx(&self.orders, oid) {
                        Some(i) => i,
                        None => {
                            proof {
                                assert(has_order_id(self.orders@, oid));
                                assert(false);
                            }
                            0
                        },
                    };
                    let new_status = if self.cached_bsv_price_e6
                        > self.orders[oi].max_bsv_price_e6 {
                        ChunkStatus::Idle
                    } else {
                        ChunkStatus::Available
                    };
                    let ghost pre = *self;
                    let fa = self.chunks[ci].filled_at;
                    self.set_chunk_state(ci, new_status, None, fa);
                    proof {
                        assert(old(self).orders@[oi as int].max_bsv_price_e6
                            == pre.orders@[oi as int].max_bsv_price_e6);
                        assert(old(self).chunks@[ci as int].order_id == oid);
                        assert(self.chunks@[ci as int] == (Chunk {
                            status: unlock_status(
                                old(self).cached_bsv_price_e6,
                                old(self).orders@[oi as int].max_bsv_price_e6,
                            ),
                            locked_by: None,
                            ..old(self).chunks@[ci as int]
                        }));
                        assert forall|c2: int|
                            0 <= c2 < old(self).chunks@.len() && (exists|j: int|
                                0 <= j < k + 1 && chunk_ids@[j] == (#[trigger] old(
                                    self,
                                ).chunks@[c2]).id) implies exists|oi2: int|
                            0 <= oi2 < old(self).orders@.len() && (#[trigger] old(
                                self,
                            ).orders@[oi2]).id == old(self).chunks@[c2].order_id
                                && self.chunks@[c2] == (Chunk {
                                status: unlock_status(
                                    old(self).cached_bsv_price_e6,
                                    old(self).orders@[oi2].max_bsv_price_e6,
                                ),
                                locked_by: None,
                                ..old(self).chunks@[c2]
                            }) by {
                            if c2 == ci as int {
                                assert(old(self).orders@[oi as int].id == old(
                                    self,
                                ).chunks@[c2].order_id);
                            } else {
                                assert(self.chunks@[c2] == pre.chunks@[c2]);
                            }
                        }
                    }
                    k = k + 1;
                },
                None => {
                    k = k + 1;
                },
            }
        }
        proof {
            unchanged_outside_ids_preserves_locking(old_engine, *self, chunk_ids@);
        }
    }
}

impl Engine {
    /// Mark every listed chunk filled, moving its amount from locked to
    /// filled on the owning order and recomputing the order's status.  The
    /// listed chunks must not be referenced by any trade that still holds
    /// locks.
    #[verifier::loop_isolation(false)]
    pub fn mark_chunks_filled(&mut self, chunk_ids: &Vec<u64>, now: u64)
        requires
            old(self).inv(),
            no_live_trade_references(*old(self), chunk_ids@),
        ensures
            final(self).inv(),
            final(self).chunks@.len() == old(self).chunks@.len(),
            final(self).trades@ == old(self).trades@,
            final(self).used_txids@ == old(self).used_txids@,
            final(self).admin_events@ == old(self).admin_events@,
            final(self).filler_accounts@ == old(self).filler_accounts@,
            final(self).next_admin_event_id == old(self).next_admin_event_id,
            final(self).orders@.len() == old(self).orders@.len(),
            forall|oi: int| 0 <= oi < old(self).orders@.len()
                ==> order_same_except_totals_or_status(
                #[trigger] old(self).orders@[oi],
                final(self).orders@[oi],
            ),
            forall|oi: int|
                0 <= oi < old(self).orders@.len() ==> (#[trigger] final(self).orders@[oi])
                    == old(self).orders@[oi] || (final(self).orders@[oi].total_filled_e6 > 0
                    && final(self).orders@[oi].status == (
                if final(self).orders@[oi].total_filled_e6 >= final(self).orders@[oi].amount_e6 {
                    OrderStatus::Filled
                } else {
                    OrderStatus::PartiallyFilled
                })),
            forall|ci: int|
                0 <= ci < old(self).chunks@.len() ==> (#[trigger] final(self).chunks@[ci])
                    == old(self).chunks@[ci] || contains_id(
                    chunk_ids@,
                    old(self).chunks@[ci].id,
                ),
            forall|ci: int|
                0 <= ci < old(self).chunks@.len() && contains_id(
                    chunk_ids@,
                    (#[trigger] old(self).chunks@[ci]).id,
                ) ==> final(self).chunks@[ci] == (Chunk {
                    status: ChunkStatus::Filled,
                    locked_by: None,
                    filled_at: Some(now),
                    ..old(self).chunks@[ci]
                }),
    {
        let ghost old_engine = *old(self);
        let mut k: usize = 0;
        while k < chunk_ids.len()
            invariant
                self.inv_ids(),
                self.inv_accounting(),
                self.chunks@.len() == old(self).chunks@.len(),
                self.trades@ == old(self).trades@,
                self.used_txids@ == old(self).used_txids@,
                self.admin_events@ == old(self).admin_events@,
                self.filler_accounts@ == old(self).filler_accounts@,
                self.next_admin_event_id == old(self).next_admin_event_id,
                self.cached_bsv_price_e6 == old(self).cached_bsv_price_e6,
                self.new_orders_enabled == old(self).new_orders_enabled,
                self.orders@.len() == old(self).orders@.len(),
                self.next_order_id == old(self).next_order_id,
                self.next_chunk_id == old(self).next_chunk_id,
                self.next_trade_id == old(self).next_trade_id,
                k <= chunk_ids@.len(),
                forall|oi: int| 0 <= oi < old(self).orders@.len()
                    ==> order_same_except_totals_or_status(
                    #[trigger] old(self).orders@[oi],
                    self.orders@[oi],
                ),
                forall|oi: int|
                    0 <= oi < old(self).orders@.len() ==> (#[trigger] self.orders@[oi]) == old(
                        self,
                    ).orders@[oi] || (self.orders@[oi].total_filled_e6 > 0
                        && self.orders@[oi].status == (
                    if self.orders@[oi].total_filled_e6 >= self.orders@[oi].amount_e6 {
                        OrderStatus::Filled
                    } else {
                        OrderStatus::PartiallyFilled
                    })),
                forall|ci: int|
                    0 <= ci < old(self).chunks@.len() ==> (#[trigger] self.chunks@[ci]) == old(
                        self,
                    ).chunks@[ci] || (contains_id(chunk_ids@, old(self).chunks@[ci].id)
                        && self.chunks@[ci] == (Chunk {
                        status: ChunkStatus::Filled,
                        locked_by: None,
                        filled_at: Some(now),
                        ..old(self).chunks@[ci]
                    })),
                forall|ci: int|
                    0 <= ci < old(self).chunks@.len() && (exists|j: int|
                        0 <= j < k && chunk_ids@[j] == (#[trigger] old(self).chunks@[ci]).id)
                        ==> self.chunks@[ci] == (Chunk {
                        status: ChunkStatus::Filled,
                        locked_by: None,
                        filled_at: Some(now),
                        ..old(self).chunks@[ci]
                    }),
            decreases chunk_ids@.len() - k,
        {
            let cid = chunk_ids[k];
            match find_chunk_idx(&self.chunks, cid) {
                Some(ci) => {
                    let oid = self.chunks[ci].order_id;
                    let oi = match find_order_idx(&self.orders, oid) {
                        Some(i) => i,
                        None => {
                            proof {
                                assert(has_order_id(self.orders@, oid));
                                assert(false);
                            }
                            0
                        },
                    };
                    let ghost pre = *self;
                    self.set_chunk_state(ci, ChunkStatus::Filled, None, Some(now));
                    proof {
                        assert(old(self).chunks@[ci as int] == pre.chunks@[ci as int] || (
                        pre.chunks@[ci as int] == (Chunk {
                            status: ChunkStatus::Filled,
                            locked_by: None,
                            filled_at: Some(now),
                            ..old(self).chunks@[ci as int]
                        })));
                        assert(self.chunks@[ci as int] == (Chunk {
                            status: ChunkStatus::Filled,
                            locked_by: None,
                            filled_at: Some(now),
                            ..old(self).chunks@[ci as int]
                        }));
                        assert forall|c2: int|
                            0 <= c2 < old(self).chunks@.len() && c2 != ci as int implies (
                        #[trigger] self.chunks@[c2]) == pre.chunks@[c2] by {}
                    }
                    let new_status: OrderStatus = if self.orders[oi].total_filled_e6
                        >= self.orders[oi].amount_e6 {
                        OrderStatus::Filled
                    } else if self.orders[oi].total_filled_e6 > 0 {
                        OrderStatus::PartiallyFilled
                    } else {
                        self.orders[oi].status
                    };
                    proof {
                        crate::engine::lemma_sum_status_elem(
                            self.chunks@,
                            oid,
                            ChunkStatus::Filled,
                            ci as int,
                        );
                        assert(self.orders@[oi as int].total_filled_e6 > 0);
                    }
                    let ghost pre2 = *self;
                    self.set_order_status(oi, new_status);
                    proof {
                        assert forall|o2: int|
                            0 <= o2 < old(self).orders@.len() implies
                            order_same_except_totals_or_status(
                            #[trigger] old(self).orders@[o2],
                            self.orders@[o2],
                        ) by {
                            if o2 != oi as int {
                                assert(self.orders@[o2] == pre2.orders@[o2]);
                            }
                        }
                        assert forall|o2: int|
                            0 <= o2 < old(self).orders@.len() implies (
                        #[trigger] self.orders@[o2]) == old(self).orders@[o2] || (
                        self.orders@[o2].total_filled_e6 > 0 && self.orders@[o2].status == (
                        if self.orders@[o2].total_filled_e6 >= self.orders@[o2].amount_e6 {
                            OrderStatus::Filled
                        } else {
                            OrderStatus::PartiallyFilled
                        })) by {
                            if o2 != oi as int {
                                assert(self.orders@[o2] == pre2.orders@[o2]);
                                assert(pre.orders@[oi as int].id == oid);
                                assert(pre.orders@[o2].id != oid);
                                assert(pre2.orders@[o2] == pre.orders@[o2]);
                            } else {
                                assert(self.orders@[o2].total_filled_e6
                                    == pre2.orders@[o2].total_filled_e6);
                                assert(self.orders@[o2].status == new_status);
                            }
                        }
                    }
                    k = k + 1;
                },
                None => {
                    k = k + 1;
                },
            }
        }
        proof {
            unchanged_outside_ids_preserves_locking(old_engine, *self, chunk_ids@);
        }
    }
}


impl Engine {
    /// Move every editable chunk of one order — available, idle, or both —
    /// to a new status, optionally retargeting its price cap.  Locked and
    /// terminal chunks are never touched, so captured prices stay frozen.
    #[verifier::loop_isolation(false)]
    #[verifier::rlimit(100)]
    #[verifier::spinoff_prover]
    pub fn retarget_chunks(
        &mut self,
        order_id: u64,
        from_available: bool,
        from_idle: bool,
        new_status: ChunkStatus,
        new_max: Option<u64>,
    )
        requires
            old(self).inv(),
            !(new_status is Refunding),
            !(new_status is Locked),
        ensures
            final(self).inv(),
            final(self).chunks@.len() == old(self).chunks@.len(),
            final(self).trades@ == old(self).trades@,
            final(self).used_txids@ == old(self).used_txids@,
            final(self).admin_events@ == old(self).admin_events@,
            final(self).filler_accounts@ == old(self).filler_accounts@,
            final(self).orders@.len() == old(self).orders@.len(),
            final(self).next_order_id == old(self).next_order_id,
            final(self).next_chunk_id == old(self).next_chunk_id,
            final(self).next_trade_id == old(self).next_trade_id,
            final(self).cached_bsv_price_e6 == old(self).cached_bsv_price_e6,
            final(self).last_price_update == old(self).last_price_update,
            final(self).new_orders_enabled == old(self).new_orders_enabled,
            forall|oi: int| 0 <= oi < old(self).orders@.len() ==> order_same_except_totals(
                #[trigger] old(self).orders@[oi],
                final(self).orders@[oi],
            ),
            forall|ci: int|
                0 <= ci < old(self).chunks@.len() ==> (#[trigger] final(self).chunks@[ci]) == (
                if retarget_applies(old(self).chunks@[ci], order_id, from_available, from_idle) {
                    Chunk {
                        status: new_status,
                        locked_by: None,
                        max_bsv_price_e6: (match new_max {
                            Some(m) => m,
                            None => old(self).chunks@[ci].max_bsv_price_e6,
                        }),
                        ..old(self).chunks@[ci]
                    }
                } else {
                    old(self).chunks@[ci]
                }),
    {
        let n = self.chunks.len();
        let mut ci: usize = 0;
        while ci < n
            invariant
                self.inv(),
                ci <= n,
                n == self.chunks@.len(),
                self.chunks@.len() == old(self).chunks@.len(),
                self.trades@ == old(self).trades@,
                self.used_txids@ == old(self).used_txids@,
                self.admin_events@ == old(self).admin_events@,
                self.filler_accounts@ == old(self).filler_accounts@,
                self.orders@.len() == old(self).orders@.len(),
                self.next_order_id == old(self).next_order_id,
                self.next_chunk_id == old(self).next_chunk_id,
                self.next_trade_id == old(self).next_trade_id,
                self.cached_bsv_price_e6 == old(self).cached_bsv_price_e6,
                self.last_price_update == old(self).last_price_update,
                self.new_orders_enabled == old(self).new_orders_enabled,
                forall|oi: int| 0 <= oi < old(self).orders@.len() ==> order_same_except_totals(
                    #[trigger] old(self).orders@[oi],
                    self.orders@[oi],
                ),
                forall|c2: int|
                    0 <= c2 < ci ==> (#[trigger] self.chunks@[c2]) == (
                    if retarget_applies(
                        old(self).chunks@[c2],
                        order_id,
                        from_available,
                        from_idle,
                    ) {
                        Chunk {
                            status: new_status,
                            locked_by: None,
                            max_bsv_price_e6: (match new_max {
                                Some(m) => m,
                                None => old(self).chunks@[c2].max_bsv_price_e6,
                            }),
                            ..old(self).chunks@[c2]
                        }
                    } else {
                        old(self).chunks@[c2]
                    }),
                forall|c2: int|
                    ci <= c2 < old(self).chunks@.len() ==> (#[trigger] self.chunks@[c2]) == old(
                        self,
                    ).chunks@[c2],
            decreases n - ci,
        {
            let applies = self.chunks[ci].order_id == order_id && ((from_available && matches!(
                self.chunks[ci].status,
                ChunkStatus::Available,
            )) || (from_idle && matches!(self.chunks[ci].status, ChunkStatus::Idle)));
            if applies {
                let ghost before = *self;
                match new_max {
                    Some(m) => {
                        self.set_chunk_max_price(ci, m);
                    },
                    None => {},
                }
                let ghost mid = *self;
                let fa = self.chunks[ci].filled_at;
                self.set_chunk_state(ci, new_status, None, fa);
                proof {
                    assert forall|t: int, k2: int|
                        0 <= t < self.trades@.len() && 0 <= k2
                            < self.trades@[t].locked_chunks@.len()
                            && self.trades@[t].status.holds_locks() implies exists|c: int|
                        0 <= c < self.chunks@.len() && (#[trigger] self.chunks@[c]).id == (
                        #[trigger] self.trades@[t].locked_chunks@[k2]).chunk_id
                            && self.chunks@[c].status is Locked && self.chunks@[c].locked_by
                            == Some(self.trades@[t].id) by {
                        let c = choose|c: int|
                            0 <= c < before.chunks@.len() && (#[trigger] before.chunks@[c]).id
                                == before.trades@[t].locked_chunks@[k2].chunk_id
                                && before.chunks@[c].status is Locked
                                && before.chunks@[c].locked_by == Some(before.trades@[t].id);
                        assert(c != ci as int);
                        assert(self.chunks@[c] == before.chunks@[c]);
                    }
                    crate::engine::lemma_txids_carry(before, *self);
                    assert(self.chunks@[ci as int] == (Chunk {
                        status: new_status,
                        locked_by: None,
                        max_bsv_price_e6: (match new_max {
                            Some(m) => m,
                            None => old(self).chunks@[ci as int].max_bsv_price_e6,
                        }),
                        ..old(self).chunks@[ci as int]
                    }));
                }
            }
            ci = ci + 1;
        }
    }
}

/// Whether the retargeting step applies to a chunk: it belongs to the order
/// and sits in one of the requested editable states.
pub open spec fn retarget_applies(
    c: Chunk,
    order_id: u64,
    from_available: bool,
    from_idle: bool,
) -> bool {
    c.order_id == order_id && ((from_available && c.status is Available) || (from_idle
        && c.status is Idle))
}

/// When the only chunks that change are ones no lock-holding trade
/// references, the locking invariant survives.
proof fn unchanged_outside_ids_preserves_locking(pre: Engine, post: Engine, ids: Seq<u64>)
    requires
        pre.inv_locking(),
        no_live_trade_references(pre, ids),
        post.trades@ == pre.trades@,
        post.chunks@.len() == pre.chunks@.len(),
        forall|ci: int|
            0 <= ci < pre.chunks@.len() ==> (#[trigger] post.chunks@[ci]) == pre.chunks@[ci]
                || contains_id(ids, pre.chunks@[ci].id),
    ensures
        post.inv_locking(),
{
    assert forall|t: int, k: int|
        0 <= t < post.trades@.len() && 0 <= k < post.trades@[t].locked_chunks@.len()
            && post.trades@[t].status.holds_locks() implies exists|c: int|
        0 <= c < post.chunks@.len() && (#[trigger] post.chunks@[c]).id == (
        #[trigger] post.trades@[t].locked_chunks@[k]).chunk_id && post.chunks@[c].status
            is Locked && post.chunks@[c].locked_by == Some(post.trades@[t].id) by {
        let c = choose|c: int|
            0 <= c < pre.chunks@.len() && (#[trigger] pre.chunks@[c]).id
                == pre.trades@[t].locked_chunks@[k].chunk_id && pre.chunks@[c].status is Locked
                && pre.chunks@[c].locked_by == Some(pre.trades@[t].id);
        assert(!contains_id(ids, pre.trades@[t].locked_chunks@[k].chunk_id));
        assert(post.chunks@[c] == pre.chunks@[c]);
    }
}

/// Locking available chunks into a fresh trade preserves the locking
/// invariant: live trades' witnesses were already locked and are untouched.
proof fn lock_preserves_locking(pre: Engine, post: Engine, ids: Seq<u64>, trade_id: u64)
    requires
        post.trades@ == pre.trades@,
        post.chunks@.len() == pre.chunks@.len(),
        forall|ci: int|
            0 <= ci < pre.chunks@.len() ==> (#[trigger] post.chunks@[ci]) == pre.chunks@[ci] || (
            pre.chunks@[ci].status is Available && post.chunks@[ci] == (Chunk {
                status: ChunkStatus::Locked,
                locked_by: Some(trade_id),
                ..pre.chunks@[ci]
            }) && contains_id(ids, pre.chunks@[ci].id)),
    ensures
        pre.inv_locking() && no_live_trade_references(pre, ids) ==> post.inv_locking(),
{
    if pre.inv_locking() && no_live_trade_references(pre, ids) {
        assert forall|t: int, k: int|
            0 <= t < post.trades@.len() && 0 <= k < post.trades@[t].locked_chunks@.len()
                && post.trades@[t].status.holds_locks() implies exists|c: int|
            0 <= c < post.chunks@.len() && (#[trigger] post.chunks@[c]).id == (
            #[trigger] post.trades@[t].locked_chunks@[k]).chunk_id && post.chunks@[c].status
                is Locked && post.chunks@[c].locked_by == Some(post.trades@[t].id) by {
            let c = choose|c: int|
                0 <= c < pre.chunks@.len() && (#[trigger] pre.chunks@[c]).id
                    == pre.trades@[t].locked_chunks@[k].chunk_id && pre.chunks@[c].status
                    is Locked && pre.chunks@[c].locked_by == Some(pre.trades@[t].id);
            assert(!contains_id(ids, pre.trades@[t].locked_chunks@[k].chunk_id));
            assert(post.chunks@[c] == pre.chunks@[c]);
        }
    }
}

} // verus!
