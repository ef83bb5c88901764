//! The orderbook engine's state: entity stores, counters, cached price and
//! flags, with the accounting invariant that ties order totals to chunk
//! statuses.

use vstd::prelude::*;
use crate::types::{
    Order, Chunk, Trade, FillerAccount, AdminEvent, AdminEventType, OrderStatus, ChunkStatus,
    TradeStatus, PrincipalId, LockedChunk,
};
use crate::hashing::{txid_of_bytes, bytes_of_hex, is_hex_text};

verus! {

/// The contribution of one chunk to a per-order, per-status sum.
pub open spec fn chunk_contrib(c: Chunk, oid: u64, st: ChunkStatus) -> int {
    if c.order_id == oid && c.status == st {
        c.amount_e6 as int
    } else {
        0
    }
}

/// The summed amount of an order's chunks in one status.
pub open spec fn sum_status(chunks: Seq<Chunk>, oid: u64, st: ChunkStatus) -> int
    decreases chunks.len(),
{
    if chunks.len() == 0 {
        0
    } else {
        sum_status(chunks.drop_last(), oid, st) + chunk_contrib(chunks.last(), oid, st)
    }
}

/// The summed amount of all of an order's chunks.
pub open spec fn sum_all(chunks: Seq<Chunk>, oid: u64) -> int
    decreases chunks.len(),
{
    if chunks.len() == 0 {
        0
    } else {
        sum_all(chunks.drop_last(), oid) + (
        if chunks.last().order_id == oid {
            chunks.last().amount_e6 as int
        } else {
            0
        })
    }
}

/// The summed amount of every chunk in status `Available`, over all orders:
/// the available orderbook.
pub open spec fn sum_available(chunks: Seq<Chunk>) -> int
    decreases chunks.len(),
{
    if chunks.len() == 0 {
        0
    } else {
        sum_available(chunks.drop_last()) + (
        if chunks.last().status is Available {
            chunks.last().amount_e6 as int
        } else {
            0
        })
    }
}

/// Sums are insensitive to updating one chunk, except for that chunk's
/// contribution.
pub proof fn lemma_sum_status_update(chunks: Seq<Chunk>, i: int, c: Chunk, oid: u64, st: ChunkStatus)
    requires
        0 <= i < chunks.len(),
    ensures
        sum_status(chunks.update(i, c), oid, st) == sum_status(chunks, oid, st) - chunk_contrib(
            chunks[i],
            oid,
            st,
        ) + chunk_contrib(c, oid, st),
    decreases chunks.len(),
{
    if i == chunks.len() - 1 {
        assert(chunks.update(i, c).drop_last() =~= chunks.drop_last());
        assert(chunks.update(i, c).last() == c);
    } else {
        assert(chunks.update(i, c).drop_last() =~= chunks.drop_last().update(i, c));
        assert(chunks.update(i, c).last() == chunks.last());
        lemma_sum_status_update(chunks.drop_last(), i, c, oid, st);
    }
}

/// `sum_all` is insensitive to updating one chunk in place when the chunk's
/// order and amount stay what they were.
pub proof fn lemma_sum_all_update(chunks: Seq<Chunk>, i: int, c: Chunk, oid: u64)
    requires
        0 <= i < chunks.len(),
        c.order_id == chunks[i].order_id,
        c.amount_e6 == chunks[i].amount_e6,
    ensures
        sum_all(chunks.update(i, c), oid) == sum_all(chunks, oid),
    decreases chunks.len(),
{
    if i == chunks.len() - 1 {
        assert(chunks.update(i, c).drop_last() =~= chunks.drop_last());
        assert(chunks.update(i, c).last() == c);
    } else {
        assert(chunks.update(i, c).drop_last() =~= chunks.drop_last().update(i, c));
        assert(chunks.update(i, c).last() == chunks.last());
        lemma_sum_all_update(chunks.drop_last(), i, c, oid);
    }
}

/// `sum_available` after updating one chunk.
pub proof fn lemma_sum_available_update(chunks: Seq<Chunk>, i: int, c: Chunk)
    requires
        0 <= i < chunks.len(),
    ensures
        sum_available(chunks.update(i, c)) == sum_available(chunks) - (
        if chunks[i].status is Available {
            chunks[i].amount_e6 as int
        } else {
            0
        }) + (
        if c.status is Available {
            c.amount_e6 as int
        } else {
            0
        }),
    decreases chunks.len(),
{
    if i == chunks.len() - 1 {
        assert(chunks.update(i, c).drop_last() =~= chunks.drop_last());
        assert(chunks.update(i, c).last() == c);
    } else {
        assert(chunks.update(i, c).drop_last() =~= chunks.drop_last().update(i, c));
        assert(chunks.update(i, c).last() == chunks.last());
        lemma_sum_available_update(chunks.drop_last(), i, c);
    }
}

/// Sums after appending one chunk.
pub proof fn lemma_sum_push(chunks: Seq<Chunk>, c: Chunk, oid: u64, st: ChunkStatus)
    ensures
        sum_status(chunks.push(c), oid, st) == sum_status(chunks, oid, st) + chunk_contrib(
            c,
            oid,
            st,
        ),
        sum_all(chunks.push(c), oid) == sum_all(chunks, oid) + (
        if c.order_id == oid {
            c.amount_e6 as int
        } else {
            0
        }),
        sum_available(chunks.push(c)) == sum_available(chunks) + (
        if c.status is Available {
            c.amount_e6 as int
        } else {
            0
        }),
{
    assert(chunks.push(c).drop_last() =~= chunks);
    assert(chunks.push(c).last() == c);
}

/// A used BSV transaction id and the trade that holds it.
#[derive(Clone, Debug)]
pub struct UsedTxid {
    pub txid: String,
    pub trade_id: u64,
}

/// The display transaction id denoted by a trade's stored transaction hex.
pub open spec fn trade_txid(t: Trade) -> Seq<char>
    recommends
        t.bsv_tx_hex is Some,
{
    txid_of_bytes(bytes_of_hex(t.bsv_tx_hex.unwrap()@))
}

/// Whether some stored order has the given id.
pub open spec fn has_order_id(orders: Seq<Order>, oid: u64) -> bool {
    exists|i: int| 0 <= i < orders.len() && (#[trigger] orders[i]).id == oid
}

/// An order with only its accounting totals changed.
pub open spec fn order_same_except_totals(a: Order, b: Order) -> bool {
    b == (Order {
        total_filled_e6: b.total_filled_e6,
        total_locked_e6: b.total_locked_e6,
        total_idle_e6: b.total_idle_e6,
        total_refunded_e6: b.total_refunded_e6,
        ..a
    })
}

/// A chunk with only its status, lock stamp and fill time changed.
pub open spec fn chunk_same_except_state(a: Chunk, b: Chunk) -> bool {
    b == (Chunk { status: b.status, locked_by: b.locked_by, filled_at: b.filled_at, ..a })
}

/// The whole engine state.
#[derive(Debug)]
pub struct Engine {
    pub orders: Vec<Order>,
    pub chunks: Vec<Chunk>,
    pub trades: Vec<Trade>,
    pub filler_accounts: Vec<FillerAccount>,
    pub used_txids: Vec<UsedTxid>,
    pub admin_events: Vec<AdminEvent>,
    pub next_order_id: u64,
    pub next_chunk_id: u64,
    pub next_trade_id: u64,
    pub next_refund_id: u64,
    pub next_admin_event_id: u64,
    pub cached_bsv_price_e6: u64,
    pub last_price_update: u64,
    pub new_orders_enabled: bool,
    pub treasury_address_arbitrum: Option<String>,
    pub treasury_address_optimism: Option<String>,
}

impl Engine {
    /// Identifier discipline: each store is strictly ordered by id, and all
    /// ids sit below their counter.
    pub open spec fn inv_ids(self) -> bool {
        &&& forall|i: int, j: int| 0 <= i < j < self.orders@.len() ==> (
        #[trigger] self.orders@[i]).id < (#[trigger] self.orders@[j]).id
        &&& forall|i: int, j: int| 0 <= i < j < self.chunks@.len() ==> (
        #[trigger] self.chunks@[i]).id < (#[trigger] self.chunks@[j]).id
        &&& forall|i: int, j: int| 0 <= i < j < self.trades@.len() ==> (
        #[trigger] self.trades@[i]).id < (#[trigger] self.trades@[j]).id
        &&& forall|i: int| 0 <= i < self.orders@.len() ==> (#[trigger] self.orders@[i]).id
            < self.next_order_id
        &&& forall|i: int| 0 <= i < self.chunks@.len() ==> (#[trigger] self.chunks@[i]).id
            < self.next_chunk_id
        &&& forall|i: int| 0 <= i < self.trades@.len() ==> (#[trigger] self.trades@[i]).id
            < self.next_trade_id
    }

    /// Accounting discipline: every order's totals equal the summed amounts
    /// of its chunks by status, its amount equals the sum of all its chunks,
    /// and no chunk sits in the unused `Refunding` state.
    pub open spec fn inv_accounting(self) -> bool {
        &&& forall|i: int| 0 <= i < self.orders@.len() ==> {
            let o = #[trigger] self.orders@[i];
            &&& o.total_filled_e6 == sum_status(self.chunks@, o.id, ChunkStatus::Filled)
            &&& o.total_locked_e6 == sum_status(self.chunks@, o.id, ChunkStatus::Locked)
            &&& o.total_idle_e6 == sum_status(self.chunks@, o.id, ChunkStatus::Idle)
            &&& o.total_refunded_e6 == sum_status(self.chunks@, o.id, ChunkStatus::Refunded)
            &&& o.amount_e6 == sum_all(self.chunks@, o.id)
        }
        &&& forall|i: int| 0 <= i < self.chunks@.len() ==> !((
        #[trigger] self.chunks@[i]).status is Refunding)
        &&& forall|i: int| 0 <= i < self.chunks@.len() ==> (#[trigger] self.chunks@[i]).amount_e6
            == crate::config::CHUNK_SIZE_E6
        &&& forall|i: int| 0 <= i < self.chunks@.len() ==> has_order_id(
            self.orders@,
            (#[trigger] self.chunks@[i]).order_id,
        )
    }

    /// Locking discipline: a trade that still holds locks owns amounts that
    /// sum to its amount, and each of its locked chunks is stored, locked,
    /// and stamped with the trade's id.
    pub open spec fn inv_locking(self) -> bool {
        &&& forall|t: int| 0 <= t < self.trades@.len() ==> sum_locked_chunks(
            (#[trigger] self.trades@[t]).locked_chunks@,
        ) == self.trades@[t].amount_e6
        &&& forall|t: int, k: int|
            0 <= t < self.trades@.len() && 0 <= k < self.trades@[t].locked_chunks@.len()
                && self.trades@[t].status.holds_locks() ==> exists|c: int|
                0 <= c < self.chunks@.len() && (#[trigger] self.chunks@[c]).id == (
                #[trigger] self.trades@[t].locked_chunks@[k]).chunk_id && self.chunks@[c].status
                    is Locked && self.chunks@[c].locked_by == Some(self.trades@[t].id)
    }

    /// Used-transaction discipline: keys are distinct, and every trade that
    /// stores a transaction is indexed under that transaction's id.
    pub open spec fn inv_txids(self) -> bool {
        &&& forall|i: int, j: int| 0 <= i < j < self.used_txids@.len() ==> (
        #[trigger] self.used_txids@[i]).txid@ != (#[trigger] self.used_txids@[j]).txid@
        &&& forall|t: int|
            0 <= t < self.trades@.len() && (#[trigger] self.trades@[t]).bsv_tx_hex is Some
                ==> exists|u: int|
                0 <= u < self.used_txids@.len() && (#[trigger] self.used_txids@[u]).txid@
                    == trade_txid(self.trades@[t]) && self.used_txids@[u].trade_id
                    == self.trades@[t].id
    }

    /// The engine invariant.
    pub open spec fn inv(self) -> bool {
        &&& self.inv_ids()
        &&& self.inv_accounting()
        &&& self.inv_locking()
        &&& self.inv_txids()
    }

    /// A fresh engine with empty stores.
    pub fn new() -> (r: Engine)
        ensures
            r.inv(),
            r.orders@.len() == 0,
            r.chunks@.len() == 0,
            r.trades@.len() == 0,
            r.new_orders_enabled,
    {
        Engine {
            orders: Vec::new(),
            chunks: Vec::new(),
            trades: Vec::new(),
            filler_accounts: Vec::new(),
            used_txids: Vec::new(),
            admin_events: Vec::new(),
            next_order_id: 0,
            next_chunk_id: 0,
            next_trade_id: 0,
            next_refund_id: 0,
            next_admin_event_id: 0,
            cached_bsv_price_e6: 0,
            last_price_update: 0,
            new_orders_enabled: true,
            treasury_address_arbitrum: None,
            treasury_address_optimism: None,
        }
    }
}

/// Per-order, per-status sums are bounded by the order's whole sum.
pub proof fn lemma_sum_bounds(chunks: Seq<Chunk>, oid: u64, st: ChunkStatus)
    ensures
        0 <= sum_status(chunks, oid, st) <= sum_all(chunks, oid),
    decreases chunks.len(),
{
    if chunks.len() > 0 {
        lemma_sum_bounds(chunks.drop_last(), oid, st);
    }
}

/// A chunk of an order in a status contributes its full amount to that sum.
pub proof fn lemma_sum_status_elem(chunks: Seq<Chunk>, oid: u64, st: ChunkStatus, ci: int)
    requires
        0 <= ci < chunks.len(),
        chunks[ci].order_id == oid,
        chunks[ci].status == st,
    ensures
        sum_status(chunks, oid, st) >= chunks[ci].amount_e6,
    decreases chunks.len(),
{
    lemma_sum_bounds(chunks.drop_last(), oid, st);
    if ci == chunks.len() - 1 {
    } else {
        lemma_sum_status_elem(chunks.drop_last(), oid, st, ci);
    }
}

/// Find the index of the order with an id.
pub fn find_order_idx(orders: &Vec<Order>, id: u64) -> (r: Option<usize>)
    ensures
        match r {
            Some(i) => (i as int) < orders@.len() && orders@[i as int].id == id,
            None => forall|i: int| 0 <= i < orders@.len() ==> (#[trigger] orders@[i]).id != id,
        },
{
    let mut i: usize = 0;
    while i < orders.len()
        invariant
            i <= orders@.len(),
            forall|j: int| 0 <= j < i ==> (#[trigger] orders@[j]).id != id,
        decreases orders@.len() - i,
    {
        if orders[i].id == id {
            return Some(i);
        }
        i = i + 1;
    }
    None
}

/// Find the index of the chunk with an id.
pub fn find_chunk_idx(chunks: &Vec<Chunk>, id: u64) -> (r: Option<usize>)
    ensures
        match r {
            Some(i) => (i as int) < chunks@.len() && chunks@[i as int].id == id,
            None => forall|i: int| 0 <= i < chunks@.len() ==> (#[trigger] chunks@[i]).id != id,
        },
{
    let mut i: usize = 0;
    while i < chunks.len()
        invariant
            i <= chunks@.len(),
            forall|j: int| 0 <= j < i ==> (#[trigger] chunks@[j]).id != id,
        decreases chunks@.len() - i,
    {
        if chunks[i].id == id {
            return Some(i);
        }
        i = i + 1;
    }
    None
}

/// Find the index of the trade with an id.
pub fn find_trade_idx(trades: &Vec<Trade>, id: u64) -> (r: Option<usize>)
    ensures
        match r {
            Some(i) => (i as int) < trades@.len() && trades@[i as int].id == id,
            None => forall|i: int| 0 <= i < trades@.len() ==> (#[trigger] trades@[i]).id != id,
        },
{
    let mut i: usize = 0;
    while i < trades.len()
        invariant
            i <= trades@.len(),
            forall|j: int| 0 <= j < i ==> (#[trigger] trades@[j]).id != id,
        decreases trades@.len() - i,
    {
        if trades[i].id == id {
            return Some(i);
        }
        i = i + 1;
    }
    None
}

impl Engine {
    /// Allocate the next order id.
    pub fn create_order_id(&mut self) -> (r: u64)
        requires
            old(self).next_order_id < u64::MAX,
        ensures
            r == old(self).next_order_id,
            *final(self) == (Engine { next_order_id: (old(self).next_order_id + 1) as u64, ..*old(self) }),
    {
        let id = self.next_order_id;
        self.next_order_id = self.next_order_id + 1;
        id
    }

    /// Allocate the next chunk id.
    pub fn create_chunk_id(&mut self) -> (r: u64)
        requires
            old(self).next_chunk_id < u64::MAX,
        ensures
            r == old(self).next_chunk_id,
            *final(self) == (Engine { next_chunk_id: (old(self).next_chunk_id + 1) as u64, ..*old(self) }),
    {
        let id = self.next_chunk_id;
        self.next_chunk_id = self.next_chunk_id + 1;
        id
    }

    /// Allocate the next trade id.
    pub fn create_trade_id(&mut self) -> (r: u64)
        requires
            old(self).next_trade_id < u64::MAX,
        ensures
            r == old(self).next_trade_id,
            *final(self) == (Engine { next_trade_id: (old(self).next_trade_id + 1) as u64, ..*old(self) }),
    {
        let id = self.next_trade_id;
        self.next_trade_id = self.next_trade_id + 1;
        id
    }

    /// Allocate the next refund id.
    pub fn create_refund_id(&mut self) -> (r: u64)
        requires
            old(self).next_refund_id < u64::MAX,
        ensures
            r == old(self).next_refund_id,
            *final(self) == (Engine { next_refund_id: (old(self).next_refund_id + 1) as u64, ..*old(self) }),
    {
        let id = self.next_refund_id;
        self.next_refund_id = self.next_refund_id + 1;
        id
    }

    /// Whether a transaction id is already held by some trade.
    pub open spec fn spec_txid_used(self, txid: Seq<char>) -> bool {
        exists|u: int| 0 <= u < self.used_txids@.len() && (#[trigger] self.used_txids@[u]).txid@
            == txid
    }

    /// The trade registered under a transaction id, if any.
    pub fn get_trade_using_tx(&self, txid: &str) -> (r: Option<u64>)
        ensures
            match r {
                Some(tid) => exists|u: int|
                    0 <= u < self.used_txids@.len() && (#[trigger] self.used_txids@[u]).txid@
                        == txid@ && self.used_txids@[u].trade_id == tid,
                None => !self.spec_txid_used(txid@),
            },
    {
        let mut i: usize = 0;
        while i < self.used_txids.len()
            invariant
                i <= self.used_txids@.len(),
                forall|j: int| 0 <= j < i ==> (#[trigger] self.used_txids@[j]).txid@ != txid@,
            decreases self.used_txids@.len() - i,
        {
            if crate::types::str_eq(self.used_txids[i].txid.as_str(), txid) {
                return Some(self.used_txids[i].trade_id);
            }
            i = i + 1;
        }
        None
    }

    /// Whether a transaction id is already held by some trade.
    pub fn is_bsv_tx_used(&self, txid: &str) -> (r: bool)
        ensures
            r == self.spec_txid_used(txid@),
    {
        match self.get_trade_using_tx(txid) {
            Some(_) => true,
            None => false,
        }
    }

    /// Register a transaction id as used by a trade.  The id must be fresh.
    pub fn mark_bsv_tx_used(&mut self, txid: String, trade_id: u64)
        requires
            !old(self).spec_txid_used(txid@),
        ensures
            final(self).used_txids@ == old(self).used_txids@.push(
                UsedTxid { txid, trade_id },
            ),
            *final(self) == (Engine { used_txids: final(self).used_txids, ..*old(self) }),
    {
        self.used_txids.push(UsedTxid { txid, trade_id });
    }

    /// Remove a transaction id from the index.  No trade may still store a
    /// transaction with that id.
    pub fn unmark_bsv_tx(&mut self, txid: &str)
        requires
            forall|i: int, j: int| 0 <= i < j < old(self).used_txids@.len() ==> (
            #[trigger] old(self).used_txids@[i]).txid@ != (
            #[trigger] old(self).used_txids@[j]).txid@,
        ensures
            forall|i: int, j: int| 0 <= i < j < final(self).used_txids@.len() ==> (
            #[trigger] final(self).used_txids@[i]).txid@ != (
            #[trigger] final(self).used_txids@[j]).txid@,
            forall|u: int| 0 <= u < final(self).used_txids@.len() ==> (
            #[trigger] final(self).used_txids@[u]).txid@ != txid@,
            forall|v: int|
                0 <= v < old(self).used_txids@.len() && (#[trigger] old(self).used_txids@[v]).txid@ != txid@ ==> final(self).used_txids@.contains(
                    old(self).used_txids@[v],
                ),
            forall|u: int| 0 <= u < final(self).used_txids@.len() ==> old(self).used_txids@.contains(#[trigger] final(self).used_txids@[u]),
            *final(self) == (Engine { used_txids: final(self).used_txids, ..*old(self) }),
    {
        let mut i: usize = 0;
        while i < self.used_txids.len()
            invariant
                i <= self.used_txids@.len(),
                *self == *old(self),
                forall|a: int, b: int| 0 <= a < b < old(self).used_txids@.len() ==> (
                #[trigger] old(self).used_txids@[a]).txid@ != (
                #[trigger] old(self).used_txids@[b]).txid@,
                forall|j: int| 0 <= j < i ==> (#[trigger] self.used_txids@[j]).txid@ != txid@,
            decreases self.used_txids@.len() - i,
        {
            if crate::types::str_eq(self.used_txids[i].txid.as_str(), txid) {
                let ghost ridx = i as int;
                proof {
                    assert(old(self).used_txids@ == self.used_txids@);
                    assert(old(self).used_txids@[ridx].txid@ == txid@);
                }
                self.used_txids.remove(i);
                proof {
                    assert(self.used_txids@ == old(self).used_txids@.remove(ridx));
                    assert forall|u: int| 0 <= u < self.used_txids@.len() implies (
                    #[trigger] self.used_txids@[u]) == (if u < ridx {
                        old(self).used_txids@[u]
                    } else {
                        old(self).used_txids@[u + 1]
                    }) by {
                        if u < ridx {
                            assert(old(self).used_txids@.remove(ridx)[u] == old(self).used_txids@[u]);
                        } else {
                            assert(old(self).used_txids@.remove(ridx)[u] == old(self).used_txids@[u + 1]);
                        }
                    }
                    assert forall|u: int|
                        0 <= u < self.used_txids@.len() implies (
                    #[trigger] self.used_txids@[u]).txid@ != txid@ by {
                        if u < ridx {
                            assert(self.used_txids@[u] == old(self).used_txids@[u]);
                        } else {
                            assert(self.used_txids@[u] == old(self).used_txids@[u + 1]);
                            assert(0 <= ridx < u + 1 < old(self).used_txids@.len());
                            assert(old(self).used_txids@[ridx].txid@ != old(self).used_txids@[u + 1].txid@);
                        }
                    }
                    assert forall|a: int, b: int|
                        0 <= a < b < self.used_txids@.len() implies (
                    #[trigger] self.used_txids@[a]).txid@ != (
                    #[trigger] self.used_txids@[b]).txid@ by {
                        let a2 = if a < ridx { a } else { a + 1 };
                        let b2 = if b < ridx { b } else { b + 1 };
                        assert(self.used_txids@[a] == old(self).used_txids@[a2]);
                        assert(self.used_txids@[b] == old(self).used_txids@[b2]);
                        assert(0 <= a2 < b2 < old(self).used_txids@.len());
                        assert(old(self).used_txids@[a2].txid@ != old(self).used_txids@[b2].txid@);
                    }
                    assert forall|u: int|
                        0 <= u < self.used_txids@.len() implies old(self).used_txids@.contains(
                        #[trigger] self.used_txids@[u],
                    ) by {
                        if u < ridx {
                            assert(old(self).used_txids@[u] == self.used_txids@[u]);
                        } else {
                            assert(old(self).used_txids@[u + 1] == self.used_txids@[u]);
                        }
                    }
                    assert forall|v: int|
                        0 <= v < old(self).used_txids@.len() && (#[trigger] old(self).used_txids@[v]).txid@ != txid@ implies self.used_txids@.contains(
                        old(self).used_txids@[v],
                    ) by {
                        assert(v != ridx);
                        if v < ridx {
                            assert(self.used_txids@[v] == old(self).used_txids@[v]);
                        } else {
                            assert(self.used_txids@[v - 1] == old(self).used_txids@[v]);
                        }
                    }
                }
                return ;
            }
            i = i + 1;
        }
        proof {
            assert forall|u: int|
                0 <= u < self.used_txids@.len() implies old(self).used_txids@.contains(
                #[trigger] self.used_txids@[u],
            ) by {
                assert(old(self).used_txids@[u] == self.used_txids@[u]);
            }
        }
    }

    /// The available orderbook, derived by summing every chunk now in
    /// status `Available`.
    pub fn get_available_orderbook(&self) -> (r: u128)
        requires
            self.inv(),
        ensures
            r == sum_available(self.chunks@),
    {
        let mut total: u128 = 0;
        let mut i: usize = 0;
        while i < self.chunks.len()
            invariant
                i <= self.chunks@.len(),
                total == sum_available(self.chunks@.take(i as int)),
                total <= i * 0x1_0000_0000_0000_0000,
            decreases self.chunks@.len() - i,
        {
            let ghost pre = self.chunks@.take(i as int);
            if matches!(self.chunks[i].status, ChunkStatus::Available) {
                total = total + self.chunks[i].amount_e6 as u128;
            }
            i = i + 1;
            proof {
                assert(self.chunks@.take(i as int) =~= pre.push(self.chunks@[i - 1]));
                lemma_sum_available_push(pre, self.chunks@[i - 1]);
            }
        }
        proof {
            assert(self.chunks@.take(self.chunks@.len() as int) =~= self.chunks@);
        }
        total
    }

    /// Whether new orders are being accepted.
    pub fn are_new_orders_enabled(&self) -> (r: bool)
        ensures
            r == self.new_orders_enabled,
    {
        self.new_orders_enabled
    }

    /// Switch acceptance of new orders.
    pub fn set_new_orders_enabled(&mut self, enabled: bool)
        ensures
            *final(self) == (Engine { new_orders_enabled: enabled, ..*old(self) }),
    {
        self.new_orders_enabled = enabled;
    }

    /// How many audit-log entries are stored.
    pub fn get_admin_events_count(&self) -> (r: u64)
        ensures
            r == self.admin_events@.len(),
    {
        self.admin_events.len() as u64
    }

    /// Append an audit-log entry, trimming the oldest entries over the cap,
    /// and return its id.  The new entry is stored with the given timestamp;
    /// only the oldest entries are trimmed, so the final log is a suffix of
    /// the old log with the new entry appended.
    pub fn create_admin_event(&mut self, event_type: AdminEventType, now: u64) -> (r: u64)
        requires
            old(self).next_admin_event_id < u64::MAX,
        ensures
            r == old(self).next_admin_event_id,
            final(self).next_admin_event_id == old(self).next_admin_event_id + 1,
            final(self).admin_events@.len() <= crate::config::MAX_ADMIN_EVENTS,
            final(self).admin_events@.len() >= 1,
            final(self).admin_events@.last() == (AdminEvent {
                id: r,
                timestamp: now,
                event_type,
            }),
            final(self).admin_events@ == old(self).admin_events@.push(
                AdminEvent { id: r, timestamp: now, event_type },
            ).skip(
                old(self).admin_events@.len() + 1 - final(self).admin_events@.len(),
            ),
            final(self).orders@ == old(self).orders@,
            final(self).chunks@ == old(self).chunks@,
            final(self).trades@ == old(self).trades@,
            final(self).used_txids@ == old(self).used_txids@,
            final(self).filler_accounts@ == old(self).filler_accounts@,
            final(self).next_order_id == old(self).next_order_id,
            final(self).next_chunk_id == old(self).next_chunk_id,
            final(self).next_trade_id == old(self).next_trade_id,
            final(self).cached_bsv_price_e6 == old(self).cached_bsv_price_e6,
            final(self).new_orders_enabled == old(self).new_orders_enabled,
    {
        let event_id = self.next_admin_event_id;
        self.next_admin_event_id = self.next_admin_event_id + 1;
        self.admin_events.push(AdminEvent { id: event_id, timestamp: now, event_type });
        let ghost pushed = self.admin_events@;
        proof {
            assert(self.admin_events@ =~= pushed.skip(0));
        }
        while self.admin_events.len() > crate::config::MAX_ADMIN_EVENTS as usize
            invariant
                self.orders@ == old(self).orders@,
                self.chunks@ == old(self).chunks@,
                self.trades@ == old(self).trades@,
                self.used_txids@ == old(self).used_txids@,
                self.filler_accounts@ == old(self).filler_accounts@,
                self.next_order_id == old(self).next_order_id,
                self.next_chunk_id == old(self).next_chunk_id,
                self.next_trade_id == old(self).next_trade_id,
                self.cached_bsv_price_e6 == old(self).cached_bsv_price_e6,
                self.new_orders_enabled == old(self).new_orders_enabled,
                self.next_admin_event_id == old(self).next_admin_event_id + 1,
                self.admin_events@.len() >= 1,
                self.admin_events@.len() <= pushed.len(),
                self.admin_events@ == pushed.skip(pushed.len() - self.admin_events@.len()),
            decreases self.admin_events@.len(),
        {
            let ghost before = self.admin_events@;
            let ghost d0 = pushed.len() - before.len();
            self.admin_events.remove(0);
            proof {
                let d = d0 + 1;
                assert(before == pushed.skip(d0 as int));
                assert forall|i: int|
                    0 <= i < self.admin_events@.len() implies #[trigger] self.admin_events@[i]
                    == pushed.skip(d as int)[i] by {
                    assert(self.admin_events@[i] == before.remove(0)[i]);
                    assert(before.remove(0)[i] == before[i + 1]);
                    assert(before[i + 1] == pushed.skip(d0 as int)[i + 1]);
                    assert(pushed.skip(d0 as int)[i + 1] == pushed[d0 + i + 1]);
                    assert(pushed.skip(d as int)[i] == pushed[d + i]);
                }
                assert(self.admin_events@ =~= pushed.skip(d as int));
            }
        }
        proof {
            let d = pushed.len() - self.admin_events@.len();
            assert(self.admin_events@.last() == pushed.skip(d as int)[self.admin_events@.len()
                - 1]);
            assert(pushed.skip(d as int)[self.admin_events@.len() - 1] == pushed[pushed.len()
                - 1]);
        }
        event_id
    }
}

impl Engine {
    /// Move one chunk to a new state, keeping the owning order's totals in
    /// step.  This is the single primitive through which every chunk
    /// transition goes; it preserves the id and accounting invariants.
    #[verifier::rlimit(100)]
    pub fn set_chunk_state(
        &mut self,
        ci: usize,
        new_status: ChunkStatus,
        new_locked_by: Option<u64>,
        new_filled_at: Option<u64>,
    )
        requires
            old(self).inv_ids(),
            old(self).inv_accounting(),
            ci < old(self).chunks@.len(),
            !(new_status is Refunding),
        ensures
            final(self).inv_ids(),
            final(self).inv_accounting(),
            final(self).chunks@.len() == old(self).chunks@.len(),
            final(self).chunks@ == old(self).chunks@.update(
                ci as int,
                final(self).chunks@[ci as int],
            ),
            chunk_same_except_state(old(self).chunks@[ci as int], final(self).chunks@[ci as int]),
            final(self).chunks@[ci as int].status == new_status,
            final(self).chunks@[ci as int].locked_by == new_locked_by,
            final(self).chunks@[ci as int].filled_at == new_filled_at,
            final(self).orders@.len() == old(self).orders@.len(),
            forall|oi: int| 0 <= oi < old(self).orders@.len() ==> order_same_except_totals(
                #[trigger] old(self).orders@[oi],
                final(self).orders@[oi],
            ),
            forall|oi: int|
                0 <= oi < old(self).orders@.len() && (#[trigger] old(self).orders@[oi]).id
                    != old(self).chunks@[ci as int].order_id ==> final(self).orders@[oi] == old(self).orders@[oi],
            final(self).trades@ == old(self).trades@,
            final(self).used_txids@ == old(self).used_txids@,
            final(self).admin_events@ == old(self).admin_events@,
            final(self).filler_accounts@ == old(self).filler_accounts@,
            final(self).next_order_id == old(self).next_order_id,
            final(self).next_chunk_id == old(self).next_chunk_id,
            final(self).next_trade_id == old(self).next_trade_id,
            final(self).cached_bsv_price_e6 == old(self).cached_bsv_price_e6,
            final(self).last_price_update == old(self).last_price_update,
            final(self).new_orders_enabled == old(self).new_orders_enabled,
            final(self).next_admin_event_id == old(self).next_admin_event_id,
            final(self).next_refund_id == old(self).next_refund_id,
            sum_available(final(self).chunks@) == sum_available(old(self).chunks@)
                - chunk_contrib(
                old(self).chunks@[ci as int],
                old(self).chunks@[ci as int].order_id,
                ChunkStatus::Available,
            ) + chunk_contrib(
                final(self).chunks@[ci as int],
                old(self).chunks@[ci as int].order_id,
                ChunkStatus::Available,
            ),
    {
        let oid = self.chunks[ci].order_id;
        let amt = self.chunks[ci].amount_e6;
        let old_status = self.chunks[ci].status;
        let ghost old_chunks = self.chunks@;
        let ghost old_chunk = self.chunks@[ci as int];
        self.chunks[ci].status = new_status;
        self.chunks[ci].locked_by = new_locked_by;
        self.chunks[ci].filled_at = new_filled_at;
        let ghost new_chunk = self.chunks@[ci as int];
        proof {
            assert(self.chunks@ =~= old_chunks.update(ci as int, new_chunk));
        }
        let oi = match find_order_idx(&self.orders, oid) {
            Some(i) => i,
            None => {
                proof {
                    assert(has_order_id(old(self).orders@, oid));
                    assert(false);
                }
                0
            },
        };
        proof {
            lemma_sum_status_update(old_chunks, ci as int, new_chunk, oid, ChunkStatus::Filled);
            lemma_sum_status_update(old_chunks, ci as int, new_chunk, oid, ChunkStatus::Locked);
            lemma_sum_status_update(old_chunks, ci as int, new_chunk, oid, ChunkStatus::Idle);
            lemma_sum_status_update(old_chunks, ci as int, new_chunk, oid, ChunkStatus::Refunded);
            lemma_sum_all_update(old_chunks, ci as int, new_chunk, oid);
            lemma_sum_bounds(self.chunks@, oid, ChunkStatus::Filled);
            lemma_sum_bounds(self.chunks@, oid, ChunkStatus::Locked);
            lemma_sum_bounds(self.chunks@, oid, ChunkStatus::Idle);
            lemma_sum_bounds(self.chunks@, oid, ChunkStatus::Refunded);
            if old_chunk.status is Filled {
                lemma_sum_status_elem(old_chunks, oid, ChunkStatus::Filled, ci as int);
            }
            if old_chunk.status is Locked {
                lemma_sum_status_elem(old_chunks, oid, ChunkStatus::Locked, ci as int);
            }
            if old_chunk.status is Idle {
                lemma_sum_status_elem(old_chunks, oid, ChunkStatus::Idle, ci as int);
            }
            if old_chunk.status is Refunded {
                lemma_sum_status_elem(old_chunks, oid, ChunkStatus::Refunded, ci as int);
            }
            lemma_sum_available_update(old_chunks, ci as int, new_chunk);
        }
        match old_status {
            ChunkStatus::Filled => {
                self.orders[oi].total_filled_e6 = self.orders[oi].total_filled_e6 - amt;
            },
            ChunkStatus::Locked => {
                self.orders[oi].total_locked_e6 = self.orders[oi].total_locked_e6 - amt;
            },
            ChunkStatus::Idle => {
                self.orders[oi].total_idle_e6 = self.orders[oi].total_idle_e6 - amt;
            },
            ChunkStatus::Refunded => {
                self.orders[oi].total_refunded_e6 = self.orders[oi].total_refunded_e6 - amt;
            },
            _ => {},
        }
        match new_status {
            ChunkStatus::Filled => {
                self.orders[oi].total_filled_e6 = self.orders[oi].total_filled_e6 + amt;
            },
            ChunkStatus::Locked => {
                self.orders[oi].total_locked_e6 = self.orders[oi].total_locked_e6 + amt;
            },
            ChunkStatus::Idle => {
                self.orders[oi].total_idle_e6 = self.orders[oi].total_idle_e6 + amt;
            },
            ChunkStatus::Refunded => {
                self.orders[oi].total_refunded_e6 = self.orders[oi].total_refunded_e6 + amt;
            },
            _ => {},
        }
        proof {
            let oidx = oi as int;
            assert(self.orders@.len() == old(self).orders@.len());
            assert forall|o2: int|
                0 <= o2 < old(self).orders@.len() implies order_same_except_totals(
                #[trigger] old(self).orders@[o2],
                self.orders@[o2],
            ) by {
                if o2 != oidx {
                    assert(self.orders@[o2] == old(self).orders@[o2]);
                }
            }
            assert forall|o2: int|
                0 <= o2 < old(self).orders@.len() && (#[trigger] old(self).orders@[o2]).id
                    != oid implies self.orders@[o2] == old(self).orders@[o2] by {
                assert(o2 != oidx);
            }
            assert forall|o2: int| 0 <= o2 < self.orders@.len() implies {
                let o = #[trigger] self.orders@[o2];
                &&& o.total_filled_e6 == sum_status(self.chunks@, o.id, ChunkStatus::Filled)
                &&& o.total_locked_e6 == sum_status(self.chunks@, o.id, ChunkStatus::Locked)
                &&& o.total_idle_e6 == sum_status(self.chunks@, o.id, ChunkStatus::Idle)
                &&& o.total_refunded_e6 == sum_status(self.chunks@, o.id, ChunkStatus::Refunded)
                &&& o.amount_e6 == sum_all(self.chunks@, o.id)
            } by {
                let o = self.orders@[o2];
                let o_old = old(self).orders@[o2];
                lemma_sum_status_update(old_chunks, ci as int, new_chunk, o.id, ChunkStatus::Filled);
                lemma_sum_status_update(old_chunks, ci as int, new_chunk, o.id, ChunkStatus::Locked);
                lemma_sum_status_update(old_chunks, ci as int, new_chunk, o.id, ChunkStatus::Idle);
                lemma_sum_status_update(
                    old_chunks,
                    ci as int,
                    new_chunk,
                    o.id,
                    ChunkStatus::Refunded,
                );
                lemma_sum_all_update(old_chunks, ci as int, new_chunk, o.id);
                if o2 != oidx {
                    assert(o == o_old);
                    assert(o.id != oid || old(self).orders@[oidx].id == oid);
                    if o.id == oid {
                        assert(old(self).orders@[oidx].id == oid);
                        assert(o2 != oidx && self.orders@[o2].id == self.orders@[oidx].id);
                        assert(false);
                    }
                }
            }
            assert forall|c2: int| 0 <= c2 < self.chunks@.len() implies has_order_id(
                self.orders@,
                (#[trigger] self.chunks@[c2]).order_id,
            ) by {
                let w = choose|w: int|
                    0 <= w < old(self).orders@.len() && (#[trigger] old(self).orders@[w]).id
                        == old_chunks[c2].order_id;
                assert(self.orders@[w].id == old_chunks[c2].order_id);
            }
        }
    }

    /// Retarget one chunk's price cap.  The chunk must not be locked, so no
    /// trade's captured price is disturbed.
    pub fn set_chunk_max_price(&mut self, ci: usize, price_e6: u64)
        requires
            old(self).inv(),
            ci < old(self).chunks@.len(),
            !(old(self).chunks@[ci as int].status is Locked),
        ensures
            final(self).inv(),
            final(self).chunks@ == old(self).chunks@.update(
                ci as int,
                final(self).chunks@[ci as int],
            ),
            final(self).chunks@[ci as int] == (Chunk {
                max_bsv_price_e6: price_e6,
                ..old(self).chunks@[ci as int]
            }),
            *final(self) == (Engine { chunks: final(self).chunks, ..*old(self) }),
    {
        self.chunks[ci].max_bsv_price_e6 = price_e6;
        proof {
            let cidx = ci as int;
            let new_chunk = self.chunks@[cidx];
            assert(self.chunks@ =~= old(self).chunks@.update(cidx, new_chunk));
            assert forall|o2: int| 0 <= o2 < self.orders@.len() implies {
                let o = #[trigger] self.orders@[o2];
                &&& o.total_filled_e6 == sum_status(self.chunks@, o.id, ChunkStatus::Filled)
                &&& o.total_locked_e6 == sum_status(self.chunks@, o.id, ChunkStatus::Locked)
                &&& o.total_idle_e6 == sum_status(self.chunks@, o.id, ChunkStatus::Idle)
                &&& o.total_refunded_e6 == sum_status(self.chunks@, o.id, ChunkStatus::Refunded)
                &&& o.amount_e6 == sum_all(self.chunks@, o.id)
            } by {
                let o = self.orders@[o2];
                lemma_sum_status_update(
                    old(self).chunks@,
                    cidx,
                    new_chunk,
                    o.id,
                    ChunkStatus::Filled,
                );
                lemma_sum_status_update(
                    old(self).chunks@,
                    cidx,
                    new_chunk,
                    o.id,
                    ChunkStatus::Locked,
                );
                lemma_sum_status_update(old(self).chunks@, cidx, new_chunk, o.id, ChunkStatus::Idle);
                lemma_sum_status_update(
                    old(self).chunks@,
                    cidx,
                    new_chunk,
                    o.id,
                    ChunkStatus::Refunded,
                );
                lemma_sum_all_update(old(self).chunks@, cidx, new_chunk, o.id);
            }
            assert forall|c2: int| 0 <= c2 < self.chunks@.len() implies has_order_id(
                self.orders@,
                (#[trigger] self.chunks@[c2]).order_id,
            ) by {
                let w = choose|w: int|
                    0 <= w < old(self).orders@.len() && (#[trigger] old(self).orders@[w]).id
                        == old(self).chunks@[c2].order_id;
                assert(self.orders@[w].id == self.chunks@[c2].order_id);
            }
            assert forall|t: int, k: int|
                0 <= t < self.trades@.len() && 0 <= k < self.trades@[t].locked_chunks@.len()
                    && self.trades@[t].status.holds_locks() implies exists|c: int|
                0 <= c < self.chunks@.len() && (#[trigger] self.chunks@[c]).id == (
                #[trigger] self.trades@[t].locked_chunks@[k]).chunk_id && self.chunks@[c].status
                    is Locked && self.chunks@[c].locked_by == Some(self.trades@[t].id) by {
                let c = choose|c: int|
                    0 <= c < old(self).chunks@.len() && (#[trigger] old(self).chunks@[c]).id
                        == old(self).trades@[t].locked_chunks@[k].chunk_id && old(self).chunks@[c].status is Locked && old(self).chunks@[c].locked_by == Some(
                        old(self).trades@[t].id,
                    );
                assert(c != cidx);
                assert(self.chunks@[c] == old(self).chunks@[c]);
            }
            lemma_txids_carry(*old(self), *self);
        }
    }

    /// Retarget one order's price cap.
    pub fn set_order_max_price(&mut self, oi: usize, price_e6: u64)
        requires
            old(self).inv(),
            oi < old(self).orders@.len(),
        ensures
            final(self).inv(),
            final(self).orders@ == old(self).orders@.update(
                oi as int,
                final(self).orders@[oi as int],
            ),
            final(self).orders@[oi as int] == (Order {
                max_bsv_price_e6: price_e6,
                ..old(self).orders@[oi as int]
            }),
            *final(self) == (Engine { orders: final(self).orders, ..*old(self) }),
    {
        self.orders[oi].max_bsv_price_e6 = price_e6;
        proof {
            assert(self.orders@ =~= old(self).orders@.update(
                oi as int,
                self.orders@[oi as int],
            ));
            assert forall|c2: int| 0 <= c2 < self.chunks@.len() implies has_order_id(
                self.orders@,
                (#[trigger] self.chunks@[c2]).order_id,
            ) by {
                let w = choose|w: int|
                    0 <= w < old(self).orders@.len() && (#[trigger] old(self).orders@[w]).id
                        == self.chunks@[c2].order_id;
                assert(self.orders@[w].id == self.chunks@[c2].order_id);
            }
            lemma_txids_carry(*old(self), *self);
            lemma_locking_carry(*old(self), *self);
        }
    }

    /// Set one order's status, leaving everything else alone.
    pub fn set_order_status(&mut self, oi: usize, status: OrderStatus)
        requires
            old(self).inv_ids(),
            old(self).inv_accounting(),
            oi < old(self).orders@.len(),
        ensures
            final(self).inv_ids(),
            final(self).inv_accounting(),
            final(self).orders@ == old(self).orders@.update(
                oi as int,
                final(self).orders@[oi as int],
            ),
            final(self).orders@[oi as int] == (Order {
                status,
                ..old(self).orders@[oi as int]
            }),
            *final(self) == (Engine { orders: final(self).orders, ..*old(self) }),
    {
        self.orders[oi].status = status;
        proof {
            assert(self.orders@ =~= old(self).orders@.update(
                oi as int,
                self.orders@[oi as int],
            ));
            assert forall|c2: int| 0 <= c2 < self.chunks@.len() implies has_order_id(
                self.orders@,
                (#[trigger] self.chunks@[c2]).order_id,
            ) by {
                let w = choose|w: int|
                    0 <= w < old(self).orders@.len() && (#[trigger] old(self).orders@[w]).id
                        == self.chunks@[c2].order_id;
                assert(self.orders@[w].id == self.chunks@[c2].order_id);
            }
        }
    }
}

/// `sum_available` after appending one chunk.
pub proof fn lemma_sum_available_push(chunks: Seq<Chunk>, c: Chunk)
    ensures
        sum_available(chunks.push(c)) == sum_available(chunks) + (
        if c.status is Available {
            c.amount_e6 as int
        } else {
            0
        }),
{
    assert(chunks.push(c).drop_last() =~= chunks);
    assert(chunks.push(c).last() == c);
}


/// The used-transaction discipline depends only on the trades and the index.
pub proof fn lemma_txids_carry(pre: Engine, post: Engine)
    requires
        pre.inv_txids(),
        post.trades@ == pre.trades@,
        post.used_txids@ == pre.used_txids@,
    ensures
        post.inv_txids(),
{
    assert forall|t: int|
        0 <= t < post.trades@.len() && (#[trigger] post.trades@[t]).bsv_tx_hex
            is Some implies exists|u: int|
        0 <= u < post.used_txids@.len() && (#[trigger] post.used_txids@[u]).txid@ == trade_txid(
            post.trades@[t],
        ) && post.used_txids@[u].trade_id == post.trades@[t].id by {
        assert(post.trades@[t] == pre.trades@[t]);
        let v = choose|v: int|
            0 <= v < pre.used_txids@.len() && (#[trigger] pre.used_txids@[v]).txid@ == trade_txid(
                pre.trades@[t],
            ) && pre.used_txids@[v].trade_id == pre.trades@[t].id;
        assert(post.used_txids@[v] == pre.used_txids@[v]);
    }
    assert forall|i: int, j: int|
        0 <= i < j < post.used_txids@.len() implies (#[trigger] post.used_txids@[i]).txid@ != (
        #[trigger] post.used_txids@[j]).txid@ by {
        assert(post.used_txids@[i] == pre.used_txids@[i]);
        assert(post.used_txids@[j] == pre.used_txids@[j]);
    }
}

/// The locking discipline depends only on the trades and the chunks.
pub proof fn lemma_locking_carry(pre: Engine, post: Engine)
    requires
        pre.inv_locking(),
        post.trades@ == pre.trades@,
        post.chunks@ == pre.chunks@,
    ensures
        post.inv_locking(),
{
    assert forall|t: int, k: int|
        0 <= t < post.trades@.len() && 0 <= k < post.trades@[t].locked_chunks@.len()
            && post.trades@[t].status.holds_locks() implies exists|c: int|
        0 <= c < post.chunks@.len() && (#[trigger] post.chunks@[c]).id == (
        #[trigger] post.trades@[t].locked_chunks@[k]).chunk_id && post.chunks@[c].status
            is Locked && post.chunks@[c].locked_by == Some(post.trades@[t].id) by {
        assert(post.trades@[t] == pre.trades@[t]);
        let c = choose|c: int|
            0 <= c < pre.chunks@.len() && (#[trigger] pre.chunks@[c]).id
                == pre.trades@[t].locked_chunks@[k].chunk_id && pre.chunks@[c].status is Locked
                && pre.chunks@[c].locked_by == Some(pre.trades@[t].id);
        assert(post.chunks@[c] == pre.chunks@[c]);
    }
    assert forall|t: int|
        0 <= t < post.trades@.len() implies sum_locked_chunks(
        (#[trigger] post.trades@[t]).locked_chunks@,
    ) == post.trades@[t].amount_e6 by {
        assert(post.trades@[t] == pre.trades@[t]);
    }
}


impl Engine {
    /// The configured treasury addresses, if any.
    pub fn get_treasury_addresses(&self) -> (r: (Option<String>, Option<String>))
        ensures
            r.0 is Some <==> self.treasury_address_arbitrum is Some,
            r.1 is Some <==> self.treasury_address_optimism is Some,
            r.0 matches Some(s) ==> s@ == self.treasury_address_arbitrum.unwrap()@,
            r.1 matches Some(s) ==> s@ == self.treasury_address_optimism.unwrap()@,
    {
        let a = match &self.treasury_address_arbitrum {
            Some(s) => Some(crate::block_store::clone_str(s)),
            None => None,
        };
        let o = match &self.treasury_address_optimism {
            Some(s) => Some(crate::block_store::clone_str(s)),
            None => None,
        };
        (a, o)
    }

    /// Make sure the filler has an account record, creating a fresh one on
    /// first contact.
    pub fn create_account_if_needed(&mut self, filler: &PrincipalId, now: u64)
        ensures
            final(self).filler_accounts@.len() >= old(self).filler_accounts@.len(),
            final(self).filler_accounts@.subrange(0, old(self).filler_accounts@.len() as int)
                == old(self).filler_accounts@,
            exists|f: int|
                0 <= f < final(self).filler_accounts@.len() && (#[trigger] final(self).filler_accounts@[f]).id@ == filler@,
            *final(self) == (Engine { filler_accounts: final(self).filler_accounts, ..*old(self) }),
    {
        let mut f: usize = 0;
        while f < self.filler_accounts.len()
            invariant
                f <= self.filler_accounts@.len(),
                *self == *old(self),
            decreases self.filler_accounts@.len() - f,
        {
            if self.filler_accounts[f].id.eq_principal(filler) {
                return ;
            }
            f = f + 1;
        }
        self.filler_accounts.push(
            FillerAccount {
                id: filler.duplicate(),
                pending_trades_total_e6: 0,
                total_trades: 0,
                successful_trades: 0,
                penalties_paid_e6: 0,
                created_at: now,
            },
        );
        proof {
            assert(self.filler_accounts@.subrange(0, old(self).filler_accounts@.len() as int)
                =~= old(self).filler_accounts@);
            assert(self.filler_accounts@[self.filler_accounts@.len() - 1].id@ == filler@);
        }
    }

    /// Record a paid penalty on the filler's statistics, where an account
    /// exists.
    pub fn record_filler_penalty(&mut self, filler: &PrincipalId, penalty_e6: u64)
        ensures
            final(self).filler_accounts@.len() == old(self).filler_accounts@.len(),
            forall|f: int|
                0 <= f < old(self).filler_accounts@.len() && (#[trigger] old(self).filler_accounts@[f]).id@ != filler@ ==> final(self).filler_accounts@[f] == old(
                    self,
                ).filler_accounts@[f],
            forall|f: int|
                0 <= f < old(self).filler_accounts@.len() && (#[trigger] old(self).filler_accounts@[f]).id@ == filler@ ==> final(self).filler_accounts@[f] == (
                FillerAccount {
                    penalties_paid_e6: final(self).filler_accounts@[f].penalties_paid_e6,
                    ..old(self).filler_accounts@[f]
                }) && final(self).filler_accounts@[f].penalties_paid_e6 as int
                    == vstd::math::min(
                    old(self).filler_accounts@[f].penalties_paid_e6 + penalty_e6,
                    u64::MAX as int,
                ),
            *final(self) == (Engine { filler_accounts: final(self).filler_accounts, ..*old(self) }),
    {
        let mut f: usize = 0;
        while f < self.filler_accounts.len()
            invariant
                f <= self.filler_accounts@.len(),
                self.filler_accounts@.len() == old(self).filler_accounts@.len(),
                forall|f2: int|
                    0 <= f2 < f && (#[trigger] old(self).filler_accounts@[f2]).id@ != filler@
                        ==> self.filler_accounts@[f2] == old(self).filler_accounts@[f2],
                forall|f2: int|
                    0 <= f2 < f && (#[trigger] old(self).filler_accounts@[f2]).id@ == filler@
                        ==> self.filler_accounts@[f2] == (FillerAccount {
                        penalties_paid_e6: self.filler_accounts@[f2].penalties_paid_e6,
                        ..old(self).filler_accounts@[f2]
                    }) && self.filler_accounts@[f2].penalties_paid_e6 as int == vstd::math::min(
                        old(self).filler_accounts@[f2].penalties_paid_e6 + penalty_e6,
                        u64::MAX as int,
                    ),
                forall|f2: int|
                    f <= f2 < old(self).filler_accounts@.len() ==> (
                    #[trigger] self.filler_accounts@[f2]) == old(self).filler_accounts@[f2],
                *self == (Engine { filler_accounts: self.filler_accounts, ..*old(self) }),
            decreases self.filler_accounts@.len() - f,
        {
            if self.filler_accounts[f].id.eq_principal(filler) {
                if self.filler_accounts[f].penalties_paid_e6 <= u64::MAX - penalty_e6 {
                    self.filler_accounts[f].penalties_paid_e6 = self.filler_accounts[
                        f
                    ].penalties_paid_e6 + penalty_e6;
                } else {
                    self.filler_accounts[f].penalties_paid_e6 = u64::MAX;
                }
            }
            f = f + 1;
        }
    }

    /// Record a completed claim on the filler's statistics, where an
    /// account exists.
    pub fn record_filler_success(&mut self, filler: &PrincipalId)
        ensures
            final(self).filler_accounts@.len() == old(self).filler_accounts@.len(),
            forall|f: int|
                0 <= f < old(self).filler_accounts@.len() && (#[trigger] old(self).filler_accounts@[f]).id@ != filler@ ==> final(self).filler_accounts@[f] == old(
                    self,
                ).filler_accounts@[f],
            forall|f: int|
                0 <= f < old(self).filler_accounts@.len() && (#[trigger] old(self).filler_accounts@[f]).id@ == filler@ ==> final(self).filler_accounts@[f] == (
                FillerAccount {
                    successful_trades: final(self).filler_accounts@[f].successful_trades,
                    ..old(self).filler_accounts@[f]
                }) && final(self).filler_accounts@[f].successful_trades as int
                    == vstd::math::min(
                    old(self).filler_accounts@[f].successful_trades + 1,
                    u64::MAX as int,
                ),
            *final(self) == (Engine { filler_accounts: final(self).filler_accounts, ..*old(self) }),
    {
        let mut f: usize = 0;
        while f < self.filler_accounts.len()
            invariant
                f <= self.filler_accounts@.len(),
                self.filler_accounts@.len() == old(self).filler_accounts@.len(),
                forall|f2: int|
                    0 <= f2 < f && (#[trigger] old(self).filler_accounts@[f2]).id@ != filler@
                        ==> self.filler_accounts@[f2] == old(self).filler_accounts@[f2],
                forall|f2: int|
                    0 <= f2 < f && (#[trigger] old(self).filler_accounts@[f2]).id@ == filler@
                        ==> self.filler_accounts@[f2] == (FillerAccount {
                        successful_trades: self.filler_accounts@[f2].successful_trades,
                        ..old(self).filler_accounts@[f2]
                    }) && self.filler_accounts@[f2].successful_trades as int
                        == vstd::math::min(
                        old(self).filler_accounts@[f2].successful_trades + 1,
                        u64::MAX as int,
                    ),
                forall|f2: int|
                    f <= f2 < old(self).filler_accounts@.len() ==> (
                    #[trigger] self.filler_accounts@[f2]) == old(self).filler_accounts@[f2],
                *self == (Engine { filler_accounts: self.filler_accounts, ..*old(self) }),
            decreases self.filler_accounts@.len() - f,
        {
            if self.filler_accounts[f].id.eq_principal(filler) {
                if self.filler_accounts[f].successful_trades < u64::MAX {
                    self.filler_accounts[f].successful_trades = self.filler_accounts[
                        f
                    ].successful_trades + 1;
                }
            }
            f = f + 1;
        }
    }

    /// Look up a filler's account record.
    pub fn get_filler_account(&self, filler: &PrincipalId) -> (r: Option<usize>)
        ensures
            match r {
                Some(f) => (f as int) < self.filler_accounts@.len()
                    && self.filler_accounts@[f as int].id@ == filler@,
                None => forall|f: int| 0 <= f < self.filler_accounts@.len() ==> (
                #[trigger] self.filler_accounts@[f]).id@ != filler@,
            },
    {
        let mut f: usize = 0;
        while f < self.filler_accounts.len()
            invariant
                f <= self.filler_accounts@.len(),
                forall|f2: int| 0 <= f2 < f ==> (#[trigger] self.filler_accounts@[f2]).id@
                    != filler@,
            decreases self.filler_accounts@.len() - f,
        {
            if self.filler_accounts[f].id.eq_principal(filler) {
                return Some(f);
            }
            f = f + 1;
        }
        None
    }
}

/// The summed amount of a trade's locked chunks.
pub open spec fn sum_locked_chunks(lcs: Seq<LockedChunk>) -> int
    decreases lcs.len(),
{
    if lcs.len() == 0 {
        0
    } else {
        sum_locked_chunks(lcs.drop_last()) + lcs.last().amount_e6 as int
    }
}

/// Summed locked chunks after appending one.
pub proof fn lemma_sum_locked_push(lcs: Seq<LockedChunk>, lc: LockedChunk)
    ensures
        sum_locked_chunks(lcs.push(lc)) == sum_locked_chunks(lcs) + lc.amount_e6,
{
    assert(lcs.push(lc).drop_last() =~= lcs);
    assert(lcs.push(lc).last() == lc);
}

} // verus!
