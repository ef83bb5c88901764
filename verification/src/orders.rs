//! The order lifecycle: validation and creation, price retargeting,
//! cancellation, and the periodic idle transitions.

use vstd::prelude::*;
use crate::types::{Order, Chunk, ChunkStatus, OrderStatus, PrincipalId};
use crate::engine::{
    Engine, find_order_idx, find_chunk_idx, has_order_id, sum_available, sum_all, sum_status,
    lemma_sum_push, lemma_txids_carry, lemma_locking_carry, chunk_contrib,
};
use crate::hashing::{base58_decode_of, double_sha256_of};
use crate::config::{
    CHUNK_SIZE_E6, MAX_CHUNKS_ALLOWED, MAX_ORDERBOOK_E6, MAX_MAKER_TOTAL_ORDERS_E6,
    MAKER_FEE_BPS, ACTIVATION_FEE_BPS, FILLER_INCENTIVE_BPS, MIN_CYCLES_FOR_NEW_ORDERS,
    PRICE_CACHE_DURATION_NS,
};

verus! {

/// Why an order operation was rejected.
#[derive(Clone, Copy, Debug, PartialEq, Eq, Structural)]
pub enum OrderError {
    Anonymous,
    OrdersDisabled,
    LowCycles,
    BadAmount,
    TooManyChunks,
    BadAddress,
    BadPrice,
    OrderbookFull,
    MakerLimit,
    OrderNotFound,
    NotMaker,
    AlreadyFinished,
    NoEditableChunks,
}

/// A valid Base58Check BSV mainnet address: the right leading character and
/// length, Base58 text whose decoded form carries a correct double-SHA-256
/// checksum.
pub open spec fn spec_valid_bsv_address(s: Seq<char>) -> bool {
    &&& s.len() >= 26
    &&& s.len() <= 35
    &&& (s[0] == '1' || s[0] == '3')
    &&& base58_decode_of(s) matches Some(d) && d.len() >= 25 && d.subrange(
        d.len() - 4,
        d.len() as int,
    ) == double_sha256_of(d.subrange(0, d.len() - 4)).subrange(0, 4)
}

/// Check a BSV mainnet address: leading character, length, Base58 form and
/// checksum.
pub fn is_valid_bsv_mainnet_address(address: &str) -> (r: bool)
    ensures
        r == spec_valid_bsv_address(address@),
{
    let len = address.unicode_len();
    if len < 26 || len > 35 {
        return false;
    }
    let first = address.get_char(0);
    if !(first == '1' || first == '3') {
        return false;
    }
    let decoded = match crate::hashing::base58_decode(address) {
        Some(d) => d,
        None => {
            return false;
        },
    };
    if decoded.len() < 25 {
        return false;
    }
    let n = decoded.len();
    let mut payload: Vec<u8> = Vec::new();
    let mut i: usize = 0;
    while i < n - 4
        invariant
            i <= n - 4,
            n == decoded@.len(),
            n >= 25,
            payload@ == decoded@.subrange(0, i as int),
        decreases n - 4 - i,
    {
        payload.push(decoded[i]);
        i = i + 1;
        proof {
            assert(decoded@.subrange(0, i as int) =~= decoded@.subrange(0, i - 1).push(
                decoded@[i - 1],
            ));
        }
    }
    let digest = crate::hashing::double_sha256(payload.as_slice());
    let ok = decoded[n - 4] == digest[0] && decoded[n - 3] == digest[1] && decoded[n - 2]
        == digest[2] && decoded[n - 1] == digest[3];
    proof {
        let d = decoded@;
        if ok {
            assert(d.subrange(d.len() - 4, d.len() as int) =~= double_sha256_of(
                d.subrange(0, d.len() - 4),
            ).subrange(0, 4));
        } else {
            assert(d.subrange(d.len() - 4, d.len() as int) != double_sha256_of(
                d.subrange(0, d.len() - 4),
            ).subrange(0, 4)) by {
                let cs = d.subrange(d.len() - 4, d.len() as int);
                let dg = double_sha256_of(d.subrange(0, d.len() - 4)).subrange(0, 4);
                if cs == dg {
                    assert(cs[0] == dg[0] && cs[1] == dg[1] && cs[2] == dg[2] && cs[3] == dg[3]);
                }
            }
        }
    }
    ok
}

/// A well-formed EVM address: `0x` followed by forty hex digits.
pub open spec fn spec_valid_evm_address(s: Seq<char>) -> bool {
    &&& s.len() == 42
    &&& s[0] == '0'
    &&& s[1] == 'x'
    &&& forall|i: int| 2 <= i < 42 ==> crate::hashing::is_hex_digit(#[trigger] s[i])
}

/// Check an EVM address: `0x` followed by forty hex digits.
pub fn is_valid_evm_address(address: &str) -> (r: bool)
    ensures
        r == spec_valid_evm_address(address@),
{
    if address.unicode_len() != 42 {
        return false;
    }
    if !(address.get_char(0) == '0' && address.get_char(1) == 'x') {
        return false;
    }
    let mut i: usize = 2;
    while i < 42
        invariant
            2 <= i <= 42,
            address@.len() == 42,
            forall|j: int| 2 <= j < i ==> crate::hashing::is_hex_digit(#[trigger] address@[j]),
        decreases 42 - i,
    {
        let c = address.get_char(i);
        let v = c as u32;
        if !((0x30 <= v && v <= 0x39) || (0x61 <= v && v <= 0x66) || (0x41 <= v && v <= 0x46)) {
            return false;
        }
        i = i + 1;
    }
    true
}

/// The fee breakdown of a new order.
#[derive(Clone, Copy, Debug, PartialEq, Eq, Structural)]
pub struct OrderFees {
    pub required_deposit_e6: u64,
    pub activation_fee_e6: u64,
    pub filler_incentive_e6: u64,
}

/// The summed open amount of a maker's active and idle orders: for each, the
/// amount not yet filled.
pub open spec fn maker_active_total(orders: Seq<Order>, maker: Seq<u8>) -> int
    decreases orders.len(),
{
    if orders.len() == 0 {
        0
    } else {
        maker_active_total(orders.drop_last(), maker) + (
        if orders.last().maker@ == maker && (orders.last().status is Active
            || orders.last().status is Idle) {
            orders.last().amount_e6 - orders.last().total_filled_e6
        } else {
            0
        })
    }
}

/// `maker_active_total` after appending one order.
pub proof fn lemma_maker_total_push(orders: Seq<Order>, o: Order, maker: Seq<u8>)
    ensures
        maker_active_total(orders.push(o), maker) == maker_active_total(orders, maker) + (
        if o.maker@ == maker && (o.status is Active || o.status is Idle) {
            o.amount_e6 - o.total_filled_e6
        } else {
            0
        }),
{
    assert(orders.push(o).drop_last() =~= orders);
    assert(orders.push(o).last() == o);
}

/// Sums for an order id that no chunk carries are zero.
pub proof fn lemma_sum_zero_when_absent(chunks: Seq<Chunk>, oid: u64)
    requires
        forall|ci: int| 0 <= ci < chunks.len() ==> (#[trigger] chunks[ci]).order_id != oid,
    ensures
        sum_all(chunks, oid) == 0,
        forall|st: ChunkStatus| #[trigger] sum_status(chunks, oid, st) == 0,
    decreases chunks.len(),
{
    if chunks.len() > 0 {
        lemma_sum_zero_when_absent(chunks.drop_last(), oid);
        assert forall|st: ChunkStatus| #[trigger] sum_status(chunks, oid, st) == 0 by {
            assert(sum_status(chunks.drop_last(), oid, st) == 0);
            assert(chunk_contrib(chunks.last(), oid, st) == 0);
        }
    } else {
        assert forall|st: ChunkStatus| #[trigger] sum_status(chunks, oid, st) == 0 by {}
    }
}

/// The guards of order creation that need no ledger call: caller, toggle,
/// cycle floor, amount shape, address, price, and the two ceilings.
pub open spec fn create_order_accepted(
    e: Engine,
    caller: PrincipalId,
    amount_e6: u64,
    max_bsv_price_e6: u64,
    bsv_address: Seq<char>,
    cycles: u128,
) -> bool {
    &&& !caller.spec_is_anonymous()
    &&& e.new_orders_enabled
    &&& cycles >= MIN_CYCLES_FOR_NEW_ORDERS
    &&& amount_e6 >= CHUNK_SIZE_E6
    &&& amount_e6 % CHUNK_SIZE_E6 == 0
    &&& amount_e6 <= CHUNK_SIZE_E6 * MAX_CHUNKS_ALLOWED
    &&& spec_valid_bsv_address(bsv_address)
    &&& max_bsv_price_e6 > 0
    &&& sum_available(e.chunks@) + amount_e6 <= MAX_ORDERBOOK_E6
    &&& maker_active_total(e.orders@, caller@) + amount_e6 <= MAX_MAKER_TOTAL_ORDERS_E6
}

impl Engine {
    /// The summed open amount of the given maker's active and idle orders.
    pub fn maker_active_total_e6(&self, maker: &PrincipalId) -> (r: u128)
        requires
            self.inv(),
        ensures
            r == maker_active_total(self.orders@, maker@),
    {
        let mut total: u128 = 0;
        let mut i: usize = 0;
        while i < self.orders.len()
            invariant
                self.inv(),
                i <= self.orders@.len(),
                total == maker_active_total(self.orders@.take(i as int), maker@),
                total <= i * 0x1_0000_0000_0000_0000,
            decreases self.orders@.len() - i,
        {
            let ghost pre = self.orders@.take(i as int);
            let o = &self.orders[i];
            if o.maker.eq_principal(maker) && (matches!(o.status, OrderStatus::Active) || matches!(
                o.status,
                OrderStatus::Idle,
            )) {
                proof {
                    crate::engine::lemma_sum_bounds(self.chunks@, o.id, ChunkStatus::Filled);
                }
                total = total + (o.amount_e6 - o.total_filled_e6) as u128;
            }
            i = i + 1;
            proof {
                assert(self.orders@.take(i as int) =~= pre.push(self.orders@[i - 1]));
                lemma_maker_total_push(pre, self.orders@[i - 1], maker@);
            }
        }
        proof {
            assert(self.orders@.take(self.orders@.len() as int) =~= self.orders@);
        }
        total
    }

    /// Validate a new order and compute its fee breakdown.  No state
    /// changes; the caller funds the deposit on the ledger before
    /// activating.
    pub fn check_create_order(
        &self,
        caller: &PrincipalId,
        amount_e6: u64,
        max_bsv_price_e6: u64,
        bsv_address: &str,
        cycles_balance: u128,
    ) -> (r: Result<OrderFees, OrderError>)
        requires
            self.inv(),
            amount_e6 <= 0x1_0000_0000,
        ensures
            match r {
                Ok(fees) => {
                    &&& create_order_accepted(
                        *self,
                        *caller,
                        amount_e6,
                        max_bsv_price_e6,
                        bsv_address@,
                        cycles_balance,
                    )
                    &&& fees.activation_fee_e6 == amount_e6 * ACTIVATION_FEE_BPS / 10000
                    &&& fees.filler_incentive_e6 == amount_e6 * FILLER_INCENTIVE_BPS / 10000
                    &&& fees.required_deposit_e6 == amount_e6 + amount_e6 * MAKER_FEE_BPS / 10000
                },
                Err(_) => !create_order_accepted(
                    *self,
                    *caller,
                    amount_e6,
                    max_bsv_price_e6,
                    bsv_address@,
                    cycles_balance,
                ),
            },
    {
        if caller.is_anonymous() {
            return Err(OrderError::Anonymous);
        }
        if !self.new_orders_enabled {
            return Err(OrderError::OrdersDisabled);
        }
        if cycles_balance < MIN_CYCLES_FOR_NEW_ORDERS {
            return Err(OrderError::LowCycles);
        }
        if amount_e6 < CHUNK_SIZE_E6 || amount_e6 % CHUNK_SIZE_E6 != 0 {
            return Err(OrderError::BadAmount);
        }
        if amount_e6 > CHUNK_SIZE_E6 * MAX_CHUNKS_ALLOWED {
            return Err(OrderError::TooManyChunks);
        }
        if !is_valid_bsv_mainnet_address(bsv_address) {
            return Err(OrderError::BadAddress);
        }
        if max_bsv_price_e6 == 0 {
            return Err(OrderError::BadPrice);
        }
        let orderbook = self.get_available_orderbook();
        if orderbook > (MAX_ORDERBOOK_E6 as u128) - (amount_e6 as u128) {
            return Err(OrderError::OrderbookFull);
        }
        let maker_total = self.maker_active_total_e6(caller);
        if maker_total > (MAX_MAKER_TOTAL_ORDERS_E6 as u128) - (amount_e6 as u128) {
            return Err(OrderError::MakerLimit);
        }
        let activation = amount_e6 * ACTIVATION_FEE_BPS / 10000;
        let incentive = amount_e6 * FILLER_INCENTIVE_BPS / 10000;
        let fee = amount_e6 * MAKER_FEE_BPS / 10000;
        Ok(
            OrderFees {
                required_deposit_e6: amount_e6 + fee,
                activation_fee_e6: activation,
                filler_incentive_e6: incentive,
            },
        )
    }

    /// Create and activate a funded order: its chunks enter the book
    /// available, or idle when the cached market price already exceeds the
    /// order's cap.  Returns the new order's id.
    #[verifier::loop_isolation(false)]
    #[verifier::rlimit(100)]
    pub fn activate_order(
        &mut self,
        order_id: u64,
        caller: &PrincipalId,
        amount_e6: u64,
        max_bsv_price_e6: u64,
        bsv_address: String,
        deposit_subaccount: Vec<u8>,
        deposited_e6: u64,
        activation_fee_e6: u64,
        filler_incentive_e6: u64,
        now: u64,
    ) -> (r: u64)
        requires
            old(self).inv(),
            amount_e6 >= CHUNK_SIZE_E6,
            amount_e6 % CHUNK_SIZE_E6 == 0,
            amount_e6 <= CHUNK_SIZE_E6 * MAX_CHUNKS_ALLOWED,
            order_id < old(self).next_order_id,
            forall|i: int|
                0 <= i < old(self).orders@.len() ==> (#[trigger] old(self).orders@[i]).id
                    < order_id,
            old(self).next_chunk_id <= u64::MAX - MAX_CHUNKS_ALLOWED,
        ensures
            final(self).inv(),
            r == order_id,
            final(self).orders@.len() == old(self).orders@.len() + 1,
            final(self).orders@.subrange(0, old(self).orders@.len() as int) == old(self).orders@,
            final(self).trades@ == old(self).trades@,
            final(self).used_txids@ == old(self).used_txids@,
            ({
                let o = final(self).orders@.last();
                &&& o.id == r
                &&& o.maker@ == caller@
                &&& o.amount_e6 == amount_e6
                &&& o.max_bsv_price_e6 == max_bsv_price_e6
                &&& o.bsv_address@ == bsv_address@
                &&& o.created_at == now
                &&& o.total_filled_e6 == 0
                &&& o.total_locked_e6 == 0
                &&& o.total_refunded_e6 == 0
                &&& (o.status is Active || o.status is Idle)
                &&& (o.status is Idle <==> old(self).cached_bsv_price_e6 > max_bsv_price_e6)
                &&& (o.status is Idle ==> o.total_idle_e6 == amount_e6)
                &&& (o.status is Active ==> o.total_idle_e6 == 0)
                &&& o.chunks@.len() == amount_e6 / CHUNK_SIZE_E6
            }),
            final(self).chunks@.len() == old(self).chunks@.len() + amount_e6 / CHUNK_SIZE_E6,
            final(self).chunks@.subrange(0, old(self).chunks@.len() as int) == old(self).chunks@,
            forall|ci: int|
                old(self).chunks@.len() <= ci < final(self).chunks@.len() ==> {
                    let c = #[trigger] final(self).chunks@[ci];
                    &&& c.order_id == r
                    &&& c.amount_e6 == CHUNK_SIZE_E6
                    &&& c.max_bsv_price_e6 == max_bsv_price_e6
                    &&& c.bsv_address@ == bsv_address@
                    &&& (c.status is Idle <==> old(self).cached_bsv_price_e6 > max_bsv_price_e6)
                    &&& (c.status is Available <==> old(self).cached_bsv_price_e6
                        <= max_bsv_price_e6)
                },
    {
        let price_exceeds = self.cached_bsv_price_e6 > max_bsv_price_e6;
        let chunk_status = if price_exceeds {
            ChunkStatus::Idle
        } else {
            ChunkStatus::Available
        };
        let num_chunks = amount_e6 / CHUNK_SIZE_E6;
        let mut chunk_ids: Vec<u64> = Vec::new();
        let ghost chunks0 = self.chunks@;
        proof {
            assert forall|ci: int| 0 <= ci < self.chunks@.len() implies (
            #[trigger] self.chunks@[ci]).order_id != order_id by {
                let w = choose|w: int|
                    0 <= w < self.orders@.len() && (#[trigger] self.orders@[w]).id
                        == self.chunks@[ci].order_id;
                assert(self.orders@[w].id < old(self).next_order_id);
            }
            lemma_sum_zero_when_absent(self.chunks@, order_id);
        }
        let mut k: u64 = 0;
        while k < num_chunks
            invariant
                k <= num_chunks,
                self.next_chunk_id == old(self).next_chunk_id + k,
                chunk_ids@.len() == k,
                self.chunks@.len() == chunks0.len() + k,
                self.chunks@.subrange(0, chunks0.len() as int) == chunks0,
                self.orders@ == old(self).orders@,
                self.trades@ == old(self).trades@,
                self.used_txids@ == old(self).used_txids@,
                self.next_order_id == old(self).next_order_id,
                self.next_trade_id == old(self).next_trade_id,
                self.cached_bsv_price_e6 == old(self).cached_bsv_price_e6,
                self.new_orders_enabled == old(self).new_orders_enabled,
                forall|i: int, j: int| 0 <= i < j < self.orders@.len() ==> (
                #[trigger] self.orders@[i]).id < (#[trigger] self.orders@[j]).id,
                forall|i: int, j: int| 0 <= i < j < self.trades@.len() ==> (
                #[trigger] self.trades@[i]).id < (#[trigger] self.trades@[j]).id,
                forall|i: int| 0 <= i < self.trades@.len() ==> (#[trigger] self.trades@[i]).id
                    < self.next_trade_id,
                forall|ci: int| 0 <= ci < self.chunks@.len() ==> !((
                #[trigger] self.chunks@[ci]).status is Refunding),
                forall|ci: int| 0 <= ci < self.chunks@.len() ==> (
                #[trigger] self.chunks@[ci]).amount_e6 == CHUNK_SIZE_E6,
                forall|i: int, j: int| 0 <= i < j < self.chunks@.len() ==> (
                #[trigger] self.chunks@[i]).id < (#[trigger] self.chunks@[j]).id,
                forall|i: int| 0 <= i < self.chunks@.len() ==> (#[trigger] self.chunks@[i]).id
                    < self.next_chunk_id,
                forall|ci: int|
                    chunks0.len() <= ci < self.chunks@.len() ==> {
                        let c = #[trigger] self.chunks@[ci];
                        &&& c.order_id == order_id
                        &&& c.amount_e6 == CHUNK_SIZE_E6
                        &&& c.max_bsv_price_e6 == max_bsv_price_e6
                        &&& c.bsv_address@ == bsv_address@
                        &&& c.status == chunk_status
                        &&& c.locked_by is None
                    },
                sum_all(self.chunks@, order_id) == k * CHUNK_SIZE_E6,
                sum_status(self.chunks@, order_id, ChunkStatus::Idle) == (
                if price_exceeds {
                    k * CHUNK_SIZE_E6 as int
                } else {
                    0
                }),
                sum_status(self.chunks@, order_id, ChunkStatus::Filled) == 0,
                sum_status(self.chunks@, order_id, ChunkStatus::Locked) == 0,
                sum_status(self.chunks@, order_id, ChunkStatus::Refunded) == 0,
                forall|oi: int| 0 <= oi < self.orders@.len() ==> {
                    let o = #[trigger] self.orders@[oi];
                    &&& o.total_filled_e6 == sum_status(self.chunks@, o.id, ChunkStatus::Filled)
                    &&& o.total_locked_e6 == sum_status(self.chunks@, o.id, ChunkStatus::Locked)
                    &&& o.total_idle_e6 == sum_status(self.chunks@, o.id, ChunkStatus::Idle)
                    &&& o.total_refunded_e6 == sum_status(
                        self.chunks@,
                        o.id,
                        ChunkStatus::Refunded,
                    )
                    &&& o.amount_e6 == sum_all(self.chunks@, o.id)
                },
            decreases num_chunks - k,
        {
            let chunk_id = self.create_chunk_id();
            let ghost pre_chunks = self.chunks@;
            let chunk = Chunk {
                id: chunk_id,
                order_id,
                amount_e6: CHUNK_SIZE_E6,
                status: chunk_status,
                locked_by: None,
                filled_at: None,
                bsv_address: bsv_address.clone(),
                sats_amount: None,
                max_bsv_price_e6,
            };
            self.chunks.push(chunk);
            chunk_ids.push(chunk_id);
            k = k + 1;
            proof {
                assert(self.chunks@.subrange(0, chunks0.len() as int) =~= chunks0);
                lemma_sum_push(pre_chunks, self.chunks@.last(), order_id, ChunkStatus::Idle);
                lemma_sum_push(pre_chunks, self.chunks@.last(), order_id, ChunkStatus::Filled);
                lemma_sum_push(pre_chunks, self.chunks@.last(), order_id, ChunkStatus::Locked);
                lemma_sum_push(pre_chunks, self.chunks@.last(), order_id, ChunkStatus::Refunded);
                assert forall|oi: int| 0 <= oi < self.orders@.len() implies {
                    let o = #[trigger] self.orders@[oi];
                    &&& o.total_filled_e6 == sum_status(self.chunks@, o.id, ChunkStatus::Filled)
                    &&& o.total_locked_e6 == sum_status(self.chunks@, o.id, ChunkStatus::Locked)
                    &&& o.total_idle_e6 == sum_status(self.chunks@, o.id, ChunkStatus::Idle)
                    &&& o.total_refunded_e6 == sum_status(
                        self.chunks@,
                        o.id,
                        ChunkStatus::Refunded,
                    )
                    &&& o.amount_e6 == sum_all(self.chunks@, o.id)
                } by {
                    let o = self.orders@[oi];
                    assert(o.id < old(self).next_order_id);
                    assert(o.id != order_id);
                    lemma_sum_push(pre_chunks, self.chunks@.last(), o.id, ChunkStatus::Filled);
                    lemma_sum_push(pre_chunks, self.chunks@.last(), o.id, ChunkStatus::Locked);
                    lemma_sum_push(pre_chunks, self.chunks@.last(), o.id, ChunkStatus::Idle);
                    lemma_sum_push(pre_chunks, self.chunks@.last(), o.id, ChunkStatus::Refunded);
                    lemma_sum_push(pre_chunks, self.chunks@.last(), o.id, ChunkStatus::Available);
                }
            }
        }
        let initial_status = if price_exceeds {
            OrderStatus::Idle
        } else {
            OrderStatus::Active
        };
        let initial_idle: u64 = if price_exceeds {
            amount_e6
        } else {
            0
        };
        let order = Order {
            id: order_id,
            maker: caller.duplicate(),
            amount_e6,
            total_deposited_e6: Some(deposited_e6),
            activation_fee_e6: Some(activation_fee_e6),
            filler_incentive_reserved_e6: Some(filler_incentive_e6),
            deposit_subaccount,
            max_bsv_price_e6,
            allow_partial_fill: true,
            bsv_address,
            status: initial_status,
            chunks: chunk_ids,
            created_at: now,
            funded_at: Some(now),
            total_filled_e6: 0,
            total_locked_e6: 0,
            total_idle_e6: initial_idle,
            total_refunded_e6: 0,
        };
        let ghost pre_push = *self;
        self.orders.push(order);
        proof {
            assert(num_chunks * CHUNK_SIZE_E6 == amount_e6) by (nonlinear_arith)
                requires
                    num_chunks == amount_e6 / CHUNK_SIZE_E6,
                    amount_e6 % CHUNK_SIZE_E6 == 0,
                    CHUNK_SIZE_E6 > 0,
            ;
            assert(self.orders@.subrange(0, pre_push.orders@.len() as int) =~= pre_push.orders@);
            assert forall|oi: int| 0 <= oi < self.orders@.len() implies {
                let o = #[trigger] self.orders@[oi];
                &&& o.total_filled_e6 == sum_status(self.chunks@, o.id, ChunkStatus::Filled)
                &&& o.total_locked_e6 == sum_status(self.chunks@, o.id, ChunkStatus::Locked)
                &&& o.total_idle_e6 == sum_status(self.chunks@, o.id, ChunkStatus::Idle)
                &&& o.total_refunded_e6 == sum_status(self.chunks@, o.id, ChunkStatus::Refunded)
                &&& o.amount_e6 == sum_all(self.chunks@, o.id)
            } by {
                if oi < pre_push.orders@.len() {
                    assert(self.orders@[oi] == pre_push.orders@[oi]);
                } else {
                    assert(self.orders@[oi] == order);
                }
            }
            assert forall|i: int, j: int|
                0 <= i < j < self.orders@.len() implies (#[trigger] self.orders@[i]).id < (
            #[trigger] self.orders@[j]).id by {
                if j == self.orders@.len() - 1 {
                    assert(self.orders@[i] == pre_push.orders@[i]);
                    assert(self.orders@[i].id < order_id);
                }
            }
            assert forall|c2: int| 0 <= c2 < self.chunks@.len() implies has_order_id(
                self.orders@,
                (#[trigger] self.chunks@[c2]).order_id,
            ) by {
                if c2 < chunks0.len() {
                    assert(self.chunks@[c2] == chunks0[c2]);
                    let w = choose|w: int|
                        0 <= w < old(self).orders@.len() && (#[trigger] old(self).orders@[w]).id
                            == chunks0[c2].order_id;
                    assert(self.orders@[w].id == self.chunks@[c2].order_id);
                } else {
                    assert(self.orders@[self.orders@.len() - 1].id == order_id);
                }
            }
            lemma_txids_carry(*old(self), *self);
            assert forall|t: int, k2: int|
                0 <= t < self.trades@.len() && 0 <= k2 < self.trades@[t].locked_chunks@.len()
                    && self.trades@[t].status.holds_locks() implies exists|c: int|
                0 <= c < self.chunks@.len() && (#[trigger] self.chunks@[c]).id == (
                #[trigger] self.trades@[t].locked_chunks@[k2]).chunk_id && self.chunks@[c].status
                    is Locked && self.chunks@[c].locked_by == Some(self.trades@[t].id) by {
                let c = choose|c: int|
                    0 <= c < old(self).chunks@.len() && (#[trigger] old(self).chunks@[c]).id
                        == old(self).trades@[t].locked_chunks@[k2].chunk_id && old(self).chunks@[c].status is Locked && old(self).chunks@[c].locked_by == Some(
                        old(self).trades@[t].id,
                    );
                assert(self.chunks@[c] == old(self).chunks@[c]);
            }
        }
        order_id
    }
}


impl Engine {
    /// Whether the order has a chunk that can still be retargeted.
    fn has_editable_chunk(&self, order_id: u64) -> (r: bool)
        ensures
            r == exists|ci: int|
                0 <= ci < self.chunks@.len() && crate::chunks::retarget_applies(
                    #[trigger] self.chunks@[ci],
                    order_id,
                    true,
                    true,
                ),
    {
        let mut ci: usize = 0;
        while ci < self.chunks.len()
            invariant
                ci <= self.chunks@.len(),
                forall|c2: int|
                    0 <= c2 < ci ==> !crate::chunks::retarget_applies(
                        #[trigger] self.chunks@[c2],
                        order_id,
                        true,
                        true,
                    ),
            decreases self.chunks@.len() - ci,
        {
            if self.chunks[ci].order_id == order_id && (matches!(
                self.chunks[ci].status,
                ChunkStatus::Available,
            ) || matches!(self.chunks[ci].status, ChunkStatus::Idle)) {
                proof {
                    assert(crate::chunks::retarget_applies(
                        self.chunks@[ci as int],
                        order_id,
                        true,
                        true,
                    ));
                }
                return true;
            }
            ci = ci + 1;
        }
        false
    }

    /// Retarget an order's price cap: the available and idle chunks take the
    /// new cap and are re-listed or delisted against the cached market
    /// price; locked and terminal chunks keep their captured cap.
    pub fn update_max_bsv_price(
        &mut self,
        order_id: u64,
        caller: &PrincipalId,
        new_max_e6: u64,
    ) -> (r: Result<(), OrderError>)
        requires
            old(self).inv(),
        ensures
            final(self).inv(),
            match r {
                Ok(_) => exists|oi: int|
                    {
                        &&& 0 <= oi < old(self).orders@.len()
                        &&& (#[trigger] old(self).orders@[oi]).id == order_id
                        &&& old(self).orders@[oi].maker@ == caller@
                        &&& new_max_e6 > 0
                        &&& final(self).orders@[oi].max_bsv_price_e6 == new_max_e6
                        &&& forall|ci: int|
                            0 <= ci < old(self).chunks@.len() ==> (
                            #[trigger] final(self).chunks@[ci]) == (
                            if crate::chunks::retarget_applies(
                                old(self).chunks@[ci],
                                order_id,
                                true,
                                true,
                            ) {
                                Chunk {
                                    status: crate::chunks::unlock_status(
                                        old(self).cached_bsv_price_e6,
                                        new_max_e6,
                                    ),
                                    locked_by: None,
                                    max_bsv_price_e6: new_max_e6,
                                    ..old(self).chunks@[ci]
                                }
                            } else {
                                old(self).chunks@[ci]
                            })
                    },
                Err(e) => {
                    &&& final(self).chunks@ == old(self).chunks@
                    &&& final(self).orders@ == old(self).orders@
                    &&& match e {
                        OrderError::OrderNotFound => !has_order_id(old(self).orders@, order_id),
                        OrderError::NotMaker => exists|oi: int|
                            0 <= oi < old(self).orders@.len() && (#[trigger] old(self).orders@[oi]).id == order_id && old(self).orders@[oi].maker@
                                != caller@,
                        OrderError::BadPrice => new_max_e6 == 0,
                        OrderError::NoEditableChunks => !exists|ci: int|
                            0 <= ci < old(self).chunks@.len()
                                && crate::chunks::retarget_applies(
                                #[trigger] old(self).chunks@[ci],
                                order_id,
                                true,
                                true,
                            ),
                        _ => false,
                    }
                },
            },
    {
        let oi = match find_order_idx(&self.orders, order_id) {
            Some(i) => i,
            None => {
                return Err(OrderError::OrderNotFound);
            },
        };
        if !self.orders[oi].maker.eq_principal(caller) {
            return Err(OrderError::NotMaker);
        }
        if new_max_e6 == 0 {
            return Err(OrderError::BadPrice);
        }
        if !self.has_editable_chunk(order_id) {
            return Err(OrderError::NoEditableChunks);
        }
        let desired = if self.cached_bsv_price_e6 > new_max_e6 {
            ChunkStatus::Idle
        } else {
            ChunkStatus::Available
        };
        self.retarget_chunks(order_id, true, true, desired, Some(new_max_e6));
        let ghost mid = *self;
        self.set_order_max_price(oi, new_max_e6);
        proof {
            assert(self.chunks@ == mid.chunks@);
        }
        Ok(())
    }

    /// What a cancellation owes back: everything in the escrow above what
    /// the still-locked chunks need, incentive included.  The caller reads
    /// the escrow balance, transfers the refundable part, then commits.
    pub fn check_cancel(&self, order_id: u64, caller: &PrincipalId) -> (r: Result<
        u128,
        OrderError,
    >)
        requires
            self.inv(),
        ensures
            match r {
                Ok(locked_with_incentive) => exists|oi: int|
                    {
                        &&& 0 <= oi < self.orders@.len()
                        &&& (#[trigger] self.orders@[oi]).id == order_id
                        &&& !caller.spec_is_anonymous()
                        &&& self.orders@[oi].maker@ == caller@
                        &&& !(self.orders@[oi].status is Filled || self.orders@[oi].status
                            is Cancelled || self.orders@[oi].status is Refunded)
                        &&& locked_with_incentive == self.orders@[oi].total_locked_e6 * (10000
                            + FILLER_INCENTIVE_BPS) / 10000
                    },
                Err(e) => match e {
                    OrderError::Anonymous => caller.spec_is_anonymous(),
                    OrderError::OrderNotFound => !has_order_id(self.orders@, order_id),
                    OrderError::NotMaker => exists|oi: int|
                        0 <= oi < self.orders@.len() && (#[trigger] self.orders@[oi]).id
                            == order_id && self.orders@[oi].maker@ != caller@,
                    OrderError::AlreadyFinished => exists|oi: int|
                        0 <= oi < self.orders@.len() && (#[trigger] self.orders@[oi]).id
                            == order_id && (self.orders@[oi].status is Filled
                            || self.orders@[oi].status is Cancelled || self.orders@[oi].status
                            is Refunded),
                    _ => false,
                },
            },
    {
        if caller.is_anonymous() {
            return Err(OrderError::Anonymous);
        }
        let oi = match find_order_idx(&self.orders, order_id) {
            Some(i) => i,
            None => {
                return Err(OrderError::OrderNotFound);
            },
        };
        if !self.orders[oi].maker.eq_principal(caller) {
            return Err(OrderError::NotMaker);
        }
        if matches!(self.orders[oi].status, OrderStatus::Filled) || matches!(
            self.orders[oi].status,
            OrderStatus::Cancelled,
        ) || matches!(self.orders[oi].status, OrderStatus::Refunded) {
            return Err(OrderError::AlreadyFinished);
        }
        let locked = self.orders[oi].total_locked_e6;
        let with_incentive: u128 = (locked as u128) * ((10000 + FILLER_INCENTIVE_BPS) as u128)
            / 10000;
        proof {
            assert((locked as u128) * ((10000 + FILLER_INCENTIVE_BPS) as u128) / 10000 == locked
                * (10000 + FILLER_INCENTIVE_BPS) / 10000) by (nonlinear_arith);
        }
        Ok(with_incentive)
    }

    /// Commit a cancellation: every available or idle chunk is refunded,
    /// chunks already refunded stay as they are, locked chunks stay with
    /// their trades, and the order ends partially filled while a lock
    /// remains, cancelled otherwise.  The activation fee is never refunded.
    pub fn commit_cancel(&mut self, order_id: u64, caller: &PrincipalId) -> (r: Result<
        (),
        OrderError,
    >)
        requires
            old(self).inv(),
        ensures
            final(self).inv(),
            match r {
                Ok(_) => exists|oi: int|
                    {
                        &&& 0 <= oi < old(self).orders@.len()
                        &&& (#[trigger] old(self).orders@[oi]).id == order_id
                        &&& old(self).orders@[oi].maker@ == caller@
                        &&& forall|ci: int|
                            0 <= ci < old(self).chunks@.len() ==> (
                            #[trigger] final(self).chunks@[ci]) == (
                            if crate::chunks::retarget_applies(
                                old(self).chunks@[ci],
                                order_id,
                                true,
                                true,
                            ) {
                                Chunk {
                                    status: ChunkStatus::Refunded,
                                    locked_by: None,
                                    ..old(self).chunks@[ci]
                                }
                            } else {
                                old(self).chunks@[ci]
                            })
                        &&& (final(self).orders@[oi].status == (
                        if crate::engine::sum_status(
                            final(self).chunks@,
                            order_id,
                            ChunkStatus::Locked,
                        ) > 0 {
                            OrderStatus::PartiallyFilled
                        } else {
                            OrderStatus::Cancelled
                        }))
                    },
                Err(e) => {
                    &&& final(self).chunks@ == old(self).chunks@
                    &&& final(self).orders@ == old(self).orders@
                    &&& match e {
                        OrderError::Anonymous => caller.spec_is_anonymous(),
                        OrderError::OrderNotFound => !has_order_id(old(self).orders@, order_id),
                        OrderError::NotMaker => exists|oi: int|
                            0 <= oi < old(self).orders@.len() && (#[trigger] old(self).orders@[oi]).id == order_id && old(self).orders@[oi].maker@
                                != caller@,
                        OrderError::AlreadyFinished => exists|oi: int|
                            0 <= oi < old(self).orders@.len() && (#[trigger] old(self).orders@[oi]).id == order_id && (old(self).orders@[oi].status
                                is Filled || old(self).orders@[oi].status is Cancelled || old(self).orders@[oi].status is Refunded),
                        _ => false,
                    }
                },
            },
    {
        if caller.is_anonymous() {
            return Err(OrderError::Anonymous);
        }
        let oi = match find_order_idx(&self.orders, order_id) {
            Some(i) => i,
            None => {
                return Err(OrderError::OrderNotFound);
            },
        };
        if !self.orders[oi].maker.eq_principal(caller) {
            return Err(OrderError::NotMaker);
        }
        if matches!(self.orders[oi].status, OrderStatus::Filled) || matches!(
            self.orders[oi].status,
            OrderStatus::Cancelled,
        ) || matches!(self.orders[oi].status, OrderStatus::Refunded) {
            return Err(OrderError::AlreadyFinished);
        }
        self.retarget_chunks(order_id, true, true, ChunkStatus::Refunded, None);
        let any_locked = self.orders[oi].total_locked_e6 > 0;
        let new_status = if any_locked {
            OrderStatus::PartiallyFilled
        } else {
            OrderStatus::Cancelled
        };
        let ghost mid = *self;
        self.set_order_status(oi, new_status);
        proof {
            assert(self.chunks@ == mid.chunks@);
            assert(self.orders@[oi as int].total_locked_e6
                == mid.orders@[oi as int].total_locked_e6);
        }
        Ok(())
    }

    /// Delist every active order whose cap the cached market price has
    /// broken: its available chunks go idle and the order goes idle.  No
    /// other chunk changes, and exactly the outpriced active orders are
    /// delisted.
    #[verifier::loop_isolation(false)]
    pub fn mark_idle_orders(&mut self)
        requires
            old(self).inv(),
        ensures
            final(self).inv(),
            final(self).trades@ == old(self).trades@,
            final(self).used_txids@ == old(self).used_txids@,
            final(self).chunks@.len() == old(self).chunks@.len(),
            final(self).orders@.len() == old(self).orders@.len(),
            forall|ci: int|
                0 <= ci < old(self).chunks@.len() ==> (#[trigger] final(self).chunks@[ci])
                    == old(self).chunks@[ci] || (old(self).chunks@[ci].status is Available
                    && final(self).chunks@[ci] == (Chunk {
                    status: ChunkStatus::Idle,
                    locked_by: None,
                    ..old(self).chunks@[ci]
                })),
            forall|oi: int|
                0 <= oi < old(self).orders@.len() && (#[trigger] old(self).orders@[oi]).status
                    is Active && old(self).orders@[oi].max_bsv_price_e6 < old(self).cached_bsv_price_e6 ==> final(self).orders@[oi].status is Idle,
            forall|ci: int, oi: int|
                0 <= ci < old(self).chunks@.len() && 0 <= oi < old(self).orders@.len() && (
                #[trigger] old(self).chunks@[ci]).status is Available && (#[trigger] old(self).orders@[oi]).id == old(self).chunks@[ci].order_id && old(self).orders@[oi].status is Active && old(self).orders@[oi].max_bsv_price_e6 < old(self).cached_bsv_price_e6 ==> final(self).chunks@[ci].status is Idle,
    {
        let n = self.orders.len();
        let mut oi: usize = 0;
        while oi < n
            invariant
                self.inv(),
                oi <= n,
                n == self.orders@.len(),
                self.orders@.len() == old(self).orders@.len(),
                self.chunks@.len() == old(self).chunks@.len(),
                self.trades@ == old(self).trades@,
                self.used_txids@ == old(self).used_txids@,
                self.cached_bsv_price_e6 == old(self).cached_bsv_price_e6,
                forall|ci: int|
                    0 <= ci < old(self).chunks@.len() ==> (#[trigger] self.chunks@[ci]) == old(self).chunks@[ci] || (old(self).chunks@[ci].status is Available
                        && self.chunks@[ci] == (Chunk {
                        status: ChunkStatus::Idle,
                        locked_by: None,
                        ..old(self).chunks@[ci]
                    })),
                forall|o2: int|
                    0 <= o2 < n ==> (#[trigger] self.orders@[o2]).id == old(self).orders@[o2].id
                        && self.orders@[o2].max_bsv_price_e6 == old(self).orders@[o2].max_bsv_price_e6,
                forall|o2: int|
                    oi <= o2 < n ==> (#[trigger] self.orders@[o2]).status == old(self).orders@[o2].status,
                forall|o2: int|
                    0 <= o2 < oi && (#[trigger] old(self).orders@[o2]).status is Active && old(self).orders@[o2].max_bsv_price_e6 < old(self).cached_bsv_price_e6 ==> self.orders@[o2].status is Idle,
                forall|c2: int, o2: int|
                    0 <= c2 < old(self).chunks@.len() && 0 <= o2 < oi && (#[trigger] old(self).chunks@[c2]).status is Available && (#[trigger] old(self).orders@[o2]).id
                        == old(self).chunks@[c2].order_id && old(self).orders@[o2].status
                        is Active && old(self).orders@[o2].max_bsv_price_e6 < old(self).cached_bsv_price_e6 ==> self.chunks@[c2].status is Idle,
            decreases n - oi,
        {
            if matches!(self.orders[oi].status, OrderStatus::Active)
                && self.orders[oi].max_bsv_price_e6 < self.cached_bsv_price_e6 {
                let order_id = self.orders[oi].id;
                let ghost before = *self;
                self.retarget_chunks(order_id, true, false, ChunkStatus::Idle, None);
                let ghost mid = *self;
                self.set_order_status(oi, OrderStatus::Idle);
                proof {
                    crate::engine::lemma_txids_carry(mid, *self);
                    crate::engine::lemma_locking_carry(mid, *self);
                    assert forall|ci: int|
                        0 <= ci < old(self).chunks@.len() implies (
                    #[trigger] self.chunks@[ci]) == old(self).chunks@[ci] || (old(self).chunks@[ci].status is Available && self.chunks@[ci] == (Chunk {
                        status: ChunkStatus::Idle,
                        locked_by: None,
                        ..old(self).chunks@[ci]
                    })) by {
                        if self.chunks@[ci] != before.chunks@[ci] {
                            assert(crate::chunks::retarget_applies(
                                before.chunks@[ci],
                                order_id,
                                true,
                                false,
                            ));
                            assert(before.chunks@[ci] == old(self).chunks@[ci]
                                || before.chunks@[ci].status is Idle);
                        }
                    }
                    assert forall|c2: int, o2: int|
                        0 <= c2 < old(self).chunks@.len() && 0 <= o2 < oi + 1 && (#[trigger] old(self).chunks@[c2]).status is Available && (#[trigger] old(self).orders@[o2]).id == old(self).chunks@[c2].order_id && old(self).orders@[o2].status is Active && old(self).orders@[o2].max_bsv_price_e6
                            < old(self).cached_bsv_price_e6 implies self.chunks@[c2].status
                        is Idle by {
                        if o2 == oi as int {
                            assert(old(self).orders@[o2].id == order_id);
                            if !(before.chunks@[c2].status is Idle) {
                                assert(before.chunks@[c2] == old(self).chunks@[c2]);
                                assert(crate::chunks::retarget_applies(
                                    before.chunks@[c2],
                                    order_id,
                                    true,
                                    false,
                                ));
                            }
                        }
                    }
                }
            }
            oi = oi + 1;
        }
    }

    /// Re-list idle chunks whose order is live again under the cached
    /// price, stopping at the orderbook ceiling.  Returns how many chunks
    /// were re-listed: the available orderbook grows by exactly that many
    /// chunk amounts, and an idle chunk of an eligible order stays idle
    /// only when re-listing it would break the ceiling.
    #[verifier::loop_isolation(false)]
    #[verifier::rlimit(100)]
    #[verifier::spinoff_prover]
    pub fn reactivate_idle_chunks(&mut self) -> (r: u64)
        requires
            old(self).inv(),
        ensures
            final(self).inv(),
            final(self).trades@ == old(self).trades@,
            final(self).used_txids@ == old(self).used_txids@,
            final(self).chunks@.len() == old(self).chunks@.len(),
            final(self).orders@.len() == old(self).orders@.len(),
            forall|ci: int|
                0 <= ci < old(self).chunks@.len() ==> (#[trigger] final(self).chunks@[ci])
                    == old(self).chunks@[ci] || (old(self).chunks@[ci].status is Idle && final(self).chunks@[ci] == (Chunk {
                    status: ChunkStatus::Available,
                    locked_by: None,
                    ..old(self).chunks@[ci]
                })),
            crate::engine::sum_available(final(self).chunks@) == crate::engine::sum_available(
                old(self).chunks@,
            ) + r * CHUNK_SIZE_E6,
            forall|ci: int, oi: int|
                0 <= ci < old(self).chunks@.len() && 0 <= oi < old(self).orders@.len() && (
                #[trigger] old(self).chunks@[ci]).status is Idle && (#[trigger] old(self).orders@[oi]).id == old(self).chunks@[ci].order_id && (old(self).orders@[oi].status is Active || old(self).orders@[oi].status
                    is PartiallyFilled || old(self).orders@[oi].status is Idle) && old(self).orders@[oi].max_bsv_price_e6 >= old(self).cached_bsv_price_e6 ==> final(self).chunks@[ci].status is Available || crate::engine::sum_available(
                    final(self).chunks@,
                ) + old(self).chunks@[ci].amount_e6 > MAX_ORDERBOOK_E6,
    {
        let mut count: u64 = 0;
        let n = self.chunks.len();
        let mut ci: usize = 0;
        while ci < n
            invariant
                self.inv(),
                ci <= n,
                n == self.chunks@.len(),
                count <= ci,
                self.chunks@.len() == old(self).chunks@.len(),
                self.orders@.len() == old(self).orders@.len(),
                self.trades@ == old(self).trades@,
                self.used_txids@ == old(self).used_txids@,
                self.cached_bsv_price_e6 == old(self).cached_bsv_price_e6,
                forall|c2: int|
                    0 <= c2 < old(self).chunks@.len() ==> (#[trigger] self.chunks@[c2]) == old(self).chunks@[c2] || (old(self).chunks@[c2].status is Idle && self.chunks@[c2]
                        == (Chunk {
                        status: ChunkStatus::Available,
                        locked_by: None,
                        ..old(self).chunks@[c2]
                    })),
                forall|c2: int| ci <= c2 < n ==> (#[trigger] self.chunks@[c2]) == old(self).chunks@[c2],
                forall|o2: int|
                    0 <= o2 < self.orders@.len() ==> (#[trigger] self.orders@[o2]).id == old(self).orders@[o2].id && self.orders@[o2].max_bsv_price_e6 == old(self).orders@[o2].max_bsv_price_e6 && (self.orders@[o2].status == old(self).orders@[o2].status || (old(self).orders@[o2].status is Idle
                        && self.orders@[o2].status is Active)),
                crate::engine::sum_available(self.chunks@) == crate::engine::sum_available(
                    old(self).chunks@,
                ) + count * CHUNK_SIZE_E6,
                forall|c2: int, o2: int|
                    0 <= c2 < ci && 0 <= o2 < old(self).orders@.len() && (#[trigger] old(self).chunks@[c2]).status is Idle && (#[trigger] old(self).orders@[o2]).id
                        == old(self).chunks@[c2].order_id && (old(self).orders@[o2].status
                        is Active || old(self).orders@[o2].status is PartiallyFilled || old(self).orders@[o2].status is Idle) && old(self).orders@[o2].max_bsv_price_e6
                        >= old(self).cached_bsv_price_e6 ==> self.chunks@[c2].status
                        is Available || crate::engine::sum_available(self.chunks@) + old(self).chunks@[c2].amount_e6 > MAX_ORDERBOOK_E6,
            decreases n - ci,
        {
            if matches!(self.chunks[ci].status, ChunkStatus::Idle) {
                let oid = self.chunks[ci].order_id;
                let oi = match find_order_idx(&self.orders, oid) {
                    Some(i) => i,
                    None => {
                        proof {
                            assert(has_order_id(self.orders@, oid));
                            assert(false);
                        }
                        0
                    },
                };
                let eligible = (matches!(self.orders[oi].status, OrderStatus::Active)
                    || matches!(self.orders[oi].status, OrderStatus::PartiallyFilled)
                    || matches!(self.orders[oi].status, OrderStatus::Idle))
                    && self.orders[oi].max_bsv_price_e6 >= self.cached_bsv_price_e6;
                proof {
                    // An old-state eligible owner of this chunk can only be
                    // the order the id lookup found, and it is still
                    // eligible now: idle owners may have woken, nothing
                    // else moved.
                    assert forall|o2: int|
                        0 <= o2 < old(self).orders@.len() && (#[trigger] old(self).orders@[o2]).id == old(self).chunks@[ci as int].order_id && (old(self).orders@[o2].status is Active || old(self).orders@[o2].status
                            is PartiallyFilled || old(self).orders@[o2].status is Idle) && old(self).orders@[o2].max_bsv_price_e6 >= old(self).cached_bsv_price_e6 implies eligible by {
                        assert(self.orders@[o2].id == self.orders@[oi as int].id);
                        if o2 < oi as int {
                            assert(self.orders@[o2].id < self.orders@[oi as int].id);
                        }
                        if o2 > oi as int {
                            assert(self.orders@[o2].id > self.orders@[oi as int].id);
                        }
                        assert(o2 == oi as int);
                    }
                }
                if eligible {
                    let ob = self.get_available_orderbook();
                    proof {
                        assert(self.chunks@[ci as int].amount_e6 == CHUNK_SIZE_E6);
                    }
                    if ob <= (MAX_ORDERBOOK_E6 as u128) - (self.chunks[ci].amount_e6 as u128) {
                        let ghost before = *self;
                        let fa = self.chunks[ci].filled_at;
                        self.set_chunk_state(ci, ChunkStatus::Available, None, fa);
                        count = count + 1;
                        proof {
                            assert forall|t: int, k2: int|
                                0 <= t < self.trades@.len() && 0 <= k2
                                    < self.trades@[t].locked_chunks@.len()
                                    && self.trades@[t].status.holds_locks() implies exists|
                                c: int,
                            |
                                0 <= c < self.chunks@.len() && (#[trigger] self.chunks@[c]).id
                                    == (#[trigger] self.trades@[t].locked_chunks@[k2]).chunk_id
                                    && self.chunks@[c].status is Locked
                                    && self.chunks@[c].locked_by == Some(self.trades@[t].id) by {
                                let c = choose|c: int|
                                    0 <= c < before.chunks@.len() && (
                                    #[trigger] before.chunks@[c]).id
                                        == before.trades@[t].locked_chunks@[k2].chunk_id
                                        && before.chunks@[c].status is Locked
                                        && before.chunks@[c].locked_by == Some(
                                        before.trades@[t].id,
                                    );
                                assert(c != ci as int);
                                assert(self.chunks@[c] == before.chunks@[c]);
                            }
                            crate::engine::lemma_txids_carry(before, *self);
                        }
                        if matches!(self.orders[oi].status, OrderStatus::Idle) {
                            let ghost mid_r = *self;
                            self.set_order_status(oi, OrderStatus::Active);
                            proof {
                                crate::engine::lemma_txids_carry(mid_r, *self);
                                crate::engine::lemma_locking_carry(mid_r, *self);
                            }
                        }
                        proof {
                            assert(crate::engine::sum_available(self.chunks@)
                                == crate::engine::sum_available(before.chunks@)
                                + CHUNK_SIZE_E6);
                            assert((count * CHUNK_SIZE_E6) as int == (count - 1)
                                * CHUNK_SIZE_E6 + CHUNK_SIZE_E6) by (nonlinear_arith);
                        }
                    } else {
                        proof {
                            assert(crate::engine::sum_available(self.chunks@) + old(self).chunks@[ci as int].amount_e6 > MAX_ORDERBOOK_E6);
                        }
                    }
                }
            }
            ci = ci + 1;
        }
        count
    }
}


} // verus!
