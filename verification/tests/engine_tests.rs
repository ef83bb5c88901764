use usdcbsv_orderbook::block_store::{BlockHeader, BlockStore};
use usdcbsv_orderbook::bsv_tx::{
    parse_bsv_transaction, serialize_bsv_tx, BsvInput, BsvOutput, ParsedBsvTx,
};
use usdcbsv_orderbook::bump::{compute_merkle_root, parse_bump_hex, serialize_bump, BumpNode, BumpProof};
use usdcbsv_orderbook::engine::Engine;
use usdcbsv_orderbook::hashing::{compute_txid_of_bytes, hex_encode};
use usdcbsv_orderbook::laws::{escrow_transfer_net, order_subaccount, principal_to_subaccount, EscrowError};
use usdcbsv_orderbook::sync::{
    accept_batch, find_consensus_tip, get_sync_status, plan_sync_step, reorg_step, ReorgDecision,
    SyncAction, SyncError, TipInfo,
};
use usdcbsv_orderbook::orders::is_valid_bsv_mainnet_address;
use usdcbsv_orderbook::spv::{compute_txid, verify_tx_bump};
use usdcbsv_orderbook::trades::TradeError;
use usdcbsv_orderbook::types::{ChunkStatus, OrderStatus, PrincipalId, TradeStatus};

fn principal(tag: u8) -> PrincipalId {
    PrincipalId { bytes: vec![tag, 1, 2, 3] }
}

fn p2pkh_script(h: u8) -> Vec<u8> {
    let mut s = vec![0x76, 0xa9, 0x14];
    s.extend(std::iter::repeat(h).take(20));
    s.push(0x88);
    s.push(0xac);
    s
}

fn sample_tx() -> ParsedBsvTx {
    let script = p2pkh_script(7);
    let address = usdcbsv_orderbook::bsv_tx::extract_address_from_script(&script).unwrap();
    ParsedBsvTx {
        version: 1,
        inputs: vec![BsvInput {
            prev_tx_hash: vec![9u8; 32],
            prev_output_index: 3,
            script_sig: vec![0x51],
            sequence: 0xffffffff,
        }],
        outputs: vec![BsvOutput { address, satoshis: 6_666_666, script }],
        locktime: 0,
    }
}

#[test]
fn tx_round_trip() {
    let tx = sample_tx();
    let bytes = serialize_bsv_tx(&tx);
    let hexed = hex_encode(&bytes);
    let parsed = parse_bsv_transaction(&hexed).unwrap();
    assert_eq!(parsed.version, tx.version);
    assert_eq!(parsed.inputs.len(), 1);
    assert_eq!(parsed.inputs[0].prev_tx_hash, tx.inputs[0].prev_tx_hash);
    assert_eq!(parsed.inputs[0].prev_output_index, 3);
    assert_eq!(parsed.outputs.len(), 1);
    assert_eq!(parsed.outputs[0].satoshis, 6_666_666);
    assert_eq!(parsed.outputs[0].address, tx.outputs[0].address);
    assert_eq!(parsed.locktime, 0);
    // Serialising the parsed form gives the same bytes back.
    assert_eq!(serialize_bsv_tx(&parsed), bytes);
}

#[test]
fn tx_parse_rejects_garbage() {
    assert!(parse_bsv_transaction("zz").is_err());
    assert!(parse_bsv_transaction("0011").is_err());
}

#[test]
fn bump_round_trip() {
    let proof = BumpProof {
        block_height: 820_000,
        path: vec![
            vec![
                BumpNode { offset: 0, hash: "aa".repeat(32), txid: Some(true), duplicate: None },
                BumpNode { offset: 1, hash: "bb".repeat(32), txid: None, duplicate: None },
            ],
            vec![BumpNode { offset: 1, hash: String::new(), txid: None, duplicate: Some(true) }],
        ],
    };
    let bytes = serialize_bump(&proof).unwrap();
    let parsed = parse_bump_hex(&hex_encode(&bytes)).unwrap();
    assert_eq!(parsed.block_height, 820_000);
    assert_eq!(parsed.path.len(), 2);
    assert_eq!(parsed.path[0].len(), 2);
    assert_eq!(parsed.path[0][0].offset, 0);
    assert_eq!(parsed.path[0][0].hash, "aa".repeat(32));
    assert_eq!(parsed.path[0][0].txid, Some(true));
    assert_eq!(parsed.path[0][1].hash, "bb".repeat(32));
    assert_eq!(parsed.path[1][0].duplicate, Some(true));
}

fn dsha(data: &[u8]) -> Vec<u8> {
    let first = <sha2::Sha256 as sha2::Digest>::digest(data);
    <sha2::Sha256 as sha2::Digest>::digest(&first).to_vec()
}

/// Build the display-hex merkle root of a two-leaf tree from two display
/// txids.
fn root_of_pair(txid_left: &str, txid_right: &str) -> String {
    let mut l = hex::decode(txid_left).unwrap();
    l.reverse();
    let mut r = hex::decode(txid_right).unwrap();
    r.reverse();
    let mut combined = l.clone();
    combined.extend(r);
    let mut root = dsha(&combined);
    root.reverse();
    hex::encode(root)
}

fn header(height: u64, hash: &str, prev: &str, merkle: &str) -> BlockHeader {
    BlockHeader {
        height,
        hash: hash.to_string(),
        previous_hash: prev.to_string(),
        merkle_root: merkle.to_string(),
        timestamp: 0,
        bits: 0,
        nonce: 0,
        version: 0,
        raw_header: String::new(),
    }
}

#[test]
fn spv_accepts_buried_transaction_and_counts_confirmations() {
    let tx_bytes = serialize_bsv_tx(&sample_tx());
    let txid = compute_txid_of_bytes(&tx_bytes);
    let sibling = "cc".repeat(32);
    let root = root_of_pair(&txid, &sibling);

    let mut store = BlockStore::new();
    let mut prev = String::from("genesis");
    for h in 100..118u64 {
        let hash = format!("hash{h}");
        let merkle = if h == 100 { root.clone() } else { "dd".repeat(32) };
        store.store_block(header(h, &hash, &prev, &merkle));
        prev = hash;
    }

    let proof = BumpProof {
        block_height: 100,
        path: vec![vec![
            BumpNode { offset: 0, hash: txid.clone(), txid: Some(true), duplicate: None },
            BumpNode { offset: 1, hash: sibling, txid: None, duplicate: None },
        ]],
    };
    let computed = compute_merkle_root(&txid, &proof.path).unwrap();
    assert_eq!(computed, root);

    let bump_hex = hex_encode(&serialize_bump(&proof).unwrap());
    // Tip 117, block 100: exactly 18 confirmations.
    let v = verify_tx_bump(&store, &txid, &bump_hex).unwrap();
    assert!(v.verified);
    assert_eq!(v.confirmations, 18);
    assert_eq!(v.block_height, 100);

    // One block fewer and the proof is not yet confirmed.
    let mut short_store = BlockStore::new();
    let mut prev = String::from("genesis");
    for h in 100..117u64 {
        let hash = format!("hash{h}");
        let merkle = if h == 100 { root.clone() } else { "dd".repeat(32) };
        short_store.store_block(header(h, &hash, &prev, &merkle));
        prev = hash;
    }
    let v2 = verify_tx_bump(&short_store, &txid, &bump_hex).unwrap();
    assert!(!v2.verified);
    assert_eq!(v2.confirmations, 17);

    // A wrong merkle root is rejected outright.
    let mut bad_store = BlockStore::new();
    bad_store.store_block(header(100, "h", "g", &"ee".repeat(32)));
    assert!(verify_tx_bump(&bad_store, &txid, &bump_hex).is_err());
}

#[test]
fn block_store_linkage_and_reorg_removal() {
    let mut store = BlockStore::new();
    store.store_block(header(5, "a", "x", "m"));
    store.store_block(header(6, "b", "a", "m"));
    store.store_block(header(7, "c", "b", "m"));
    assert_eq!(store.get_highest_block(), 7);
    assert_eq!(store.get_block_count(), 3);
    assert_eq!(store.get_stored_range(), (5, 7));
    assert_eq!(store.get_block_by_height(6).unwrap().hash, "b");
    assert!(store.get_block_by_height(8).is_none());
    assert_eq!(store.get_block_by_hash("c").unwrap().height, 7);
    store.remove_blocks_from(6);
    assert_eq!(store.get_highest_block(), 5);
    assert_eq!(store.get_block_count(), 1);
}

#[test]
fn txid_of_known_bytes() {
    // The id is the double SHA-256 of the bytes, reversed, in hex.
    let bytes = vec![1u8, 2, 3];
    let mut expected = dsha(&bytes);
    expected.reverse();
    assert_eq!(compute_txid("010203").unwrap(), hex::encode(expected));
    assert!(compute_txid("01020g").is_err());
}

#[test]
fn address_validation() {
    // The address derived by the parser from a standard script is valid.
    let script = p2pkh_script(7);
    let addr = usdcbsv_orderbook::bsv_tx::extract_address_from_script(&script).unwrap();
    assert!(addr.starts_with('1'));
    assert!(is_valid_bsv_mainnet_address(&addr));
    assert!(!is_valid_bsv_mainnet_address(""));
    assert!(!is_valid_bsv_mainnet_address("2BvBMSEYstWetqTFn5Au4m4GFg7xJaNVN2"));
    assert!(!is_valid_bsv_mainnet_address("1BvBMSEYstWetqTFn5Au4m4GFg7xJaNVN3"));
}

#[test]
fn subaccount_derivation_is_deterministic_and_distinct() {
    let maker = principal(9);
    let a = order_subaccount(&maker, 0);
    let b = order_subaccount(&maker, 0);
    assert_eq!(a, b);
    assert_eq!(a.len(), 32);
    let c = order_subaccount(&maker, 1);
    assert_ne!(a, c);
    let d = principal_to_subaccount(&maker);
    assert_eq!(d.len(), 32);
    assert_ne!(a, d);
}

fn funded_engine(maker: &PrincipalId, price_e6: u64, max_price_e6: u64, amount_e6: u64) -> (Engine, u64, String) {
    let mut e = Engine::new();
    e.cached_bsv_price_e6 = price_e6;
    e.last_price_update = 1;
    let script = p2pkh_script(7);
    let addr = usdcbsv_orderbook::bsv_tx::extract_address_from_script(&script).unwrap();
    let fees = e
        .check_create_order(maker, amount_e6, max_price_e6, &addr, u128::MAX)
        .unwrap();
    let alloc_id = e.create_order_id();
    let oid = e.activate_order(
        alloc_id,
        maker,
        amount_e6,
        max_price_e6,
        addr.clone(),
        order_subaccount(maker, 0),
        fees.required_deposit_e6,
        fees.activation_fee_e6,
        fees.filler_incentive_e6,
        1_000,
    );
    (e, oid, addr)
}

#[test]
fn order_creation_fees_and_chunks() {
    let maker = principal(1);
    // Twelve dollars at a cap of fifty, market at forty-five.
    let (e, oid, _addr) = funded_engine(&maker, 45_000_000, 50_000_000, 12_000_000);
    assert_eq!(oid, 0);
    assert_eq!(e.orders.len(), 1);
    assert_eq!(e.orders[0].status, OrderStatus::Active);
    assert_eq!(e.chunks.len(), 4);
    for c in e.chunks.iter() {
        assert_eq!(c.amount_e6, 3_000_000);
        assert_eq!(c.status, ChunkStatus::Available);
    }
    // The fee breakdown of the twelve-dollar order.
    let fees = Engine::new()
        .check_create_order(&maker, 12_000_000, 50_000_000, &e.orders[0].bsv_address, u128::MAX)
        .unwrap();
    assert_eq!(fees.required_deposit_e6, 12_840_000);
    assert_eq!(fees.activation_fee_e6, 300_000);
    assert_eq!(fees.filler_incentive_e6, 540_000);
    // The derived orderbook equals the available chunk amounts.
    assert_eq!(e.get_available_orderbook(), 12_000_000);
}

#[test]
fn order_above_market_starts_idle() {
    let maker = principal(1);
    let (e, _oid, _addr) = funded_engine(&maker, 52_000_000, 50_000_000, 6_000_000);
    assert_eq!(e.orders[0].status, OrderStatus::Idle);
    assert_eq!(e.orders[0].total_idle_e6, 6_000_000);
    for c in e.chunks.iter() {
        assert_eq!(c.status, ChunkStatus::Idle);
    }
    assert_eq!(e.get_available_orderbook(), 0);
}

#[test]
fn order_rejections() {
    let maker = principal(1);
    let e = Engine::new();
    let script = p2pkh_script(7);
    let addr = usdcbsv_orderbook::bsv_tx::extract_address_from_script(&script).unwrap();
    // Not a multiple of the chunk size.
    assert!(e.check_create_order(&maker, 4_000_000, 50_000_000, &addr, u128::MAX).is_err());
    // Over the per-order ceiling of thirty chunks.
    assert!(e.check_create_order(&maker, 93_000_000, 50_000_000, &addr, u128::MAX).is_err());
    // Anonymous caller.
    assert!(e
        .check_create_order(&PrincipalId::anonymous(), 3_000_000, 50_000_000, &addr, u128::MAX)
        .is_err());
    // Zero price.
    assert!(e.check_create_order(&maker, 3_000_000, 0, &addr, u128::MAX).is_err());
    // Bad address.
    assert!(e.check_create_order(&maker, 3_000_000, 50_000_000, "nope", u128::MAX).is_err());
}

#[test]
fn lock_unlock_and_expiry_penalty() {
    let maker = principal(1);
    let (mut e, oid, _addr) = funded_engine(&maker, 45_000_000, 50_000_000, 12_000_000);
    let chunk_ids: Vec<u64> = e.chunks.iter().take(3).map(|c| c.id).collect();
    let trade_id = e.next_trade_id;
    e.next_trade_id += 1;
    e.lock_chunks_for_trade(&chunk_ids, trade_id).unwrap();
    assert_eq!(e.chunks[0].status, ChunkStatus::Locked);
    assert_eq!(e.chunks[0].locked_by, Some(trade_id));
    assert_eq!(e.orders[0].total_locked_e6, 9_000_000);
    assert_eq!(e.get_available_orderbook(), 3_000_000);

    // Build the trade by hand so the expiry path can run.
    let lcs: Vec<usdcbsv_orderbook::types::LockedChunk> = chunk_ids
        .iter()
        .map(|&cid| usdcbsv_orderbook::types::LockedChunk {
            chunk_id: cid,
            order_id: oid,
            amount_e6: 3_000_000,
            bsv_address: e.orders[0].bsv_address.clone(),
            sats_amount: 6_666_666,
        })
        .collect();
    e.trades.push(usdcbsv_orderbook::types::Trade {
        id: trade_id,
        order_id: oid,
        filler: principal(2),
        amount_e6: 9_000_000,
        locked_chunks: lcs,
        agreed_bsv_price_e6: 45_000_000,
        min_bsv_price_e6: 44_000_000,
        status: TradeStatus::ChunksLocked,
        bsv_tx_hex: None,
        created_at: 1_000,
        tx_submitted_at: None,
        lock_expires_at: 1_000 + 2_700_000_000_000,
        release_available_at: None,
        claim_expires_at: None,
        withdrawal_initiated_at: None,
        withdrawal_confirmed_at: None,
    });

    // Submission just before expiry is not refused for lateness.
    let bad_tx = String::from("00");
    let r = e.submit_bsv_transaction(trade_id, &principal(2), bad_tx, 1_000 + 2_700_000_000_000);
    assert!(matches!(r, Err(TradeError::BadTransaction)));
    // One nanosecond past the expiry the submission is refused for lateness.
    let r = e.submit_bsv_transaction(
        trade_id,
        &principal(2),
        String::from("00"),
        1_000 + 2_700_000_000_001,
    );
    assert!(matches!(r, Err(TradeError::LockExpired)));

    // The timeout sweep applies the ten percent penalty and frees the book.
    let penalty = e.apply_lock_expiry(trade_id, 1_001 + 2_700_000_000_000).unwrap();
    assert_eq!(penalty, 900_000);
    assert_eq!(e.trades[0].status, TradeStatus::PenaltyApplied);
    assert_eq!(e.chunks[0].status, ChunkStatus::Available);
    assert_eq!(e.orders[0].total_locked_e6, 0);
    assert_eq!(e.get_available_orderbook(), 12_000_000);
}

#[test]
fn submit_and_claim_windows() {
    let maker = principal(1);
    let (mut e, oid, addr) = funded_engine(&maker, 45_000_000, 50_000_000, 12_000_000);
    let chunk_ids: Vec<u64> = e.chunks.iter().take(3).map(|c| c.id).collect();
    let trade_id = e.next_trade_id;
    e.next_trade_id += 1;
    e.lock_chunks_for_trade(&chunk_ids, trade_id).unwrap();
    let lcs: Vec<usdcbsv_orderbook::types::LockedChunk> = chunk_ids
        .iter()
        .map(|&cid| usdcbsv_orderbook::types::LockedChunk {
            chunk_id: cid,
            order_id: oid,
            amount_e6: 3_000_000,
            bsv_address: addr.clone(),
            sats_amount: 6_666_666,
        })
        .collect();
    e.trades.push(usdcbsv_orderbook::types::Trade {
        id: trade_id,
        order_id: oid,
        filler: principal(2),
        amount_e6: 9_000_000,
        locked_chunks: lcs,
        agreed_bsv_price_e6: 45_000_000,
        min_bsv_price_e6: 44_000_000,
        status: TradeStatus::ChunksLocked,
        bsv_tx_hex: None,
        created_at: 1_000,
        tx_submitted_at: None,
        lock_expires_at: 1_000 + 2_700_000_000_000,
        release_available_at: None,
        claim_expires_at: None,
        withdrawal_initiated_at: None,
        withdrawal_confirmed_at: None,
    });

    // A transaction paying each locked chunk 6,666,666 satoshis at the
    // order's address, with one change output after them.
    let script = p2pkh_script(7);
    let pay = BsvOutput { address: addr.clone(), satoshis: 6_666_666, script: script.clone() };
    let tx = ParsedBsvTx {
        version: 1,
        inputs: vec![BsvInput {
            prev_tx_hash: vec![9u8; 32],
            prev_output_index: 0,
            script_sig: vec![0x51],
            sequence: 0xffffffff,
        }],
        outputs: vec![
            pay.clone(),
            pay.clone(),
            pay.clone(),
            BsvOutput { address: addr.clone(), satoshis: 123, script },
        ],
        locktime: 0,
    };
    let tx_hex = hex_encode(&serialize_bsv_tx(&tx));
    let t0 = 2_000u64;
    e.submit_bsv_transaction(trade_id, &principal(2), tx_hex.clone(), t0).unwrap();
    assert_eq!(e.trades[0].status, TradeStatus::TxSubmitted);
    assert_eq!(e.trades[0].tx_submitted_at, Some(t0));
    assert_eq!(e.trades[0].release_available_at, Some(t0 + 10_800_000_000_000));
    assert_eq!(e.trades[0].claim_expires_at, Some(t0 + 86_400_000_000_000));

    // The same transaction cannot serve a second trade.
    let other = e.get_trade_using_tx(&compute_txid(&tx_hex).unwrap());
    assert_eq!(other, Some(trade_id));

    // Claiming before the release time is refused.
    let store = BlockStore::new();
    let r = e.check_claim(
        &store,
        trade_id,
        &principal(2),
        &tx_hex,
        "00",
        t0 + 10_800_000_000_000 - 1,
    );
    assert!(matches!(r, Err(TradeError::ReleaseNotReached)));
    // Claiming past the claim expiry is refused.
    let r = e.check_claim(
        &store,
        trade_id,
        &principal(2),
        &tx_hex,
        "00",
        t0 + 86_400_000_000_000 + 1,
    );
    assert!(matches!(r, Err(TradeError::ClaimExpired)));
    // A different transaction than the stored one is refused.
    let r = e.check_claim(
        &store,
        trade_id,
        &principal(2),
        "0000",
        "00",
        t0 + 10_800_000_000_000,
    );
    assert!(matches!(r, Err(TradeError::TxMismatch)));

    // The resubmission window closes two hours after the first submission.
    let r = e.check_resubmit(
        trade_id,
        &principal(2),
        &tx_hex,
        t0 + 7_200_000_000_000 + 1,
        10_000_000,
    );
    assert!(matches!(r, Err(TradeError::ResubmissionWindowExpired)));
    let penalty = e
        .check_resubmit(trade_id, &principal(2), &tx_hex, t0 + 7_200_000_000_000, 10_000_000)
        .unwrap();
    // Two percent of the nine-dollar trade.
    assert_eq!(penalty, 180_000);

    // Resubmitting keeps the claim expiry and the submission time.
    let t1 = t0 + 1_800_000_000_000;
    e.resubmit_bsv_transaction(trade_id, &principal(2), tx_hex.clone(), t1).unwrap();
    assert_eq!(e.trades[0].tx_submitted_at, Some(t0));
    assert_eq!(e.trades[0].release_available_at, Some(t1 + 10_800_000_000_000));
    assert_eq!(e.trades[0].claim_expires_at, Some(t0 + 86_400_000_000_000));

    // The reclaim sweep after the claim expiry ends the trade and fills the
    // chunks.
    let penalty = e.commit_reclaim(trade_id, t0 + 86_400_000_000_001).unwrap();
    assert_eq!(penalty, 900_000);
    assert_eq!(e.trades[0].status, TradeStatus::Cancelled);
    assert_eq!(e.chunks[0].status, ChunkStatus::Filled);
    assert_eq!(e.orders[0].total_filled_e6, 9_000_000);
    assert_eq!(e.orders[0].status, OrderStatus::PartiallyFilled);
}

#[test]
fn txid_index_round_trip() {
    let mut e = Engine::new();
    assert!(!e.is_bsv_tx_used("ab"));
    e.mark_bsv_tx_used(String::from("ab"), 7);
    assert!(e.is_bsv_tx_used("ab"));
    assert_eq!(e.get_trade_using_tx("ab"), Some(7));
    e.unmark_bsv_tx("ab");
    assert!(!e.is_bsv_tx_used("ab"));
}

#[test]
fn toggles_and_ids() {
    let mut e = Engine::new();
    assert!(e.are_new_orders_enabled());
    e.set_new_orders_enabled(false);
    assert!(!e.are_new_orders_enabled());
    assert_eq!(e.create_order_id(), 0);
    assert_eq!(e.create_order_id(), 1);
    assert_eq!(e.create_chunk_id(), 0);
    assert_eq!(e.create_trade_id(), 0);
    assert_eq!(e.create_refund_id(), 0);
    assert_eq!(e.get_admin_events_count(), 0);
}

#[test]
fn block_cleanup_keeps_retention_window() {
    let mut store = BlockStore::new();
    let mut prev = String::from("g");
    for h in 1..=300u64 {
        let hash = format!("h{h}");
        store.store_block(header(h, &hash, &prev, "m"));
        prev = hash;
    }
    let removed = store.cleanup_old_blocks();
    assert_eq!(removed, 12);
    assert_eq!(store.get_block_count(), 288);
    assert_eq!(store.get_stored_range(), (13, 300));
    assert!(store.should_sync(900));
    store.update_sync_time(100);
    assert!(!store.should_sync(900));
    assert!(store.should_sync(1000));
}

#[test]
fn trade_id_value_bytes_round_trip() {
    let v = usdcbsv_orderbook::types::TradeIdValue(0x0102030405060708);
    let bytes = v.to_bytes();
    assert_eq!(bytes, vec![8, 7, 6, 5, 4, 3, 2, 1]);
    assert_eq!(usdcbsv_orderbook::types::TradeIdValue::from_bytes(&bytes), v);
}

#[test]
fn evm_address_validation() {
    let good = format!("0x{}", "ab12".repeat(10));
    assert!(usdcbsv_orderbook::orders::is_valid_evm_address(&good));
    assert!(!usdcbsv_orderbook::orders::is_valid_evm_address("0x1234"));
    let bad = format!("0x{}", "zz12".repeat(10));
    assert!(!usdcbsv_orderbook::orders::is_valid_evm_address(&bad));
    let no_prefix = format!("1x{}", "ab12".repeat(10));
    assert!(!usdcbsv_orderbook::orders::is_valid_evm_address(&no_prefix));
}

#[test]
fn fifo_matching_happy_path_and_skip_rule() {
    // Twelve dollars at a cap of fifty, market cached at forty-five.
    let maker = principal(1);
    let (mut e, oid, _addr) = funded_engine(&maker, 45_000_000, 50_000_000, 12_000_000);
    let filler = principal(2);
    // Nine dollars requested: three chunks of three, one trade, pinned at
    // the cached price, 6,666,666 satoshis per chunk.
    let ids = e
        .create_trades(&filler, 9_000_000, 44_000_000, true, 10_000_000, 1_000)
        .unwrap();
    assert_eq!(ids.len(), 1);
    let t = &e.trades[0];
    assert_eq!(t.id, ids[0]);
    assert_eq!(t.order_id, oid);
    assert_eq!(t.amount_e6, 9_000_000);
    assert_eq!(t.agreed_bsv_price_e6, 45_000_000);
    assert_eq!(t.status, TradeStatus::ChunksLocked);
    assert_eq!(t.lock_expires_at, 1_000 + 2_700_000_000_000);
    assert_eq!(t.locked_chunks.len(), 3);
    for lc in t.locked_chunks.iter() {
        assert_eq!(lc.sats_amount, 6_666_666);
        assert_eq!(lc.amount_e6, 3_000_000);
    }
    // The fourth chunk stays available.
    assert_eq!(e.get_available_orderbook(), 3_000_000);
    assert_eq!(e.chunks.iter().filter(|c| c.status == ChunkStatus::Locked).count(), 3);
}

#[test]
fn matching_skips_chunk_larger_than_remainder() {
    // An eight-dollar request against three-dollar chunks takes two chunks
    // for six dollars; the two-dollar remainder cannot take a third.
    let maker = principal(1);
    let (mut e, _oid, _addr) = funded_engine(&maker, 45_000_000, 50_000_000, 12_000_000);
    let filler = principal(2);
    let ids = e
        .create_trades(&filler, 8_000_000, 44_000_000, true, 10_000_000, 1_000)
        .unwrap();
    assert_eq!(ids.len(), 1);
    assert_eq!(e.trades[0].amount_e6, 6_000_000);
    assert_eq!(e.get_available_orderbook(), 6_000_000);
    // With partial fills forbidden, the same request is refused before any
    // state changes.
    let maker2 = principal(3);
    let (mut e2, _o2, _a2) = funded_engine(&maker2, 45_000_000, 50_000_000, 12_000_000);
    let r = e2.create_trades(&filler, 8_000_000, 44_000_000, false, 10_000_000, 1_000);
    assert!(matches!(r, Err(TradeError::CannotFillCompletely)));
    assert_eq!(e2.get_available_orderbook(), 12_000_000);
    assert!(e2.trades.is_empty());
}

#[test]
fn matching_guards() {
    let maker = principal(1);
    let (mut e, _oid, _addr) = funded_engine(&maker, 45_000_000, 50_000_000, 12_000_000);
    let filler = principal(2);
    // A floor above the market is refused.
    let r = e.create_trades(&filler, 9_000_000, 46_000_000, true, 10_000_000, 1_000);
    assert!(matches!(r, Err(TradeError::MinPriceAboveMarket)));
    // A stale cache is refused.
    let r = e.create_trades(&filler, 9_000_000, 44_000_000, true, 10_000_000, 301_000_000_001);
    assert!(matches!(r, Err(TradeError::PriceStale)));
    // Too little security for the ten percent deposit.
    let r = e.create_trades(&filler, 9_000_000, 44_000_000, true, 899_999, 1_000);
    assert!(matches!(r, Err(TradeError::InsufficientSecurity)));
}

#[test]
fn price_retarget_and_idle_cycle() {
    // An order at a cap of fifty with the market at forty-five.
    let maker = principal(1);
    let (mut e, oid, _addr) = funded_engine(&maker, 45_000_000, 50_000_000, 6_000_000);
    // Lowering the cap below the market delists the chunks.
    e.update_max_bsv_price(oid, &maker, 44_000_000).unwrap();
    assert_eq!(e.orders[0].max_bsv_price_e6, 44_000_000);
    for c in e.chunks.iter() {
        assert_eq!(c.status, ChunkStatus::Idle);
        assert_eq!(c.max_bsv_price_e6, 44_000_000);
    }
    assert_eq!(e.orders[0].total_idle_e6, 6_000_000);
    // Raising it again re-lists them.
    e.update_max_bsv_price(oid, &maker, 52_000_000).unwrap();
    for c in e.chunks.iter() {
        assert_eq!(c.status, ChunkStatus::Available);
    }
    // Only the maker may retarget.
    let r = e.update_max_bsv_price(oid, &principal(9), 60_000_000);
    assert!(matches!(
        r,
        Err(usdcbsv_orderbook::orders::OrderError::NotMaker)
    ));
}

#[test]
fn market_break_delists_and_return_relists() {
    // The market moves above the cap: the sweep delists; when it returns,
    // the sweep re-lists under the orderbook ceiling.
    let maker = principal(1);
    let (mut e, _oid, _addr) = funded_engine(&maker, 45_000_000, 50_000_000, 6_000_000);
    e.cached_bsv_price_e6 = 52_000_000;
    e.mark_idle_orders();
    assert_eq!(e.orders[0].status, OrderStatus::Idle);
    for c in e.chunks.iter() {
        assert_eq!(c.status, ChunkStatus::Idle);
    }
    e.cached_bsv_price_e6 = 49_000_000;
    let n = e.reactivate_idle_chunks();
    assert_eq!(n, 2);
    assert_eq!(e.orders[0].status, OrderStatus::Active);
    for c in e.chunks.iter() {
        assert_eq!(c.status, ChunkStatus::Available);
    }
}

#[test]
fn cancel_refunds_unlocked_chunks_only() {
    let maker = principal(1);
    let (mut e, oid, _addr) = funded_engine(&maker, 45_000_000, 50_000_000, 12_000_000);
    let filler = principal(2);
    e.create_trades(&filler, 9_000_000, 44_000_000, true, 10_000_000, 1_000).unwrap();
    // The plan reserves the locked amount with its incentive.
    let reserved = e.check_cancel(oid, &maker).unwrap();
    assert_eq!(reserved, 9_405_000);
    e.commit_cancel(oid, &maker).unwrap();
    // The free chunk is refunded, the locked ones stay with the trade.
    assert_eq!(e.chunks.iter().filter(|c| c.status == ChunkStatus::Refunded).count(), 1);
    assert_eq!(e.chunks.iter().filter(|c| c.status == ChunkStatus::Locked).count(), 3);
    assert_eq!(e.orders[0].status, OrderStatus::PartiallyFilled);
    // Cancelling an order with no locks ends it cancelled.
    let maker2 = principal(3);
    let (mut e2, oid2, _a2) = funded_engine(&maker2, 45_000_000, 50_000_000, 6_000_000);
    assert_eq!(e2.check_cancel(oid2, &maker2).unwrap(), 0);
    e2.commit_cancel(oid2, &maker2).unwrap();
    assert_eq!(e2.orders[0].status, OrderStatus::Cancelled);
    for c in e2.chunks.iter() {
        assert_eq!(c.status, ChunkStatus::Refunded);
    }
    // A second cancel is refused.
    assert!(matches!(
        e2.commit_cancel(oid2, &maker2),
        Err(usdcbsv_orderbook::orders::OrderError::AlreadyFinished)
    ));
}

#[test]
fn consensus_tip_decisions() {
    let tip = |h: u64, s: &str| TipInfo { height: h, hash: s.to_string() };
    // Matching tips are used directly.
    let (t, fb) =
        find_consensus_tip(Some(&tip(9, "x")), Some(&tip(9, "x")), &vec![], &vec![], None).unwrap();
    assert_eq!((t.height, t.hash.as_str(), fb), (9, "x", false));
    // Differing tips fall back to the first agreement in the recent window.
    let a_recent = vec![tip(9, "a9"), tip(8, "h8")];
    let b_recent = vec![tip(9, "b9"), tip(8, "h8")];
    let (t, fb) =
        find_consensus_tip(Some(&tip(9, "a9")), Some(&tip(9, "b9")), &a_recent, &b_recent, None)
            .unwrap();
    assert_eq!((t.height, t.hash.as_str(), fb), (8, "h8", false));
    // No agreement at all skips the cycle.
    let r = find_consensus_tip(
        Some(&tip(9, "a9")),
        Some(&tip(9, "b9")),
        &vec![tip(9, "a9")],
        &vec![tip(9, "b9")],
        None,
    );
    assert!(matches!(r, Err(SyncError::SourcesDisagree)));
    // One silent source uses the other with the fallback flag.
    let (t, fb) = find_consensus_tip(None, Some(&tip(7, "y")), &vec![], &vec![], None).unwrap();
    assert_eq!((t.height, fb), (7, true));
    assert!(matches!(
        find_consensus_tip(None, None, &vec![], &vec![], None),
        Err(SyncError::BothSourcesFailed)
    ));
    // With both live sources silent the archival companion's tip keeps the
    // sync moving, marked as a fallback.
    let (t, fb) = find_consensus_tip(None, None, &vec![], &vec![], Some(&tip(6, "z"))).unwrap();
    assert_eq!((t.height, t.hash.as_str(), fb), (6, "z", true));
}

#[test]
fn sync_plan_and_batches() {
    let mut store = BlockStore::new();
    assert_eq!(plan_sync_step(&store, 10, None), SyncAction::InitialSync);
    // A linked batch is accepted in full; a broken one stops at the break.
    let good = vec![header(5, "a", "g", "m"), header(6, "b", "a", "m"), header(7, "c", "b", "m")];
    assert_eq!(accept_batch(&mut store, good).unwrap(), 3);
    assert_eq!(store.get_highest_block(), 7);
    let bad = vec![header(8, "d", "c", "m"), header(9, "e", "wrong", "m")];
    assert!(accept_batch(&mut store, bad).is_err());
    assert_eq!(store.get_highest_block(), 8);
    // The plan continues forward while the source agrees with our tip.
    let agree = TipInfo { height: 8, hash: String::from("d") };
    assert_eq!(plan_sync_step(&store, 12, Some(&agree)), SyncAction::FetchFrom { start: 9 });
    assert_eq!(plan_sync_step(&store, 8, Some(&agree)), SyncAction::AlreadySynced);
    assert_eq!(plan_sync_step(&store, 12, None), SyncAction::SkipCycle);
    // A mismatch starts the backward walk, which finds the fork point.
    let disagree = TipInfo { height: 8, hash: String::from("other") };
    assert_eq!(
        plan_sync_step(&store, 12, Some(&disagree)),
        SyncAction::StartReorgCheck { height: 8 }
    );
    assert_eq!(reorg_step(&store, 8, "other", 0), ReorgDecision::CheckDeeper { height: 7 });
    assert_eq!(reorg_step(&store, 7, "c", 1), ReorgDecision::AgreeRemoveAbove { height: 7 });
    assert_eq!(reorg_step(&store, 7, "c", 50), ReorgDecision::BatchLimit { remove_from: 8 });
    let status = get_sync_status(&store, true);
    assert_eq!(status.highest_block, 8);
    assert_eq!(status.block_count, 4);
    assert!(status.is_syncing);
}

#[test]
fn penalties_reach_accounts_and_audit_log() {
    let maker = principal(1);
    let (mut e, _oid, _addr) = funded_engine(&maker, 45_000_000, 50_000_000, 12_000_000);
    let filler = principal(2);
    e.create_account_if_needed(&filler, 500);
    e.create_trades(&filler, 9_000_000, 44_000_000, true, 10_000_000, 1_000).unwrap();
    let tid = e.trades[0].id;
    let penalty = e.apply_lock_expiry(tid, 1_001 + 2_700_000_000_000).unwrap();
    assert_eq!(penalty, 900_000);
    let f = e.get_filler_account(&filler).unwrap();
    assert_eq!(e.filler_accounts[f].penalties_paid_e6, 900_000);
    assert_eq!(e.get_admin_events_count(), 1);
    assert!(matches!(
        e.admin_events[0].event_type,
        usdcbsv_orderbook::types::AdminEventType::PenaltyApplied { trade_id, penalty_e6, .. }
            if trade_id == tid && penalty_e6 == 900_000
    ));
}

#[test]
fn escrow_net_transfer_rule() {
    // The nine-dollar claim with its incentive nets $9.395 after the cent.
    assert_eq!(escrow_transfer_net(9_405_000).unwrap(), 9_395_000);
    assert!(matches!(escrow_transfer_net(10_000), Err(EscrowError::AmountTooSmall)));
    assert!(matches!(escrow_transfer_net(0), Err(EscrowError::AmountTooSmall)));
}

#[test]
fn treasury_addresses_round_trip() {
    let mut e = Engine::new();
    assert_eq!(e.get_treasury_addresses(), (None, None));
    e.treasury_address_arbitrum = Some(String::from("0xabc"));
    let (a, o) = e.get_treasury_addresses();
    assert_eq!(a.as_deref(), Some("0xabc"));
    assert!(o.is_none());
}

#[test]
fn retention_sweeps() {
    let maker = principal(1);
    let (mut e, _oid, _addr) = funded_engine(&maker, 45_000_000, 50_000_000, 6_000_000);
    let filler = principal(2);
    e.create_trades(&filler, 6_000_000, 44_000_000, true, 10_000_000, 1_000).unwrap();
    let tid = e.trades[0].id;
    e.apply_lock_expiry(tid, 1_001 + 2_700_000_000_000).unwrap();
    // The finished trade leaves after the retention cutoff; a live trade
    // would not.
    assert_eq!(e.cleanup_old_trades(1_000), 0);
    assert_eq!(e.cleanup_old_trades(2_000), 1);
    assert!(e.trades.is_empty());
    // Old audit entries leave too.
    assert_eq!(e.get_admin_events_count(), 1);
    assert_eq!(e.cleanup_old_admin_events(u64::MAX), 1);
    assert_eq!(e.get_admin_events_count(), 0);
}

#[test]
fn claim_falls_back_to_archive_header() {
    let maker = principal(1);
    let (mut e, oid, addr) = funded_engine(&maker, 45_000_000, 50_000_000, 12_000_000);
    let chunk_ids: Vec<u64> = e.chunks.iter().take(3).map(|c| c.id).collect();
    let trade_id = e.next_trade_id;
    e.next_trade_id += 1;
    e.lock_chunks_for_trade(&chunk_ids, trade_id).unwrap();
    let lcs: Vec<usdcbsv_orderbook::types::LockedChunk> = chunk_ids
        .iter()
        .map(|&cid| usdcbsv_orderbook::types::LockedChunk {
            chunk_id: cid,
            order_id: oid,
            amount_e6: 3_000_000,
            bsv_address: addr.clone(),
            sats_amount: 6_666_666,
        })
        .collect();
    e.trades.push(usdcbsv_orderbook::types::Trade {
        id: trade_id,
        order_id: oid,
        filler: principal(2),
        amount_e6: 9_000_000,
        locked_chunks: lcs,
        agreed_bsv_price_e6: 45_000_000,
        min_bsv_price_e6: 44_000_000,
        status: TradeStatus::ChunksLocked,
        bsv_tx_hex: None,
        created_at: 1_000,
        tx_submitted_at: None,
        lock_expires_at: 1_000 + 2_700_000_000_000,
        release_available_at: None,
        claim_expires_at: None,
        withdrawal_initiated_at: None,
        withdrawal_confirmed_at: None,
    });
    let script = p2pkh_script(7);
    let pay = BsvOutput { address: addr.clone(), satoshis: 6_666_666, script: script.clone() };
    let tx = ParsedBsvTx {
        version: 1,
        inputs: vec![BsvInput {
            prev_tx_hash: vec![9u8; 32],
            prev_output_index: 0,
            script_sig: vec![0x51],
            sequence: 0xffffffff,
        }],
        outputs: vec![pay.clone(), pay.clone(), pay.clone()],
        locktime: 0,
    };
    let tx_hex = hex_encode(&serialize_bsv_tx(&tx));
    let t0 = 2_000u64;
    e.submit_bsv_transaction(trade_id, &principal(2), tx_hex.clone(), t0).unwrap();

    // A proof for a block far outside the empty local window.
    let txid = compute_txid(&tx_hex).unwrap();
    let sibling = "cc".repeat(32);
    let root = root_of_pair(&txid, &sibling);
    let proof = BumpProof {
        block_height: 900_000,
        path: vec![vec![
            BumpNode { offset: 0, hash: txid.clone(), txid: Some(true), duplicate: None },
            BumpNode { offset: 1, hash: sibling, txid: None, duplicate: None },
        ]],
    };
    let bump_hex = hex_encode(&serialize_bump(&proof).unwrap());
    let now = t0 + 10_800_000_000_000;

    // Locally the block is missing: the claim check names the height so the
    // caller can query the archival companion.
    let store = BlockStore::new();
    let r = e.check_claim(&store, trade_id, &principal(2), &tx_hex, &bump_hex, now);
    assert!(matches!(r, Err(TradeError::BlockMissing { height: 900_000 })));

    // An archive response for that height settles the claim.
    let response = usdcbsv_orderbook::spv::BlockInfoResponse {
        success: true,
        height: Some(900_000),
        hash: Some(String::from("archhash")),
        previous_hash: Some(String::from("prev")),
        merkle_root: Some(root),
        timestamp: Some(7),
        header: None,
    };
    let header = usdcbsv_orderbook::spv::txarchive_to_block_header(response).unwrap();
    let plan = e
        .check_claim_archive(trade_id, &principal(2), &tx_hex, &bump_hex, now, &header)
        .unwrap();
    assert_eq!(plan.order_id, oid);
    assert_eq!(plan.payout_e6, 9_405_000);

    // An archive header whose merkle root differs refuses the claim.
    let mut bad = header;
    bad.merkle_root = "ee".repeat(32);
    let r = e.check_claim_archive(trade_id, &principal(2), &tx_hex, &bump_hex, now, &bad);
    assert!(matches!(r, Err(TradeError::VerificationFailed)));
}

#[test]
fn broken_batch_is_audited() {
    let mut e = Engine::new();
    let mut store = BlockStore::new();
    store.store_block(header(5, "a", "x", "m"));
    let good = vec![header(6, "b", "a", "m")];
    assert_eq!(
        usdcbsv_orderbook::sync::accept_batch_logged(&mut e, &mut store, good, 50).unwrap(),
        1
    );
    assert_eq!(e.admin_events.len(), 0);
    // A header that does not link onto the stored tip fails and is logged.
    let bad = vec![header(8, "d", "nope", "m")];
    assert!(usdcbsv_orderbook::sync::accept_batch_logged(&mut e, &mut store, bad, 60).is_err());
    assert_eq!(store.get_highest_block(), 6);
    assert_eq!(e.admin_events.len(), 1);
    assert_eq!(e.admin_events[0].timestamp, 60);
    assert!(matches!(
        e.admin_events[0].event_type,
        usdcbsv_orderbook::types::AdminEventType::BlockInsertionError { block_height: 8 }
    ));
}
