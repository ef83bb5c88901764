//! The SPV verifier: checking a BUMP proof against the stored block headers
//! and counting confirmations.

use vstd::prelude::*;
use crate::block_store::{BlockStore, BlockHeader};
use crate::bump::{parse_bump, parse_bump_hex, merkle_root_of, BumpProofModel, BumpError};
use crate::hashing::{
    hex_of, bytes_of_hex, is_hex_text, hex_char, is_hex_digit, txid_of_bytes, hex_decode,
    hex_encode, double_sha256, reverse_bytes,
};
use crate::config::CONFIRMATION_DEPTH;

verus! {

/// Why an SPV verification failed outright.
#[derive(Clone, Copy, Debug, PartialEq, Eq, Structural)]
pub enum SpvError {
    BadTxidFormat,
    BadTxHex,
    TxTooLarge,
    ProofTooLarge,
    BadProof,
    BlockMissing { height: u64 },
    MerkleMismatch,
    TipBehind { height: u64 },
}

/// The outcome of a successful merkle check: where the transaction sits and
/// how deep it is buried.
#[derive(Clone, Debug)]
pub struct TxVerification {
    pub verified: bool,
    pub block_height: u64,
    pub block_hash: String,
    pub confirmations: u64,
}

/// The hex rendering of any byte sequence is hex text.
pub proof fn lemma_hex_of_is_hex(b: Seq<u8>)
    ensures
        is_hex_text(hex_of(b)),
        hex_of(b).len() == 2 * b.len(),
{
    assert forall|i: int| 0 <= i < hex_of(b).len() implies is_hex_digit(
        #[trigger] hex_of(b)[i],
    ) by {
        let v: u8 = if i % 2 == 0 {
            b[i / 2] / 16
        } else {
            b[i / 2] % 16
        };
        assert(v < 16);
        assert(hex_of(b)[i] == hex_char(v));
        if v < 10 {
            vstd::utf8::char_u32_cast(hex_char(v), (v + 0x30) as u32);
        } else {
            vstd::utf8::char_u32_cast(hex_char(v), (v + 87) as u32);
        }
    }
}

/// A hex-text transaction id of the right length: sixty-four digits.
pub open spec fn txid_text_ok(txid: Seq<char>) -> bool {
    is_hex_text(txid) && txid.len() == 64
}

/// The number of confirmations a block at `height` has under the stored tip.
pub open spec fn spec_confirmations(store: BlockStore, height: int) -> int {
    store.spec_highest() - height + 1
}

/// Everything a successful BUMP verification requires of the inputs and the
/// store: a well-formed transaction id, a proof of reasonable size that
/// parses, a stored header at the proof's height, and a merkle root that
/// matches it.
pub open spec fn spec_bump_accepted(
    store: BlockStore,
    txid: Seq<char>,
    bump_hex: Seq<char>,
    p: BumpProofModel,
) -> bool {
    &&& txid_text_ok(txid)
    &&& vstd::utf8::encode_utf8(bump_hex).len() <= 10000
    &&& is_hex_text(bump_hex)
    &&& parse_bump(bytes_of_hex(bump_hex)) == Some(p)
    &&& store.spec_has(p.block_height as int)
    &&& merkle_root_of(txid, p.path) == Some(store.spec_get(p.block_height as int).merkle_root@)
}

/// Verify a transaction id against a BUMP proof and the stored headers.
/// Success means the proof parses, the block is stored and the merkle root
/// matches; the `verified` flag then reports whether enough confirmations
/// have accrued.
pub fn verify_tx_bump(store: &BlockStore, txid: &str, bump_hex: &str) -> (r: Result<
    TxVerification,
    SpvError,
>)
    requires
        store.inv(),
    ensures
        match r {
            Ok(v) => {
                &&& spec_bump_accepted(*store, txid@, bump_hex@, parse_bump(bytes_of_hex(bump_hex@)).unwrap())
                &&& v.block_height == parse_bump(bytes_of_hex(bump_hex@)).unwrap().block_height
                &&& v.block_hash@ == store.spec_get(v.block_height as int).hash@
                &&& v.confirmations == spec_confirmations(*store, v.block_height as int)
                &&& (v.verified <==> v.confirmations >= CONFIRMATION_DEPTH)
            },
            Err(_) => !(exists|p: BumpProofModel|
                spec_bump_accepted(*store, txid@, bump_hex@, p)),
        },
        r matches Err(SpvError::BlockMissing { height }) ==> is_hex_text(bump_hex@) && (
        parse_bump(bytes_of_hex(bump_hex@)) matches Some(p) && p.block_height == height)
            && !store.spec_has(height as int),
{
    let decoded_txid = match hex_decode(txid) {
        Some(v) => v,
        None => {
            return Err(SpvError::BadTxidFormat);
        },
    };
    if decoded_txid.len() != 32 {
        return Err(SpvError::BadTxidFormat);
    }
    if bump_hex.as_bytes().len() > 10000 {
        return Err(SpvError::ProofTooLarge);
    }
    let bump = match parse_bump_hex(bump_hex) {
        Ok(p) => p,
        Err(_) => {
            return Err(SpvError::BadProof);
        },
    };
    let block = match store.get_block_by_height(bump.block_height) {
        Some(b) => b,
        None => {
            return Err(SpvError::BlockMissing { height: bump.block_height });
        },
    };
    let computed = match crate::bump::compute_merkle_root(txid, &bump.path) {
        Ok(root) => root,
        Err(_) => {
            return Err(SpvError::MerkleMismatch);
        },
    };
    if !(computed == block.merkle_root) {
        return Err(SpvError::MerkleMismatch);
    }
    let highest = store.get_highest_block();
    if highest < bump.block_height {
        return Err(SpvError::TipBehind { height: bump.block_height });
    }
    let confirmations = highest - bump.block_height + 1;
    Ok(
        TxVerification {
            verified: confirmations >= CONFIRMATION_DEPTH,
            block_height: bump.block_height,
            block_hash: block.hash,
            confirmations,
        },
    )
}

/// Compute the display transaction id of a raw transaction given as hex.
pub fn compute_txid(tx_hex: &str) -> (r: Result<String, SpvError>)
    ensures
        match r {
            Ok(t) => is_hex_text(tx_hex@) && t@ == txid_of_bytes(bytes_of_hex(tx_hex@)),
            Err(e) => !is_hex_text(tx_hex@) && e == SpvError::BadTxHex,
        },
{
    let tx_bytes = match hex_decode(tx_hex) {
        Some(v) => v,
        None => {
            return Err(SpvError::BadTxHex);
        },
    };
    Ok(crate::hashing::compute_txid_of_bytes(tx_bytes.as_slice()))
}

/// Everything a successful raw-transaction verification requires of the
/// inputs and the store.
pub open spec fn spec_spv_ok(store: BlockStore, tx_hex: Seq<char>, bump_hex: Seq<char>) -> bool {
    &&& vstd::utf8::encode_utf8(tx_hex).len() <= 200000
    &&& is_hex_text(tx_hex)
    &&& exists|p: BumpProofModel| spec_bump_accepted(
        store,
        txid_of_bytes(bytes_of_hex(tx_hex)),
        bump_hex,
        p,
    )
}

/// Verify a raw transaction against a BUMP proof: compute its id, then check
/// the proof as `verify_tx_bump` does.  Oversized inputs are rejected first.
pub fn verify_tx_raw(store: &BlockStore, tx_hex: &str, bump_hex: &str) -> (r: Result<
    TxVerification,
    SpvError,
>)
    requires
        store.inv(),
    ensures
        match r {
            Ok(v) => {
                &&& vstd::utf8::encode_utf8(tx_hex@).len() <= 200000
                &&& is_hex_text(tx_hex@)
                &&& spec_bump_accepted(
                    *store,
                    txid_of_bytes(bytes_of_hex(tx_hex@)),
                    bump_hex@,
                    parse_bump(bytes_of_hex(bump_hex@)).unwrap(),
                )
                &&& v.block_height == parse_bump(bytes_of_hex(bump_hex@)).unwrap().block_height
                &&& v.block_hash@ == store.spec_get(v.block_height as int).hash@
                &&& v.confirmations == spec_confirmations(*store, v.block_height as int)
                &&& (v.verified <==> v.confirmations >= CONFIRMATION_DEPTH)
            },
            Err(_) => !spec_spv_ok(*store, tx_hex@, bump_hex@),
        },
        r matches Err(SpvError::BlockMissing { height }) ==> is_hex_text(bump_hex@) && (
        parse_bump(bytes_of_hex(bump_hex@)) matches Some(p) && p.block_height == height)
            && !store.spec_has(height as int),
{
    if tx_hex.as_bytes().len() > 200000 {
        return Err(SpvError::TxTooLarge);
    }
    if bump_hex.as_bytes().len() > 10000 {
        return Err(SpvError::ProofTooLarge);
    }
    let txid = match compute_txid(tx_hex) {
        Ok(t) => t,
        Err(e) => {
            return Err(e);
        },
    };
    verify_tx_bump(store, txid.as_str(), bump_hex)
}

/// Everything a successful BUMP verification against one supplied header
/// requires: a well-formed transaction id, a proof of reasonable size that
/// parses, names that header's height, and a merkle root matching it.
pub open spec fn spec_bump_accepted_header(
    header: BlockHeader,
    txid: Seq<char>,
    bump_hex: Seq<char>,
    p: BumpProofModel,
) -> bool {
    &&& txid_text_ok(txid)
    &&& vstd::utf8::encode_utf8(bump_hex).len() <= 10000
    &&& is_hex_text(bump_hex)
    &&& parse_bump(bytes_of_hex(bump_hex)) == Some(p)
    &&& p.block_height == header.height
    &&& merkle_root_of(txid, p.path) == Some(header.merkle_root@)
}

/// Everything a successful raw-transaction verification against one supplied
/// header requires of the inputs.
pub open spec fn spec_spv_ok_header(
    header: BlockHeader,
    tx_hex: Seq<char>,
    bump_hex: Seq<char>,
) -> bool {
    &&& vstd::utf8::encode_utf8(tx_hex).len() <= 200000
    &&& is_hex_text(tx_hex)
    &&& exists|p: BumpProofModel| spec_bump_accepted_header(
        header,
        txid_of_bytes(bytes_of_hex(tx_hex)),
        bump_hex,
        p,
    )
}

/// Verify a raw transaction against a BUMP proof and one header fetched from
/// the archival companion.  The archive keeps only deeply confirmed blocks,
/// so a match there settles the confirmation question by itself: the result
/// is reported as verified at full depth.
pub fn verify_tx_raw_with_header(header: &BlockHeader, tx_hex: &str, bump_hex: &str) -> (r: Result<
    TxVerification,
    SpvError,
>)
    ensures
        match r {
            Ok(v) => {
                &&& spec_spv_ok_header(*header, tx_hex@, bump_hex@)
                &&& v.verified
                &&& v.block_height == header.height
                &&& v.block_hash@ == header.hash@
            },
            Err(_) => !spec_spv_ok_header(*header, tx_hex@, bump_hex@),
        },
{
    if tx_hex.as_bytes().len() > 200000 {
        return Err(SpvError::TxTooLarge);
    }
    if bump_hex.as_bytes().len() > 10000 {
        return Err(SpvError::ProofTooLarge);
    }
    let txid = match compute_txid(tx_hex) {
        Ok(t) => t,
        Err(e) => {
            return Err(e);
        },
    };
    let decoded_txid = match hex_decode(txid.as_str()) {
        Some(v) => v,
        None => {
            return Err(SpvError::BadTxidFormat);
        },
    };
    if decoded_txid.len() != 32 {
        return Err(SpvError::BadTxidFormat);
    }
    let bump = match parse_bump_hex(bump_hex) {
        Ok(p) => p,
        Err(_) => {
            return Err(SpvError::BadProof);
        },
    };
    if bump.block_height != header.height {
        return Err(SpvError::BlockMissing { height: bump.block_height });
    }
    let computed = match crate::bump::compute_merkle_root(txid.as_str(), &bump.path) {
        Ok(root) => root,
        Err(_) => {
            return Err(SpvError::MerkleMismatch);
        },
    };
    if !(computed == header.merkle_root) {
        return Err(SpvError::MerkleMismatch);
    }
    proof {
        assert(spec_bump_accepted_header(
            *header,
            txid_of_bytes(bytes_of_hex(tx_hex@)),
            bump_hex@,
            bump@,
        ));
    }
    Ok(
        TxVerification {
            verified: true,
            block_height: header.height,
            block_hash: crate::block_store::clone_str(&header.hash),
            confirmations: CONFIRMATION_DEPTH,
        },
    )
}

/// Whether a block at the given height is buried under enough confirmations.
pub fn has_sufficient_confirmations(store: &BlockStore, block_height: u64) -> (r: bool)
    ensures
        r == (store.spec_highest() >= block_height && spec_confirmations(
            *store,
            block_height as int,
        ) >= CONFIRMATION_DEPTH),
{
    let highest = store.get_highest_block();
    if highest < block_height {
        return false;
    }
    let confirmations: u128 = (highest - block_height) as u128 + 1;
    confirmations >= CONFIRMATION_DEPTH as u128
}

/// What the archival companion reports for one height.
#[derive(Clone, Debug)]
pub struct BlockInfoResponse {
    pub success: bool,
    pub height: Option<u64>,
    pub hash: Option<String>,
    pub previous_hash: Option<String>,
    pub merkle_root: Option<String>,
    pub timestamp: Option<u64>,
    pub header: Option<String>,
}

/// Why an archive response could not be used.
#[derive(Clone, Copy, Debug, PartialEq, Eq, Structural)]
pub enum ArchiveError {
    NotSuccessful,
    MissingField,
}

/// Convert an archive response into a block header.  Fields the archive does
/// not keep default to zero and play no part in SPV.
pub fn txarchive_to_block_header(block: BlockInfoResponse) -> (r: Result<
    BlockHeader,
    ArchiveError,
>)
    ensures
        match r {
            Ok(h) => {
                &&& block.success
                &&& block.height == Some(h.height)
                &&& block.hash matches Some(s) && s@ == h.hash@
                &&& block.previous_hash matches Some(s) && s@ == h.previous_hash@
                &&& block.merkle_root matches Some(s) && s@ == h.merkle_root@
                &&& block.timestamp == Some(h.timestamp)
                &&& h.bits == 0 && h.nonce == 0 && h.version == 0
            },
            Err(ArchiveError::NotSuccessful) => !block.success,
            Err(ArchiveError::MissingField) => {
                block.success && (block.height is None || block.hash is None
                    || block.previous_hash is None || block.merkle_root is None
                    || block.timestamp is None)
            },
        },
{
    if !block.success {
        return Err(ArchiveError::NotSuccessful);
    }
    let height = match block.height {
        Some(v) => v,
        None => {
            return Err(ArchiveError::MissingField);
        },
    };
    let hash = match block.hash {
        Some(v) => v,
        None => {
            return Err(ArchiveError::MissingField);
        },
    };
    let previous_hash = match block.previous_hash {
        Some(v) => v,
        None => {
            return Err(ArchiveError::MissingField);
        },
    };
    let merkle_root = match block.merkle_root {
        Some(v) => v,
        None => {
            return Err(ArchiveError::MissingField);
        },
    };
    let timestamp = match block.timestamp {
        Some(v) => v,
        None => {
            return Err(ArchiveError::MissingField);
        },
    };
    let raw_header = match block.header {
        Some(v) => v,
        None => String::new(),
    };
    Ok(
        BlockHeader {
            height,
            hash,
            previous_hash,
            merkle_root,
            timestamp,
            bits: 0,
            nonce: 0,
            version: 0,
            raw_header,
        },
    )
}

} // verus!
