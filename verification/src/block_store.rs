//! Storage of BSV block headers keyed by height.
//!
//! The store keeps a contiguous run of headers whose hash linkage is an
//! invariant: every stored header above the lowest points at the hash of its
//! predecessor.

use vstd::prelude::*;
use vstd::utf8::encode_utf8;
use crate::hashing::{hex_of, bytes_of_hex, is_hex_text, double_sha256_of, double_sha256};
use crate::bsv_tx::lower_byte;
use crate::types::slice_eq;
use crate::config::{SYNC_INTERVAL_SECONDS, MAX_BLOCKS_TO_KEEP};

verus! {

/// A BSV block header, expanded from its eighty-byte wire form.
#[derive(Debug)]
pub struct BlockHeader {
    pub height: u64,
    pub hash: String,
    pub previous_hash: String,
    pub merkle_root: String,
    pub timestamp: u64,
    pub bits: u32,
    pub nonce: u32,
    pub version: i32,
    pub raw_header: String,
}

impl BlockHeader {
    /// An equal copy of the header.
    pub fn duplicate(&self) -> (r: BlockHeader)
        ensures
            r == *self,
    {
        BlockHeader {
            height: self.height,
            hash: self.hash.clone(),
            previous_hash: self.previous_hash.clone(),
            merkle_root: self.merkle_root.clone(),
            timestamp: self.timestamp,
            bits: self.bits,
            nonce: self.nonce,
            version: self.version,
            raw_header: self.raw_header.clone(),
        }
    }
}

/// Recent blocks together with the stored range.
#[derive(Debug)]
pub struct BlocksWithMetadata {
    pub blocks: Vec<BlockHeader>,
    pub oldest_height: u64,
    pub newest_height: u64,
    pub total_count: u64,
}

/// Why a chain validation failed.
#[derive(Clone, Copy, Debug, PartialEq, Eq, Structural)]
pub enum BlockError {
    InvalidRange,
    BlockNotFound { height: u64 },
    ChainBroken { height: u64 },
    InvalidBlockHash { height: u64 },
}

/// Case-insensitive ASCII equality of two byte renderings.
pub open spec fn ascii_lower_eq(a: Seq<u8>, b: Seq<u8>) -> bool {
    a.map_values(|x: u8| lower_byte(x)) == b.map_values(|x: u8| lower_byte(x))
}

/// Compare two strings for equality up to ASCII case.
pub fn eq_ignore_ascii_case(a: &str, b: &str) -> (r: bool)
    ensures
        r == ascii_lower_eq(encode_utf8(a@), encode_utf8(b@)),
{
    let ab = a.as_bytes();
    let bb = b.as_bytes();
    let la = ab.len();
    if la != bb.len() {
        proof {
            assert(encode_utf8(a@).map_values(|x: u8| lower_byte(x)).len() != encode_utf8(
                b@,
            ).map_values(|x: u8| lower_byte(x)).len());
        }
        return false;
    }
    let mut i: usize = 0;
    while i < la
        invariant
            i <= la,
            la == ab@.len() == bb@.len(),
            ab@ == encode_utf8(a@),
            bb@ == encode_utf8(b@),
            forall|j: int| 0 <= j < i ==> lower_byte(#[trigger] ab@[j]) == lower_byte(bb@[j]),
        decreases la - i,
    {
        let x = ab[i];
        let y = bb[i];
        let lx: u8 = if 0x41 <= x && x <= 0x5a {
            x + 0x20
        } else {
            x
        };
        let ly: u8 = if 0x41 <= y && y <= 0x5a {
            y + 0x20
        } else {
            y
        };
        if lx != ly {
            proof {
                assert(encode_utf8(a@).map_values(|v: u8| lower_byte(v))[i as int] != encode_utf8(
                    b@,
                ).map_values(|v: u8| lower_byte(v))[i as int]);
            }
            return false;
        }
        i = i + 1;
    }
    proof {
        assert(encode_utf8(a@).map_values(|v: u8| lower_byte(v)) =~= encode_utf8(b@).map_values(
            |v: u8| lower_byte(v),
        ));
    }
    true
}

/// Whether a header's display hash matches the double SHA-256 of its raw
/// eighty-byte form, compared case-insensitively.
pub open spec fn spec_block_hash_ok(h: BlockHeader) -> bool {
    &&& h.hash@.len() > 0
    &&& h.raw_header@.len() == 160
    &&& is_hex_text(h.raw_header@)
    &&& ascii_lower_eq(
        encode_utf8(hex_of(double_sha256_of(bytes_of_hex(h.raw_header@)).reverse())),
        encode_utf8(h.hash@),
    )
}

/// Check a header's hash against its raw form.
pub fn verify_block_hash(header: &BlockHeader) -> (r: bool)
    ensures
        r == spec_block_hash_ok(*header),
{
    if header.hash.as_str().is_empty() {
        return false;
    }
    let raw = match crate::hashing::hex_decode(header.raw_header.as_str()) {
        Some(v) => v,
        None => {
            return false;
        },
    };
    if raw.len() != 80 {
        return false;
    }
    let digest = double_sha256(raw.as_slice());
    let rev = crate::hashing::reverse_bytes(&digest);
    let computed = crate::hashing::hex_encode(rev.as_slice());
    eq_ignore_ascii_case(computed.as_str(), header.hash.as_str())
}

/// An equal copy of a string.
pub fn clone_str(s: &String) -> (r: String)
    ensures
        r@ == s@,
{
    s.clone()
}

/// Copy a range of headers into a new vector.
pub fn copy_headers(v: &Vec<BlockHeader>, from: usize, to: usize) -> (r: Vec<BlockHeader>)
    requires
        from <= to <= v@.len(),
    ensures
        r@ == v@.subrange(from as int, to as int),
{
    let mut out: Vec<BlockHeader> = Vec::new();
    let mut i: usize = from;
    while i < to
        invariant
            from <= i <= to <= v@.len(),
            out@.len() == i - from,
            forall|j: int| 0 <= j < out@.len() ==> out@[j] == v@[from + j],
        decreases to - i,
    {
        out.push(v[i].duplicate());
        i = i + 1;
    }
    proof {
        assert(out@ =~= v@.subrange(from as int, to as int));
    }
    out
}

/// The store of block headers: a contiguous, hash-linked run of heights,
/// together with the last synchronisation time.
#[derive(Debug)]
pub struct BlockStore {
    pub headers: Vec<BlockHeader>,
    pub last_sync_time: u64,
}

impl BlockStore {
    /// The store's invariant: heights are contiguous starting at or above
    /// one, and each header above the lowest links to its predecessor's
    /// hash.
    pub open spec fn inv(self) -> bool {
        &&& forall|i: int| 0 <= i < self.headers@.len() ==> (#[trigger] self.headers@[i]).height
            == self.headers@[0].height + i
        &&& self.headers@.len() > 0 ==> self.headers@[0].height >= 1
        &&& self.headers@.len() > 0 ==> self.headers@[0].height + self.headers@.len() - 1
            <= u64::MAX
        &&& forall|i: int| 1 <= i < self.headers@.len() ==> (
        #[trigger] self.headers@[i]).previous_hash@ == self.headers@[i - 1].hash@
    }

    /// The highest stored height, or zero when nothing is stored.
    pub open spec fn spec_highest(self) -> int {
        if self.headers@.len() == 0 {
            0
        } else {
            self.headers@[self.headers@.len() - 1].height as int
        }
    }

    /// Whether a header at this height is stored.
    pub open spec fn spec_has(self, height: int) -> bool {
        self.headers@.len() > 0 && self.headers@[0].height <= height <= self.spec_highest()
    }

    /// The stored header at a height.
    pub open spec fn spec_get(self, height: int) -> BlockHeader
        recommends
            self.spec_has(height),
    {
        self.headers@[height - self.headers@[0].height]
    }

    /// An empty store.
    pub fn new() -> (r: BlockStore)
        ensures
            r.inv(),
            r.headers@.len() == 0,
            r.last_sync_time == 0,
    {
        BlockStore { headers: Vec::new(), last_sync_time: 0 }
    }

    /// The highest stored height, or zero when nothing is stored.
    pub fn get_highest_block(&self) -> (r: u64)
        ensures
            r == self.spec_highest(),
    {
        if self.headers.len() == 0 {
            0
        } else {
            self.headers[self.headers.len() - 1].height
        }
    }

    /// How many headers are stored.
    pub fn get_block_count(&self) -> (r: usize)
        ensures
            r == self.headers@.len(),
    {
        self.headers.len()
    }

    /// The stored height range, or zeros when nothing is stored.
    pub fn get_stored_range(&self) -> (r: (u64, u64))
        ensures
            self.headers@.len() == 0 ==> r == (0u64, 0u64),
            self.headers@.len() > 0 ==> r.0 == self.headers@[0].height && r.1
                == self.spec_highest(),
    {
        if self.headers.len() == 0 {
            (0, 0)
        } else {
            (self.headers[0].height, self.headers[self.headers.len() - 1].height)
        }
    }

    /// Fetch the header at a height, if stored.
    pub fn get_block_by_height(&self, height: u64) -> (r: Option<BlockHeader>)
        requires
            self.inv(),
        ensures
            match r {
                Some(h) => self.spec_has(height as int) && h == self.spec_get(height as int),
                None => !self.spec_has(height as int),
            },
    {
        if self.headers.len() == 0 {
            return None;
        }
        let first = self.headers[0].height;
        let last = self.headers[self.headers.len() - 1].height;
        if height < first || height > last {
            return None;
        }
        let idx = (height - first) as usize;
        Some(self.headers[idx].duplicate())
    }

    /// Scan for a header with the given display hash.
    pub fn get_block_by_hash(&self, hash: &str) -> (r: Option<BlockHeader>)
        ensures
            match r {
                Some(h) => exists|i: int|
                    0 <= i < self.headers@.len() && h == self.headers@[i] && h.hash@ == hash@,
                None => forall|i: int| 0 <= i < self.headers@.len() ==> (
                #[trigger] self.headers@[i]).hash@ != hash@,
            },
    {
        let mut i: usize = 0;
        while i < self.headers.len()
            invariant
                i <= self.headers@.len(),
                forall|j: int| 0 <= j < i ==> (#[trigger] self.headers@[j]).hash@ != hash@,
            decreases self.headers@.len() - i,
        {
            if crate::types::str_eq(self.headers[i].hash.as_str(), hash) {
                return Some(self.headers[i].duplicate());
            }
            i = i + 1;
        }
        None
    }

    /// Store one header on top of the chain.  The caller must have checked
    /// the linkage, which keeps the chain invariant.
    pub fn store_block(&mut self, header: BlockHeader)
        requires
            old(self).inv(),
            header.height >= 1,
            header.height <= u64::MAX,
            old(self).headers@.len() > 0 ==> header.height == old(self).spec_highest() + 1
                && header.previous_hash@ == old(self).headers@[old(self).headers@.len()
                - 1].hash@,
        ensures
            final(self).inv(),
            final(self).headers@ == old(self).headers@.push(header),
            final(self).last_sync_time == old(self).last_sync_time,
    {
        self.headers.push(header);
    }

    /// Remove every stored header at or above a height.
    pub fn remove_blocks_from(&mut self, height: u64)
        requires
            old(self).inv(),
        ensures
            final(self).inv(),
            final(self).headers@ == old(self).headers@.take(final(self).headers@.len() as int),
            forall|i: int| 0 <= i < final(self).headers@.len() ==> (
            #[trigger] final(self).headers@[i]).height < height,
            forall|i: int|
                final(self).headers@.len() <= i < old(self).headers@.len() ==> (
                #[trigger] old(self).headers@[i]).height >= height,
            final(self).last_sync_time == old(self).last_sync_time,
    {
        if self.headers.len() == 0 {
            proof {
                assert(self.headers@ =~= old(self).headers@.take(0));
            }
            return ;
        }
        let first = self.headers[0].height;
        if height <= first {
            self.headers = Vec::new();
            proof {
                assert(self.headers@ =~= old(self).headers@.take(0));
            }
            return ;
        }
        let keep_wide: u64 = height - first;
        let len = self.headers.len();
        let keep: usize = if keep_wide < len as u64 {
            keep_wide as usize
        } else {
            len
        };
        let kept = copy_headers(&self.headers, 0, keep);
        self.headers = kept;
        proof {
            assert(self.headers@ =~= old(self).headers@.take(keep as int));
        }
    }

    /// Record the time of the last synchronisation.
    pub fn update_sync_time(&mut self, time: u64)
        ensures
            final(self).last_sync_time == time,
            final(self).headers@ == old(self).headers@,
    {
        self.last_sync_time = time;
    }

    /// The time of the last synchronisation.
    pub fn get_last_sync_time(&self) -> (r: u64)
        ensures
            r == self.last_sync_time,
    {
        self.last_sync_time
    }

    /// Whether a synchronisation round is due.
    pub fn should_sync(&self, current_time: u64) -> (r: bool)
        ensures
            r == (current_time >= self.last_sync_time + SYNC_INTERVAL_SECONDS),
    {
        (current_time as u128) >= (self.last_sync_time as u128) + (
        SYNC_INTERVAL_SECONDS as u128)
    }

    /// The newest stored headers, newest first, with the stored range.  At
    /// most one hundred are returned.
    pub fn get_recent_blocks(&self, count: u64) -> (r: BlocksWithMetadata)
        ensures
            r.blocks@.len() == vstd::math::min(
                vstd::math::min(count as int, 100),
                self.headers@.len() as int,
            ),
            forall|j: int| 0 <= j < r.blocks@.len() ==> r.blocks@[j] == self.headers@[self.headers@.len()
                - 1 - j],
            r.total_count == self.headers@.len(),
            self.headers@.len() == 0 ==> r.oldest_height == 0 && r.newest_height == 0,
            self.headers@.len() > 0 ==> r.oldest_height == self.headers@[0].height
                && r.newest_height == self.spec_highest(),
    {
        let safe_count: u64 = if count < 100 {
            count
        } else {
            100
        };
        let mut blocks: Vec<BlockHeader> = Vec::new();
        let mut taken: usize = 0;
        let n = self.headers.len();
        while taken < n && (taken as u64) < safe_count
            invariant
                taken <= n,
                n == self.headers@.len(),
                taken as u64 <= safe_count,
                blocks@.len() == taken,
                forall|j: int| 0 <= j < taken ==> blocks@[j] == self.headers@[n - 1 - j],
            decreases n - taken,
        {
            blocks.push(self.headers[n - 1 - taken].duplicate());
            taken = taken + 1;
        }
        let (oldest, newest) = self.get_stored_range();
        BlocksWithMetadata {
            blocks,
            oldest_height: oldest,
            newest_height: newest,
            total_count: n as u64,
        }
    }

    /// Whether a stored range passes full validation: every height present,
    /// every link intact, every hash matching its raw header.
    pub open spec fn spec_range_valid(self, start: int, end: int) -> bool {
        &&& start < end
        &&& forall|h: int| start <= h <= end ==> #[trigger] self.spec_has(h)
        &&& forall|h: int| start <= h <= end ==> spec_block_hash_ok(#[trigger] self.spec_get(h))
        &&& forall|h: int| start < h <= end ==> (#[trigger] self.spec_get(h)).previous_hash@
            == self.spec_get(h - 1).hash@
    }

    /// Validate the chain over a height range: presence, linkage and hash
    /// integrity of every header.
    pub fn validate_chain(&self, start_height: u64, end_height: u64) -> (r: Result<
        (),
        BlockError,
    >)
        requires
            self.inv(),
        ensures
            r is Ok <==> self.spec_range_valid(start_height as int, end_height as int),
    {
        if start_height >= end_height {
            return Err(BlockError::InvalidRange);
        }
        let mut h = start_height;
        loop
            invariant_except_break
                self.inv(),
                start_height <= h <= end_height,
                start_height < end_height,
                forall|k: int| start_height <= k < h ==> #[trigger] self.spec_has(k),
                forall|k: int| start_height <= k < h ==> spec_block_hash_ok(
                    #[trigger] self.spec_get(k),
                ),
                forall|k: int| start_height < k < h ==> (
                #[trigger] self.spec_get(k)).previous_hash@ == self.spec_get(k - 1).hash@,
            ensures
                forall|k: int| start_height <= k <= end_height ==> #[trigger] self.spec_has(k),
                forall|k: int| start_height <= k <= end_height ==> spec_block_hash_ok(
                    #[trigger] self.spec_get(k),
                ),
                forall|k: int| start_height < k <= end_height ==> (
                #[trigger] self.spec_get(k)).previous_hash@ == self.spec_get(k - 1).hash@,
            decreases end_height - h,
        {
            let current = match self.get_block_by_height(h) {
                Some(b) => b,
                None => {
                    return Err(BlockError::BlockNotFound { height: h });
                },
            };
            if h > start_height {
                let previous = match self.get_block_by_height(h - 1) {
                    Some(b) => b,
                    None => {
                        return Err(BlockError::BlockNotFound { height: h });
                    },
                };
                if !crate::types::str_eq(
                    current.previous_hash.as_str(),
                    previous.hash.as_str(),
                ) {
                    return Err(BlockError::ChainBroken { height: h });
                }
            }
            if !verify_block_hash(&current) {
                return Err(BlockError::InvalidBlockHash { height: h });
            }
            proof {
                assert(self.spec_has(h as int));
                assert(self.spec_get(h as int) == current);
                assert(spec_block_hash_ok(self.spec_get(h as int)));
            }
            if h == end_height {
                break ;
            }
            h = h + 1;
        }
        Ok(())
    }

    /// Drop headers below the retention window: only the newest
    /// `MAX_BLOCKS_TO_KEEP` heights are kept.  Returns how many were
    /// removed.
    #[verifier::rlimit(60)]
    pub fn cleanup_old_blocks(&mut self) -> (r: u64)
        requires
            old(self).inv(),
        ensures
            final(self).inv(),
            final(self).headers@.len() == vstd::math::min(
                old(self).headers@.len() as int,
                MAX_BLOCKS_TO_KEEP as int,
            ),
            final(self).headers@ == old(self).headers@.skip(
                old(self).headers@.len() - final(self).headers@.len(),
            ),
            r == old(self).headers@.len() - final(self).headers@.len(),
            final(self).spec_highest() == old(self).spec_highest(),
            final(self).last_sync_time == old(self).last_sync_time,
    {
        let len = self.headers.len();
        if len <= MAX_BLOCKS_TO_KEEP as usize {
            proof {
                assert(self.headers@ =~= old(self).headers@.skip(0));
            }
            return 0;
        }
        let start = len - MAX_BLOCKS_TO_KEEP as usize;
        let kept = copy_headers(&self.headers, start, len);
        self.headers = kept;
        proof {
            assert(self.headers@ =~= old(self).headers@.skip(start as int));
            assert(forall|i: int| 0 <= i < self.headers@.len() ==> (
            #[trigger] self.headers@[i]) == old(self).headers@[i + start]);
            assert(forall|i: int| 0 <= i < self.headers@.len() ==> (
            #[trigger] self.headers@[i]).height == self.headers@[0].height + i);
        }
        start as u64
    }
}

} // verus!
