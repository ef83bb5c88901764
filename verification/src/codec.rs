//! Little-endian integer and varint codecs for the Bitcoin wire formats.
//!
//! Each executable reader is specified against a spec-level parse function,
//! each writer against a spec-level byte rendering, and the two are related by
//! round-trip lemmas used by the transaction and proof codecs.

use vstd::prelude::*;

verus! {

/// Reading past the end of the input.
#[derive(Clone, Copy, Debug, PartialEq, Eq, Structural)]
pub enum CodecError {
    UnexpectedEnd,
}

/// The value of a little-endian byte sequence.
pub open spec fn le_val(s: Seq<u8>) -> int
    decreases s.len(),
{
    if s.len() == 0 {
        0
    } else {
        s[0] + 256 * le_val(s.drop_first())
    }
}

/// The `n`-byte little-endian rendering of `v`.
pub open spec fn le_bytes(v: int, n: nat) -> Seq<u8>
    decreases n,
{
    if n == 0 {
        Seq::empty()
    } else {
        seq![(v % 256) as u8] + le_bytes(v / 256, (n - 1) as nat)
    }
}

/// 256 raised to `n`.
pub open spec fn pow256(n: nat) -> int
    decreases n,
{
    if n == 0 {
        1
    } else {
        256 * pow256((n - 1) as nat)
    }
}

/// The powers of 256 at the widths the codecs use.
pub proof fn lemma_pow256_vals()
    ensures
        pow256(1) == 0x100,
        pow256(2) == 0x1_0000,
        pow256(4) == 0x1_0000_0000,
        pow256(8) == 0x1_0000_0000_0000_0000,
{
    reveal_with_fuel(pow256, 9);
}

pub proof fn lemma_le_bytes_len(v: int, n: nat)
    ensures
        le_bytes(v, n).len() == n,
    decreases n,
{
    if n > 0 {
        lemma_le_bytes_len(v / 256, (n - 1) as nat);
    }
}

/// A little-endian rendering evaluates back to the value it renders, for
/// values in range.
pub proof fn lemma_le_round_trip(v: int, n: nat)
    requires
        0 <= v < pow256(n),
    ensures
        le_bytes(v, n).len() == n,
        le_val(le_bytes(v, n)) == v,
    decreases n,
{
    lemma_le_bytes_len(v, n);
    if n > 0 {
        lemma_le_round_trip(v / 256, (n - 1) as nat);
        assert(le_bytes(v, n).drop_first() =~= le_bytes(v / 256, (n - 1) as nat));
    }
}

/// `le_val` of a sequence is bounded by 256^len.
pub proof fn lemma_le_val_bound(s: Seq<u8>)
    ensures
        0 <= le_val(s) < pow256(s.len()),
    decreases s.len(),
{
    if s.len() > 0 {
        lemma_le_val_bound(s.drop_first());
    }
}

/// Evaluating then re-rendering a byte sequence gives the sequence back.
pub proof fn lemma_le_bytes_of_val(s: Seq<u8>)
    ensures
        le_bytes(le_val(s), s.len()) == s,
    decreases s.len(),
{
    if s.len() > 0 {
        lemma_le_bytes_of_val(s.drop_first());
        lemma_le_val_bound(s.drop_first());
        assert(le_bytes(le_val(s), s.len()) =~= s);
    } else {
        assert(le_bytes(le_val(s), s.len()) =~= s);
    }
}

/// Read `len` bytes at the cursor, advancing it; fails without moving the
/// cursor when fewer than `len` bytes remain.
pub fn read_bytes(bytes: &[u8], cursor: &mut usize, len: usize) -> (r: Result<Vec<u8>, CodecError>)
    ensures
        match r {
            Ok(v) => {
                &&& *old(cursor) + len <= bytes@.len()
                &&& v@ == bytes@.subrange(*old(cursor) as int, *old(cursor) + len)
                &&& *final(cursor) == *old(cursor) + len
            },
            Err(_) => {
                &&& *old(cursor) + len > bytes@.len()
                &&& *final(cursor) == *old(cursor)
            },
        },
{
    if *cursor > bytes.len() || len > bytes.len() - *cursor {
        return Err(CodecError::UnexpectedEnd);
    }
    let mut v: Vec<u8> = Vec::new();
    let mut i: usize = 0;
    while i < len
        invariant
            *cursor + len <= bytes@.len(),
            bytes@.len() <= usize::MAX,
            i <= len,
            v@.len() == i,
            forall|j: int| 0 <= j < i ==> v@[j] == bytes@[*cursor + j],
        decreases len - i,
    {
        v.push(bytes[*cursor + i]);
        i = i + 1;
    }
    proof {
        assert(v@ =~= bytes@.subrange(*cursor as int, *cursor + len));
    }
    *cursor = *cursor + len;
    Ok(v)
}

/// Read a little-endian `u32` at the cursor.
pub fn read_u32_le(bytes: &[u8], cursor: &mut usize) -> (r: Result<u32, CodecError>)
    ensures
        match r {
            Ok(v) => {
                &&& *old(cursor) + 4 <= bytes@.len()
                &&& v == le_val(bytes@.subrange(*old(cursor) as int, *old(cursor) + 4))
                &&& *final(cursor) == *old(cursor) + 4
            },
            Err(_) => {
                &&& *old(cursor) + 4 > bytes@.len()
                &&& *final(cursor) == *old(cursor)
            },
        },
{
    if *cursor > bytes.len() || 4 > bytes.len() - *cursor {
        return Err(CodecError::UnexpectedEnd);
    }
    let b0 = bytes[*cursor];
    let b1 = bytes[*cursor + 1];
    let b2 = bytes[*cursor + 2];
    let b3 = bytes[*cursor + 3];
    let v: u32 = b0 as u32 + 256 * (b1 as u32) + 65536 * (b2 as u32) + 16777216 * (b3 as u32);
    proof {
        reveal_with_fuel(le_val, 5);
        let s = bytes@.subrange(*cursor as int, *cursor + 4);
        assert(s.drop_first() =~= bytes@.subrange(*cursor + 1, *cursor + 4));
        assert(s.drop_first().drop_first() =~= bytes@.subrange(*cursor + 2, *cursor + 4));
        assert(s.drop_first().drop_first().drop_first() =~= bytes@.subrange(
            *cursor + 3,
            *cursor + 4,
        ));
        assert(s.drop_first().drop_first().drop_first().drop_first() =~= Seq::<u8>::empty());
        assert(le_val(s) == v);
    }
    *cursor = *cursor + 4;
    Ok(v)
}

/// Read a little-endian `u64` at the cursor.
pub fn read_u64_le(bytes: &[u8], cursor: &mut usize) -> (r: Result<u64, CodecError>)
    ensures
        match r {
            Ok(v) => {
                &&& *old(cursor) + 8 <= bytes@.len()
                &&& v == le_val(bytes@.subrange(*old(cursor) as int, *old(cursor) + 8))
                &&& *final(cursor) == *old(cursor) + 8
            },
            Err(_) => {
                &&& *old(cursor) + 8 > bytes@.len()
                &&& *final(cursor) == *old(cursor)
            },
        },
{
    if *cursor > bytes.len() || 8 > bytes.len() - *cursor {
        return Err(CodecError::UnexpectedEnd);
    }
    let lo = read_u32_le(bytes, cursor).unwrap();
    let hi = read_u32_le(bytes, cursor).unwrap();
    let v: u64 = lo as u64 + 0x1_0000_0000 * (hi as u64);
    proof {
        let s = bytes@.subrange(*old(cursor) as int, *old(cursor) + 8);
        lemma_le_val_split(s, 4);
        assert(s.subrange(0, 4) =~= bytes@.subrange(*old(cursor) as int, *old(cursor) + 4));
        assert(s.subrange(4, 8) =~= bytes@.subrange(*old(cursor) + 4, *old(cursor) + 8));
        lemma_pow256_vals();
    }
    Ok(v)
}

/// Splitting a little-endian sequence splits its value.
pub proof fn lemma_le_val_split(s: Seq<u8>, k: int)
    requires
        0 <= k <= s.len(),
    ensures
        le_val(s) == le_val(s.subrange(0, k)) + pow256(k as nat) * le_val(
            s.subrange(k, s.len() as int),
        ),
    decreases k,
{
    if k == 0 {
        assert(s.subrange(0, 0) =~= Seq::<u8>::empty());
        assert(s.subrange(0, s.len() as int) =~= s);
    } else {
        lemma_le_val_split(s.drop_first(), k - 1);
        assert(s.drop_first().subrange(0, k - 1) =~= s.subrange(0, k).drop_first());
        assert(s.drop_first().subrange(k - 1, s.drop_first().len() as int) =~= s.subrange(
            k,
            s.len() as int,
        ));
        assert(le_val(s) == s[0] + 256 * le_val(s.drop_first()));
        assert(le_val(s.subrange(0, k)) == s[0] + 256 * le_val(s.subrange(0, k).drop_first()));
        let tail = le_val(s.subrange(k, s.len() as int));
        assert(256 * (le_val(s.subrange(0, k).drop_first()) + pow256((k - 1) as nat) * tail) == 256
            * le_val(s.subrange(0, k).drop_first()) + 256 * (pow256((k - 1) as nat) * tail))
            by (nonlinear_arith);
        assert(256 * (pow256((k - 1) as nat) * tail) == (256 * pow256((k - 1) as nat)) * tail)
            by (nonlinear_arith);
    }
}

/// The spec-level result of parsing a varint at position `i`: the value and
/// the position after it, or `None` where the input is exhausted.
pub open spec fn varint_parse(s: Seq<u8>, i: int) -> Option<(u64, int)> {
    if !(0 <= i < s.len()) {
        None
    } else {
        let first = s[i];
        if first < 0xFD {
            Some((first as u64, i + 1))
        } else if first == 0xFD {
            if i + 3 <= s.len() {
                Some(((le_val(s.subrange(i + 1, i + 3))) as u64, i + 3))
            } else {
                None
            }
        } else if first == 0xFE {
            if i + 5 <= s.len() {
                Some(((le_val(s.subrange(i + 1, i + 5))) as u64, i + 5))
            } else {
                None
            }
        } else {
            if i + 9 <= s.len() {
                Some(((le_val(s.subrange(i + 1, i + 9))) as u64, i + 9))
            } else {
                None
            }
        }
    }
}

/// The canonical varint rendering of a value.
pub open spec fn varint_bytes(v: u64) -> Seq<u8> {
    if v < 0xFD {
        seq![v as u8]
    } else if v <= 0xFFFF {
        seq![0xFDu8] + le_bytes(v as int, 2)
    } else if v <= 0xFFFF_FFFF {
        seq![0xFEu8] + le_bytes(v as int, 4)
    } else {
        seq![0xFFu8] + le_bytes(v as int, 8)
    }
}

/// A canonical varint rendering embedded in a larger sequence parses back to
/// the value it renders.
pub proof fn lemma_varint_round_trip(s: Seq<u8>, i: int, v: u64)
    requires
        0 <= i,
        i + varint_bytes(v).len() <= s.len(),
        s.subrange(i, i + varint_bytes(v).len()) == varint_bytes(v),
    ensures
        varint_parse(s, i) == Some((v, i + varint_bytes(v).len())),
{
    let vb = varint_bytes(v);
    assert(s[i] == vb[0]);
    if v < 0xFD {
    } else if v <= 0xFFFF {
        lemma_pow256_vals();
        lemma_le_round_trip(v as int, 2);
        assert(s.subrange(i + 1, i + 3) =~= vb.subrange(1, 3));
        assert(vb.subrange(1, 3) =~= le_bytes(v as int, 2));
    } else if v <= 0xFFFF_FFFF {
        lemma_pow256_vals();
        lemma_le_round_trip(v as int, 4);
        assert(s.subrange(i + 1, i + 5) =~= vb.subrange(1, 5));
        assert(vb.subrange(1, 5) =~= le_bytes(v as int, 4));
    } else {
        lemma_pow256_vals();
        lemma_le_round_trip(v as int, 8);
        assert(s.subrange(i + 1, i + 9) =~= vb.subrange(1, 9));
        assert(vb.subrange(1, 9) =~= le_bytes(v as int, 8));
    }
}

/// Read a Bitcoin varint at the cursor, advancing it past the encoding.
pub fn read_varint(bytes: &[u8], cursor: &mut usize) -> (r: Result<u64, CodecError>)
    ensures
        match r {
            Ok(v) => {
                &&& varint_parse(bytes@, *old(cursor) as int) == Some((v, *final(cursor) as int))
                &&& *old(cursor) < *final(cursor) <= bytes@.len()
            },
            Err(_) => {
                &&& varint_parse(bytes@, *old(cursor) as int) is None
                &&& *final(cursor) == *old(cursor)
            },
        },
{
    if *cursor >= bytes.len() {
        return Err(CodecError::UnexpectedEnd);
    }
    let first = bytes[*cursor];
    if first < 0xFD {
        *cursor = *cursor + 1;
        Ok(first as u64)
    } else if first == 0xFD {
        let start = *cursor;
        *cursor = *cursor + 1;
        match read_bytes(bytes, cursor, 2) {
            Ok(v) => {
                let value: u64 = v[0] as u64 + 256 * (v[1] as u64);
                proof {
                    reveal_with_fuel(le_val, 3);
                    let s = bytes@.subrange(start + 1, start + 3);
                    assert(s.drop_first() =~= bytes@.subrange(start + 2, start + 3));
                    assert(s.drop_first().drop_first() =~= Seq::<u8>::empty());
                }
                Ok(value)
            },
            Err(e) => {
                *cursor = start;
                Err(e)
            },
        }
    } else if first == 0xFE {
        let start = *cursor;
        *cursor = *cursor + 1;
        match read_u32_le(bytes, cursor) {
            Ok(v) => {
                proof {
                    lemma_le_val_bound(bytes@.subrange(start + 1, start + 5));
                    lemma_pow256_vals();
                }
                Ok(v as u64)
            },
            Err(e) => {
                *cursor = start;
                Err(e)
            },
        }
    } else {
        let start = *cursor;
        *cursor = *cursor + 1;
        match read_u64_le(bytes, cursor) {
            Ok(v) => {
                proof {
                    lemma_le_val_bound(bytes@.subrange(start + 1, start + 9));
                    lemma_pow256_vals();
                }
                Ok(v)
            },
            Err(e) => {
                *cursor = start;
                Err(e)
            },
        }
    }
}

/// Append the `n`-byte little-endian rendering of `v` to `out`.
pub fn write_le(out: &mut Vec<u8>, v: u64, n: usize)
    requires
        n <= 8,
    ensures
        final(out)@ == old(out)@ + le_bytes(v as int, n as nat),
{
    let mut rest: u64 = v;
    let mut i: usize = 0;
    while i < n
        invariant
            i <= n,
            out@.len() == old(out)@.len() + i,
            out@.subrange(0, old(out)@.len() as int) == old(out)@,
            out@.subrange(old(out)@.len() as int, out@.len() as int) + le_bytes(
                rest as int,
                (n - i) as nat,
            ) =~= le_bytes(v as int, n as nat),
        decreases n - i,
    {
        let b: u8 = (rest % 256) as u8;
        proof {
            let written = out@.subrange(old(out)@.len() as int, out@.len() as int);
            assert((written.push(b) + le_bytes(rest as int / 256, (n - i - 1) as nat)) =~= written
                + le_bytes(rest as int, (n - i) as nat));
        }
        out.push(b);
        rest = rest / 256;
        i = i + 1;
        proof {
            assert(out@.subrange(0, old(out)@.len() as int) =~= old(out)@);
            assert(out@.subrange(old(out)@.len() as int, out@.len() as int) =~= out@.subrange(
                old(out)@.len() as int,
                out@.len() as int - 1,
            ).push(b));
        }
    }
    proof {
        assert(out@ =~= old(out)@ + out@.subrange(old(out)@.len() as int, out@.len() as int));
    }
}

/// Append the canonical varint rendering of `v` to `out`.
pub fn write_varint(out: &mut Vec<u8>, v: u64)
    ensures
        final(out)@ == old(out)@ + varint_bytes(v),
{
    if v < 0xFD {
        out.push(v as u8);
        proof {
            assert(out@ =~= old(out)@ + varint_bytes(v));
        }
    } else if v <= 0xFFFF {
        out.push(0xFD);
        let ghost mid = out@;
        write_le(out, v, 2);
        proof {
            assert(mid =~= old(out)@ + seq![0xFDu8]);
            assert(out@ =~= old(out)@ + varint_bytes(v));
        }
    } else if v <= 0xFFFF_FFFF {
        out.push(0xFE);
        let ghost mid = out@;
        write_le(out, v, 4);
        proof {
            assert(mid =~= old(out)@ + seq![0xFEu8]);
            assert(out@ =~= old(out)@ + varint_bytes(v));
        }
    } else {
        out.push(0xFF);
        let ghost mid = out@;
        write_le(out, v, 8);
        proof {
            assert(mid =~= old(out)@ + seq![0xFFu8]);
            assert(out@ =~= old(out)@ + varint_bytes(v));
        }
    }
}

} // verus!
