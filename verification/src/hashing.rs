//! Hash and radix-encoding primitives: SHA-256, hex, and Base58.
//!
//! The outside calls are confined to small trusted wrappers; everything that
//! combines them (double hashing, transaction ids, Base58Check) is verified
//! against spec-level descriptions of those primitives.

use vstd::prelude::*;

verus! {

/// The SHA-256 digest of a byte sequence, named abstractly: the digest is a
/// function of the input bytes alone.
pub uninterp spec fn sha256_of(bytes: Seq<u8>) -> Seq<u8>;

/// The Base58 rendering of a byte sequence, named abstractly: the rendering is
/// a function of the input bytes alone.
pub uninterp spec fn base58_of(bytes: Seq<u8>) -> Seq<char>;

/// What `bs58` decoding yields on a character sequence: `None` where the text
/// is not valid Base58, otherwise the decoded bytes.
pub uninterp spec fn base58_decode_of(text: Seq<char>) -> Option<Seq<u8>>;

/// The lowercase hex digit for a value below sixteen.
pub open spec fn hex_char(v: u8) -> char
    recommends
        v < 16,
{
    if v < 10 {
        ((v + 0x30) as u32) as char
    } else {
        ((v + 87) as u32) as char
    }
}

/// Lowercase hex rendering of a byte sequence, two digits per byte,
/// high nibble first.
pub open spec fn hex_of(bytes: Seq<u8>) -> Seq<char> {
    Seq::new(bytes.len() * 2, |i: int| {
        if i % 2 == 0 {
            hex_char(bytes[i / 2] / 16)
        } else {
            hex_char(bytes[i / 2] % 16)
        }
    })
}

/// Whether a character is a hex digit in either case.
pub open spec fn is_hex_digit(c: char) -> bool {
    (0x30 <= c as u32 <= 0x39) || (0x61 <= c as u32 <= 0x66) || (0x41 <= c as u32 <= 0x46)
}

/// The numeric value of a hex digit in either case.
pub open spec fn hex_digit_val(c: char) -> int
    recommends
        is_hex_digit(c),
{
    if 0x30 <= c as u32 <= 0x39 {
        c as u32 - 0x30
    } else if 0x61 <= c as u32 <= 0x66 {
        c as u32 - 87
    } else {
        c as u32 - 55
    }
}

/// Whether a character sequence is well-formed hex text: even length, hex
/// digits throughout.
pub open spec fn is_hex_text(text: Seq<char>) -> bool {
    &&& text.len() % 2 == 0
    &&& forall|i: int| 0 <= i < text.len() ==> is_hex_digit(#[trigger] text[i])
}

/// The bytes denoted by well-formed hex text.
pub open spec fn bytes_of_hex(text: Seq<char>) -> Seq<u8>
    recommends
        is_hex_text(text),
{
    Seq::new(text.len() / 2, |i: int| {
        (hex_digit_val(text[2 * i]) * 16 + hex_digit_val(text[2 * i + 1])) as u8
    })
}

/// Relies on `sha2::Sha256::digest`: a 32-byte digest determined by the input
/// bytes alone.
#[verifier::external_body]
pub fn sha256(bytes: &[u8]) -> (r: Vec<u8>)
    ensures
        r@ == sha256_of(bytes@),
        r@.len() == 32,
{
    <sha2::Sha256 as sha2::Digest>::digest(bytes).to_vec()
}

/// Relies on `hex::encode`: two lowercase hex digits for each input byte.
#[verifier::external_body]
pub fn hex_encode(bytes: &[u8]) -> (r: String)
    ensures
        r@ == hex_of(bytes@),
{
    hex::encode(bytes)
}

/// Relies on `hex::decode`: accepts exactly the even-length strings of hex
/// digits in either case, and returns the denoted bytes.
#[verifier::external_body]
pub fn hex_decode(text: &str) -> (r: Option<Vec<u8>>)
    ensures
        r is Some <==> is_hex_text(text@),
        r matches Some(v) ==> v@ == bytes_of_hex(text@),
{
    match hex::decode(text) {
        Ok(v) => Some(v),
        Err(_) => None,
    }
}

/// Relies on `bs58::encode`: the Base58 text determined by the input bytes
/// alone.
#[verifier::external_body]
pub fn base58_encode(bytes: &[u8]) -> (r: String)
    ensures
        r@ == base58_of(bytes@),
{
    bs58::encode(bytes).into_string()
}

/// Relies on `bs58::decode`: fails exactly on text that is not valid Base58,
/// and otherwise returns bytes determined by the text alone.
#[verifier::external_body]
pub fn base58_decode(text: &str) -> (r: Option<Vec<u8>>)
    ensures
        r is Some <==> base58_decode_of(text@) is Some,
        r matches Some(v) ==> base58_decode_of(text@) == Some(v@),
{
    match bs58::decode(text).into_vec() {
        Ok(v) => Some(v),
        Err(_) => None,
    }
}

/// SHA-256 applied twice, the hash used throughout the Bitcoin wire formats.
pub open spec fn double_sha256_of(bytes: Seq<u8>) -> Seq<u8> {
    sha256_of(sha256_of(bytes))
}

/// Double SHA-256 of a byte slice.
pub fn double_sha256(bytes: &[u8]) -> (r: Vec<u8>)
    ensures
        r@ == double_sha256_of(bytes@),
        r@.len() == 32,
{
    let first = sha256(bytes);
    sha256(first.as_slice())
}

/// The transaction id of raw transaction bytes: the double SHA-256, byte
/// reversed, rendered as lowercase hex.
pub open spec fn txid_of_bytes(tx_bytes: Seq<u8>) -> Seq<char> {
    hex_of(double_sha256_of(tx_bytes).reverse())
}

/// Reverse the bytes of a vector.
pub fn reverse_bytes(bytes: &Vec<u8>) -> (r: Vec<u8>)
    ensures
        r@ == bytes@.reverse(),
{
    let mut r: Vec<u8> = Vec::new();
    let mut i: usize = bytes.len();
    while i > 0
        invariant
            i <= bytes.len(),
            r@.len() == bytes@.len() - i,
            forall|j: int| 0 <= j < r@.len() ==> r@[j] == bytes@[bytes@.len() - 1 - j],
        decreases i,
    {
        i = i - 1;
        r.push(bytes[i]);
    }
    proof {
        assert(r@ =~= bytes@.reverse());
    }
    r
}

/// Compute the display-form transaction id of raw transaction bytes.
pub fn compute_txid_of_bytes(tx_bytes: &[u8]) -> (r: String)
    ensures
        r@ == txid_of_bytes(tx_bytes@),
{
    let digest = double_sha256(tx_bytes);
    let reversed = reverse_bytes(&digest);
    hex_encode(reversed.as_slice())
}

} // verus!
