//! The Bitcoin-format transaction codec: parsing raw transactions, deriving
//! recipient addresses from output scripts, and re-serialising parsed
//! transactions.
//!
//! Parsing and serialisation are both specified by spec-level functions over
//! byte sequences, related by round-trip lemmas.

use vstd::prelude::*;
use vstd::string::*;
use crate::codec::{
    le_val, le_bytes, varint_parse, varint_bytes, read_bytes, read_u32_le, read_u64_le,
    read_varint, write_le, write_varint, lemma_le_val_bound, lemma_le_round_trip,
    lemma_le_bytes_len, lemma_pow256_vals, lemma_varint_round_trip, CodecError,
};
use crate::hashing::{
    hex_of, base58_of, double_sha256_of, hex_encode, double_sha256, reverse_bytes,
};

verus! {

/// Why a raw transaction was rejected.
#[derive(Clone, Copy, Debug, PartialEq, Eq, Structural)]
pub enum ParseError {
    BadHex,
    TooShort,
    UnexpectedEnd,
    EmptyScript,
}

/// The mathematical content of a transaction input.
pub struct BsvInputModel {
    /// Previous transaction hash in display order (reversed from the wire).
    pub prev_tx_hash: Seq<u8>,
    pub prev_output_index: u32,
    pub script_sig: Seq<u8>,
    pub sequence: u32,
}

/// The mathematical content of a transaction output.
pub struct BsvOutputModel {
    /// The address derived from the locking script.
    pub address: Seq<char>,
    pub satoshis: u64,
    pub script: Seq<u8>,
}

/// The mathematical content of a parsed transaction.
pub struct BsvTxModel {
    pub version: u32,
    pub inputs: Seq<BsvInputModel>,
    pub outputs: Seq<BsvOutputModel>,
    pub locktime: u32,
}

/// A parsed transaction input.
#[derive(Clone, Debug)]
pub struct BsvInput {
    pub prev_tx_hash: Vec<u8>,
    pub prev_output_index: u32,
    pub script_sig: Vec<u8>,
    pub sequence: u32,
}

impl View for BsvInput {
    type V = BsvInputModel;

    open spec fn view(&self) -> BsvInputModel {
        BsvInputModel {
            prev_tx_hash: self.prev_tx_hash@,
            prev_output_index: self.prev_output_index,
            script_sig: self.script_sig@,
            sequence: self.sequence,
        }
    }
}

/// A parsed transaction output, keeping both the raw locking script and the
/// address derived from it.
#[derive(Clone, Debug)]
pub struct BsvOutput {
    pub address: String,
    pub satoshis: u64,
    pub script: Vec<u8>,
}

impl View for BsvOutput {
    type V = BsvOutputModel;

    open spec fn view(&self) -> BsvOutputModel {
        BsvOutputModel { address: self.address@, satoshis: self.satoshis, script: self.script@ }
    }
}

/// A parsed transaction.
#[derive(Clone, Debug)]
pub struct ParsedBsvTx {
    pub version: u32,
    pub inputs: Vec<BsvInput>,
    pub outputs: Vec<BsvOutput>,
    pub locktime: u32,
}

/// The models of a sequence of parsed inputs.
pub open spec fn input_models(s: Seq<BsvInput>) -> Seq<BsvInputModel> {
    s.map_values(|x: BsvInput| x@)
}

/// The models of a sequence of parsed outputs.
pub open spec fn output_models(s: Seq<BsvOutput>) -> Seq<BsvOutputModel> {
    s.map_values(|x: BsvOutput| x@)
}

impl View for ParsedBsvTx {
    type V = BsvTxModel;

    open spec fn view(&self) -> BsvTxModel {
        BsvTxModel {
            version: self.version,
            inputs: input_models(self.inputs@),
            outputs: output_models(self.outputs@),
            locktime: self.locktime,
        }
    }
}

/// The Base58Check rendering of a payload under a version byte: the version,
/// the payload, and the first four bytes of their double SHA-256.
pub open spec fn base58check_of(version: u8, payload: Seq<u8>) -> Seq<char> {
    let data = seq![version] + payload;
    base58_of(data + double_sha256_of(data).subrange(0, 4))
}

/// The address derived from a locking script: Base58Check for the standard
/// pay-to-pubkey-hash and pay-to-script-hash templates, and a hex rendering
/// prefixed `0x` for anything else.
pub open spec fn address_of_script(script: Seq<u8>) -> Seq<char>
    recommends
        script.len() > 0,
{
    if script.len() == 25 && script[0] == 0x76 && script[1] == 0xa9 && script[2] == 0x14 {
        base58check_of(0x00, script.subrange(3, 23))
    } else if script.len() == 23 && script[0] == 0xa9 && script[1] == 0x14 {
        base58check_of(0x05, script.subrange(2, 22))
    } else {
        seq!['0', 'x'] + hex_of(script)
    }
}

/// Append a byte slice to a vector.
pub fn append_bytes(out: &mut Vec<u8>, bytes: &[u8])
    ensures
        final(out)@ == old(out)@ + bytes@,
{
    let mut i: usize = 0;
    while i < bytes.len()
        invariant
            i <= bytes@.len(),
            out@ == old(out)@ + bytes@.subrange(0, i as int),
        decreases bytes@.len() - i,
    {
        out.push(bytes[i]);
        i = i + 1;
        proof {
            assert(old(out)@ + bytes@.subrange(0, i as int) =~= (old(out)@ + bytes@.subrange(
                0,
                i - 1,
            )).push(bytes@[i - 1]));
        }
    }
    proof {
        assert(bytes@.subrange(0, bytes@.len() as int) =~= bytes@);
    }
}

/// Base58Check-encode a payload under a version byte.
pub fn encode_base58_check(payload: &[u8], version: u8) -> (r: String)
    ensures
        r@ == base58check_of(version, payload@),
{
    let mut data: Vec<u8> = Vec::new();
    data.push(version);
    append_bytes(&mut data, payload);
    proof {
        assert(data@ =~= seq![version] + payload@);
    }
    let digest = double_sha256(data.as_slice());
    let mut full = data;
    let ghost prefix = full@;
    full.push(digest[0]);
    full.push(digest[1]);
    full.push(digest[2]);
    full.push(digest[3]);
    proof {
        assert(full@ =~= prefix + double_sha256_of(prefix).subrange(0, 4));
    }
    crate::hashing::base58_encode(full.as_slice())
}

/// Derive the address denoted by a locking script; fails only on an empty
/// script.
pub fn extract_address_from_script(script: &[u8]) -> (r: Result<String, ParseError>)
    ensures
        match r {
            Ok(a) => script@.len() > 0 && a@ == address_of_script(script@),
            Err(e) => script@.len() == 0 && e == ParseError::EmptyScript,
        },
{
    if script.len() == 0 {
        return Err(ParseError::EmptyScript);
    }
    if script.len() == 25 && script[0] == 0x76 && script[1] == 0xa9 && script[2] == 0x14 {
        let mut payload: Vec<u8> = Vec::new();
        let mut i: usize = 3;
        while i < 23
            invariant
                3 <= i <= 23,
                script@.len() == 25,
                payload@ == script@.subrange(3, i as int),
            decreases 23 - i,
        {
            payload.push(script[i]);
            i = i + 1;
            proof {
                assert(script@.subrange(3, i as int) =~= script@.subrange(3, i - 1).push(
                    script@[i - 1],
                ));
            }
        }
        Ok(encode_base58_check(payload.as_slice(), 0x00))
    } else if script.len() == 23 && script[0] == 0xa9 && script[1] == 0x14 {
        let mut payload: Vec<u8> = Vec::new();
        let mut i: usize = 2;
        while i < 22
            invariant
                2 <= i <= 22,
                script@.len() == 23,
                payload@ == script@.subrange(2, i as int),
            decreases 22 - i,
        {
            payload.push(script[i]);
            i = i + 1;
            proof {
                assert(script@.subrange(2, i as int) =~= script@.subrange(2, i - 1).push(
                    script@[i - 1],
                ));
            }
        }
        Ok(encode_base58_check(payload.as_slice(), 0x05))
    } else {
        let hexed = hex_encode(script);
        let mut s = String::from_str("0x");
        s.append(hexed.as_str());
        proof {
            reveal_strlit("0x");
            assert("0x"@ =~= seq!['0', 'x']);
        }
        Ok(s)
    }
}

/// The spec-level result of parsing one input at position `i`.
pub open spec fn parse_input_at(s: Seq<u8>, i: int) -> Option<(BsvInputModel, int)>
    recommends
        0 <= i,
{
    if i + 36 > s.len() {
        None
    } else {
        let hash = s.subrange(i, i + 32).reverse();
        let idx = le_val(s.subrange(i + 32, i + 36));
        match varint_parse(s, i + 36) {
            None => None,
            Some((slen, m)) => {
                if m + slen > s.len() || m + slen + 4 > s.len() {
                    None
                } else {
                    Some(
                        (
                            BsvInputModel {
                                prev_tx_hash: hash,
                                prev_output_index: idx as u32,
                                script_sig: s.subrange(m, m + slen),
                                sequence: le_val(s.subrange(m + slen, m + slen + 4)) as u32,
                            },
                            m + slen + 4,
                        ),
                    )
                }
            },
        }
    }
}

/// The spec-level result of parsing one output at position `i`.
pub open spec fn parse_output_at(s: Seq<u8>, i: int) -> Option<(BsvOutputModel, int)>
    recommends
        0 <= i,
{
    if i + 8 > s.len() {
        None
    } else {
        let sats = le_val(s.subrange(i, i + 8));
        match varint_parse(s, i + 8) {
            None => None,
            Some((slen, m)) => {
                if m + slen > s.len() || slen == 0 {
                    None
                } else {
                    let script = s.subrange(m, m + slen);
                    Some(
                        (
                            BsvOutputModel {
                                address: address_of_script(script),
                                satoshis: sats as u64,
                                script,
                            },
                            m + slen,
                        ),
                    )
                }
            },
        }
    }
}

/// The spec-level result of parsing `n` consecutive inputs at position `i`.
pub open spec fn parse_inputs_at(s: Seq<u8>, i: int, n: nat) -> Option<(Seq<BsvInputModel>, int)>
    decreases n,
{
    if n == 0 {
        Some((Seq::empty(), i))
    } else {
        match parse_input_at(s, i) {
            None => None,
            Some((m, j)) => match parse_inputs_at(s, j, (n - 1) as nat) {
                None => None,
                Some((rest, k)) => Some((seq![m] + rest, k)),
            },
        }
    }
}

/// The spec-level result of parsing `n` consecutive outputs at position `i`.
pub open spec fn parse_outputs_at(s: Seq<u8>, i: int, n: nat) -> Option<(Seq<BsvOutputModel>, int)>
    decreases n,
{
    if n == 0 {
        Some((Seq::empty(), i))
    } else {
        match parse_output_at(s, i) {
            None => None,
            Some((m, j)) => match parse_outputs_at(s, j, (n - 1) as nat) {
                None => None,
                Some((rest, k)) => Some((seq![m] + rest, k)),
            },
        }
    }
}

/// The spec-level result of parsing a whole transaction: version, inputs,
/// outputs and locktime.  Trailing bytes after the locktime are permitted,
/// as in the executable parser.
pub open spec fn parse_tx(s: Seq<u8>) -> Option<BsvTxModel> {
    if s.len() < 10 {
        None
    } else {
        let version = le_val(s.subrange(0, 4));
        match varint_parse(s, 4) {
            None => None,
            Some((n_in, i)) => match parse_inputs_at(s, i, n_in as nat) {
                None => None,
                Some((ins, j)) => match varint_parse(s, j) {
                    None => None,
                    Some((n_out, k)) => match parse_outputs_at(s, k, n_out as nat) {
                        None => None,
                        Some((outs, m)) => {
                            if m + 4 > s.len() {
                                None
                            } else {
                                Some(
                                    BsvTxModel {
                                        version: version as u32,
                                        inputs: ins,
                                        outputs: outs,
                                        locktime: le_val(s.subrange(m, m + 4)) as u32,
                                    },
                                )
                            }
                        },
                    },
                },
            },
        }
    }
}

/// Parse one transaction input at the cursor.
pub fn parse_input(bytes: &[u8], cursor: &mut usize) -> (r: Result<BsvInput, ParseError>)
    ensures
        match r {
            Ok(inp) => parse_input_at(bytes@, *old(cursor) as int) == Some(
                (inp@, *final(cursor) as int),
            ),
            Err(_) => parse_input_at(bytes@, *old(cursor) as int) is None,
        },
{
    proof {
        lemma_pow256_vals();
    }
    let hash_wire = match read_bytes(bytes, cursor, 32) {
        Ok(v) => v,
        Err(_) => {
            return Err(ParseError::UnexpectedEnd);
        },
    };
    let prev_tx_hash = reverse_bytes(&hash_wire);
    let prev_output_index = match read_u32_le(bytes, cursor) {
        Ok(v) => v,
        Err(_) => {
            return Err(ParseError::UnexpectedEnd);
        },
    };
    proof {
        lemma_le_val_bound(bytes@.subrange(*old(cursor) + 32, *old(cursor) + 36));
    }
    let script_len = match read_varint(bytes, cursor) {
        Ok(v) => v,
        Err(_) => {
            return Err(ParseError::UnexpectedEnd);
        },
    };
    if *cursor > bytes.len() || script_len > (bytes.len() - *cursor) as u64 {
        return Err(ParseError::UnexpectedEnd);
    }
    let script_sig = match read_bytes(bytes, cursor, script_len as usize) {
        Ok(v) => v,
        Err(_) => {
            return Err(ParseError::UnexpectedEnd);
        },
    };
    let ghost seq_pos = *cursor as int;
    let sequence = match read_u32_le(bytes, cursor) {
        Ok(v) => v,
        Err(_) => {
            return Err(ParseError::UnexpectedEnd);
        },
    };
    proof {
        lemma_le_val_bound(bytes@.subrange(seq_pos, seq_pos + 4));
    }
    Ok(BsvInput { prev_tx_hash, prev_output_index, script_sig, sequence })
}

/// Parse one transaction output at the cursor, deriving its address.
pub fn parse_output(bytes: &[u8], cursor: &mut usize) -> (r: Result<BsvOutput, ParseError>)
    ensures
        match r {
            Ok(out) => parse_output_at(bytes@, *old(cursor) as int) == Some(
                (out@, *final(cursor) as int),
            ),
            Err(e) => parse_output_at(bytes@, *old(cursor) as int) is None && e
                != ParseError::BadHex,
        },
{
    proof {
        lemma_pow256_vals();
    }
    let satoshis = match read_u64_le(bytes, cursor) {
        Ok(v) => v,
        Err(_) => {
            return Err(ParseError::UnexpectedEnd);
        },
    };
    proof {
        lemma_le_val_bound(bytes@.subrange(*old(cursor) as int, *old(cursor) + 8));
    }
    let script_len = match read_varint(bytes, cursor) {
        Ok(v) => v,
        Err(_) => {
            return Err(ParseError::UnexpectedEnd);
        },
    };
    if *cursor > bytes.len() || script_len > (bytes.len() - *cursor) as u64 {
        return Err(ParseError::UnexpectedEnd);
    }
    let script = match read_bytes(bytes, cursor, script_len as usize) {
        Ok(v) => v,
        Err(_) => {
            return Err(ParseError::UnexpectedEnd);
        },
    };
    let address = match extract_address_from_script(script.as_slice()) {
        Ok(a) => a,
        Err(e) => {
            return Err(e);
        },
    };
    Ok(BsvOutput { address, satoshis, script })
}

/// Parsing one more input after `n` parsed ones appends it to the result.
pub proof fn lemma_parse_inputs_snoc(s: Seq<u8>, i: int, n: nat, ms: Seq<BsvInputModel>, c: int)
    requires
        parse_inputs_at(s, i, n) == Some((ms, c)),
    ensures
        parse_inputs_at(s, i, n + 1) == match parse_input_at(s, c) {
            None => None::<(Seq<BsvInputModel>, int)>,
            Some((m, c2)) => Some((ms.push(m), c2)),
        },
    decreases n,
{
    reveal_with_fuel(parse_inputs_at, 3);
    if n == 0 {
        match parse_input_at(s, c) {
            None => {},
            Some((m, c2)) => {
                assert(seq![m] + Seq::<BsvInputModel>::empty() =~= Seq::<
                    BsvInputModel,
                >::empty().push(m));
            },
        }
    } else {
        let (m0, j) = parse_input_at(s, i).unwrap();
        let (rest, _) = parse_inputs_at(s, j, (n - 1) as nat).unwrap();
        lemma_parse_inputs_snoc(s, j, (n - 1) as nat, rest, c);
        match parse_input_at(s, c) {
            None => {},
            Some((m, c2)) => {
                assert(seq![m0] + rest.push(m) =~= (seq![m0] + rest).push(m));
            },
        }
    }
}

/// Parsing more inputs than the stream holds fails.
pub proof fn lemma_parse_inputs_stuck(s: Seq<u8>, i: int, n: nat, ms: Seq<BsvInputModel>, c: int, n2: nat)
    requires
        parse_inputs_at(s, i, n) == Some((ms, c)),
        parse_input_at(s, c) is None,
        n2 > n,
    ensures
        parse_inputs_at(s, i, n2) is None,
    decreases n,
{
    if n == 0 {
    } else {
        let (m0, j) = parse_input_at(s, i).unwrap();
        let (rest, _) = parse_inputs_at(s, j, (n - 1) as nat).unwrap();
        lemma_parse_inputs_stuck(s, j, (n - 1) as nat, rest, c, (n2 - 1) as nat);
    }
}

/// Parsing one more output after `n` parsed ones appends it to the result.
pub proof fn lemma_parse_outputs_snoc(s: Seq<u8>, i: int, n: nat, ms: Seq<BsvOutputModel>, c: int)
    requires
        parse_outputs_at(s, i, n) == Some((ms, c)),
    ensures
        parse_outputs_at(s, i, n + 1) == match parse_output_at(s, c) {
            None => None::<(Seq<BsvOutputModel>, int)>,
            Some((m, c2)) => Some((ms.push(m), c2)),
        },
    decreases n,
{
    reveal_with_fuel(parse_outputs_at, 3);
    if n == 0 {
        match parse_output_at(s, c) {
            None => {},
            Some((m, c2)) => {
                assert(seq![m] + Seq::<BsvOutputModel>::empty() =~= Seq::<
                    BsvOutputModel,
                >::empty().push(m));
            },
        }
    } else {
        let (m0, j) = parse_output_at(s, i).unwrap();
        let (rest, _) = parse_outputs_at(s, j, (n - 1) as nat).unwrap();
        lemma_parse_outputs_snoc(s, j, (n - 1) as nat, rest, c);
        match parse_output_at(s, c) {
            None => {},
            Some((m, c2)) => {
                assert(seq![m0] + rest.push(m) =~= (seq![m0] + rest).push(m));
            },
        }
    }
}

/// Parsing more outputs than the stream holds fails.
pub proof fn lemma_parse_outputs_stuck(s: Seq<u8>, i: int, n: nat, ms: Seq<BsvOutputModel>, c: int, n2: nat)
    requires
        parse_outputs_at(s, i, n) == Some((ms, c)),
        parse_output_at(s, c) is None,
        n2 > n,
    ensures
        parse_outputs_at(s, i, n2) is None,
    decreases n,
{
    if n == 0 {
    } else {
        let (m0, j) = parse_output_at(s, i).unwrap();
        let (rest, _) = parse_outputs_at(s, j, (n - 1) as nat).unwrap();
        lemma_parse_outputs_stuck(s, j, (n - 1) as nat, rest, c, (n2 - 1) as nat);
    }
}

/// Parse a whole transaction from raw bytes.
#[verifier::loop_isolation(false)]
pub fn parse_tx_bytes(bytes: &[u8]) -> (r: Result<ParsedBsvTx, ParseError>)
    ensures
        match r {
            Ok(tx) => parse_tx(bytes@) == Some(tx@),
            Err(e) => parse_tx(bytes@) is None && e != ParseError::BadHex,
        },
{
    proof {
        lemma_pow256_vals();
    }
    if bytes.len() < 10 {
        return Err(ParseError::TooShort);
    }
    let mut cursor: usize = 0;
    let version = match read_u32_le(bytes, &mut cursor) {
        Ok(v) => v,
        Err(_) => {
            return Err(ParseError::UnexpectedEnd);
        },
    };
    proof {
        lemma_le_val_bound(bytes@.subrange(0, 4));
    }
    let input_count = match read_varint(bytes, &mut cursor) {
        Ok(v) => v,
        Err(_) => {
            return Err(ParseError::UnexpectedEnd);
        },
    };
    let ghost inputs_start = cursor as int;
    let mut inputs: Vec<BsvInput> = Vec::new();
    let mut k: u64 = 0;
    while k < input_count
        invariant
            k <= input_count,
            parse_inputs_at(bytes@, inputs_start, k as nat) == Some(
                (input_models(inputs@), cursor as int),
            ),
            cursor <= bytes@.len(),
        decreases input_count - k,
    {
        let ghost pre_models = input_models(inputs@);
        let ghost pre_cursor = cursor as int;
        let inp = match parse_input(bytes, &mut cursor) {
            Ok(v) => v,
            Err(_) => {
                proof {
                    lemma_parse_inputs_stuck(
                        bytes@,
                        inputs_start,
                        k as nat,
                        pre_models,
                        pre_cursor,
                        input_count as nat,
                    );
                }
                return Err(ParseError::UnexpectedEnd);
            },
        };
        proof {
            lemma_parse_inputs_snoc(bytes@, inputs_start, k as nat, pre_models, pre_cursor);
        }
        inputs.push(inp);
        k = k + 1;
        proof {
            assert(input_models(inputs@) =~= pre_models.push(inputs@[inputs@.len() - 1]@));
        }
    }
    let outputs_count_pos: usize = cursor;
    let output_count = match read_varint(bytes, &mut cursor) {
        Ok(v) => v,
        Err(_) => {
            return Err(ParseError::UnexpectedEnd);
        },
    };
    let ghost outputs_start = cursor as int;
    let mut outputs: Vec<BsvOutput> = Vec::new();
    let mut k2: u64 = 0;
    while k2 < output_count
        invariant
            k2 <= output_count,
            parse_outputs_at(bytes@, outputs_start, k2 as nat) == Some(
                (output_models(outputs@), cursor as int),
            ),
            cursor <= bytes@.len(),
        decreases output_count - k2,
    {
        let ghost pre_models = output_models(outputs@);
        let ghost pre_cursor = cursor as int;
        let out = match parse_output(bytes, &mut cursor) {
            Ok(v) => v,
            Err(e) => {
                proof {
                    lemma_parse_outputs_stuck(
                        bytes@,
                        outputs_start,
                        k2 as nat,
                        pre_models,
                        pre_cursor,
                        output_count as nat,
                    );
                }
                return Err(e);
            },
        };
        proof {
            lemma_parse_outputs_snoc(bytes@, outputs_start, k2 as nat, pre_models, pre_cursor);
        }
        outputs.push(out);
        k2 = k2 + 1;
        proof {
            assert(output_models(outputs@) =~= pre_models.push(outputs@[outputs@.len() - 1]@));
        }
    }
    let ghost locktime_pos = cursor as int;
    let locktime = match read_u32_le(bytes, &mut cursor) {
        Ok(v) => v,
        Err(_) => {
            return Err(ParseError::UnexpectedEnd);
        },
    };
    proof {
        lemma_le_val_bound(bytes@.subrange(locktime_pos, locktime_pos + 4));
    }
    Ok(ParsedBsvTx { version, inputs, outputs, locktime })
}

/// Parse a whole transaction from hex text.
pub fn parse_bsv_transaction(raw_hex: &str) -> (r: Result<ParsedBsvTx, ParseError>)
    ensures
        match r {
            Ok(tx) => {
                &&& crate::hashing::is_hex_text(raw_hex@)
                &&& parse_tx(crate::hashing::bytes_of_hex(raw_hex@)) == Some(tx@)
            },
            Err(e) => {
                if e == ParseError::BadHex {
                    !crate::hashing::is_hex_text(raw_hex@)
                } else {
                    crate::hashing::is_hex_text(raw_hex@) && parse_tx(
                        crate::hashing::bytes_of_hex(raw_hex@),
                    ) is None
                }
            },
        },
{
    let bytes = match crate::hashing::hex_decode(raw_hex) {
        Some(v) => v,
        None => {
            return Err(ParseError::BadHex);
        },
    };
    parse_tx_bytes(bytes.as_slice())
}

/// The wire bytes of one input.
pub open spec fn ser_input(m: BsvInputModel) -> Seq<u8> {
    m.prev_tx_hash.reverse() + le_bytes(m.prev_output_index as int, 4) + varint_bytes(
        m.script_sig.len() as u64,
    ) + m.script_sig + le_bytes(m.sequence as int, 4)
}

/// The wire bytes of a sequence of inputs.
pub open spec fn ser_inputs(ms: Seq<BsvInputModel>) -> Seq<u8>
    decreases ms.len(),
{
    if ms.len() == 0 {
        Seq::empty()
    } else {
        ser_input(ms.first()) + ser_inputs(ms.drop_first())
    }
}

/// The wire bytes of one output.
pub open spec fn ser_output(m: BsvOutputModel) -> Seq<u8> {
    le_bytes(m.satoshis as int, 8) + varint_bytes(m.script.len() as u64) + m.script
}

/// The wire bytes of a sequence of outputs.
pub open spec fn ser_outputs(ms: Seq<BsvOutputModel>) -> Seq<u8>
    decreases ms.len(),
{
    if ms.len() == 0 {
        Seq::empty()
    } else {
        ser_output(ms.first()) + ser_outputs(ms.drop_first())
    }
}

/// The full wire bytes of a transaction.
pub open spec fn ser_tx(t: BsvTxModel) -> Seq<u8> {
    le_bytes(t.version as int, 4) + varint_bytes(t.inputs.len() as u64) + ser_inputs(t.inputs)
        + varint_bytes(t.outputs.len() as u64) + ser_outputs(t.outputs) + le_bytes(
        t.locktime as int,
        4,
    )
}

/// Well-formedness of an input model: a full-size hash and a script whose
/// length a varint can carry.
pub open spec fn input_model_wf(m: BsvInputModel) -> bool {
    &&& m.prev_tx_hash.len() == 32
    &&& m.script_sig.len() <= u64::MAX
}

/// Well-formedness of an output model: a non-empty script whose length a
/// varint can carry, with the address it denotes.
pub open spec fn output_model_wf(m: BsvOutputModel) -> bool {
    &&& 0 < m.script.len() <= u64::MAX
    &&& m.address == address_of_script(m.script)
}

/// Well-formedness of a transaction model.
pub open spec fn tx_model_wf(t: BsvTxModel) -> bool {
    &&& t.inputs.len() <= u64::MAX
    &&& t.outputs.len() <= u64::MAX
    &&& forall|i: int| 0 <= i < t.inputs.len() ==> input_model_wf(#[trigger] t.inputs[i])
    &&& forall|i: int| 0 <= i < t.outputs.len() ==> output_model_wf(#[trigger] t.outputs[i])
}

/// Appending to a sequence of inputs appends its wire bytes.
pub proof fn lemma_ser_inputs_push(ms: Seq<BsvInputModel>, m: BsvInputModel)
    ensures
        ser_inputs(ms.push(m)) == ser_inputs(ms) + ser_input(m),
    decreases ms.len(),
{
    if ms.len() == 0 {
        assert(ms.push(m)[0] == m);
        assert(ms.push(m).drop_first() =~= Seq::<BsvInputModel>::empty());
        assert(ser_inputs(ms.push(m)) == ser_input(m) + ser_inputs(Seq::<BsvInputModel>::empty()));
        assert(ser_inputs(ms.push(m)) =~= ser_inputs(ms) + ser_input(m));
    } else {
        assert(ms.push(m)[0] == ms[0]);
        assert(ms.push(m).drop_first() =~= ms.drop_first().push(m));
        lemma_ser_inputs_push(ms.drop_first(), m);
        assert(ser_inputs(ms.push(m)) == ser_input(ms.first()) + (ser_inputs(ms.drop_first())
            + ser_input(m)));
        assert(ser_inputs(ms.push(m)) =~= ser_inputs(ms) + ser_input(m));
    }
}

/// Appending to a sequence of outputs appends its wire bytes.
pub proof fn lemma_ser_outputs_push(ms: Seq<BsvOutputModel>, m: BsvOutputModel)
    ensures
        ser_outputs(ms.push(m)) == ser_outputs(ms) + ser_output(m),
    decreases ms.len(),
{
    if ms.len() == 0 {
        assert(ms.push(m)[0] == m);
        assert(ms.push(m).drop_first() =~= Seq::<BsvOutputModel>::empty());
        assert(ser_outputs(ms.push(m)) == ser_output(m) + ser_outputs(
            Seq::<BsvOutputModel>::empty(),
        ));
        assert(ser_outputs(ms.push(m)) =~= ser_outputs(ms) + ser_output(m));
    } else {
        assert(ms.push(m)[0] == ms[0]);
        assert(ms.push(m).drop_first() =~= ms.drop_first().push(m));
        lemma_ser_outputs_push(ms.drop_first(), m);
        assert(ser_outputs(ms.push(m)) == ser_output(ms.first()) + (ser_outputs(ms.drop_first())
            + ser_output(m)));
        assert(ser_outputs(ms.push(m)) =~= ser_outputs(ms) + ser_output(m));
    }
}

/// Serialise one input onto `out`.
fn write_input(out: &mut Vec<u8>, inp: &BsvInput)
    ensures
        final(out)@ == old(out)@ + ser_input(inp@),
{
    let rev = reverse_bytes(&inp.prev_tx_hash);
    append_bytes(out, rev.as_slice());
    write_le(out, inp.prev_output_index as u64, 4);
    write_varint(out, inp.script_sig.len() as u64);
    append_bytes(out, inp.script_sig.as_slice());
    write_le(out, inp.sequence as u64, 4);
    proof {
        assert(out@ =~= old(out)@ + ser_input(inp@));
    }
}

/// Serialise one output onto `out`.
fn write_output(out: &mut Vec<u8>, o: &BsvOutput)
    ensures
        final(out)@ == old(out)@ + ser_output(o@),
{
    write_le(out, o.satoshis, 8);
    write_varint(out, o.script.len() as u64);
    append_bytes(out, o.script.as_slice());
    proof {
        assert(out@ =~= old(out)@ + ser_output(o@));
    }
}

/// Serialise a parsed transaction back to its wire bytes.
#[verifier::loop_isolation(false)]
pub fn serialize_bsv_tx(tx: &ParsedBsvTx) -> (r: Vec<u8>)
    ensures
        r@ == ser_tx(tx@),
{
    let mut out: Vec<u8> = Vec::new();
    write_le(&mut out, tx.version as u64, 4);
    write_varint(&mut out, tx.inputs.len() as u64);
    let ghost after_counts = out@;
    let mut i: usize = 0;
    while i < tx.inputs.len()
        invariant
            i <= tx.inputs@.len(),
            out@ == after_counts + ser_inputs(input_models(tx.inputs@.subrange(0, i as int))),
        decreases tx.inputs@.len() - i,
    {
        let ghost pre = input_models(tx.inputs@.subrange(0, i as int));
        write_input(&mut out, &tx.inputs[i]);
        i = i + 1;
        proof {
            assert(input_models(tx.inputs@.subrange(0, i as int)) =~= pre.push(
                tx.inputs@[i - 1]@,
            ));
            lemma_ser_inputs_push(pre, tx.inputs@[i - 1]@);
            assert(out@ =~= after_counts + ser_inputs(
                input_models(tx.inputs@.subrange(0, i as int)),
            ));
        }
    }
    proof {
        assert(tx.inputs@.subrange(0, tx.inputs@.len() as int) =~= tx.inputs@);
    }
    write_varint(&mut out, tx.outputs.len() as u64);
    let ghost after_outcount = out@;
    let mut j: usize = 0;
    while j < tx.outputs.len()
        invariant
            j <= tx.outputs@.len(),
            out@ == after_outcount + ser_outputs(output_models(tx.outputs@.subrange(0, j as int))),
        decreases tx.outputs@.len() - j,
    {
        let ghost pre = output_models(tx.outputs@.subrange(0, j as int));
        write_output(&mut out, &tx.outputs[j]);
        j = j + 1;
        proof {
            assert(output_models(tx.outputs@.subrange(0, j as int)) =~= pre.push(
                tx.outputs@[j - 1]@,
            ));
            lemma_ser_outputs_push(pre, tx.outputs@[j - 1]@);
            assert(out@ =~= after_outcount + ser_outputs(
                output_models(tx.outputs@.subrange(0, j as int)),
            ));
        }
    }
    proof {
        assert(tx.outputs@.subrange(0, tx.outputs@.len() as int) =~= tx.outputs@);
    }
    write_le(&mut out, tx.locktime as u64, 4);
    proof {
        assert(out@ =~= ser_tx(tx@));
    }
    out
}

/// A chunk of a byte sequence that is known to stand at offset `i` equals the
/// matching chunk of the bytes it was copied from.
pub proof fn lemma_concat_chunk(s: Seq<u8>, i: int, whole: Seq<u8>, pre_len: int, part: Seq<u8>)
    requires
        0 <= i,
        0 <= pre_len,
        pre_len + part.len() <= whole.len(),
        i + whole.len() <= s.len(),
        s.subrange(i, i + whole.len()) == whole,
        forall|j: int| 0 <= j < part.len() ==> whole[pre_len + j] == #[trigger] part[j],
    ensures
        s.subrange(i + pre_len, i + pre_len + part.len()) == part,
{
    assert forall|j: int| 0 <= j < part.len() implies s.subrange(
        i + pre_len,
        i + pre_len + part.len(),
    )[j] == part[j] by {
        assert(s.subrange(i, i + whole.len())[pre_len + j] == whole[pre_len + j]);
        assert(s.subrange(i, i + whole.len())[pre_len + j] == s[i + pre_len + j]);
        assert(s.subrange(i + pre_len, i + pre_len + part.len())[j] == s[i + pre_len + j]);
    }
    assert(s.subrange(i + pre_len, i + pre_len + part.len()) =~= part);
}

/// A serialised input embedded in a stream parses back to its model.
pub proof fn lemma_parse_input_of_ser(s: Seq<u8>, i: int, m: BsvInputModel)
    requires
        input_model_wf(m),
        0 <= i,
        i + ser_input(m).len() <= s.len(),
        s.subrange(i, i + ser_input(m).len()) == ser_input(m),
    ensures
        parse_input_at(s, i) == Some((m, i + ser_input(m).len())),
{
    lemma_pow256_vals();
    let a = m.prev_tx_hash.reverse();
    let b = le_bytes(m.prev_output_index as int, 4);
    let slen: u64 = m.script_sig.len() as u64;
    let c = varint_bytes(slen);
    let d = m.script_sig;
    let e = le_bytes(m.sequence as int, 4);
    lemma_le_bytes_len(m.prev_output_index as int, 4);
    lemma_le_bytes_len(m.sequence as int, 4);
    let c1 = a + b;
    let c2 = c1 + c;
    let c3 = c2 + d;
    let c4 = c3 + e;
    assert(ser_input(m) == c4);
    let vl = c.len() as int;
    let sl = d.len() as int;
    assert(c4.len() == 36 + vl + sl + 4);
    assert forall|j: int| 0 <= j < 32 implies c4[0 + j] == #[trigger] a[j] by {
        assert(c4[j] == c3[j]);
        assert(c3[j] == c2[j]);
        assert(c2[j] == c1[j]);
        assert(c1[j] == a[j]);
    }
    lemma_concat_chunk(s, i, c4, 0, a);
    assert forall|j: int| 0 <= j < 4 implies c4[32 + j] == #[trigger] b[j] by {
        assert(c4[32 + j] == c3[32 + j]);
        assert(c3[32 + j] == c2[32 + j]);
        assert(c2[32 + j] == c1[32 + j]);
        assert(c1[32 + j] == b[j]);
    }
    lemma_concat_chunk(s, i, c4, 32, b);
    assert forall|j: int| 0 <= j < vl implies c4[36 + j] == #[trigger] c[j] by {
        assert(c4[36 + j] == c3[36 + j]);
        assert(c3[36 + j] == c2[36 + j]);
        assert(c2[36 + j] == c[j]);
    }
    lemma_concat_chunk(s, i, c4, 36, c);
    assert forall|j: int| 0 <= j < sl implies c4[36 + vl + j] == #[trigger] d[j] by {
        assert(c4[36 + vl + j] == c3[36 + vl + j]);
        assert(c3[36 + vl + j] == d[j]);
    }
    lemma_concat_chunk(s, i, c4, 36 + vl, d);
    assert forall|j: int| 0 <= j < 4 implies c4[36 + vl + sl + j] == #[trigger] e[j] by {
        assert(c4[36 + vl + sl + j] == e[j]);
    }
    lemma_concat_chunk(s, i, c4, 36 + vl + sl, e);
    assert(s.subrange(i, i + 32) == a);
    assert(s.subrange(i, i + 32).reverse() =~= m.prev_tx_hash);
    assert(s.subrange(i + 32, i + 36) == b);
    lemma_le_round_trip(m.prev_output_index as int, 4);
    assert(s.subrange(i + 36, i + 36 + vl) == c);
    lemma_varint_round_trip(s, i + 36, slen);
    let sp = i + 36 + vl;
    assert(varint_parse(s, i + 36) == Some((slen, sp)));
    assert(s.subrange(sp, sp + sl) == d);
    assert(s.subrange(sp + sl, sp + sl + 4) == e);
    lemma_le_round_trip(m.sequence as int, 4);
    let parsed = parse_input_at(s, i).unwrap().0;
    assert(parsed.prev_tx_hash == m.prev_tx_hash);
    assert(parsed.prev_output_index == m.prev_output_index);
    assert(parsed.script_sig == m.script_sig);
    assert(parsed.sequence == m.sequence);
}

/// A serialised output embedded in a stream parses back to its model.
pub proof fn lemma_parse_output_of_ser(s: Seq<u8>, i: int, m: BsvOutputModel)
    requires
        output_model_wf(m),
        0 <= i,
        i + ser_output(m).len() <= s.len(),
        s.subrange(i, i + ser_output(m).len()) == ser_output(m),
    ensures
        parse_output_at(s, i) == Some((m, i + ser_output(m).len())),
{
    lemma_pow256_vals();
    let a = le_bytes(m.satoshis as int, 8);
    let slen: u64 = m.script.len() as u64;
    let b = varint_bytes(slen);
    let c = m.script;
    lemma_le_bytes_len(m.satoshis as int, 8);
    let c1 = a + b;
    let c2 = c1 + c;
    assert(ser_output(m) == c2);
    let vl = b.len() as int;
    let sl = c.len() as int;
    assert(c2.len() == 8 + vl + sl);
    assert forall|j: int| 0 <= j < 8 implies c2[0 + j] == #[trigger] a[j] by {
        assert(c2[j] == c1[j]);
        assert(c1[j] == a[j]);
    }
    lemma_concat_chunk(s, i, c2, 0, a);
    assert forall|j: int| 0 <= j < vl implies c2[8 + j] == #[trigger] b[j] by {
        assert(c2[8 + j] == c1[8 + j]);
        assert(c1[8 + j] == b[j]);
    }
    lemma_concat_chunk(s, i, c2, 8, b);
    assert forall|j: int| 0 <= j < sl implies c2[8 + vl + j] == #[trigger] c[j] by {
        assert(c2[8 + vl + j] == c[j]);
    }
    lemma_concat_chunk(s, i, c2, 8 + vl, c);
    assert(s.subrange(i, i + 8) == a);
    lemma_le_round_trip(m.satoshis as int, 8);
    assert(s.subrange(i + 8, i + 8 + vl) == b);
    lemma_varint_round_trip(s, i + 8, slen);
    let sp = i + 8 + vl;
    assert(varint_parse(s, i + 8) == Some((slen, sp)));
    assert(s.subrange(sp, sp + sl) == c);
    let parsed = parse_output_at(s, i).unwrap().0;
    assert(parsed.satoshis == m.satoshis);
    assert(parsed.script == m.script);
    assert(parsed.address == m.address);
}

/// A serialised input list embedded in a stream parses back to its models.
pub proof fn lemma_parse_inputs_of_ser(s: Seq<u8>, i: int, ms: Seq<BsvInputModel>)
    requires
        forall|k: int| 0 <= k < ms.len() ==> input_model_wf(#[trigger] ms[k]),
        0 <= i,
        i + ser_inputs(ms).len() <= s.len(),
        s.subrange(i, i + ser_inputs(ms).len()) == ser_inputs(ms),
    ensures
        parse_inputs_at(s, i, ms.len()) == Some((ms, i + ser_inputs(ms).len())),
    decreases ms.len(),
{
    if ms.len() == 0 {
        assert(ms =~= Seq::<BsvInputModel>::empty());
    } else {
        let first = ms.first();
        let rest = ms.drop_first();
        let fb = ser_input(first);
        let rb = ser_inputs(rest);
        let f_len = fb.len() as int;
        let r_len = rb.len() as int;
        let cat = fb + rb;
        assert(ser_inputs(ms) == cat);
        assert forall|j: int| 0 <= j < f_len implies cat[0 + j] == #[trigger] fb[j] by {
            assert(cat[j] == fb[j]);
        }
        lemma_concat_chunk(s, i, cat, 0, fb);
        lemma_parse_input_of_ser(s, i, first);
        assert forall|j: int| 0 <= j < r_len implies cat[f_len + j] == #[trigger] rb[j] by {
            assert(cat[f_len + j] == rb[j]);
        }
        lemma_concat_chunk(s, i, cat, f_len, rb);
        lemma_parse_inputs_of_ser(s, i + f_len, rest);
        assert(seq![first] + rest =~= ms);
    }
}

/// A serialised output list embedded in a stream parses back to its models.
pub proof fn lemma_parse_outputs_of_ser(s: Seq<u8>, i: int, ms: Seq<BsvOutputModel>)
    requires
        forall|k: int| 0 <= k < ms.len() ==> output_model_wf(#[trigger] ms[k]),
        0 <= i,
        i + ser_outputs(ms).len() <= s.len(),
        s.subrange(i, i + ser_outputs(ms).len()) == ser_outputs(ms),
    ensures
        parse_outputs_at(s, i, ms.len()) == Some((ms, i + ser_outputs(ms).len())),
    decreases ms.len(),
{
    if ms.len() == 0 {
        assert(ms =~= Seq::<BsvOutputModel>::empty());
    } else {
        let first = ms.first();
        let rest = ms.drop_first();
        let fb = ser_output(first);
        let rb = ser_outputs(rest);
        let f_len = fb.len() as int;
        let r_len = rb.len() as int;
        let cat = fb + rb;
        assert(ser_outputs(ms) == cat);
        assert forall|j: int| 0 <= j < f_len implies cat[0 + j] == #[trigger] fb[j] by {
            assert(cat[j] == fb[j]);
        }
        lemma_concat_chunk(s, i, cat, 0, fb);
        lemma_parse_output_of_ser(s, i, first);
        assert forall|j: int| 0 <= j < r_len implies cat[f_len + j] == #[trigger] rb[j] by {
            assert(cat[f_len + j] == rb[j]);
        }
        lemma_concat_chunk(s, i, cat, f_len, rb);
        lemma_parse_outputs_of_ser(s, i + f_len, rest);
        assert(seq![first] + rest =~= ms);
    }
}

/// Parsing is a left inverse of serialisation: a well-formed transaction
/// model serialises to bytes that parse back to exactly that model.
pub proof fn lemma_bsv_tx_round_trip(t: BsvTxModel)
    requires
        tx_model_wf(t),
    ensures
        parse_tx(ser_tx(t)) == Some(t),
{
    lemma_pow256_vals();
    let s = ser_tx(t);
    let a = le_bytes(t.version as int, 4);
    let b = varint_bytes(t.inputs.len() as u64);
    let c = ser_inputs(t.inputs);
    let d = varint_bytes(t.outputs.len() as u64);
    let e = ser_outputs(t.outputs);
    let f = le_bytes(t.locktime as int, 4);
    lemma_le_bytes_len(t.version as int, 4);
    lemma_le_bytes_len(t.locktime as int, 4);
    let c1 = a + b;
    let c2 = c1 + c;
    let c3 = c2 + d;
    let c4 = c3 + e;
    let c5 = c4 + f;
    assert(s == c5);
    let bl = b.len() as int;
    let cl = c.len() as int;
    let dl = d.len() as int;
    let el = e.len() as int;
    let p1 = 4 as int;
    let p2 = p1 + bl;
    let p3 = p2 + cl;
    let p4 = p3 + dl;
    let p5 = p4 + el;
    assert(s.len() == p5 + 4);
    assert(s.subrange(0, s.len() as int) =~= s);
    assert forall|j: int| 0 <= j < 4 implies c5[0 + j] == #[trigger] a[j] by {
        assert(c5[j] == c4[j]);
        assert(c4[j] == c3[j]);
        assert(c3[j] == c2[j]);
        assert(c2[j] == c1[j]);
        assert(c1[j] == a[j]);
    }
    lemma_concat_chunk(s, 0, c5, 0, a);
    assert forall|j: int| 0 <= j < bl implies c5[p1 + j] == #[trigger] b[j] by {
        assert(c5[p1 + j] == c4[p1 + j]);
        assert(c4[p1 + j] == c3[p1 + j]);
        assert(c3[p1 + j] == c2[p1 + j]);
        assert(c2[p1 + j] == c1[p1 + j]);
        assert(c1[p1 + j] == b[j]);
    }
    lemma_concat_chunk(s, 0, c5, p1, b);
    assert forall|j: int| 0 <= j < cl implies c5[p2 + j] == #[trigger] c[j] by {
        assert(c5[p2 + j] == c4[p2 + j]);
        assert(c4[p2 + j] == c3[p2 + j]);
        assert(c3[p2 + j] == c2[p2 + j]);
        assert(c2[p2 + j] == c[j]);
    }
    lemma_concat_chunk(s, 0, c5, p2, c);
    assert forall|j: int| 0 <= j < dl implies c5[p3 + j] == #[trigger] d[j] by {
        assert(c5[p3 + j] == c4[p3 + j]);
        assert(c4[p3 + j] == c3[p3 + j]);
        assert(c3[p3 + j] == d[j]);
    }
    lemma_concat_chunk(s, 0, c5, p3, d);
    assert forall|j: int| 0 <= j < el implies c5[p4 + j] == #[trigger] e[j] by {
        assert(c5[p4 + j] == c4[p4 + j]);
        assert(c4[p4 + j] == e[j]);
    }
    lemma_concat_chunk(s, 0, c5, p4, e);
    assert forall|j: int| 0 <= j < 4 implies c5[p5 + j] == #[trigger] f[j] by {
        assert(c5[p5 + j] == f[j]);
    }
    lemma_concat_chunk(s, 0, c5, p5, f);
    assert(s.subrange(0, 4) == a);
    lemma_le_round_trip(t.version as int, 4);
    assert(s.subrange(p1, p2) == b);
    lemma_varint_round_trip(s, p1, t.inputs.len() as u64);
    assert(varint_parse(s, p1) == Some((t.inputs.len() as u64, p2)));
    assert(s.subrange(p2, p3) == c);
    lemma_parse_inputs_of_ser(s, p2, t.inputs);
    assert(s.subrange(p3, p4) == d);
    lemma_varint_round_trip(s, p3, t.outputs.len() as u64);
    assert(varint_parse(s, p3) == Some((t.outputs.len() as u64, p4)));
    assert(s.subrange(p4, p5) == e);
    lemma_parse_outputs_of_ser(s, p4, t.outputs);
    assert(s.subrange(p5, p5 + 4) == f);
    lemma_le_round_trip(t.locktime as int, 4);
    let parsed = parse_tx(s).unwrap();
    assert(parsed.version == t.version);
    assert(parsed.inputs == t.inputs);
    assert(parsed.outputs == t.outputs);
    assert(parsed.locktime == t.locktime);
}

/// ASCII whitespace, for address trimming.
pub open spec fn is_ws_byte(b: u8) -> bool {
    b == 0x20 || b == 0x09 || b == 0x0a || b == 0x0d || b == 0x0b || b == 0x0c
}

/// ASCII lowercase folding of one byte.
pub open spec fn lower_byte(b: u8) -> u8 {
    if 0x41 <= b <= 0x5a {
        (b + 0x20) as u8
    } else {
        b
    }
}

/// Drop leading ASCII whitespace.
pub open spec fn drop_leading_ws(s: Seq<u8>) -> Seq<u8>
    decreases s.len(),
{
    if s.len() > 0 && is_ws_byte(s[0]) {
        drop_leading_ws(s.drop_first())
    } else {
        s
    }
}

/// Drop trailing ASCII whitespace.
pub open spec fn drop_trailing_ws(s: Seq<u8>) -> Seq<u8>
    decreases s.len(),
{
    if s.len() > 0 && is_ws_byte(s.last()) {
        drop_trailing_ws(s.drop_last())
    } else {
        s
    }
}

/// The normal form under which two addresses are compared: trimmed of
/// surrounding whitespace and folded to ASCII lowercase.
pub open spec fn norm_addr_bytes(s: Seq<u8>) -> Seq<u8> {
    drop_trailing_ws(drop_leading_ws(s)).map_values(|b: u8| lower_byte(b))
}

/// Dropping leading whitespace keeps the suffix that starts at the first
/// non-whitespace byte.
proof fn lemma_drop_leading_ws(s: Seq<u8>, k: int)
    requires
        0 <= k <= s.len(),
        forall|j: int| 0 <= j < k ==> is_ws_byte(#[trigger] s[j]),
        k == s.len() || !is_ws_byte(s[k]),
    ensures
        drop_leading_ws(s) == s.subrange(k, s.len() as int),
    decreases k,
{
    if k == 0 {
        assert(s.subrange(0, s.len() as int) =~= s);
    } else {
        lemma_drop_leading_ws(s.drop_first(), k - 1);
        assert(s.drop_first().subrange(k - 1, s.drop_first().len() as int) =~= s.subrange(
            k,
            s.len() as int,
        ));
    }
}

/// Dropping trailing whitespace keeps the prefix that ends after the last
/// non-whitespace byte.
proof fn lemma_drop_trailing_ws(s: Seq<u8>, k: int)
    requires
        0 <= k <= s.len(),
        forall|j: int| k <= j < s.len() ==> is_ws_byte(#[trigger] s[j]),
        k == 0 || !is_ws_byte(s[k - 1]),
    ensures
        drop_trailing_ws(s) == s.subrange(0, k),
    decreases s.len() - k,
{
    if k == s.len() {
        assert(s.subrange(0, s.len() as int) =~= s);
    } else {
        lemma_drop_trailing_ws(s.drop_last(), k);
        assert(s.drop_last().subrange(0, k) =~= s.subrange(0, k));
    }
}

/// Whether one byte is ASCII whitespace.
pub fn is_ws_u8(b: u8) -> (r: bool)
    ensures
        r == is_ws_byte(b),
{
    b == 0x20 || b == 0x09 || b == 0x0a || b == 0x0d || b == 0x0b || b == 0x0c
}

/// The normal form of an address, as bytes.
pub fn normalize_address(s: &str) -> (r: Vec<u8>)
    ensures
        r@ == norm_addr_bytes(vstd::utf8::encode_utf8(s@)),
{
    let bytes = s.as_bytes();
    let mut start: usize = 0;
    while start < bytes.len() && is_ws_u8(bytes[start])
        invariant
            start <= bytes@.len(),
            forall|j: int| 0 <= j < start ==> is_ws_byte(#[trigger] bytes@[j]),
        decreases bytes@.len() - start,
    {
        start = start + 1;
    }
    let mut end: usize = bytes.len();
    while end > start && is_ws_u8(bytes[end - 1])
        invariant
            start <= end <= bytes@.len(),
            forall|j: int| end <= j < bytes@.len() ==> is_ws_byte(#[trigger] bytes@[j]),
        decreases end,
    {
        end = end - 1;
    }
    proof {
        lemma_drop_leading_ws(bytes@, start as int);
        let tail = bytes@.subrange(start as int, bytes@.len() as int);
        lemma_drop_trailing_ws(tail, end - start);
        assert(tail.subrange(0, end - start) =~= bytes@.subrange(start as int, end as int));
    }
    let mut out: Vec<u8> = Vec::new();
    let mut i: usize = start;
    while i < end
        invariant
            start <= i <= end <= bytes@.len(),
            out@.len() == i - start,
            forall|j: int| 0 <= j < out@.len() ==> out@[j] == lower_byte(
                #[trigger] bytes@[start + j],
            ),
        decreases end - i,
    {
        let b = bytes[i];
        if 0x41 <= b && b <= 0x5a {
            out.push(b + 0x20);
        } else {
            out.push(b);
        }
        i = i + 1;
    }
    proof {
        let trimmed = bytes@.subrange(start as int, end as int);
        assert forall|j: int| 0 <= j < out@.len() implies out@[j] == trimmed.map_values(
            |b: u8| lower_byte(b),
        )[j] by {
            assert(trimmed[j] == bytes@[start + j]);
        }
        assert(out@ =~= trimmed.map_values(|b: u8| lower_byte(b)));
    }
    out
}

/// Why a submitted transaction's outputs were rejected against the locked
/// chunks.
#[derive(Clone, Copy, Debug, PartialEq, Eq, Structural)]
pub enum ValidateError {
    TooFewOutputs,
    AmountMismatch { index: usize },
    AddressMismatch { index: usize },
}

/// Whether one transaction output pays one locked chunk: the satoshi value is
/// exact and the recipient address matches the chunk's address up to case and
/// surrounding whitespace.
pub open spec fn chunk_output_ok(o: BsvOutputModel, lc: crate::types::LockedChunk) -> bool {
    &&& o.satoshis == lc.sats_amount
    &&& norm_addr_bytes(vstd::utf8::encode_utf8(o.address)) == norm_addr_bytes(
        vstd::utf8::encode_utf8(lc.bsv_address@),
    )
}

/// Whether a transaction's outputs pay every locked chunk, in order, with
/// extra change outputs permitted after them.
pub open spec fn outputs_pay_chunks(
    outputs: Seq<BsvOutputModel>,
    expected: Seq<crate::types::LockedChunk>,
) -> bool {
    &&& outputs.len() >= expected.len()
    &&& forall|i: int| 0 <= i < expected.len() ==> chunk_output_ok(
        #[trigger] outputs[i],
        expected[i],
    )
}

/// Check a parsed transaction's outputs against the locked chunks of a trade:
/// output `i` must pay chunk `i` exactly; trailing outputs are change.
#[verifier::loop_isolation(false)]
pub fn validate_transaction_outputs(
    parsed_tx: &ParsedBsvTx,
    expected_outputs: &Vec<crate::types::LockedChunk>,
) -> (r: Result<(), ValidateError>)
    ensures
        r is Ok <==> outputs_pay_chunks(output_models(parsed_tx.outputs@), expected_outputs@),
        match r {
            Ok(_) => true,
            Err(e) => match e {
                ValidateError::TooFewOutputs => parsed_tx.outputs@.len() < expected_outputs@.len(),
                ValidateError::AmountMismatch { index } => {
                    &&& (index as int) < expected_outputs@.len()
                    &&& parsed_tx.outputs@[index as int].satoshis
                        != expected_outputs@[index as int].sats_amount
                    &&& forall|j: int| 0 <= j < index as int ==> chunk_output_ok(
                        #[trigger] output_models(parsed_tx.outputs@)[j],
                        expected_outputs@[j],
                    )
                },
                ValidateError::AddressMismatch { index } => {
                    &&& (index as int) < expected_outputs@.len()
                    &&& !chunk_output_ok(
                        output_models(parsed_tx.outputs@)[index as int],
                        expected_outputs@[index as int],
                    )
                    &&& parsed_tx.outputs@[index as int].satoshis
                        == expected_outputs@[index as int].sats_amount
                    &&& forall|j: int| 0 <= j < index as int ==> chunk_output_ok(
                        #[trigger] output_models(parsed_tx.outputs@)[j],
                        expected_outputs@[j],
                    )
                },
            },
        },
{
    if parsed_tx.outputs.len() < expected_outputs.len() {
        return Err(ValidateError::TooFewOutputs);
    }
    let mut i: usize = 0;
    while i < expected_outputs.len()
        invariant
            i <= expected_outputs@.len(),
            forall|j: int| 0 <= j < i ==> chunk_output_ok(
                #[trigger] output_models(parsed_tx.outputs@)[j],
                expected_outputs@[j],
            ),
        decreases expected_outputs@.len() - i,
    {
        let actual = &parsed_tx.outputs[i];
        let expected = &expected_outputs[i];
        proof {
            assert(output_models(parsed_tx.outputs@)[i as int] == parsed_tx.outputs@[i as int]@);
        }
        if actual.satoshis != expected.sats_amount {
            return Err(ValidateError::AmountMismatch { index: i });
        }
        let actual_norm = normalize_address(actual.address.as_str());
        let expected_norm = normalize_address(expected.bsv_address.as_str());
        if !crate::types::slice_eq(actual_norm.as_slice(), expected_norm.as_slice()) {
            proof {
                assert(!chunk_output_ok(
                    output_models(parsed_tx.outputs@)[i as int],
                    expected_outputs@[i as int],
                ));
            }
            return Err(ValidateError::AddressMismatch { index: i });
        }
        i = i + 1;
    }
    Ok(())
}

} // verus!
