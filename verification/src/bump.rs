//! The BUMP merkle-proof codec: parsing the compact per-block inclusion
//! proof, re-serialising it, and recomputing the merkle root it proves.

use vstd::prelude::*;
use crate::codec::{
    le_val, varint_parse, varint_bytes, read_varint, write_varint, lemma_varint_round_trip,
    lemma_pow256_vals,
};
use crate::hashing::{
    hex_of, bytes_of_hex, is_hex_text, double_sha256_of, hex_decode, hex_encode, double_sha256,
    reverse_bytes,
};
use crate::bsv_tx::{append_bytes, lemma_concat_chunk};

verus! {

/// Why a BUMP proof was rejected.
#[derive(Clone, Copy, Debug, PartialEq, Eq, Structural)]
pub enum BumpError {
    BadHex,
    UnexpectedEnd,
    EmptyPath,
    NoTxidNode,
    BadTxidHex,
    BadSiblingHex,
}

/// The mathematical content of one proof node.
pub struct BumpNodeModel {
    pub offset: u64,
    /// Display-order hex of the node hash; empty for duplicate nodes.
    pub hash: Seq<char>,
    pub is_txid: bool,
    pub is_duplicate: bool,
}

/// The mathematical content of a whole proof.
pub struct BumpProofModel {
    pub block_height: u64,
    pub path: Seq<Seq<BumpNodeModel>>,
}

/// One node of a parsed proof.
#[derive(Clone, Debug)]
pub struct BumpNode {
    pub offset: u64,
    /// Hex encoded hash in display order; empty for duplicate nodes.
    pub hash: String,
    pub txid: Option<bool>,
    pub duplicate: Option<bool>,
}

impl View for BumpNode {
    type V = BumpNodeModel;

    open spec fn view(&self) -> BumpNodeModel {
        BumpNodeModel {
            offset: self.offset,
            hash: self.hash@,
            is_txid: self.txid == Some(true),
            is_duplicate: self.duplicate == Some(true),
        }
    }
}

/// A parsed proof: one vector of nodes per tree level.
#[derive(Clone, Debug)]
pub struct BumpProof {
    pub block_height: u64,
    pub path: Vec<Vec<BumpNode>>,
}

/// The models of a vector of nodes.
pub open spec fn node_models(s: Seq<BumpNode>) -> Seq<BumpNodeModel> {
    s.map_values(|x: BumpNode| x@)
}

/// The models of a vector of levels.
pub open spec fn level_models(s: Seq<Vec<BumpNode>>) -> Seq<Seq<BumpNodeModel>> {
    s.map_values(|x: Vec<BumpNode>| node_models(x@))
}

impl View for BumpProof {
    type V = BumpProofModel;

    open spec fn view(&self) -> BumpProofModel {
        BumpProofModel { block_height: self.block_height, path: level_models(self.path@) }
    }
}

/// The spec-level result of parsing one node at position `i`.
pub open spec fn parse_node_at(s: Seq<u8>, i: int) -> Option<(BumpNodeModel, int)> {
    match varint_parse(s, i) {
        None => None,
        Some((off, j)) => {
            if j >= s.len() {
                None
            } else {
                let flags = s[j];
                let is_duplicate = flags % 2 == 1;
                let is_txid = (flags / 2) % 2 == 1;
                if is_duplicate {
                    Some(
                        (
                            BumpNodeModel {
                                offset: off,
                                hash: Seq::empty(),
                                is_txid,
                                is_duplicate,
                            },
                            j + 1,
                        ),
                    )
                } else {
                    if j + 33 > s.len() {
                        None
                    } else {
                        Some(
                            (
                                BumpNodeModel {
                                    offset: off,
                                    hash: hex_of(s.subrange(j + 1, j + 33).reverse()),
                                    is_txid,
                                    is_duplicate,
                                },
                                j + 33,
                            ),
                        )
                    }
                }
            }
        },
    }
}

/// The spec-level result of parsing `n` consecutive nodes at position `i`.
pub open spec fn parse_nodes_at(s: Seq<u8>, i: int, n: nat) -> Option<(Seq<BumpNodeModel>, int)>
    decreases n,
{
    if n == 0 {
        Some((Seq::empty(), i))
    } else {
        match parse_node_at(s, i) {
            None => None,
            Some((m, j)) => match parse_nodes_at(s, j, (n - 1) as nat) {
                None => None,
                Some((rest, k)) => Some((seq![m] + rest, k)),
            },
        }
    }
}

/// The spec-level result of parsing one level (leaf count, then the nodes).
pub open spec fn parse_level_at(s: Seq<u8>, i: int) -> Option<(Seq<BumpNodeModel>, int)> {
    match varint_parse(s, i) {
        None => None,
        Some((count, j)) => parse_nodes_at(s, j, count as nat),
    }
}

/// The spec-level result of parsing `n` consecutive levels at position `i`.
pub open spec fn parse_levels_at(s: Seq<u8>, i: int, n: nat) -> Option<
    (Seq<Seq<BumpNodeModel>>, int),
>
    decreases n,
{
    if n == 0 {
        Some((Seq::empty(), i))
    } else {
        match parse_level_at(s, i) {
            None => None,
            Some((lvl, j)) => match parse_levels_at(s, j, (n - 1) as nat) {
                None => None,
                Some((rest, k)) => Some((seq![lvl] + rest, k)),
            },
        }
    }
}

/// The spec-level result of parsing a whole proof: block height, tree height
/// and one node list per level.  Trailing bytes are permitted.
pub open spec fn parse_bump(s: Seq<u8>) -> Option<BumpProofModel> {
    match varint_parse(s, 0) {
        None => None,
        Some((height, o)) => {
            if o >= s.len() {
                None
            } else {
                let tree_height = s[o];
                match parse_levels_at(s, o + 1, tree_height as nat) {
                    None => None,
                    Some((levels, _)) => Some(
                        BumpProofModel { block_height: height, path: levels },
                    ),
                }
            }
        },
    }
}

/// Read a varint at a given offset, returning the value and the offset after
/// it.
pub fn parse_varint(bytes: &[u8], start: usize) -> (r: Result<(u64, usize), BumpError>)
    ensures
        match r {
            Ok((v, n)) => varint_parse(bytes@, start as int) == Some((v, n as int)),
            Err(_) => varint_parse(bytes@, start as int) is None,
        },
{
    let mut cursor = start;
    match read_varint(bytes, &mut cursor) {
        Ok(v) => Ok((v, cursor)),
        Err(_) => Err(BumpError::UnexpectedEnd),
    }
}

/// Parse one node at a given offset.
fn parse_node(bytes: &[u8], start: usize) -> (r: Result<(BumpNode, usize), BumpError>)
    ensures
        match r {
            Ok((node, n)) => parse_node_at(bytes@, start as int) == Some((node@, n as int)),
            Err(_) => parse_node_at(bytes@, start as int) is None,
        },
{
    let (offset, mut pos) = match parse_varint(bytes, start) {
        Ok(v) => v,
        Err(e) => {
            return Err(e);
        },
    };
    if pos >= bytes.len() {
        return Err(BumpError::UnexpectedEnd);
    }
    let flags = bytes[pos];
    let is_duplicate = flags % 2 == 1;
    let is_txid = (flags / 2) % 2 == 1;
    pos = pos + 1;
    if is_duplicate {
        let node = BumpNode {
            offset,
            hash: String::new(),
            txid: if is_txid {
                Some(true)
            } else {
                None
            },
            duplicate: Some(true),
        };
        return Ok((node, pos));
    }
    if bytes.len() - pos < 32 {
        return Err(BumpError::UnexpectedEnd);
    }
    let mut cursor = pos;
    let wire = match crate::codec::read_bytes(bytes, &mut cursor, 32) {
        Ok(v) => v,
        Err(_) => {
            return Err(BumpError::UnexpectedEnd);
        },
    };
    let display = reverse_bytes(&wire);
    let hash = hex_encode(display.as_slice());
    let node = BumpNode {
        offset,
        hash,
        txid: if is_txid {
            Some(true)
        } else {
            None
        },
        duplicate: None,
    };
    Ok((node, cursor))
}

/// Parse a whole proof from raw bytes.
#[verifier::loop_isolation(false)]
pub fn parse_bump_bytes(bytes: &[u8]) -> (r: Result<BumpProof, BumpError>)
    ensures
        match r {
            Ok(p) => parse_bump(bytes@) == Some(p@),
            Err(e) => parse_bump(bytes@) is None && e != BumpError::BadHex,
        },
{
    let (block_height, mut pos) = match parse_varint(bytes, 0) {
        Ok(v) => v,
        Err(_) => {
            return Err(BumpError::UnexpectedEnd);
        },
    };
    if pos >= bytes.len() {
        return Err(BumpError::UnexpectedEnd);
    }
    let tree_height = bytes[pos];
    pos = pos + 1;
    let ghost levels_start = pos as int;
    let mut path: Vec<Vec<BumpNode>> = Vec::new();
    let mut lvl: u8 = 0;
    while lvl < tree_height
        invariant
            lvl <= tree_height,
            parse_levels_at(bytes@, levels_start, lvl as nat) == Some(
                (level_models(path@), pos as int),
            ),
            pos <= bytes@.len(),
        decreases tree_height - lvl,
    {
        let ghost pre_models = level_models(path@);
        let ghost pre_pos = pos as int;
        let (n_leaves, mut node_pos) = match parse_varint(bytes, pos) {
            Ok(v) => v,
            Err(_) => {
                proof {
                    lemma_parse_levels_stuck(
                        bytes@,
                        levels_start,
                        lvl as nat,
                        pre_models,
                        pre_pos,
                        tree_height as nat,
                    );
                }
                return Err(BumpError::UnexpectedEnd);
            },
        };
        let ghost nodes_start = node_pos as int;
        let mut level_nodes: Vec<BumpNode> = Vec::new();
        let mut leaf: u64 = 0;
        while leaf < n_leaves
            invariant
                leaf <= n_leaves,
                parse_nodes_at(bytes@, nodes_start, leaf as nat) == Some(
                    (node_models(level_nodes@), node_pos as int),
                ),
                node_pos <= bytes@.len(),
            decreases n_leaves - leaf,
        {
            let ghost pre_nodes = node_models(level_nodes@);
            let ghost pre_npos = node_pos as int;
            let (node, next) = match parse_node(bytes, node_pos) {
                Ok(v) => v,
                Err(_) => {
                    proof {
                        lemma_parse_nodes_stuck(
                            bytes@,
                            nodes_start,
                            leaf as nat,
                            pre_nodes,
                            pre_npos,
                            n_leaves as nat,
                        );
                        lemma_parse_levels_stuck(
                            bytes@,
                            levels_start,
                            lvl as nat,
                            pre_models,
                            pre_pos,
                            tree_height as nat,
                        );
                    }
                    return Err(BumpError::UnexpectedEnd);
                },
            };
            proof {
                lemma_parse_nodes_snoc(bytes@, nodes_start, leaf as nat, pre_nodes, pre_npos);
            }
            level_nodes.push(node);
            node_pos = next;
            leaf = leaf + 1;
            proof {
                assert(node_models(level_nodes@) =~= pre_nodes.push(
                    level_nodes@[level_nodes@.len() - 1]@,
                ));
            }
        }
        proof {
            lemma_parse_levels_snoc(bytes@, levels_start, lvl as nat, pre_models, pre_pos);
        }
        path.push(level_nodes);
        pos = node_pos;
        lvl = lvl + 1;
        proof {
            assert(level_models(path@) =~= pre_models.push(
                node_models(path@[path@.len() - 1]@),
            ));
        }
    }
    Ok(BumpProof { block_height, path })
}

/// Parse a whole proof from hex text.
pub fn parse_bump_hex(bump_hex: &str) -> (r: Result<BumpProof, BumpError>)
    ensures
        match r {
            Ok(p) => {
                &&& is_hex_text(bump_hex@)
                &&& parse_bump(bytes_of_hex(bump_hex@)) == Some(p@)
            },
            Err(e) => {
                if e == BumpError::BadHex {
                    !is_hex_text(bump_hex@)
                } else {
                    is_hex_text(bump_hex@) && parse_bump(bytes_of_hex(bump_hex@)) is None
                }
            },
        },
{
    let bytes = match hex_decode(bump_hex) {
        Some(v) => v,
        None => {
            return Err(BumpError::BadHex);
        },
    };
    parse_bump_bytes(bytes.as_slice())
}

/// Parsing one more node after `n` parsed ones appends it to the result.
pub proof fn lemma_parse_nodes_snoc(s: Seq<u8>, i: int, n: nat, ms: Seq<BumpNodeModel>, c: int)
    requires
        parse_nodes_at(s, i, n) == Some((ms, c)),
    ensures
        parse_nodes_at(s, i, n + 1) == match parse_node_at(s, c) {
            None => None::<(Seq<BumpNodeModel>, int)>,
            Some((m, c2)) => Some((ms.push(m), c2)),
        },
    decreases n,
{
    reveal_with_fuel(parse_nodes_at, 3);
    if n == 0 {
        match parse_node_at(s, c) {
            None => {},
            Some((m, c2)) => {
                assert(seq![m] + Seq::<BumpNodeModel>::empty() =~= Seq::<
                    BumpNodeModel,
                >::empty().push(m));
            },
        }
    } else {
        let (m0, j) = parse_node_at(s, i).unwrap();
        let (rest, _) = parse_nodes_at(s, j, (n - 1) as nat).unwrap();
        lemma_parse_nodes_snoc(s, j, (n - 1) as nat, rest, c);
        match parse_node_at(s, c) {
            None => {},
            Some((m, c2)) => {
                assert(seq![m0] + rest.push(m) =~= (seq![m0] + rest).push(m));
            },
        }
    }
}

/// Parsing more nodes than the stream holds fails.
pub proof fn lemma_parse_nodes_stuck(
    s: Seq<u8>,
    i: int,
    n: nat,
    ms: Seq<BumpNodeModel>,
    c: int,
    n2: nat,
)
    requires
        parse_nodes_at(s, i, n) == Some((ms, c)),
        parse_node_at(s, c) is None,
        n2 > n,
    ensures
        parse_nodes_at(s, i, n2) is None,
    decreases n,
{
    if n == 0 {
    } else {
        let (m0, j) = parse_node_at(s, i).unwrap();
        let (rest, _) = parse_nodes_at(s, j, (n - 1) as nat).unwrap();
        lemma_parse_nodes_stuck(s, j, (n - 1) as nat, rest, c, (n2 - 1) as nat);
    }
}

/// Parsing one more level after `n` parsed ones appends it to the result.
pub proof fn lemma_parse_levels_snoc(s: Seq<u8>, i: int, n: nat, ms: Seq<Seq<BumpNodeModel>>, c: int)
    requires
        parse_levels_at(s, i, n) == Some((ms, c)),
    ensures
        parse_levels_at(s, i, n + 1) == match parse_level_at(s, c) {
            None => None::<(Seq<Seq<BumpNodeModel>>, int)>,
            Some((m, c2)) => Some((ms.push(m), c2)),
        },
    decreases n,
{
    reveal_with_fuel(parse_levels_at, 3);
    if n == 0 {
        match parse_level_at(s, c) {
            None => {},
            Some((m, c2)) => {
                assert(seq![m] + Seq::<Seq<BumpNodeModel>>::empty() =~= Seq::<
                    Seq<BumpNodeModel>,
                >::empty().push(m));
            },
        }
    } else {
        let (m0, j) = parse_level_at(s, i).unwrap();
        let (rest, _) = parse_levels_at(s, j, (n - 1) as nat).unwrap();
        lemma_parse_levels_snoc(s, j, (n - 1) as nat, rest, c);
        match parse_level_at(s, c) {
            None => {},
            Some((m, c2)) => {
                assert(seq![m0] + rest.push(m) =~= (seq![m0] + rest).push(m));
            },
        }
    }
}

/// Parsing more levels than the stream holds fails.
pub proof fn lemma_parse_levels_stuck(
    s: Seq<u8>,
    i: int,
    n: nat,
    ms: Seq<Seq<BumpNodeModel>>,
    c: int,
    n2: nat,
)
    requires
        parse_levels_at(s, i, n) == Some((ms, c)),
        parse_level_at(s, c) is None,
        n2 > n,
    ensures
        parse_levels_at(s, i, n2) is None,
    decreases n,
{
    if n == 0 {
    } else {
        let (m0, j) = parse_level_at(s, i).unwrap();
        let (rest, _) = parse_levels_at(s, j, (n - 1) as nat).unwrap();
        lemma_parse_levels_stuck(s, j, (n - 1) as nat, rest, c, (n2 - 1) as nat);
    }
}

/// A lowercase hex digit.
pub open spec fn is_lower_hex_digit(c: char) -> bool {
    (0x30 <= c as u32 <= 0x39) || (0x61 <= c as u32 <= 0x66)
}

/// Lowercase hex text of even length.
pub open spec fn is_lower_hex_text(t: Seq<char>) -> bool {
    &&& t.len() % 2 == 0
    &&& forall|i: int| 0 <= i < t.len() ==> is_lower_hex_digit(#[trigger] t[i])
}

/// Encoding the bytes that lowercase hex text denotes gives the text back.
pub proof fn lemma_hex_canonical(t: Seq<char>)
    requires
        is_lower_hex_text(t),
    ensures
        is_hex_text(t),
        hex_of(bytes_of_hex(t)) == t,
{
    let b = bytes_of_hex(t);
    assert forall|i: int| 0 <= i < t.len() implies hex_of(b)[i] == t[i] by {
        let k = i / 2;
        let hi = crate::hashing::hex_digit_val(t[2 * k]);
        let lo = crate::hashing::hex_digit_val(t[2 * k + 1]);
        assert(0 <= hi < 16);
        assert(0 <= lo < 16);
        assert(b[k] == (hi * 16 + lo) as u8);
        assert(b[k] / 16 == hi);
        assert(b[k] % 16 == lo);
        if i % 2 == 0 {
            assert(i == 2 * k);
            assert(hex_of(b)[i] == crate::hashing::hex_char((hi) as u8));
            vstd::utf8::char_u32_cast(t[i], t[i] as u32);
        } else {
            assert(i == 2 * k + 1);
            assert(hex_of(b)[i] == crate::hashing::hex_char((lo) as u8));
            vstd::utf8::char_u32_cast(t[i], t[i] as u32);
        }
    }
    assert(hex_of(b) =~= t);
}

/// The flags byte of a node.
pub open spec fn node_flags(m: BumpNodeModel) -> u8 {
    ((if m.is_duplicate {
        1int
    } else {
        0int
    }) + (if m.is_txid {
        2int
    } else {
        0int
    })) as u8
}

/// The wire bytes of one node.
pub open spec fn ser_node(m: BumpNodeModel) -> Seq<u8> {
    varint_bytes(m.offset) + seq![node_flags(m)] + (if m.is_duplicate {
        Seq::<u8>::empty()
    } else {
        bytes_of_hex(m.hash).reverse()
    })
}

/// The wire bytes of a node list.
pub open spec fn ser_nodes(ms: Seq<BumpNodeModel>) -> Seq<u8>
    decreases ms.len(),
{
    if ms.len() == 0 {
        Seq::empty()
    } else {
        ser_node(ms.first()) + ser_nodes(ms.drop_first())
    }
}

/// The wire bytes of one level: the leaf count, then the nodes.
pub open spec fn ser_level(lvl: Seq<BumpNodeModel>) -> Seq<u8> {
    varint_bytes(lvl.len() as u64) + ser_nodes(lvl)
}

/// The wire bytes of a level list.
pub open spec fn ser_levels(ms: Seq<Seq<BumpNodeModel>>) -> Seq<u8>
    decreases ms.len(),
{
    if ms.len() == 0 {
        Seq::empty()
    } else {
        ser_level(ms.first()) + ser_levels(ms.drop_first())
    }
}

/// The full wire bytes of a proof.
pub open spec fn ser_bump(p: BumpProofModel) -> Seq<u8> {
    varint_bytes(p.block_height) + seq![p.path.len() as u8] + ser_levels(p.path)
}

/// Well-formedness of a node model: a non-duplicate node carries the
/// lowercase hex of a 32-byte hash, a duplicate node carries none.
pub open spec fn node_model_wf(m: BumpNodeModel) -> bool {
    if m.is_duplicate {
        m.hash.len() == 0
    } else {
        m.hash.len() == 64 && is_lower_hex_text(m.hash)
    }
}

/// Well-formedness of a proof model.
pub open spec fn bump_model_wf(p: BumpProofModel) -> bool {
    &&& p.path.len() <= 255
    &&& forall|l: int, k: int|
        0 <= l < p.path.len() && 0 <= k < p.path[l].len() ==> node_model_wf(#[trigger] p.path[l][k])
    &&& forall|l: int| 0 <= l < p.path.len() ==> (#[trigger] p.path[l]).len() <= u64::MAX
}

/// Appending to a node list appends its wire bytes.
pub proof fn lemma_ser_nodes_push(ms: Seq<BumpNodeModel>, m: BumpNodeModel)
    ensures
        ser_nodes(ms.push(m)) == ser_nodes(ms) + ser_node(m),
    decreases ms.len(),
{
    if ms.len() == 0 {
        assert(ms.push(m)[0] == m);
        assert(ms.push(m).drop_first() =~= Seq::<BumpNodeModel>::empty());
        assert(ser_nodes(ms.push(m)) == ser_node(m) + ser_nodes(Seq::<BumpNodeModel>::empty()));
        assert(ser_nodes(ms.push(m)) =~= ser_nodes(ms) + ser_node(m));
    } else {
        assert(ms.push(m)[0] == ms[0]);
        assert(ms.push(m).drop_first() =~= ms.drop_first().push(m));
        lemma_ser_nodes_push(ms.drop_first(), m);
        assert(ser_nodes(ms.push(m)) == ser_node(ms.first()) + (ser_nodes(ms.drop_first())
            + ser_node(m)));
        assert(ser_nodes(ms.push(m)) =~= ser_nodes(ms) + ser_node(m));
    }
}

/// Appending to a level list appends its wire bytes.
pub proof fn lemma_ser_levels_push(ms: Seq<Seq<BumpNodeModel>>, m: Seq<BumpNodeModel>)
    ensures
        ser_levels(ms.push(m)) == ser_levels(ms) + ser_level(m),
    decreases ms.len(),
{
    if ms.len() == 0 {
        assert(ms.push(m)[0] == m);
        assert(ms.push(m).drop_first() =~= Seq::<Seq<BumpNodeModel>>::empty());
        assert(ser_levels(ms.push(m)) == ser_level(m) + ser_levels(
            Seq::<Seq<BumpNodeModel>>::empty(),
        ));
        assert(ser_levels(ms.push(m)) =~= ser_levels(ms) + ser_level(m));
    } else {
        assert(ms.push(m)[0] == ms[0]);
        assert(ms.push(m).drop_first() =~= ms.drop_first().push(m));
        lemma_ser_levels_push(ms.drop_first(), m);
        assert(ser_levels(ms.push(m)) == ser_level(ms.first()) + (ser_levels(ms.drop_first())
            + ser_level(m)));
        assert(ser_levels(ms.push(m)) =~= ser_levels(ms) + ser_level(m));
    }
}

/// Serialise one node onto `out`.
fn write_node(out: &mut Vec<u8>, node: &BumpNode) -> (r: Result<(), BumpError>)
    ensures
        match r {
            Ok(_) => final(out)@ == old(out)@ + ser_node(node@),
            Err(_) => !node@.is_duplicate && !is_hex_text(node@.hash) && final(out)@ == old(out)@,
        },
{
    let is_dup = match node.duplicate {
        Some(true) => true,
        _ => false,
    };
    if !is_dup {
        match crate::hashing::hex_decode(node.hash.as_str()) {
            Some(display) => {
                write_varint(out, node.offset);
                let flags: u8 = match node.txid {
                    Some(true) => 2,
                    _ => 0,
                };
                out.push(flags);
                let wire = reverse_bytes(&display);
                append_bytes(out, wire.as_slice());
                proof {
                    assert(out@ =~= old(out)@ + ser_node(node@));
                }
                Ok(())
            },
            None => Err(BumpError::BadSiblingHex),
        }
    } else {
        write_varint(out, node.offset);
        let flags: u8 = match node.txid {
            Some(true) => 3,
            _ => 1,
        };
        out.push(flags);
        proof {
            assert(out@ =~= old(out)@ + ser_node(node@));
        }
        Ok(())
    }
}

/// Serialise a parsed proof back to its wire bytes.  Fails only where a
/// non-duplicate node holds text that is not hex.
#[verifier::loop_isolation(false)]
pub fn serialize_bump(proof_in: &BumpProof) -> (r: Result<Vec<u8>, BumpError>)
    requires
        proof_in.path@.len() <= 255,
    ensures
        match r {
            Ok(v) => v@ == ser_bump(proof_in@),
            Err(_) => exists|l: int, k: int|
                0 <= l < proof_in.path@.len() && 0 <= k < proof_in.path@[l]@.len() && !((
                #[trigger] proof_in.path@[l]@[k])@.is_duplicate) && !is_hex_text(
                    proof_in.path@[l]@[k]@.hash,
                ),
        },
{
    let mut out: Vec<u8> = Vec::new();
    write_varint(&mut out, proof_in.block_height);
    out.push(proof_in.path.len() as u8);
    let ghost header = out@;
    assert(header =~= varint_bytes(proof_in.block_height) + seq![proof_in.path@.len() as u8]);
    let mut l: usize = 0;
    while l < proof_in.path.len()
        invariant
            l <= proof_in.path@.len(),
            out@ == header + ser_levels(level_models(proof_in.path@.subrange(0, l as int))),
        decreases proof_in.path@.len() - l,
    {
        let ghost pre = level_models(proof_in.path@.subrange(0, l as int));
        let level = &proof_in.path[l];
        write_varint(&mut out, level.len() as u64);
        let ghost after_count = out@;
        let mut k: usize = 0;
        while k < level.len()
            invariant
                k <= level@.len(),
                out@ == after_count + ser_nodes(node_models(level@.subrange(0, k as int))),
            decreases level@.len() - k,
        {
            let ghost pre_nodes = node_models(level@.subrange(0, k as int));
            match write_node(&mut out, &level[k]) {
                Ok(_) => {},
                Err(e) => {
                    proof {
                        assert(!(proof_in.path@[l as int]@[k as int]@.is_duplicate)
                            && !is_hex_text(proof_in.path@[l as int]@[k as int]@.hash));
                    }
                    return Err(e);
                },
            }
            k = k + 1;
            proof {
                assert(node_models(level@.subrange(0, k as int)) =~= pre_nodes.push(
                    level@[k - 1]@,
                ));
                lemma_ser_nodes_push(pre_nodes, level@[k - 1]@);
                assert(out@ =~= after_count + ser_nodes(
                    node_models(level@.subrange(0, k as int)),
                ));
            }
        }
        l = l + 1;
        proof {
            assert(level@.subrange(0, level@.len() as int) =~= level@);
            assert(level_models(proof_in.path@.subrange(0, l as int)) =~= pre.push(
                node_models(level@),
            ));
            lemma_ser_levels_push(pre, node_models(level@));
            assert(out@ =~= header + ser_levels(
                level_models(proof_in.path@.subrange(0, l as int)),
            ));
        }
    }
    proof {
        assert(proof_in.path@.subrange(0, proof_in.path@.len() as int) =~= proof_in.path@);
        assert(out@ =~= ser_bump(proof_in@));
    }
    Ok(out)
}

/// A serialised node embedded in a stream parses back to its model.
pub proof fn lemma_parse_node_of_ser(s: Seq<u8>, i: int, m: BumpNodeModel)
    requires
        node_model_wf(m),
        0 <= i,
        i + ser_node(m).len() <= s.len(),
        s.subrange(i, i + ser_node(m).len()) == ser_node(m),
    ensures
        parse_node_at(s, i) == Some((m, i + ser_node(m).len())),
{
    let a = varint_bytes(m.offset);
    let b = seq![node_flags(m)];
    let c = if m.is_duplicate {
        Seq::<u8>::empty()
    } else {
        bytes_of_hex(m.hash).reverse()
    };
    let al = a.len() as int;
    let cl = c.len() as int;
    let c1 = a + b;
    let c2 = c1 + c;
    assert(ser_node(m) == c2);
    assert(c2.len() == al + 1 + cl);
    assert forall|j: int| 0 <= j < al implies c2[0 + j] == #[trigger] a[j] by {
        assert(c2[j] == c1[j]);
        assert(c1[j] == a[j]);
    }
    lemma_concat_chunk(s, i, c2, 0, a);
    assert forall|j: int| 0 <= j < 1 implies c2[al + j] == #[trigger] b[j] by {
        assert(c2[al + j] == c1[al + j]);
        assert(c1[al + j] == b[j]);
    }
    lemma_concat_chunk(s, i, c2, al, b);
    assert forall|j: int| 0 <= j < cl implies c2[al + 1 + j] == #[trigger] c[j] by {
        assert(c2[al + 1 + j] == c[j]);
    }
    lemma_concat_chunk(s, i, c2, al + 1, c);
    assert(s.subrange(i, i + al) == a);
    lemma_varint_round_trip(s, i, m.offset);
    let j = i + al;
    assert(s.subrange(j, j + 1) == b);
    assert(s[j] == b[0]);
    assert(s[j] == node_flags(m));
    if m.is_duplicate {
        assert(node_flags(m) % 2 == 1);
        let parsed = parse_node_at(s, i).unwrap().0;
        assert(parsed.hash =~= m.hash);
        assert((node_flags(m) / 2) % 2 == 1 <==> m.is_txid);
    } else {
        assert(node_flags(m) % 2 == 0);
        assert((node_flags(m) / 2) % 2 == 1 <==> m.is_txid);
        assert(bytes_of_hex(m.hash).len() == 32);
        assert(cl == 32);
        assert(s.subrange(j + 1, j + 33) == c);
        assert(c.reverse() =~= bytes_of_hex(m.hash));
        lemma_hex_canonical(m.hash);
        let parsed = parse_node_at(s, i).unwrap().0;
        assert(parsed.hash == m.hash);
    }
}

/// A serialised node list embedded in a stream parses back to its models.
pub proof fn lemma_parse_nodes_of_ser(s: Seq<u8>, i: int, ms: Seq<BumpNodeModel>)
    requires
        forall|k: int| 0 <= k < ms.len() ==> node_model_wf(#[trigger] ms[k]),
        0 <= i,
        i + ser_nodes(ms).len() <= s.len(),
        s.subrange(i, i + ser_nodes(ms).len()) == ser_nodes(ms),
    ensures
        parse_nodes_at(s, i, ms.len()) == Some((ms, i + ser_nodes(ms).len())),
    decreases ms.len(),
{
    if ms.len() == 0 {
        assert(ms =~= Seq::<BumpNodeModel>::empty());
    } else {
        let first = ms.first();
        let rest = ms.drop_first();
        let fb = ser_node(first);
        let rb = ser_nodes(rest);
        let f_len = fb.len() as int;
        let r_len = rb.len() as int;
        let cat = fb + rb;
        assert(ser_nodes(ms) == cat);
        assert forall|j: int| 0 <= j < f_len implies cat[0 + j] == #[trigger] fb[j] by {
            assert(cat[j] == fb[j]);
        }
        lemma_concat_chunk(s, i, cat, 0, fb);
        lemma_parse_node_of_ser(s, i, first);
        assert forall|j: int| 0 <= j < r_len implies cat[f_len + j] == #[trigger] rb[j] by {
            assert(cat[f_len + j] == rb[j]);
        }
        lemma_concat_chunk(s, i, cat, f_len, rb);
        lemma_parse_nodes_of_ser(s, i + f_len, rest);
        assert(seq![first] + rest =~= ms);
    }
}

/// A serialised level list embedded in a stream parses back to its models.
pub proof fn lemma_parse_levels_of_ser(s: Seq<u8>, i: int, ms: Seq<Seq<BumpNodeModel>>)
    requires
        forall|l: int, k: int| 0 <= l < ms.len() && 0 <= k < ms[l].len() ==> node_model_wf(
            #[trigger] ms[l][k],
        ),
        forall|l: int| 0 <= l < ms.len() ==> (#[trigger] ms[l]).len() <= u64::MAX,
        0 <= i,
        i + ser_levels(ms).len() <= s.len(),
        s.subrange(i, i + ser_levels(ms).len()) == ser_levels(ms),
    ensures
        parse_levels_at(s, i, ms.len()) == Some((ms, i + ser_levels(ms).len())),
    decreases ms.len(),
{
    if ms.len() == 0 {
        assert(ms =~= Seq::<Seq<BumpNodeModel>>::empty());
    } else {
        let first = ms.first();
        let rest = ms.drop_first();
        let fb = ser_level(first);
        let rb = ser_levels(rest);
        let f_len = fb.len() as int;
        let r_len = rb.len() as int;
        let cat = fb + rb;
        assert(ser_levels(ms) == cat);
        assert forall|j: int| 0 <= j < f_len implies cat[0 + j] == #[trigger] fb[j] by {
            assert(cat[j] == fb[j]);
        }
        lemma_concat_chunk(s, i, cat, 0, fb);
        let cb = varint_bytes(first.len() as u64);
        let nb = ser_nodes(first);
        let cbl = cb.len() as int;
        let lcat = cb + nb;
        assert(fb == lcat);
        assert forall|j: int| 0 <= j < cbl implies lcat[0 + j] == #[trigger] cb[j] by {
            assert(lcat[j] == cb[j]);
        }
        lemma_concat_chunk(s, i, lcat, 0, cb);
        lemma_varint_round_trip(s, i, first.len() as u64);
        assert forall|j: int| 0 <= j < nb.len() implies lcat[cbl + j] == #[trigger] nb[j] by {
            assert(lcat[cbl + j] == nb[j]);
        }
        lemma_concat_chunk(s, i, lcat, cbl, nb);
        assert(forall|k: int| 0 <= k < first.len() ==> node_model_wf(#[trigger] first[k]));
        lemma_parse_nodes_of_ser(s, i + cbl, first);
        assert(parse_level_at(s, i) == Some((first, i + f_len)));
        assert forall|j: int| 0 <= j < r_len implies cat[f_len + j] == #[trigger] rb[j] by {
            assert(cat[f_len + j] == rb[j]);
        }
        lemma_concat_chunk(s, i, cat, f_len, rb);
        lemma_parse_levels_of_ser(s, i + f_len, rest);
        assert(seq![first] + rest =~= ms);
    }
}

/// Parsing is a left inverse of serialisation for proofs: a well-formed
/// proof model serialises to bytes that parse back to exactly that model.
pub proof fn lemma_bump_round_trip(p: BumpProofModel)
    requires
        bump_model_wf(p),
    ensures
        parse_bump(ser_bump(p)) == Some(p),
{
    let s = ser_bump(p);
    let a = varint_bytes(p.block_height);
    let b = seq![p.path.len() as u8];
    let c = ser_levels(p.path);
    let al = a.len() as int;
    let cl = c.len() as int;
    let c1 = a + b;
    let c2 = c1 + c;
    assert(s == c2);
    assert(s.subrange(0, s.len() as int) =~= s);
    assert forall|j: int| 0 <= j < al implies c2[0 + j] == #[trigger] a[j] by {
        assert(c2[j] == c1[j]);
        assert(c1[j] == a[j]);
    }
    lemma_concat_chunk(s, 0, c2, 0, a);
    assert forall|j: int| 0 <= j < 1 implies c2[al + j] == #[trigger] b[j] by {
        assert(c2[al + j] == c1[al + j]);
        assert(c1[al + j] == b[j]);
    }
    lemma_concat_chunk(s, 0, c2, al, b);
    assert forall|j: int| 0 <= j < cl implies c2[al + 1 + j] == #[trigger] c[j] by {
        assert(c2[al + 1 + j] == c[j]);
    }
    lemma_concat_chunk(s, 0, c2, al + 1, c);
    assert(s.subrange(0, al) == a);
    lemma_varint_round_trip(s, 0, p.block_height);
    assert(s.subrange(al, al + 1) == b);
    assert(s[al] == p.path.len() as u8);
    assert(s.subrange(al + 1, al + 1 + cl) == c);
    lemma_parse_levels_of_ser(s, al + 1, p.path);
    let parsed = parse_bump(s).unwrap();
    assert(parsed.block_height == p.block_height);
    assert(parsed.path == p.path);
}

/// The first node of a level that is flagged as the transaction, if any.
pub open spec fn find_txid_index(lvl: Seq<BumpNodeModel>) -> Option<int>
    decreases lvl.len(),
{
    if lvl.len() == 0 {
        None
    } else if lvl[0].is_txid {
        Some(0)
    } else {
        match find_txid_index(lvl.drop_first()) {
            None => None,
            Some(i) => Some(i + 1),
        }
    }
}

/// The first node of a level that is not flagged as the transaction, if any.
pub open spec fn find_non_txid_index(lvl: Seq<BumpNodeModel>) -> Option<int>
    decreases lvl.len(),
{
    if lvl.len() == 0 {
        None
    } else if !lvl[0].is_txid {
        Some(0)
    } else {
        match find_non_txid_index(lvl.drop_first()) {
            None => None,
            Some(i) => Some(i + 1),
        }
    }
}

/// A first-index characterisation of `find_txid_index`.
pub proof fn lemma_find_txid_first(lvl: Seq<BumpNodeModel>, i: int)
    requires
        0 <= i <= lvl.len(),
        forall|j: int| 0 <= j < i ==> !(#[trigger] lvl[j]).is_txid,
        i == lvl.len() || lvl[i].is_txid,
    ensures
        find_txid_index(lvl) == if i == lvl.len() {
            None::<int>
        } else {
            Some(i)
        },
    decreases i,
{
    if i == 0 {
    } else {
        lemma_find_txid_first(lvl.drop_first(), i - 1);
    }
}

/// A first-index characterisation of `find_non_txid_index`.
pub proof fn lemma_find_non_txid_first(lvl: Seq<BumpNodeModel>, i: int)
    requires
        0 <= i <= lvl.len(),
        forall|j: int| 0 <= j < i ==> (#[trigger] lvl[j]).is_txid,
        i == lvl.len() || !lvl[i].is_txid,
    ensures
        find_non_txid_index(lvl) == if i == lvl.len() {
            None::<int>
        } else {
            Some(i)
        },
    decreases i,
{
    if i == 0 {
    } else {
        lemma_find_non_txid_first(lvl.drop_first(), i - 1);
    }
}

/// The sibling used at one level of the walk: at the leaf level, the first
/// node not flagged as the transaction; above it, the level's single node.
pub open spec fn sibling_at(path: Seq<Seq<BumpNodeModel>>, l: int) -> Option<BumpNodeModel>
    recommends
        0 <= l < path.len(),
{
    if l == 0 {
        match find_non_txid_index(path[0]) {
            None => None,
            Some(i) => Some(path[0][i]),
        }
    } else {
        if path[l].len() > 0 {
            Some(path[l][0])
        } else {
            None
        }
    }
}

/// One step of the merkle walk: pair the running hash with the sibling,
/// lower offset first, and hash the pair; `None` where the sibling text is
/// not hex.
pub open spec fn combine_step(current: Seq<u8>, coff: u64, n: BumpNodeModel) -> Option<Seq<u8>> {
    let sib_opt = if n.is_duplicate {
        Some(current)
    } else if is_hex_text(n.hash) {
        Some(bytes_of_hex(n.hash).reverse())
    } else {
        None
    };
    match sib_opt {
        None => None,
        Some(sb) => Some(
            double_sha256_of(
                if coff < n.offset {
                    current + sb
                } else {
                    sb + current
                },
            ),
        ),
    }
}

/// The merkle walk from level `idx` upward.
pub open spec fn fold_levels(
    path: Seq<Seq<BumpNodeModel>>,
    idx: int,
    current: Seq<u8>,
    coff: u64,
) -> Option<Seq<u8>>
    decreases path.len() - idx
        when 0 <= idx <= path.len()
{
    if idx >= path.len() {
        Some(current)
    } else {
        match sibling_at(path, idx) {
            None => fold_levels(path, idx + 1, current, coff / 2),
            Some(n) => match combine_step(current, coff, n) {
                None => None,
                Some(c2) => fold_levels(path, idx + 1, c2, coff / 2),
            },
        }
    }
}

/// The merkle root a proof computes for a transaction id, in display-order
/// hex; `None` where the walk cannot be carried out.
pub open spec fn merkle_root_of(txid: Seq<char>, path: Seq<Seq<BumpNodeModel>>) -> Option<
    Seq<char>,
> {
    if path.len() == 0 {
        None
    } else {
        match find_txid_index(path[0]) {
            None => None,
            Some(ti) => {
                if !is_hex_text(txid) {
                    None
                } else {
                    match fold_levels(path, 0, bytes_of_hex(txid).reverse(), path[0][ti].offset) {
                        None => None,
                        Some(h) => Some(hex_of(h.reverse())),
                    }
                }
            },
        }
    }
}

/// Copy a byte vector.
fn copy_bytes(v: &Vec<u8>) -> (r: Vec<u8>)
    ensures
        r@ == v@,
{
    let mut out: Vec<u8> = Vec::new();
    append_bytes(&mut out, v.as_slice());
    proof {
        assert(out@ =~= v@);
    }
    out
}

/// Recompute the merkle root that a proof path derives for a transaction id.
#[verifier::loop_isolation(false)]
pub fn compute_merkle_root(txid: &str, path: &Vec<Vec<BumpNode>>) -> (r: Result<String, BumpError>)
    ensures
        match r {
            Ok(root) => merkle_root_of(txid@, level_models(path@)) == Some(root@),
            Err(_) => merkle_root_of(txid@, level_models(path@)) is None,
        },
{
    let ghost pm = level_models(path@);
    if path.len() == 0 {
        return Err(BumpError::EmptyPath);
    }
    let level0 = &path[0];
    let mut ti: usize = 0;
    while ti < level0.len() && !matches!(level0[ti].txid, Some(true))
        invariant
            ti <= level0@.len(),
            forall|j: int| 0 <= j < ti ==> !(#[trigger] node_models(level0@)[j]).is_txid,
        decreases level0@.len() - ti,
    {
        ti = ti + 1;
    }
    proof {
        lemma_find_txid_first(node_models(level0@), ti as int);
        assert(pm[0] == node_models(level0@));
    }
    if ti >= level0.len() {
        return Err(BumpError::NoTxidNode);
    }
    let decoded = match hex_decode(txid) {
        Some(v) => v,
        None => {
            return Err(BumpError::BadTxidHex);
        },
    };
    let mut current = reverse_bytes(&decoded);
    let mut coff: u64 = level0[ti].offset;
    let ghost target = fold_levels(pm, 0, bytes_of_hex(txid@).reverse(), coff);
    let mut l: usize = 0;
    while l < path.len()
        invariant
            l <= path@.len(),
            fold_levels(pm, l as int, current@, coff) == target,
        decreases path@.len() - l,
    {
        let level = &path[l];
        let mut sib: Option<usize> = None;
        if l == 0 {
            let mut si: usize = 0;
            while si < level.len() && matches!(level[si].txid, Some(true))
                invariant
                    si <= level@.len(),
                    forall|j: int| 0 <= j < si ==> (#[trigger] node_models(level@)[j]).is_txid,
                decreases level@.len() - si,
            {
                si = si + 1;
            }
            proof {
                lemma_find_non_txid_first(node_models(level@), si as int);
                assert(pm[l as int] == node_models(level@));
            }
            if si < level.len() {
                sib = Some(si);
            }
        } else {
            proof {
                assert(pm[l as int] == node_models(level@));
            }
            if level.len() > 0 {
                sib = Some(0);
            }
        }
        match sib {
            None => {
                proof {
                    assert(sibling_at(pm, l as int) is None);
                }
            },
            Some(si) => {
                let node = &level[si];
                proof {
                    assert(sibling_at(pm, l as int) == Some(node@));
                }
                let sib_bytes: Vec<u8>;
                let is_dup = matches!(node.duplicate, Some(true));
                if is_dup {
                    sib_bytes = copy_bytes(&current);
                } else {
                    match hex_decode(node.hash.as_str()) {
                        Some(d) => {
                            sib_bytes = reverse_bytes(&d);
                        },
                        None => {
                            proof {
                                assert(combine_step(current@, coff, node@) is None);
                                assert(fold_levels(pm, l as int, current@, coff) is None);
                            }
                            return Err(BumpError::BadSiblingHex);
                        },
                    }
                }
                let ghost prev = current@;
                let mut combined: Vec<u8> = Vec::new();
                if coff < node.offset {
                    append_bytes(&mut combined, current.as_slice());
                    append_bytes(&mut combined, sib_bytes.as_slice());
                } else {
                    append_bytes(&mut combined, sib_bytes.as_slice());
                    append_bytes(&mut combined, current.as_slice());
                }
                current = double_sha256(combined.as_slice());
                proof {
                    assert(combine_step(prev, coff, node@) == Some(current@));
                }
            },
        }
        coff = coff / 2;
        l = l + 1;
    }
    let rev = reverse_bytes(&current);
    let root = hex_encode(rev.as_slice());
    Ok(root)
}

} // verus!
