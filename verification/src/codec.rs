//! The canonical byte rendering used by the library: decimal numbers, JSON
//! string quoting, and the building blocks shared by block hashing and the
//! snapshot format.

use vstd::prelude::*;
use vstd::utf8::encode_utf8;
use std::collections::VecDeque;
use crate::block::Block;
use crate::block::BlockView;
use crate::transaction::Transaction;
use crate::transaction::TxView;
use crate::zk_proofs::ProofData;
use crate::zk_proofs::ProofView;

verus! {

/// The decimal rendering of a natural number, most significant digit first,
/// as ASCII bytes.
pub open spec fn dec_bytes(n: nat) -> Seq<u8>
    decreases n,
{
    if n < 10 {
        seq![(48 + n) as u8]
    } else {
        dec_bytes(n / 10).push((48 + n % 10) as u8)
    }
}

/// The decimal rendering of a signed number: a leading `-` for negatives.
pub open spec fn dec_bytes_signed(n: int) -> Seq<u8> {
    if n >= 0 {
        dec_bytes(n as nat)
    } else {
        seq![45u8] + dec_bytes((-n) as nat)
    }
}

/// Renders a `u64` in decimal.
pub fn u64_dec_bytes(n: u64) -> (r: Vec<u8>)
    ensures
        r@ == dec_bytes(n as nat),
    decreases n,
{
    if n < 10 {
        let mut v: Vec<u8> = Vec::new();
        v.push(48 + (n as u8));
        assert(v@ =~= dec_bytes(n as nat));
        v
    } else {
        let mut v = u64_dec_bytes(n / 10);
        v.push(48 + ((n % 10) as u8));
        v
    }
}

/// Renders an `i64` in decimal, with a leading `-` for negatives.
pub fn i64_dec_bytes(n: i64) -> (r: Vec<u8>)
    ensures
        r@ == dec_bytes_signed(n as int),
{
    if n >= 0 {
        u64_dec_bytes(n as u64)
    } else {
        let mag: u64 = (-(n as i128)) as u64;
        let mut v: Vec<u8> = Vec::new();
        v.push(45);
        let digits = u64_dec_bytes(mag);
        emit_bytes(&mut v, digits.as_slice());
        assert(v@ =~= dec_bytes_signed(n as int));
        v
    }
}

/// Appends a byte slice to an output buffer.
pub fn emit_bytes(out: &mut Vec<u8>, s: &[u8])
    ensures
        final(out)@ == old(out)@ + s@,
{
    let mut i: usize = 0;
    while i < s.len()
        invariant
            i <= s@.len(),
            out@ == old(out)@ + s@.take(i as int),
        decreases s@.len() - i,
    {
        out.push(s[i]);
        assert(s@.take(i + 1) =~= s@.take(i as int).push(s@[i as int]));
        i = i + 1;
    }
    assert(s@.take(s@.len() as int) =~= s@);
}

/// The JSON escape of one byte of string content: quote and backslash take a
/// backslash prefix, every other byte stands for itself.
pub open spec fn esc_byte(b: u8) -> Seq<u8> {
    if b == 34 || b == 92 {
        seq![92u8, b]
    } else {
        seq![b]
    }
}

/// The JSON escape of a byte string of content.
pub open spec fn esc_bytes(s: Seq<u8>) -> Seq<u8>
    decreases s.len(),
{
    if s.len() == 0 {
        Seq::empty()
    } else {
        esc_byte(s[0]) + esc_bytes(s.drop_first())
    }
}

/// Escaping distributes over concatenation.
pub proof fn lemma_esc_bytes_concat(s1: Seq<u8>, s2: Seq<u8>)
    ensures
        esc_bytes(s1 + s2) =~= esc_bytes(s1) + esc_bytes(s2),
    decreases s1.len(),
{
    if s1.len() == 0 {
        assert(s1 + s2 =~= s2);
    } else {
        lemma_esc_bytes_concat(s1.drop_first(), s2);
        assert((s1 + s2).drop_first() =~= s1.drop_first() + s2);
        assert(esc_bytes(s1 + s2) =~= esc_byte(s1[0]) + esc_bytes(s1.drop_first() + s2));
    }
}

/// The rendering of a character string as a JSON string: a quoted, escaped
/// UTF-8 encoding. Control characters are carried as raw bytes.
pub open spec fn json_string_bytes(s: Seq<char>) -> Seq<u8> {
    seq![34u8] + esc_bytes(encode_utf8(s)) + seq![34u8]
}

/// Appends the JSON string rendering of `s` to the output buffer.
pub fn emit_json_string(out: &mut Vec<u8>, s: &str)
    ensures
        final(out)@ == old(out)@ + json_string_bytes(s@),
{
    out.push(34);
    let bytes = s.as_bytes_vec();
    let ghost content = bytes@;
    let mut i: usize = 0;
    while i < bytes.len()
        invariant
            i <= content.len(),
            bytes@ == content,
            out@ == old(out)@ + seq![34u8] + esc_bytes(content.take(i as int)),
        decreases content.len() - i,
    {
        let b = bytes[i];
        if b == 34 || b == 92 {
            out.push(92);
        }
        out.push(b);
        proof {
            let c = content[i as int];
            assert(content.take(i + 1) =~= content.take(i as int) + seq![c]);
            lemma_esc_bytes_concat(content.take(i as int), seq![c]);
            assert(seq![c].drop_first() =~= Seq::<u8>::empty());
            assert(esc_bytes(seq![c]) =~= esc_byte(c) + esc_bytes(Seq::<u8>::empty()));
            assert(esc_bytes(seq![c]) =~= esc_byte(c));
        }
        i = i + 1;
    }
    out.push(34);
    proof {
        assert(content.take(content.len() as int) =~= content);
        assert(out@ =~= old(out)@ + json_string_bytes(s@));
    }
}

/// The bytes of `{"proof":`.
pub open spec fn key_proof_open() -> Seq<u8> {
    seq![123u8, 34, 112, 114, 111, 111, 102, 34, 58]
}

/// The bytes of `,"vk":`.
pub open spec fn key_vk() -> Seq<u8> {
    seq![44u8, 34, 118, 107, 34, 58]
}

/// The bytes of `{"sender":`.
pub open spec fn key_sender_open() -> Seq<u8> {
    seq![123u8, 34, 115, 101, 110, 100, 101, 114, 34, 58]
}

/// The bytes of `,"recipient":`.
pub open spec fn key_recipient() -> Seq<u8> {
    seq![44u8, 34, 114, 101, 99, 105, 112, 105, 101, 110, 116, 34, 58]
}

/// The bytes of `,"amount":`.
pub open spec fn key_amount() -> Seq<u8> {
    seq![44u8, 34, 97, 109, 111, 117, 110, 116, 34, 58]
}

/// The bytes of `,"signature":`.
pub open spec fn key_signature() -> Seq<u8> {
    seq![44u8, 34, 115, 105, 103, 110, 97, 116, 117, 114, 101, 34, 58]
}

/// The bytes of `,"proof":`.
pub open spec fn key_proof() -> Seq<u8> {
    seq![44u8, 34, 112, 114, 111, 111, 102, 34, 58]
}

/// The bytes of `{"index":`.
pub open spec fn key_index_open() -> Seq<u8> {
    seq![123u8, 34, 105, 110, 100, 101, 120, 34, 58]
}

/// The bytes of `,"timestamp":`.
pub open spec fn key_timestamp() -> Seq<u8> {
    seq![44u8, 34, 116, 105, 109, 101, 115, 116, 97, 109, 112, 34, 58]
}

/// The bytes of `,"previous_hash":`.
pub open spec fn key_previous_hash() -> Seq<u8> {
    seq![44u8, 34, 112, 114, 101, 118, 105, 111, 117, 115, 95, 104, 97, 115, 104, 34, 58]
}

/// The bytes of `,"nonce":`.
pub open spec fn key_nonce() -> Seq<u8> {
    seq![44u8, 34, 110, 111, 110, 99, 101, 34, 58]
}

/// The bytes of `,"transactions":`.
pub open spec fn key_transactions() -> Seq<u8> {
    seq![44u8, 34, 116, 114, 97, 110, 115, 97, 99, 116, 105, 111, 110, 115, 34, 58]
}

/// The bytes of `,"hash":`.
pub open spec fn key_hash() -> Seq<u8> {
    seq![44u8, 34, 104, 97, 115, 104, 34, 58]
}

/// The bytes of `{"chain":`.
pub open spec fn key_chain_open() -> Seq<u8> {
    seq![123u8, 34, 99, 104, 97, 105, 110, 34, 58]
}

/// The bytes of `,"pending_transactions":`.
pub open spec fn key_pending() -> Seq<u8> {
    seq![44u8, 34, 112, 101, 110, 100, 105, 110, 103, 95, 116, 114, 97, 110, 115, 97, 99, 116, 105, 111, 110, 115, 34, 58]
}

/// The bytes of `,"difficulty":`.
pub open spec fn key_difficulty() -> Seq<u8> {
    seq![44u8, 34, 100, 105, 102, 102, 105, 99, 117, 108, 116, 121, 34, 58]
}

/// The bytes of `{"new_block":`.
pub open spec fn key_new_block_open() -> Seq<u8> {
    seq![123u8, 34, 110, 101, 119, 95, 98, 108, 111, 99, 107, 34, 58]
}

/// The bytes of `null`.
pub open spec fn lit_null() -> Seq<u8> {
    seq![110u8, 117, 108, 108]
}

/// The decimal items of a JSON byte array, from index `i` on, separated by
/// commas.
pub open spec fn byte_items_from(b: Seq<u8>, i: int) -> Seq<u8>
    decreases b.len() - i,
{
    if i < 0 || i >= b.len() {
        Seq::empty()
    } else if i == b.len() - 1 {
        dec_bytes(b[i] as nat)
    } else {
        dec_bytes(b[i] as nat) + seq![44u8] + byte_items_from(b, i + 1)
    }
}

/// The rendering of a byte string as a JSON array of decimal numbers.
pub open spec fn byte_array_json(b: Seq<u8>) -> Seq<u8> {
    seq![91u8] + byte_items_from(b, 0) + seq![93u8]
}

/// Appends the items of a byte array from index `i` on.
pub fn emit_byte_items(out: &mut Vec<u8>, b: &Vec<u8>, i: usize)
    requires
        i <= b@.len(),
    ensures
        final(out)@ == old(out)@ + byte_items_from(b@, i as int),
    decreases b@.len() - i,
{
    if i < b.len() {
        let d = u64_dec_bytes(b[i] as u64);
        emit_bytes(out, d.as_slice());
        if i + 1 < b.len() {
            out.push(44);
        }
        emit_byte_items(out, b, i + 1);
    }
}

/// Appends the JSON array rendering of a byte string.
pub fn emit_byte_array(out: &mut Vec<u8>, b: &Vec<u8>)
    ensures
        final(out)@ == old(out)@ + byte_array_json(b@),
{
    out.push(91);
    emit_byte_items(out, b, 0);
    out.push(93);
    assert(final(out)@ =~= old(out)@ + byte_array_json(b@));
}

/// The rendering of a proof bundle as a JSON object.
pub open spec fn proof_json(p: ProofView) -> Seq<u8> {
    key_proof_open() + byte_array_json(p.proof) + key_vk() + byte_array_json(p.vk) + seq![125u8]
}

/// Appends the JSON rendering of a proof bundle.
pub fn emit_proof_json(out: &mut Vec<u8>, p: &ProofData)
    ensures
        final(out)@ == old(out)@ + proof_json(p@),
{
    let l = vec![123u8, 34, 112, 114, 111, 111, 102, 34, 58];
    assert(l@ =~= key_proof_open());
    emit_bytes(out, l.as_slice());
    emit_byte_array(out, &p.proof);
    let l = vec![44u8, 34, 118, 107, 34, 58];
    assert(l@ =~= key_vk());
    emit_bytes(out, l.as_slice());
    emit_byte_array(out, &p.vk);
    out.push(125);
    assert(final(out)@ =~= old(out)@ + proof_json(p@));
}

/// The rendering of an optional signature: `null`, or a JSON string.
pub open spec fn sig_json(s: Option<Seq<char>>) -> Seq<u8> {
    match s {
        Option::Some(x) => json_string_bytes(x),
        Option::None => lit_null(),
    }
}

/// The rendering of a transaction as a JSON object, fields in declaration
/// order.
#[verifier::opaque]
pub open spec fn tx_json(t: TxView) -> Seq<u8> {
    key_sender_open() + json_string_bytes(t.sender) + key_recipient() + json_string_bytes(
        t.recipient,
    ) + key_amount() + dec_bytes(t.amount as nat) + key_signature() + sig_json(t.signature)
        + key_proof() + proof_json(t.proof) + seq![125u8]
}

/// Appends the JSON rendering of a transaction.
pub fn emit_tx_json(out: &mut Vec<u8>, t: &Transaction)
    ensures
        final(out)@ == old(out)@ + tx_json(t@),
{
    proof {
        reveal(tx_json);
    }
    let l = vec![123u8, 34, 115, 101, 110, 100, 101, 114, 34, 58];
    assert(l@ =~= key_sender_open());
    emit_bytes(out, l.as_slice());
    emit_json_string(out, t.sender.as_str());
    let l = vec![44u8, 34, 114, 101, 99, 105, 112, 105, 101, 110, 116, 34, 58];
    assert(l@ =~= key_recipient());
    emit_bytes(out, l.as_slice());
    emit_json_string(out, t.recipient.as_str());
    let l = vec![44u8, 34, 97, 109, 111, 117, 110, 116, 34, 58];
    assert(l@ =~= key_amount());
    emit_bytes(out, l.as_slice());
    let d = u64_dec_bytes(t.amount);
    emit_bytes(out, d.as_slice());
    let l = vec![44u8, 34, 115, 105, 103, 110, 97, 116, 117, 114, 101, 34, 58];
    assert(l@ =~= key_signature());
    emit_bytes(out, l.as_slice());
    match &t.signature {
        Option::Some(s) => {
            emit_json_string(out, s.as_str());
        },
        Option::None => {
        let n = vec![110u8, 117, 108, 108];
        assert(n@ =~= lit_null());
        emit_bytes(out, n.as_slice());
        },
    }
    let l = vec![44u8, 34, 112, 114, 111, 111, 102, 34, 58];
    assert(l@ =~= key_proof());
    emit_bytes(out, l.as_slice());
    emit_proof_json(out, &t.proof);
    out.push(125);
    assert(final(out)@ =~= old(out)@ + tx_json(t@));
}

/// The transaction items of a JSON array, from index `i` on.
pub open spec fn tx_items_from(ts: Seq<TxView>, i: int) -> Seq<u8>
    decreases ts.len() - i,
{
    if i < 0 || i >= ts.len() {
        Seq::empty()
    } else if i == ts.len() - 1 {
        tx_json(ts[i])
    } else {
        tx_json(ts[i]) + seq![44u8] + tx_items_from(ts, i + 1)
    }
}

/// The rendering of a transaction sequence as a JSON array.
pub open spec fn tx_list_json(ts: Seq<TxView>) -> Seq<u8> {
    seq![91u8] + tx_items_from(ts, 0) + seq![93u8]
}

/// Appends the items of a transaction array from index `i` on.
pub fn emit_tx_items(out: &mut Vec<u8>, ts: &Vec<Transaction>, i: usize)
    requires
        i <= ts@.len(),
    ensures
        final(out)@ == old(out)@ + tx_items_from(ts.deep_view(), i as int),
    decreases ts@.len() - i,
{
    if i < ts.len() {
        emit_tx_json(out, &ts[i]);
        if i + 1 < ts.len() {
            out.push(44);
        }
        emit_tx_items(out, ts, i + 1);
    }
}

/// Appends the JSON array rendering of a transaction vector.
pub fn emit_tx_list(out: &mut Vec<u8>, ts: &Vec<Transaction>)
    ensures
        final(out)@ == old(out)@ + tx_list_json(ts.deep_view()),
{
    out.push(91);
    emit_tx_items(out, ts, 0);
    out.push(93);
    assert(final(out)@ =~= old(out)@ + tx_list_json(ts.deep_view()));
}

/// Appends the items of a transaction array drawn from a queue, from index
/// `i` on.
pub fn emit_txq_items(out: &mut Vec<u8>, ts: &VecDeque<Transaction>, i: usize)
    requires
        i <= ts@.len(),
    ensures
        final(out)@ == old(out)@ + tx_items_from(ts.deep_view(), i as int),
    decreases ts@.len() - i,
{
    if i < ts.len() {
        emit_tx_json(out, &ts[i]);
        if i + 1 < ts.len() {
            out.push(44);
        }
        emit_txq_items(out, ts, i + 1);
    }
}

/// Appends the JSON array rendering of a transaction queue.
pub fn emit_txq_list(out: &mut Vec<u8>, ts: &VecDeque<Transaction>)
    ensures
        final(out)@ == old(out)@ + tx_list_json(ts.deep_view()),
{
    out.push(91);
    emit_txq_items(out, ts, 0);
    out.push(93);
    assert(final(out)@ =~= old(out)@ + tx_list_json(ts.deep_view()));
}

/// The canonical rendering of a block's content, the input to its hash:
/// every field but `hash` itself, as a JSON object.
pub open spec fn block_core_json(b: BlockView) -> Seq<u8> {
    key_index_open() + dec_bytes(b.index as nat) + key_timestamp() + dec_bytes_signed(
        b.timestamp as int,
    ) + key_previous_hash() + json_string_bytes(b.previous_hash) + key_nonce() + dec_bytes(
        b.nonce as nat,
    ) + key_transactions() + tx_list_json(b.transactions) + seq![125u8]
}

/// Appends the canonical rendering of a block's content (the hash input).
pub fn emit_block_core_json(out: &mut Vec<u8>, b: &Block)
    ensures
        final(out)@ == old(out)@ + block_core_json(b@),
{
    let l = vec![123u8, 34, 105, 110, 100, 101, 120, 34, 58];
    assert(l@ =~= key_index_open());
    emit_bytes(out, l.as_slice());
    let d = u64_dec_bytes(b.index);
    emit_bytes(out, d.as_slice());
    let l = vec![44u8, 34, 116, 105, 109, 101, 115, 116, 97, 109, 112, 34, 58];
    assert(l@ =~= key_timestamp());
    emit_bytes(out, l.as_slice());
    let d = i64_dec_bytes(b.timestamp);
    emit_bytes(out, d.as_slice());
    let l = vec![44u8, 34, 112, 114, 101, 118, 105, 111, 117, 115, 95, 104, 97, 115, 104, 34, 58];
    assert(l@ =~= key_previous_hash());
    emit_bytes(out, l.as_slice());
    emit_json_string(out, b.previous_hash.as_str());
    let l = vec![44u8, 34, 110, 111, 110, 99, 101, 34, 58];
    assert(l@ =~= key_nonce());
    emit_bytes(out, l.as_slice());
    let d = u64_dec_bytes(b.nonce);
    emit_bytes(out, d.as_slice());
    let l = vec![44u8, 34, 116, 114, 97, 110, 115, 97, 99, 116, 105, 111, 110, 115, 34, 58];
    assert(l@ =~= key_transactions());
    emit_bytes(out, l.as_slice());
    emit_tx_list(out, &b.transactions);
    out.push(125);
    assert(final(out)@ =~= old(out)@ + block_core_json(b@));
}

/// The rendering of a full block as a JSON object, `hash` included.
#[verifier::opaque]
pub open spec fn block_json(b: BlockView) -> Seq<u8> {
    key_index_open() + dec_bytes(b.index as nat) + key_timestamp() + dec_bytes_signed(
        b.timestamp as int,
    ) + key_previous_hash() + json_string_bytes(b.previous_hash) + key_nonce() + dec_bytes(
        b.nonce as nat,
    ) + key_transactions() + tx_list_json(b.transactions) + key_hash() + json_string_bytes(b.hash)
        + seq![125u8]
}

/// Appends the JSON rendering of a full block.
pub fn emit_block_json(out: &mut Vec<u8>, b: &Block)
    ensures
        final(out)@ == old(out)@ + block_json(b@),
{
    proof {
        reveal(block_json);
    }
    let l = vec![123u8, 34, 105, 110, 100, 101, 120, 34, 58];
    assert(l@ =~= key_index_open());
    emit_bytes(out, l.as_slice());
    let d = u64_dec_bytes(b.index);
    emit_bytes(out, d.as_slice());
    let l = vec![44u8, 34, 116, 105, 109, 101, 115, 116, 97, 109, 112, 34, 58];
    assert(l@ =~= key_timestamp());
    emit_bytes(out, l.as_slice());
    let d = i64_dec_bytes(b.timestamp);
    emit_bytes(out, d.as_slice());
    let l = vec![44u8, 34, 112, 114, 101, 118, 105, 111, 117, 115, 95, 104, 97, 115, 104, 34, 58];
    assert(l@ =~= key_previous_hash());
    emit_bytes(out, l.as_slice());
    emit_json_string(out, b.previous_hash.as_str());
    let l = vec![44u8, 34, 110, 111, 110, 99, 101, 34, 58];
    assert(l@ =~= key_nonce());
    emit_bytes(out, l.as_slice());
    let d = u64_dec_bytes(b.nonce);
    emit_bytes(out, d.as_slice());
    let l = vec![44u8, 34, 116, 114, 97, 110, 115, 97, 99, 116, 105, 111, 110, 115, 34, 58];
    assert(l@ =~= key_transactions());
    emit_bytes(out, l.as_slice());
    emit_tx_list(out, &b.transactions);
    let l = vec![44u8, 34, 104, 97, 115, 104, 34, 58];
    assert(l@ =~= key_hash());
    emit_bytes(out, l.as_slice());
    emit_json_string(out, b.hash.as_str());
    out.push(125);
    assert(final(out)@ =~= old(out)@ + block_json(b@));
}

/// The block items of a JSON array, from index `i` on.
pub open spec fn block_items_from(bs: Seq<BlockView>, i: int) -> Seq<u8>
    decreases bs.len() - i,
{
    if i < 0 || i >= bs.len() {
        Seq::empty()
    } else if i == bs.len() - 1 {
        block_json(bs[i])
    } else {
        block_json(bs[i]) + seq![44u8] + block_items_from(bs, i + 1)
    }
}

/// The rendering of a block sequence as a JSON array.
pub open spec fn block_list_json(bs: Seq<BlockView>) -> Seq<u8> {
    seq![91u8] + block_items_from(bs, 0) + seq![93u8]
}

/// Appends the items of a block array from index `i` on.
pub fn emit_block_items(out: &mut Vec<u8>, bs: &Vec<Block>, i: usize)
    requires
        i <= bs@.len(),
    ensures
        final(out)@ == old(out)@ + block_items_from(bs.deep_view(), i as int),
    decreases bs@.len() - i,
{
    if i < bs.len() {
        emit_block_json(out, &bs[i]);
        if i + 1 < bs.len() {
            out.push(44);
        }
        emit_block_items(out, bs, i + 1);
    }
}

/// Appends the JSON array rendering of a block vector.
pub fn emit_block_list(out: &mut Vec<u8>, bs: &Vec<Block>)
    ensures
        final(out)@ == old(out)@ + block_list_json(bs.deep_view()),
{
    out.push(91);
    emit_block_items(out, bs, 0);
    out.push(93);
    assert(final(out)@ =~= old(out)@ + block_list_json(bs.deep_view()));
}

/// The snapshot document: chain, pending queue and difficulty, as one JSON
/// object.
pub open spec fn snapshot_json(chain: Seq<BlockView>, pending: Seq<TxView>, difficulty: u32) -> Seq<
    u8,
> {
    key_chain_open() + block_list_json(chain) + key_pending() + tx_list_json(pending)
        + key_difficulty() + dec_bytes(difficulty as nat) + seq![125u8]
}

/// Appends the snapshot rendering of a chain, a pending queue and a
/// difficulty.
pub fn emit_snapshot_json(
    out: &mut Vec<u8>,
    chain: &Vec<Block>,
    pending: &VecDeque<Transaction>,
    difficulty: u32,
)
    ensures
        final(out)@ == old(out)@ + snapshot_json(chain.deep_view(), pending.deep_view(), difficulty),
{
    let l = vec![123u8, 34, 99, 104, 97, 105, 110, 34, 58];
    assert(l@ =~= key_chain_open());
    emit_bytes(out, l.as_slice());
    emit_block_list(out, chain);
    let l = vec![44u8, 34, 112, 101, 110, 100, 105, 110, 103, 95, 116, 114, 97, 110, 115, 97, 99, 116, 105, 111, 110, 115, 34, 58];
    assert(l@ =~= key_pending());
    emit_bytes(out, l.as_slice());
    emit_txq_list(out, pending);
    let l = vec![44u8, 34, 100, 105, 102, 102, 105, 99, 117, 108, 116, 121, 34, 58];
    assert(l@ =~= key_difficulty());
    emit_bytes(out, l.as_slice());
    let d = u64_dec_bytes(difficulty as u64);
    emit_bytes(out, d.as_slice());
    out.push(125);
    assert(final(out)@ =~= old(out)@ + snapshot_json(
        chain.deep_view(),
        pending.deep_view(),
        difficulty,
    ));
}

/// The wire message offering a whole chain.
pub open spec fn chain_msg_json(chain: Seq<BlockView>) -> Seq<u8> {
    key_chain_open() + block_list_json(chain) + seq![125u8]
}

/// Renders the wire message offering a whole chain.
pub fn chain_message_bytes(chain: &Vec<Block>) -> (r: Vec<u8>)
    ensures
        r@ == chain_msg_json(chain.deep_view()),
{
    let mut v: Vec<u8> = Vec::new();
    let out = &mut v;
    let l = vec![123u8, 34, 99, 104, 97, 105, 110, 34, 58];
    assert(l@ =~= key_chain_open());
    emit_bytes(out, l.as_slice());
    emit_block_list(out, chain);
    out.push(125);
    assert(v@ =~= chain_msg_json(chain.deep_view()));
    v
}

/// The wire message offering a single block that extends the tip.
pub open spec fn new_block_msg_json(b: BlockView) -> Seq<u8> {
    key_new_block_open() + block_json(b) + seq![125u8]
}

/// Renders the wire message offering a single block.
pub fn new_block_message_bytes(b: &Block) -> (r: Vec<u8>)
    ensures
        r@ == new_block_msg_json(b@),
{
    let mut v: Vec<u8> = Vec::new();
    let out = &mut v;
    let l = vec![123u8, 34, 110, 101, 119, 95, 98, 108, 111, 99, 107, 34, 58];
    assert(l@ =~= key_new_block_open());
    emit_bytes(out, l.as_slice());
    emit_block_json(out, b);
    out.push(125);
    assert(v@ =~= new_block_msg_json(b@));
    v
}

} // verus!
