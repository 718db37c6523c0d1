//! The strict parser for the library's canonical byte format: the exact
//! inverse of the renderings in `codec`. Every parse function is total and
//! mirrors a specification-level parser, so that parsing a rendered document
//! provably recovers the rendered value.

use vstd::prelude::*;
use crate::block::Block;
use crate::block::BlockView;
use crate::codec::key_amount;
use crate::codec::key_chain_open;
use crate::codec::key_difficulty;
use crate::codec::key_hash;
use crate::codec::key_index_open;
use crate::codec::key_new_block_open;
use crate::codec::key_nonce;
use crate::codec::key_pending;
use crate::codec::key_previous_hash;
use crate::codec::key_proof;
use crate::codec::key_proof_open;
use crate::codec::key_recipient;
use crate::codec::key_sender_open;
use crate::codec::key_signature;
use crate::codec::key_timestamp;
use crate::codec::key_transactions;
use crate::codec::key_vk;
use crate::codec::lit_null;
use crate::transaction::Transaction;
use crate::transaction::TxView;
use crate::zk_proofs::ProofData;
use crate::zk_proofs::ProofView;

verus! {

/// An ASCII decimal digit.
pub open spec fn is_digit(b: u8) -> bool {
    48 <= b && b <= 57
}

/// The position of the first non-digit byte at or after `i`.
pub open spec fn digit_end(buf: Seq<u8>, i: int) -> int
    decreases buf.len() - i,
{
    if 0 <= i && i < buf.len() && is_digit(buf[i]) {
        digit_end(buf, i + 1)
    } else {
        i
    }
}

/// The value of a string of digit bytes, most significant first.
pub open spec fn digits_val(s: Seq<u8>) -> nat
    decreases s.len(),
{
    if s.len() == 0 {
        0
    } else {
        digits_val(s.drop_last()) * 10 + (if is_digit(s.last()) {
            (s.last() - 48) as nat
        } else {
            0
        })
    }
}

/// Powers of ten.
pub open spec fn pow10(k: nat) -> nat
    decreases k,
{
    if k == 0 {
        1
    } else {
        10 * pow10((k - 1) as nat)
    }
}

/// `pow10(20)` written out, and its place above `u64::MAX`.
pub proof fn lemma_pow10_20()
    ensures
        pow10(20) == 100_000_000_000_000_000_000,
        u64::MAX < pow10(20),
{
    assert(pow10(0) == 1);
    assert(pow10(1) == 10);
    assert(pow10(2) == 100);
    assert(pow10(3) == 1000);
    assert(pow10(4) == 10000);
    assert(pow10(5) == 100000);
    assert(pow10(6) == 1000000);
    assert(pow10(7) == 10000000);
    assert(pow10(8) == 100000000);
    assert(pow10(9) == 1000000000);
    assert(pow10(10) == 10000000000);
    assert(pow10(11) == 100000000000);
    assert(pow10(12) == 1000000000000);
    assert(pow10(13) == 10000000000000);
    assert(pow10(14) == 100000000000000);
    assert(pow10(15) == 1000000000000000);
    assert(pow10(16) == 10000000000000000);
    assert(pow10(17) == 100000000000000000);
    assert(pow10(18) == 1000000000000000000);
    assert(pow10(19) == 10000000000000000000);
    assert(pow10(20) == 100000000000000000000);
}

/// A digit string's value stays below `pow10` of its length.
pub proof fn lemma_digits_val_bound(s: Seq<u8>)
    ensures
        digits_val(s) < pow10(s.len()),
    decreases s.len(),
{
    if s.len() > 0 {
        lemma_digits_val_bound(s.drop_last());
    }
}

/// Parsing a decimal `u64`: a maximal digit run without a superfluous
/// leading zero, of at most 20 digits, denoting a value that fits.
pub open spec fn sp_u64(buf: Seq<u8>, i: int) -> Option<(u64, int)> {
    let e = digit_end(buf, i);
    if e == i {
        Option::None
    } else if buf[i] == 48 && e != i + 1 {
        Option::None
    } else if e - i > 20 {
        Option::None
    } else {
        let v = digits_val(buf.subrange(i, e));
        if v > u64::MAX {
            Option::None
        } else {
            Option::Some((v as u64, e))
        }
    }
}

/// Parses a decimal `u64` at `i`.
pub fn parse_u64(buf: &[u8], i: usize) -> (r: Option<(u64, usize)>)
    requires
        i <= buf@.len(),
    ensures
        match r {
            Option::Some((v, e)) => sp_u64(buf@, i as int) == Option::Some((v, e as int)) && i < e
                <= buf@.len(),
            Option::None => sp_u64(buf@, i as int) is None,
        },
{
    let n = buf.len();
    let mut e = i;
    #[verifier::loop_isolation(false)]
    while e < n && 48 <= buf[e] && buf[e] <= 57
        invariant
            i <= e <= n,
            forall|j: int| i <= j < e ==> is_digit(buf@[j]),
            digit_end(buf@, i as int) == digit_end(buf@, e as int),
        decreases n - e,
    {
        e = e + 1;
    }
    proof {
        assert(digit_end(buf@, e as int) == e);
    }
    if e == i {
        return Option::None;
    }
    if buf[i] == 48 && e != i + 1 {
        return Option::None;
    }
    if e - i > 20 {
        return Option::None;
    }
    let ghost run = buf@.subrange(i as int, e as int);
    let mut acc: u128 = 0;
    let mut j = i;
    #[verifier::loop_isolation(false)]
    while j < e
        invariant
            i <= j <= e,
            acc == digits_val(buf@.subrange(i as int, j as int)),
            acc < pow10((j - i) as nat),
        decreases e - j,
    {
        proof {
            lemma_pow10_20();
            lemma_digits_val_bound(buf@.subrange(i as int, j as int));
            assert(pow10((j - i) as nat) <= pow10(20)) by {
                lemma_pow10_monotone((j - i) as nat, 20);
            }
            assert(buf@.subrange(i as int, j + 1).drop_last() =~= buf@.subrange(
                i as int,
                j as int,
            ));
        }
        acc = acc * 10 + ((buf[j] - 48) as u128);
        j = j + 1;
    }
    proof {
        assert(buf@.subrange(i as int, e as int) == run);
    }
    if acc > 0xFFFF_FFFF_FFFF_FFFFu128 {
        return Option::None;
    }
    Option::Some((acc as u64, e))
}

/// `pow10` grows with its exponent.
pub proof fn lemma_pow10_monotone(a: nat, b: nat)
    requires
        a <= b,
    ensures
        pow10(a) <= pow10(b),
    decreases b,
{
    if a < b {
        lemma_pow10_monotone(a, (b - 1) as nat);
        assert(pow10(b) == 10 * pow10((b - 1) as nat));
    }
}

/// Parsing a decimal `i64`: an optional leading minus sign before a digit
/// run whose value fits the signed range.
pub open spec fn sp_i64(buf: Seq<u8>, i: int) -> Option<(i64, int)> {
    if 0 <= i && i < buf.len() && buf[i] == 45 {
        match sp_u64(buf, i + 1) {
            Option::Some((m, e)) => {
                if m > 0x8000_0000_0000_0000u64 {
                    Option::None
                } else if m == 0x8000_0000_0000_0000u64 {
                    Option::Some((i64::MIN, e))
                } else {
                    Option::Some(((-(m as int)) as i64, e))
                }
            },
            Option::None => Option::None,
        }
    } else {
        match sp_u64(buf, i) {
            Option::Some((m, e)) => {
                if m > i64::MAX as u64 {
                    Option::None
                } else {
                    Option::Some((m as i64, e))
                }
            },
            Option::None => Option::None,
        }
    }
}

/// Parses a decimal `i64` at `i`.
pub fn parse_i64(buf: &[u8], i: usize) -> (r: Option<(i64, usize)>)
    requires
        i <= buf@.len(),
    ensures
        match r {
            Option::Some((v, e)) => sp_i64(buf@, i as int) == Option::Some((v, e as int)) && i < e
                <= buf@.len(),
            Option::None => sp_i64(buf@, i as int) is None,
        },
{
    if i < buf.len() && buf[i] == 45 {
        match parse_u64(buf, i + 1) {
            Option::Some((m, e)) => {
                if m > 0x8000_0000_0000_0000u64 {
                    Option::None
                } else if m == 0x8000_0000_0000_0000u64 {
                    Option::Some((i64::MIN, e))
                } else {
                    Option::Some((-(m as i64), e))
                }
            },
            Option::None => Option::None,
        }
    } else {
        match parse_u64(buf, i) {
            Option::Some((m, e)) => {
                if m > 0x7FFF_FFFF_FFFF_FFFFu64 {
                    Option::None
                } else {
                    Option::Some((m as i64, e))
                }
            },
            Option::None => Option::None,
        }
    }
}


/// Relies on `String::from_utf8`: succeeds exactly on valid UTF-8 and
/// returns the string whose UTF-8 encoding is the input.
#[verifier::external_body]
pub(crate) fn bytes_to_string(v: Vec<u8>) -> (r: Option<String>)
    ensures
        r is Some <==> vstd::utf8::valid_utf8(v@),
        r is Some ==> vstd::utf8::encode_utf8(r.unwrap()@) == v@,
{
    match String::from_utf8(v) {
        Ok(s) => Option::Some(s),
        Err(_) => Option::None,
    }
}

/// Parsing the body of a JSON string after its opening quote: content bytes
/// run to the closing quote, with `\"` and `\\` as the only escapes.
pub open spec fn sp_str_body(buf: Seq<u8>, i: int) -> Option<(Seq<u8>, int)>
    decreases buf.len() - i,
{
    if i < 0 || i >= buf.len() {
        Option::None
    } else if buf[i] == 34 {
        Option::Some((Seq::empty(), i + 1))
    } else if buf[i] == 92 {
        if i + 1 < buf.len() && (buf[i + 1] == 34 || buf[i + 1] == 92) {
            match sp_str_body(buf, i + 2) {
                Option::Some((c, e)) => Option::Some((seq![buf[i + 1]] + c, e)),
                Option::None => Option::None,
            }
        } else {
            Option::None
        }
    } else {
        match sp_str_body(buf, i + 1) {
            Option::Some((c, e)) => Option::Some((seq![buf[i]] + c, e)),
            Option::None => Option::None,
        }
    }
}

/// Parses a string body at `i`, returning the unescaped content bytes.
pub fn parse_str_body(buf: &[u8], i: usize) -> (r: Option<(Vec<u8>, usize)>)
    requires
        i <= buf@.len(),
    ensures
        match r {
            Option::Some((c, e)) => sp_str_body(buf@, i as int) == Option::Some((c@, e as int))
                && i < e <= buf@.len(),
            Option::None => sp_str_body(buf@, i as int) is None,
        },
    decreases buf@.len() - i,
{
    if i >= buf.len() {
        Option::None
    } else if buf[i] == 34 {
        let v: Vec<u8> = Vec::new();
        proof {
            assert(v@ =~= Seq::<u8>::empty());
        }
        Option::Some((v, i + 1))
    } else if buf[i] == 92 {
        if i + 1 < buf.len() && (buf[i + 1] == 34 || buf[i + 1] == 92) {
            match parse_str_body(buf, i + 2) {
                Option::Some((mut c, e)) => {
                    let ghost tail = c@;
                    c.insert(0, buf[i + 1]);
                    proof {
                        assert(c@ =~= seq![buf@[i + 1]] + tail);
                    }
                    Option::Some((c, e))
                },
                Option::None => Option::None,
            }
        } else {
            Option::None
        }
    } else {
        match parse_str_body(buf, i + 1) {
            Option::Some((mut c, e)) => {
                let ghost tail = c@;
                c.insert(0, buf[i]);
                proof {
                    assert(c@ =~= seq![buf@[i as int]] + tail);
                }
                Option::Some((c, e))
            },
            Option::None => Option::None,
        }
    }
}

/// Parsing a whole JSON string at `i`: a quote, a body whose content is
/// valid UTF-8, and the closing quote; yields the decoded characters.
pub open spec fn sp_string_chars(buf: Seq<u8>, i: int) -> Option<(Seq<char>, int)> {
    if 0 <= i && i < buf.len() && buf[i] == 34 {
        match sp_str_body(buf, i + 1) {
            Option::Some((content, e)) => {
                if vstd::utf8::valid_utf8(content) {
                    Option::Some((vstd::utf8::decode_utf8(content), e))
                } else {
                    Option::None
                }
            },
            Option::None => Option::None,
        }
    } else {
        Option::None
    }
}

/// Parses a JSON string at `i` into an owned string.
pub fn parse_string(buf: &[u8], i: usize) -> (r: Option<(String, usize)>)
    requires
        i <= buf@.len(),
    ensures
        match r {
            Option::Some((s, e)) => sp_string_chars(buf@, i as int) == Option::Some((
                s@,
                e as int,
            )) && i < e <= buf@.len(),
            Option::None => sp_string_chars(buf@, i as int) is None,
        },
{
    if i >= buf.len() || buf[i] != 34 {
        return Option::None;
    }
    match parse_str_body(buf, i + 1) {
        Option::Some((content, e)) => {
            let ghost cb = content@;
            match bytes_to_string(content) {
                Option::Some(s) => {
                    proof {
                        vstd::utf8::encode_utf8_decode_utf8(s@);
                        assert(vstd::utf8::decode_utf8(cb) == s@);
                    }
                    Option::Some((s, e))
                },
                Option::None => Option::None,
            }
        },
        Option::None => Option::None,
    }
}

/// Matching a fixed byte string at `i`.
pub open spec fn sp_lit(buf: Seq<u8>, i: int, lit: Seq<u8>) -> Option<int> {
    if 0 <= i && i + lit.len() <= buf.len() && buf.subrange(i, i + lit.len()) == lit {
        Option::Some(i + lit.len())
    } else {
        Option::None
    }
}

/// Matches a fixed byte string at `i`.
pub fn eat_lit(buf: &[u8], i: usize, lit: &[u8]) -> (r: Option<usize>)
    requires
        i <= buf@.len(),
    ensures
        match r {
            Option::Some(e) => sp_lit(buf@, i as int, lit@) == Option::Some(e as int) && i <= e
                <= buf@.len(),
            Option::None => sp_lit(buf@, i as int, lit@) is None,
        },
{
    if lit.len() > buf.len() - i {
        return Option::None;
    }
    let mut k: usize = 0;
    #[verifier::loop_isolation(false)]
    while k < lit.len()
        invariant
            0 <= k <= lit@.len(),
            i + lit@.len() <= buf@.len(),
            forall|j: int| 0 <= j < k ==> buf@[i + j] == lit@[j],
        decreases lit@.len() - k,
    {
        if buf[i + k] != lit[k] {
            proof {
                assert(buf@.subrange(i as int, i + lit@.len())[k as int] != lit@[k as int]);
            }
            return Option::None;
        }
        k = k + 1;
    }
    proof {
        assert(buf@.subrange(i as int, i + lit@.len()) =~= lit@);
    }
    Option::Some(i + lit.len())
}

/// Parsing the items of a byte array after its opening bracket: decimal
/// numbers below 256 separated by commas, closed by `]`.
pub open spec fn sp_byte_items(buf: Seq<u8>, i: int) -> Option<(Seq<u8>, int)>
    decreases buf.len() - i,
{
    match sp_u64(buf, i) {
        Option::Some((v, j)) => {
            if v > 255 {
                Option::None
            } else if i < j && j < buf.len() && buf[j] == 44 {
                match sp_byte_items(buf, j + 1) {
                    Option::Some((rest, e)) => Option::Some((seq![v as u8] + rest, e)),
                    Option::None => Option::None,
                }
            } else if j < buf.len() && buf[j] == 93 {
                Option::Some((seq![v as u8], j + 1))
            } else {
                Option::None
            }
        },
        Option::None => Option::None,
    }
}

/// Parsing a byte array at `i`: `[`, then an empty body or items.
pub open spec fn sp_byte_array(buf: Seq<u8>, i: int) -> Option<(Seq<u8>, int)> {
    if 0 <= i && i < buf.len() && buf[i] == 91 {
        if i + 1 < buf.len() && buf[i + 1] == 93 {
            Option::Some((Seq::empty(), i + 2))
        } else {
            sp_byte_items(buf, i + 1)
        }
    } else {
        Option::None
    }
}

/// Parses the items of a byte array at `i`.
pub fn parse_byte_items(buf: &[u8], i: usize) -> (r: Option<(Vec<u8>, usize)>)
    requires
        i <= buf@.len(),
    ensures
        match r {
            Option::Some((c, e)) => sp_byte_items(buf@, i as int) == Option::Some((c@, e as int))
                && i < e <= buf@.len(),
            Option::None => sp_byte_items(buf@, i as int) is None,
        },
    decreases buf@.len() - i,
{
    match parse_u64(buf, i) {
        Option::Some((v, j)) => {
            if v > 255 {
                Option::None
            } else if j < buf.len() && buf[j] == 44 {
                match parse_byte_items(buf, j + 1) {
                    Option::Some((mut rest, e)) => {
                        let ghost tail = rest@;
                        rest.insert(0, v as u8);
                        proof {
                            assert(rest@ =~= seq![(v as u8)] + tail);
                        }
                        Option::Some((rest, e))
                    },
                    Option::None => Option::None,
                }
            } else if j < buf.len() && buf[j] == 93 {
                let mut one: Vec<u8> = Vec::new();
                one.push(v as u8);
                proof {
                    assert(one@ =~= seq![(v as u8)]);
                }
                Option::Some((one, j + 1))
            } else {
                Option::None
            }
        },
        Option::None => Option::None,
    }
}

/// Parses a byte array at `i`.
pub fn parse_byte_array(buf: &[u8], i: usize) -> (r: Option<(Vec<u8>, usize)>)
    requires
        i <= buf@.len(),
    ensures
        match r {
            Option::Some((c, e)) => sp_byte_array(buf@, i as int) == Option::Some((c@, e as int))
                && i < e <= buf@.len(),
            Option::None => sp_byte_array(buf@, i as int) is None,
        },
{
    if i >= buf.len() || buf[i] != 91 {
        return Option::None;
    }
    if i + 1 < buf.len() && buf[i + 1] == 93 {
        let v: Vec<u8> = Vec::new();
        proof {
            assert(v@ =~= Seq::<u8>::empty());
        }
        return Option::Some((v, i + 2));
    }
    parse_byte_items(buf, i + 1)
}


/// Parsing a proof bundle object.
pub open spec fn sp_proof(buf: Seq<u8>, i: int) -> Option<(ProofView, int)> {
    match sp_lit(buf, i, key_proof_open()) {
        Option::Some(j1) => match sp_byte_array(buf, j1) {
            Option::Some((pf, j2)) => match sp_lit(buf, j2, key_vk()) {
                Option::Some(j3) => match sp_byte_array(buf, j3) {
                    Option::Some((vk, j4)) => {
                        if j4 < buf.len() && buf[j4] == 125 {
                            Option::Some((ProofView { proof: pf, vk: vk }, j4 + 1))
                        } else {
                            Option::None
                        }
                    },
                    Option::None => Option::None,
                },
                Option::None => Option::None,
            },
            Option::None => Option::None,
        },
        Option::None => Option::None,
    }
}

/// Parses a proof bundle object at `i`.
pub fn parse_proof(buf: &[u8], i: usize) -> (r: Option<(ProofData, usize)>)
    requires
        i <= buf@.len(),
    ensures
        match r {
            Option::Some((p, e)) => sp_proof(buf@, i as int) == Option::Some((p@, e as int)) && i
                < e <= buf@.len(),
            Option::None => sp_proof(buf@, i as int) is None,
        },
{
    let l_j1 = vec![123u8, 34, 112, 114, 111, 111, 102, 34, 58];
    assert(l_j1@ =~= key_proof_open());
    let j1 = match eat_lit(buf, i, l_j1.as_slice()) {
        Option::Some(j) => j,
        Option::None => {
            return Option::None;
        },
    };
    let (pf, j2) = match parse_byte_array(buf, j1) {
        Option::Some(x) => x,
        Option::None => {
            return Option::None;
        },
    };
    let l_j3 = vec![44u8, 34, 118, 107, 34, 58];
    assert(l_j3@ =~= key_vk());
    let j3 = match eat_lit(buf, j2, l_j3.as_slice()) {
        Option::Some(j) => j,
        Option::None => {
            return Option::None;
        },
    };
    let (vk, j4) = match parse_byte_array(buf, j3) {
        Option::Some(x) => x,
        Option::None => {
            return Option::None;
        },
    };
    if j4 < buf.len() && buf[j4] == 125 {
        Option::Some((ProofData { proof: pf, vk: vk }, j4 + 1))
    } else {
        Option::None
    }
}

/// Parsing an optional signature: `null` or a JSON string.
pub open spec fn sp_sig(buf: Seq<u8>, i: int) -> Option<(Option<Seq<char>>, int)> {
    match sp_lit(buf, i, lit_null()) {
        Option::Some(j) => Option::Some((Option::None, j)),
        Option::None => match sp_string_chars(buf, i) {
            Option::Some((s, e)) => Option::Some((Option::Some(s), e)),
            Option::None => Option::None,
        },
    }
}

/// Parses an optional signature at `i`.
pub fn parse_sig(buf: &[u8], i: usize) -> (r: Option<(Option<String>, usize)>)
    requires
        i <= buf@.len(),
    ensures
        match r {
            Option::Some((s, e)) => sp_sig(buf@, i as int) == Option::Some(
                (
                    match s {
                        Option::Some(x) => Option::Some(x@),
                        Option::None => Option::None,
                    },
                    e as int,
                ),
            ) && i < e <= buf@.len(),
            Option::None => sp_sig(buf@, i as int) is None,
        },
{
    let l_null = vec![110u8, 117, 108, 108];
    assert(l_null@ =~= lit_null());
    match eat_lit(buf, i, l_null.as_slice()) {
        Option::Some(j) => Option::Some((Option::None, j)),
        Option::None => match parse_string(buf, i) {
            Option::Some((s, e)) => Option::Some((Option::Some(s), e)),
            Option::None => Option::None,
        },
    }
}

/// Parsing a transaction object, fields in declaration order.
#[verifier::opaque]
pub open spec fn sp_tx(buf: Seq<u8>, i: int) -> Option<(TxView, int)> {
    match sp_lit(buf, i, key_sender_open()) {
        Option::Some(j1) => match sp_string_chars(buf, j1) {
            Option::Some((sender, j2)) => match sp_lit(buf, j2, key_recipient()) {
                Option::Some(j3) => match sp_string_chars(buf, j3) {
                    Option::Some((recipient, j4)) => match sp_lit(buf, j4, key_amount()) {
                        Option::Some(j5) => match sp_u64(buf, j5) {
                            Option::Some((amount, j6)) => match sp_lit(buf, j6, key_signature()) {
                                Option::Some(j7) => match sp_sig(buf, j7) {
                                    Option::Some((sig, j8)) => match sp_lit(buf, j8, key_proof()) {
                                        Option::Some(j9) => match sp_proof(buf, j9) {
                                            Option::Some((proof, j10)) => {
                                                if j10 < buf.len() && buf[j10] == 125 {
                                                    Option::Some(
                                                        (
                                                            TxView {
                                                                sender: sender,
                                                                recipient: recipient,
                                                                amount: amount,
                                                                signature: sig,
                                                                proof: proof,
                                                            },
                                                            j10 + 1,
                                                        ),
                                                    )
                                                } else {
                                                    Option::None
                                                }
                                            },
                                            Option::None => Option::None,
                                        },
                                        Option::None => Option::None,
                                    },
                                    Option::None => Option::None,
                                },
                                Option::None => Option::None,
                            },
                            Option::None => Option::None,
                        },
                        Option::None => Option::None,
                    },
                    Option::None => Option::None,
                },
                Option::None => Option::None,
            },
            Option::None => Option::None,
        },
        Option::None => Option::None,
    }
}

/// Parses a transaction object at `i`.
pub fn parse_tx(buf: &[u8], i: usize) -> (r: Option<(Transaction, usize)>)
    requires
        i <= buf@.len(),
    ensures
        match r {
            Option::Some((t, e)) => sp_tx(buf@, i as int) == Option::Some((t@, e as int)) && i < e
                <= buf@.len(),
            Option::None => sp_tx(buf@, i as int) is None,
        },
{
    proof {
        reveal(sp_tx);
    }
    let l_j1 = vec![123u8, 34, 115, 101, 110, 100, 101, 114, 34, 58];
    assert(l_j1@ =~= key_sender_open());
    let j1 = match eat_lit(buf, i, l_j1.as_slice()) {
        Option::Some(j) => j,
        Option::None => {
            return Option::None;
        },
    };
    let (sender, j2) = match parse_string(buf, j1) {
        Option::Some(x) => x,
        Option::None => {
            return Option::None;
        },
    };
    let l_j3 = vec![44u8, 34, 114, 101, 99, 105, 112, 105, 101, 110, 116, 34, 58];
    assert(l_j3@ =~= key_recipient());
    let j3 = match eat_lit(buf, j2, l_j3.as_slice()) {
        Option::Some(j) => j,
        Option::None => {
            return Option::None;
        },
    };
    let (recipient, j4) = match parse_string(buf, j3) {
        Option::Some(x) => x,
        Option::None => {
            return Option::None;
        },
    };
    let l_j5 = vec![44u8, 34, 97, 109, 111, 117, 110, 116, 34, 58];
    assert(l_j5@ =~= key_amount());
    let j5 = match eat_lit(buf, j4, l_j5.as_slice()) {
        Option::Some(j) => j,
        Option::None => {
            return Option::None;
        },
    };
    let (amount, j6) = match parse_u64(buf, j5) {
        Option::Some(x) => x,
        Option::None => {
            return Option::None;
        },
    };
    let l_j7 = vec![44u8, 34, 115, 105, 103, 110, 97, 116, 117, 114, 101, 34, 58];
    assert(l_j7@ =~= key_signature());
    let j7 = match eat_lit(buf, j6, l_j7.as_slice()) {
        Option::Some(j) => j,
        Option::None => {
            return Option::None;
        },
    };
    let (sig, j8) = match parse_sig(buf, j7) {
        Option::Some(x) => x,
        Option::None => {
            return Option::None;
        },
    };
    let l_j9 = vec![44u8, 34, 112, 114, 111, 111, 102, 34, 58];
    assert(l_j9@ =~= key_proof());
    let j9 = match eat_lit(buf, j8, l_j9.as_slice()) {
        Option::Some(j) => j,
        Option::None => {
            return Option::None;
        },
    };
    let (proof, j10) = match parse_proof(buf, j9) {
        Option::Some(x) => x,
        Option::None => {
            return Option::None;
        },
    };
    if j10 < buf.len() && buf[j10] == 125 {
        let t = Transaction { sender, recipient, amount, signature: sig, proof };
        Option::Some((t, j10 + 1))
    } else {
        Option::None
    }
}

/// Parsing the items of a transaction array after its opening bracket.
pub open spec fn sp_tx_items(buf: Seq<u8>, i: int) -> Option<(Seq<TxView>, int)>
    decreases buf.len() - i,
{
    match sp_tx(buf, i) {
        Option::Some((t, j)) => {
            if i < j && j < buf.len() && buf[j] == 44 {
                match sp_tx_items(buf, j + 1) {
                    Option::Some((rest, e)) => Option::Some((seq![t] + rest, e)),
                    Option::None => Option::None,
                }
            } else if j < buf.len() && buf[j] == 93 {
                Option::Some((seq![t], j + 1))
            } else {
                Option::None
            }
        },
        Option::None => Option::None,
    }
}

/// Parsing a transaction array at `i`.
pub open spec fn sp_tx_array(buf: Seq<u8>, i: int) -> Option<(Seq<TxView>, int)> {
    if 0 <= i && i < buf.len() && buf[i] == 91 {
        if i + 1 < buf.len() && buf[i + 1] == 93 {
            Option::Some((Seq::empty(), i + 2))
        } else {
            sp_tx_items(buf, i + 1)
        }
    } else {
        Option::None
    }
}

/// Parses the items of a transaction array at `i`.
pub fn parse_tx_items(buf: &[u8], i: usize) -> (r: Option<(Vec<Transaction>, usize)>)
    requires
        i <= buf@.len(),
    ensures
        match r {
            Option::Some((ts, e)) => sp_tx_items(buf@, i as int) == Option::Some(
                (ts.deep_view(), e as int),
            ) && i < e <= buf@.len(),
            Option::None => sp_tx_items(buf@, i as int) is None,
        },
    decreases buf@.len() - i,
{
    match parse_tx(buf, i) {
        Option::Some((t, j)) => {
            if j < buf.len() && buf[j] == 44 {
                match parse_tx_items(buf, j + 1) {
                    Option::Some((mut rest, e)) => {
                        let ghost tail = rest.deep_view();
                        rest.insert(0, t);
                        proof {
                            assert(rest.deep_view() =~= seq![rest@[0]@] + tail);
                        }
                        Option::Some((rest, e))
                    },
                    Option::None => Option::None,
                }
            } else if j < buf.len() && buf[j] == 93 {
                let mut one: Vec<Transaction> = Vec::new();
                one.push(t);
                proof {
                    assert(one.deep_view() =~= seq![one@[0]@]);
                }
                Option::Some((one, j + 1))
            } else {
                Option::None
            }
        },
        Option::None => Option::None,
    }
}

/// Parses a transaction array at `i`.
pub fn parse_tx_array(buf: &[u8], i: usize) -> (r: Option<(Vec<Transaction>, usize)>)
    requires
        i <= buf@.len(),
    ensures
        match r {
            Option::Some((ts, e)) => sp_tx_array(buf@, i as int) == Option::Some(
                (ts.deep_view(), e as int),
            ) && i < e <= buf@.len(),
            Option::None => sp_tx_array(buf@, i as int) is None,
        },
{
    if i >= buf.len() || buf[i] != 91 {
        return Option::None;
    }
    if i + 1 < buf.len() && buf[i + 1] == 93 {
        let v: Vec<Transaction> = Vec::new();
        proof {
            assert(v.deep_view() =~= Seq::<TxView>::empty());
        }
        return Option::Some((v, i + 2));
    }
    parse_tx_items(buf, i + 1)
}

/// Parsing a full block object, fields in declaration order.
#[verifier::opaque]
pub open spec fn sp_block(buf: Seq<u8>, i: int) -> Option<(BlockView, int)> {
    match sp_lit(buf, i, key_index_open()) {
        Option::Some(j1) => match sp_u64(buf, j1) {
            Option::Some((index, j2)) => match sp_lit(buf, j2, key_timestamp()) {
                Option::Some(j3) => match sp_i64(buf, j3) {
                    Option::Some((timestamp, j4)) => match sp_lit(buf, j4, key_previous_hash()) {
                        Option::Some(j5) => match sp_string_chars(buf, j5) {
                            Option::Some((prev, j6)) => match sp_lit(buf, j6, key_nonce()) {
                                Option::Some(j7) => match sp_u64(buf, j7) {
                                    Option::Some((nonce, j8)) => match sp_lit(
                                        buf,
                                        j8,
                                        key_transactions(),
                                    ) {
                                        Option::Some(j9) => match sp_tx_array(buf, j9) {
                                            Option::Some((txs, j10)) => match sp_lit(
                                                buf,
                                                j10,
                                                key_hash(),
                                            ) {
                                                Option::Some(j11) => match sp_string_chars(
                                                    buf,
                                                    j11,
                                                ) {
                                                    Option::Some((hash, j12)) => {
                                                        if j12 < buf.len() && buf[j12] == 125 {
                                                            Option::Some(
                                                                (
                                                                    BlockView {
                                                                        index: index,
                                                                        timestamp: timestamp,
                                                                        previous_hash: prev,
                                                                        nonce: nonce,
                                                                        transactions: txs,
                                                                        hash: hash,
                                                                    },
                                                                    j12 + 1,
                                                                ),
                                                            )
                                                        } else {
                                                            Option::None
                                                        }
                                                    },
                                                    Option::None => Option::None,
                                                },
                                                Option::None => Option::None,
                                            },
                                            Option::None => Option::None,
                                        },
                                        Option::None => Option::None,
                                    },
                                    Option::None => Option::None,
                                },
                                Option::None => Option::None,
                            },
                            Option::None => Option::None,
                        },
                        Option::None => Option::None,
                    },
                    Option::None => Option::None,
                },
                Option::None => Option::None,
            },
            Option::None => Option::None,
        },
        Option::None => Option::None,
    }
}

/// Parses a full block object at `i`.
pub fn parse_block(buf: &[u8], i: usize) -> (r: Option<(Block, usize)>)
    requires
        i <= buf@.len(),
    ensures
        match r {
            Option::Some((b, e)) => sp_block(buf@, i as int) == Option::Some((b@, e as int)) && i
                < e <= buf@.len(),
            Option::None => sp_block(buf@, i as int) is None,
        },
{
    proof {
        reveal(sp_block);
    }
    let l_j1 = vec![123u8, 34, 105, 110, 100, 101, 120, 34, 58];
    assert(l_j1@ =~= key_index_open());
    let j1 = match eat_lit(buf, i, l_j1.as_slice()) {
        Option::Some(j) => j,
        Option::None => {
            return Option::None;
        },
    };
    let (index, j2) = match parse_u64(buf, j1) {
        Option::Some(x) => x,
        Option::None => {
            return Option::None;
        },
    };
    let l_j3 = vec![44u8, 34, 116, 105, 109, 101, 115, 116, 97, 109, 112, 34, 58];
    assert(l_j3@ =~= key_timestamp());
    let j3 = match eat_lit(buf, j2, l_j3.as_slice()) {
        Option::Some(j) => j,
        Option::None => {
            return Option::None;
        },
    };
    let (timestamp, j4) = match parse_i64(buf, j3) {
        Option::Some(x) => x,
        Option::None => {
            return Option::None;
        },
    };
    let l_j5 = vec![44u8, 34, 112, 114, 101, 118, 105, 111, 117, 115, 95, 104, 97, 115, 104, 34, 58];
    assert(l_j5@ =~= key_previous_hash());
    let j5 = match eat_lit(buf, j4, l_j5.as_slice()) {
        Option::Some(j) => j,
        Option::None => {
            return Option::None;
        },
    };
    let (prev, j6) = match parse_string(buf, j5) {
        Option::Some(x) => x,
        Option::None => {
            return Option::None;
        },
    };
    let l_j7 = vec![44u8, 34, 110, 111, 110, 99, 101, 34, 58];
    assert(l_j7@ =~= key_nonce());
    let j7 = match eat_lit(buf, j6, l_j7.as_slice()) {
        Option::Some(j) => j,
        Option::None => {
            return Option::None;
        },
    };
    let (nonce, j8) = match parse_u64(buf, j7) {
        Option::Some(x) => x,
        Option::None => {
            return Option::None;
        },
    };
    let l_j9 = vec![44u8, 34, 116, 114, 97, 110, 115, 97, 99, 116, 105, 111, 110, 115, 34, 58];
    assert(l_j9@ =~= key_transactions());
    let j9 = match eat_lit(buf, j8, l_j9.as_slice()) {
        Option::Some(j) => j,
        Option::None => {
            return Option::None;
        },
    };
    let (txs, j10) = match parse_tx_array(buf, j9) {
        Option::Some(x) => x,
        Option::None => {
            return Option::None;
        },
    };
    let l_j11 = vec![44u8, 34, 104, 97, 115, 104, 34, 58];
    assert(l_j11@ =~= key_hash());
    let j11 = match eat_lit(buf, j10, l_j11.as_slice()) {
        Option::Some(j) => j,
        Option::None => {
            return Option::None;
        },
    };
    let (hash, j12) = match parse_string(buf, j11) {
        Option::Some(x) => x,
        Option::None => {
            return Option::None;
        },
    };
    if j12 < buf.len() && buf[j12] == 125 {
        let b = Block { index, timestamp, previous_hash: prev, nonce, transactions: txs, hash };
        Option::Some((b, j12 + 1))
    } else {
        Option::None
    }
}

/// Parsing the items of a block array after its opening bracket.
pub open spec fn sp_block_items(buf: Seq<u8>, i: int) -> Option<(Seq<BlockView>, int)>
    decreases buf.len() - i,
{
    match sp_block(buf, i) {
        Option::Some((b, j)) => {
            if i < j && j < buf.len() && buf[j] == 44 {
                match sp_block_items(buf, j + 1) {
                    Option::Some((rest, e)) => Option::Some((seq![b] + rest, e)),
                    Option::None => Option::None,
                }
            } else if j < buf.len() && buf[j] == 93 {
                Option::Some((seq![b], j + 1))
            } else {
                Option::None
            }
        },
        Option::None => Option::None,
    }
}

/// Parsing a block array at `i`.
pub open spec fn sp_block_array(buf: Seq<u8>, i: int) -> Option<(Seq<BlockView>, int)> {
    if 0 <= i && i < buf.len() && buf[i] == 91 {
        if i + 1 < buf.len() && buf[i + 1] == 93 {
            Option::Some((Seq::empty(), i + 2))
        } else {
            sp_block_items(buf, i + 1)
        }
    } else {
        Option::None
    }
}

/// Parses the items of a block array at `i`.
pub fn parse_block_items(buf: &[u8], i: usize) -> (r: Option<(Vec<Block>, usize)>)
    requires
        i <= buf@.len(),
    ensures
        match r {
            Option::Some((bs, e)) => sp_block_items(buf@, i as int) == Option::Some(
                (bs.deep_view(), e as int),
            ) && i < e <= buf@.len(),
            Option::None => sp_block_items(buf@, i as int) is None,
        },
    decreases buf@.len() - i,
{
    match parse_block(buf, i) {
        Option::Some((b, j)) => {
            if j < buf.len() && buf[j] == 44 {
                match parse_block_items(buf, j + 1) {
                    Option::Some((mut rest, e)) => {
                        let ghost tail = rest.deep_view();
                        rest.insert(0, b);
                        proof {
                            assert(rest.deep_view() =~= seq![rest@[0]@] + tail);
                        }
                        Option::Some((rest, e))
                    },
                    Option::None => Option::None,
                }
            } else if j < buf.len() && buf[j] == 93 {
                let mut one: Vec<Block> = Vec::new();
                one.push(b);
                proof {
                    assert(one.deep_view() =~= seq![one@[0]@]);
                }
                Option::Some((one, j + 1))
            } else {
                Option::None
            }
        },
        Option::None => Option::None,
    }
}

/// Parses a block array at `i`.
pub fn parse_block_array(buf: &[u8], i: usize) -> (r: Option<(Vec<Block>, usize)>)
    requires
        i <= buf@.len(),
    ensures
        match r {
            Option::Some((bs, e)) => sp_block_array(buf@, i as int) == Option::Some(
                (bs.deep_view(), e as int),
            ) && i < e <= buf@.len(),
            Option::None => sp_block_array(buf@, i as int) is None,
        },
{
    if i >= buf.len() || buf[i] != 91 {
        return Option::None;
    }
    if i + 1 < buf.len() && buf[i + 1] == 93 {
        let v: Vec<Block> = Vec::new();
        proof {
            assert(v.deep_view() =~= Seq::<BlockView>::empty());
        }
        return Option::Some((v, i + 2));
    }
    parse_block_items(buf, i + 1)
}

/// Parsing a whole snapshot document: chain, pending queue and difficulty,
/// with nothing after the closing brace.
pub open spec fn sp_snapshot(buf: Seq<u8>) -> Option<(Seq<BlockView>, Seq<TxView>, u32)> {
    match sp_lit(buf, 0, key_chain_open()) {
        Option::Some(j1) => match sp_block_array(buf, j1) {
            Option::Some((chain, j2)) => match sp_lit(buf, j2, key_pending()) {
                Option::Some(j3) => match sp_tx_array(buf, j3) {
                    Option::Some((pending, j4)) => match sp_lit(buf, j4, key_difficulty()) {
                        Option::Some(j5) => match sp_u64(buf, j5) {
                            Option::Some((d, j6)) => {
                                if d <= u32::MAX as u64 && j6 + 1 == buf.len() && buf[j6] == 125 {
                                    Option::Some((chain, pending, d as u32))
                                } else {
                                    Option::None
                                }
                            },
                            Option::None => Option::None,
                        },
                        Option::None => Option::None,
                    },
                    Option::None => Option::None,
                },
                Option::None => Option::None,
            },
            Option::None => Option::None,
        },
        Option::None => Option::None,
    }
}

/// Parses a whole snapshot document into a chain state. The loader is
/// strict: it accepts exactly the documents the snapshot renderer produces.
#[verifier::rlimit(100)]
pub fn load_from_bytes(buf: &[u8]) -> (r: Option<crate::blockchain::Blockchain>)
    ensures
        match r {
            Option::Some(bc) => sp_snapshot(buf@) == Option::Some(
                (bc.chain_view(), bc.pending_view(), bc.difficulty),
            ),
            Option::None => sp_snapshot(buf@) is None,
        },
{
    let l_j1 = vec![123u8, 34, 99, 104, 97, 105, 110, 34, 58];
    assert(l_j1@ =~= key_chain_open());
    let j1 = match eat_lit(buf, 0, l_j1.as_slice()) {
        Option::Some(j) => j,
        Option::None => {
            return Option::None;
        },
    };
    let (chain, j2) = match parse_block_array(buf, j1) {
        Option::Some(x) => x,
        Option::None => {
            return Option::None;
        },
    };
    let l_j3 = vec![44u8, 34, 112, 101, 110, 100, 105, 110, 103, 95, 116, 114, 97, 110, 115, 97, 99, 116, 105, 111, 110, 115, 34, 58];
    assert(l_j3@ =~= key_pending());
    let j3 = match eat_lit(buf, j2, l_j3.as_slice()) {
        Option::Some(j) => j,
        Option::None => {
            return Option::None;
        },
    };
    let (pending_vec, j4) = match parse_tx_array(buf, j3) {
        Option::Some(x) => x,
        Option::None => {
            return Option::None;
        },
    };
    let l_j5 = vec![44u8, 34, 100, 105, 102, 102, 105, 99, 117, 108, 116, 121, 34, 58];
    assert(l_j5@ =~= key_difficulty());
    let j5 = match eat_lit(buf, j4, l_j5.as_slice()) {
        Option::Some(j) => j,
        Option::None => {
            return Option::None;
        },
    };
    let (d, j6) = match parse_u64(buf, j5) {
        Option::Some(x) => x,
        Option::None => {
            return Option::None;
        },
    };
    if !(d <= 0xFFFF_FFFFu64 && j6 < buf.len() && buf[j6] == 125 && j6 == buf.len() - 1) {
        return Option::None;
    }
    let queue = vec_to_deque(pending_vec);
    let bc = crate::blockchain::Blockchain {
        chain,
        pending_transactions: queue,
        difficulty: d as u32,
    };
    Option::Some(bc)
}

/// Moves a vector's transactions into a queue, front first.
fn vec_to_deque(v: Vec<Transaction>) -> (q: std::collections::VecDeque<Transaction>)
    ensures
        q.deep_view() == v.deep_view(),
{
    let ghost pending_views = v.deep_view();
    let mut rest = v;
    let mut queue: std::collections::VecDeque<Transaction> = std::collections::VecDeque::new();
    #[verifier::loop_isolation(false)]
    while rest.len() > 0
        invariant
            rest.deep_view() =~= pending_views.take(rest@.len() as int),
            queue.deep_view() =~= pending_views.skip(rest@.len() as int),
            rest@.len() <= pending_views.len(),
        decreases rest@.len(),
    {
        let ghost n0 = rest@.len() as int;
        let ghost pre = rest@;
        let ghost preq = queue.deep_view();
        let t = rest.pop();
        match t {
            Option::Some(x) => {
                proof {
                    assert(x == pre[n0 - 1]);
                    assert(x@ == pending_views.take(n0)[n0 - 1]);
                    assert(x@ == pending_views[n0 - 1]);
                    assert forall|k: int| 0 <= k < n0 - 1 implies rest@[k] == pre[k] by {}
                    assert(rest.deep_view() =~= pending_views.take(n0 - 1));
                }
                queue.push_front(x);
                proof {
                    assert(queue@ == seq![x] + queue@.drop_first());
                    assert(queue.deep_view() =~= seq![x@] + preq);
                    assert(queue.deep_view() =~= pending_views.skip(n0 - 1));
                }
            },
            Option::None => {},
        }
    }
    proof {
        assert(queue.deep_view() =~= pending_views);
    }
    queue
}

/// Parsing the wire message that offers a whole chain, with nothing after
/// the closing brace.
pub open spec fn sp_chain_msg(buf: Seq<u8>) -> Option<Seq<BlockView>> {
    match sp_lit(buf, 0, key_chain_open()) {
        Option::Some(j1) => match sp_block_array(buf, j1) {
            Option::Some((chain, j2)) => {
                if j2 + 1 == buf.len() && buf[j2] == 125 {
                    Option::Some(chain)
                } else {
                    Option::None
                }
            },
            Option::None => Option::None,
        },
        Option::None => Option::None,
    }
}

/// Parses the wire message that offers a whole chain.
#[verifier::rlimit(100)]
pub fn parse_chain_msg(buf: &[u8]) -> (r: Option<Vec<Block>>)
    ensures
        match r {
            Option::Some(bs) => sp_chain_msg(buf@) == Option::Some(bs.deep_view()),
            Option::None => sp_chain_msg(buf@) is None,
        },
{
    let l_j1 = vec![123u8, 34, 99, 104, 97, 105, 110, 34, 58];
    assert(l_j1@ =~= key_chain_open());
    let j1 = match eat_lit(buf, 0, l_j1.as_slice()) {
        Option::Some(j) => j,
        Option::None => {
            return Option::None;
        },
    };
    let (chain, j2) = match parse_block_array(buf, j1) {
        Option::Some(x) => x,
        Option::None => {
            return Option::None;
        },
    };
    if j2 < buf.len() && buf[j2] == 125 && j2 == buf.len() - 1 {
        Option::Some(chain)
    } else {
        Option::None
    }
}

/// Parsing the wire message that offers a single block, with nothing after
/// the closing brace.
pub open spec fn sp_new_block_msg(buf: Seq<u8>) -> Option<BlockView> {
    match sp_lit(buf, 0, key_new_block_open()) {
        Option::Some(j1) => match sp_block(buf, j1) {
            Option::Some((b, j2)) => {
                if j2 + 1 == buf.len() && buf[j2] == 125 {
                    Option::Some(b)
                } else {
                    Option::None
                }
            },
            Option::None => Option::None,
        },
        Option::None => Option::None,
    }
}

/// Parses the wire message that offers a single block.
#[verifier::rlimit(100)]
pub fn parse_new_block_msg(buf: &[u8]) -> (r: Option<Block>)
    ensures
        match r {
            Option::Some(b) => sp_new_block_msg(buf@) == Option::Some(b@),
            Option::None => sp_new_block_msg(buf@) is None,
        },
{
    let l_j1 = vec![123u8, 34, 110, 101, 119, 95, 98, 108, 111, 99, 107, 34, 58];
    assert(l_j1@ =~= key_new_block_open());
    let j1 = match eat_lit(buf, 0, l_j1.as_slice()) {
        Option::Some(j) => j,
        Option::None => {
            return Option::None;
        },
    };
    let (b, j2) = match parse_block(buf, j1) {
        Option::Some(x) => x,
        Option::None => {
            return Option::None;
        },
    };
    if j2 < buf.len() && buf[j2] == 125 && j2 == buf.len() - 1 {
        Option::Some(b)
    } else {
        Option::None
    }
}

} // verus!
