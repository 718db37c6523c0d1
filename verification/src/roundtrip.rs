//! The round-trip laws of the canonical format: parsing a rendered document
//! recovers exactly the rendered value.

use vstd::prelude::*;
use vstd::utf8::encode_utf8;
use crate::codec::dec_bytes;
use crate::codec::dec_bytes_signed;
use crate::codec::esc_byte;
use crate::codec::esc_bytes;
use crate::codec::json_string_bytes;
use crate::parse::digit_end;
use crate::parse::digits_val;
use crate::parse::is_digit;
use crate::parse::lemma_pow10_20;
use crate::parse::pow10;
use crate::parse::sp_i64;
use crate::parse::sp_str_body;
use crate::parse::sp_string_chars;
use crate::parse::sp_u64;

verus! {

/// The byte under a singleton subrange.
pub proof fn lemma_byte_at(buf: Seq<u8>, p: int, b: u8)
    requires
        0 <= p,
        p + 1 <= buf.len(),
        buf.subrange(p, p + 1) == seq![b],
    ensures
        buf[p] == b,
{
    assert(buf[p] == buf.subrange(p, p + 1)[0]);
    assert(seq![b][0] == b);
}

/// Splits knowledge of a concatenated subrange into its two halves.
pub proof fn lemma_subrange_cat(buf: Seq<u8>, p: int, s1: Seq<u8>, s2: Seq<u8>)
    requires
        0 <= p,
        p + s1.len() + s2.len() <= buf.len(),
        buf.subrange(p, p + s1.len() + s2.len()) == s1 + s2,
    ensures
        buf.subrange(p, p + s1.len()) == s1,
        buf.subrange(p + s1.len(), p + s1.len() + s2.len()) == s2,
{
    let whole = buf.subrange(p, p + s1.len() + s2.len());
    assert forall|k: int| 0 <= k < s1.len() implies buf[p + k] == s1[k] by {
        assert(whole[k] == (s1 + s2)[k]);
    }
    assert forall|k: int| 0 <= k < s2.len() implies buf[p + s1.len() + k] == s2[k] by {
        assert(whole[s1.len() + k] == (s1 + s2)[s1.len() + k]);
    }
    assert(buf.subrange(p, p + s1.len()) =~= s1);
    assert(buf.subrange(p + s1.len(), p + s1.len() + s2.len()) =~= s2);
}

/// Every byte of a decimal rendering is a digit.
pub proof fn lemma_dec_bytes_digits(n: nat)
    ensures
        forall|i: int| 0 <= i < dec_bytes(n).len() ==> is_digit(#[trigger] dec_bytes(n)[i]),
        dec_bytes(n).len() >= 1,
    decreases n,
{
    if n >= 10 {
        lemma_dec_bytes_digits(n / 10);
        assert forall|i: int| 0 <= i < dec_bytes(n).len() implies is_digit(
            #[trigger] dec_bytes(n)[i],
        ) by {
            if i < dec_bytes(n).len() - 1 {
                assert(dec_bytes(n)[i] == dec_bytes(n / 10)[i]);
            }
        }
    }
}

/// A decimal rendering never starts with a superfluous zero.
pub proof fn lemma_dec_bytes_no_leading_zero(n: nat)
    ensures
        dec_bytes(n).len() > 1 ==> dec_bytes(n)[0] != 48,
    decreases n,
{
    if n >= 10 {
        lemma_dec_bytes_no_leading_zero(n / 10);
        lemma_dec_bytes_digits(n / 10);
        assert(dec_bytes(n)[0] == dec_bytes(n / 10)[0]);
        if n / 10 < 10 {
            assert(n / 10 >= 1);
            assert(dec_bytes(n / 10) == seq![(48 + n / 10) as u8]);
            assert(dec_bytes(n / 10)[0] == (48 + n / 10) as u8);
        } else {
            lemma_dec_bytes_digits((n / 10) / 10);
            assert(dec_bytes(n / 10) == dec_bytes((n / 10) / 10).push(
                (48 + (n / 10) % 10) as u8,
            ));
            assert(dec_bytes(n / 10).len() >= 2);
        }
    }
}

/// A value below `pow10(k)` renders in at most `k` digits.
pub proof fn lemma_dec_bytes_len(n: nat, k: nat)
    requires
        n < pow10(k),
        k >= 1,
    ensures
        dec_bytes(n).len() <= k,
    decreases n,
{
    if n < 10 {
    } else {
        assert(pow10(k) == 10 * pow10((k - 1) as nat));
        if k == 1 {
            assert(pow10(1) == 10);
            assert(false);
        }
        assert(n / 10 < pow10((k - 1) as nat)) by {
            if n / 10 >= pow10((k - 1) as nat) {
                assert(n >= 10 * (n / 10)) by {
                    vstd::arithmetic::div_mod::lemma_fundamental_div_mod(n as int, 10);
                }
                assert(10 * (n / 10) >= 10 * pow10((k - 1) as nat)) by (nonlinear_arith)
                    requires
                        n / 10 >= pow10((k - 1) as nat),
                {}
            }
        }
        lemma_dec_bytes_len(n / 10, (k - 1) as nat);
    }
}

/// The decimal rendering denotes the rendered value.
pub proof fn lemma_digits_val_dec_bytes(n: nat)
    ensures
        digits_val(dec_bytes(n)) == n,
    decreases n,
{
    if n < 10 {
        assert(dec_bytes(n) == seq![(48 + n) as u8]);
        assert(dec_bytes(n).len() == 1);
        assert(dec_bytes(n).last() == (48 + n) as u8);
        assert(dec_bytes(n).drop_last() =~= Seq::<u8>::empty());
        assert(digits_val(dec_bytes(n).drop_last()) == 0);
        assert(is_digit(dec_bytes(n).last()));
        assert((dec_bytes(n).last() - 48) as nat == n);
        assert(digits_val(dec_bytes(n)) == 0 * 10 + n);
    } else {
        lemma_digits_val_dec_bytes(n / 10);
        lemma_dec_bytes_digits(n);
        assert(dec_bytes(n).drop_last() =~= dec_bytes(n / 10));
        assert(dec_bytes(n).last() == (48 + n % 10) as u8);
        assert(is_digit(dec_bytes(n).last()));
        assert((dec_bytes(n).last() - 48) as nat == n % 10);
        assert(digits_val(dec_bytes(n)) == digits_val(dec_bytes(n / 10)) * 10 + n % 10);
        assert(digits_val(dec_bytes(n)) == (n / 10) * 10 + n % 10);
        vstd::arithmetic::div_mod::lemma_fundamental_div_mod(n as int, 10);
    }
}

/// A run of digits bounded by a non-digit ends exactly at the boundary.
pub proof fn lemma_digit_end_of_run(buf: Seq<u8>, p: int, e: int)
    requires
        0 <= p <= e <= buf.len(),
        forall|j: int| p <= j < e ==> is_digit(#[trigger] buf[j]),
        e == buf.len() || !is_digit(buf[e]),
    ensures
        digit_end(buf, p) == e,
    decreases e - p,
{
    if p == e {
    } else {
        lemma_digit_end_of_run(buf, p + 1, e);
    }
}

/// Parsing at a rendered decimal recovers the value: if the bytes at `p`
/// are `dec_bytes(n)` and the byte after the run is not a digit, `sp_u64`
/// yields `n` and stops at the run's end.
pub proof fn lemma_rt_u64(buf: Seq<u8>, p: int, n: u64)
    requires
        0 <= p,
        p + dec_bytes(n as nat).len() <= buf.len(),
        buf.subrange(p, p + dec_bytes(n as nat).len()) == dec_bytes(n as nat),
        p + dec_bytes(n as nat).len() == buf.len() || !is_digit(
            buf[p + dec_bytes(n as nat).len()],
        ),
    ensures
        sp_u64(buf, p) == Option::Some((n, p + dec_bytes(n as nat).len())),
{
    let d = dec_bytes(n as nat);
    let e = p + d.len();
    lemma_dec_bytes_digits(n as nat);
    assert forall|j: int| p <= j < e implies is_digit(#[trigger] buf[j]) by {
        assert(buf[j] == buf.subrange(p, e)[j - p]);
    }
    lemma_digit_end_of_run(buf, p, e);
    lemma_dec_bytes_no_leading_zero(n as nat);
    assert(buf[p] == d[0]);
    if d.len() > 1 {
        assert(buf[p] != 48);
    }
    lemma_pow10_20();
    lemma_dec_bytes_len(n as nat, 20);
    assert(buf.subrange(p, e) == d);
    lemma_digits_val_dec_bytes(n as nat);
}

/// The signed counterpart of the decimal round trip.
pub proof fn lemma_rt_i64(buf: Seq<u8>, p: int, t: i64)
    requires
        0 <= p,
        p + dec_bytes_signed(t as int).len() <= buf.len(),
        buf.subrange(p, p + dec_bytes_signed(t as int).len()) == dec_bytes_signed(t as int),
        p + dec_bytes_signed(t as int).len() == buf.len() || !is_digit(
            buf[p + dec_bytes_signed(t as int).len()],
        ),
    ensures
        sp_i64(buf, p) == Option::Some((t, p + dec_bytes_signed(t as int).len())),
{
    let d = dec_bytes_signed(t as int);
    if t >= 0 {
        lemma_rt_u64(buf, p, t as u64);
        lemma_dec_bytes_digits(t as nat);
        assert(buf[p] == d[0]);
        assert(buf[p] != 45);
    } else {
        let mag = (-(t as int)) as nat;
        let md = dec_bytes(mag);
        assert(d == seq![45u8] + md);
        assert(d.len() == 1 + md.len());
        lemma_subrange_cat(buf, p, seq![45u8], md);
        lemma_byte_at(buf, p, 45);
        assert(buf[p] == 45);
        assert(buf.subrange(p + 1, p + 1 + md.len()) == md);
        assert(mag <= 0x8000_0000_0000_0000);
        lemma_rt_u64(buf, p + 1, mag as u64);
        assert(sp_u64(buf, p + 1) == Option::Some((mag as u64, p + 1 + md.len())));
        if mag == 0x8000_0000_0000_0000 {
            assert(t == i64::MIN);
        } else {
            assert((-(mag as int)) as i64 == t);
        }
    }
}

/// Parsing at an escaped, quoted string body recovers the content bytes.
pub proof fn lemma_rt_str_body(buf: Seq<u8>, p: int, content: Seq<u8>)
    requires
        0 <= p,
        p + esc_bytes(content).len() + 1 <= buf.len(),
        buf.subrange(p, p + esc_bytes(content).len()) == esc_bytes(content),
        buf[p + esc_bytes(content).len()] == 34,
    ensures
        sp_str_body(buf, p) == Option::Some((content, p + esc_bytes(content).len() + 1)),
    decreases content.len(),
{
    if content.len() == 0 {
        assert(esc_bytes(content).len() == 0);
        assert(buf[p] == 34);
    } else {
        let c = content[0];
        let rest = content.drop_first();
        assert(esc_bytes(content) == esc_byte(c) + esc_bytes(rest));
        lemma_subrange_cat(buf, p, esc_byte(c), esc_bytes(rest));
        let q = p + esc_byte(c).len();
        assert(buf[p + esc_bytes(content).len()] == 34);
        assert(esc_bytes(content).len() == esc_byte(c).len() + esc_bytes(rest).len());
        lemma_rt_str_body(buf, q, rest);
        if c == 34 || c == 92 {
            assert(esc_byte(c) == seq![92u8, c]);
            let sb = buf.subrange(p, p + 2);
            assert(buf[p] == sb[0] && sb[0] == 92);
            assert(buf[p + 1] == sb[1] && sb[1] == c);
            assert(sp_str_body(buf, p) == Option::Some((seq![c] + rest, p + esc_bytes(
                content,
            ).len() + 1)));
            assert(seq![c] + rest =~= content);
        } else {
            assert(esc_byte(c) == seq![c]);
            lemma_byte_at(buf, p, c);
            assert(buf[p] != 34 && buf[p] != 92);
            assert(sp_str_body(buf, p) == Option::Some((seq![c] + rest, p + esc_bytes(
                content,
            ).len() + 1)));
            assert(seq![c] + rest =~= content);
        }
    }
}

/// Parsing at a rendered JSON string recovers the characters.
pub proof fn lemma_rt_string(buf: Seq<u8>, p: int, s: Seq<char>)
    requires
        0 <= p,
        p + json_string_bytes(s).len() <= buf.len(),
        buf.subrange(p, p + json_string_bytes(s).len()) == json_string_bytes(s),
    ensures
        sp_string_chars(buf, p) == Option::Some((s, p + json_string_bytes(s).len())),
{
    let content = encode_utf8(s);
    let jsb = json_string_bytes(s);
    assert(jsb == seq![34u8] + (esc_bytes(content) + seq![34u8]));
    assert(jsb.len() == 1 + esc_bytes(content).len() + 1);
    lemma_subrange_cat(buf, p, seq![34u8], esc_bytes(content) + seq![34u8]);
    lemma_byte_at(buf, p, 34);
    lemma_subrange_cat(buf, p + 1, esc_bytes(content), seq![34u8]);
    lemma_byte_at(buf, p + 1 + esc_bytes(content).len(), 34);
    lemma_rt_str_body(buf, p + 1, content);
    vstd::utf8::encode_utf8_valid_utf8(s);
    vstd::utf8::encode_utf8_decode_utf8(s);
    assert(sp_str_body(buf, p + 1) == Option::Some((content, p + jsb.len())));
}


/// Parsing at rendered byte-array items recovers the remaining bytes.
pub proof fn lemma_rt_byte_items(buf: Seq<u8>, p: int, b: Seq<u8>, i: int)
    requires
        0 <= i < b.len(),
        0 <= p,
        p + crate::codec::byte_items_from(b, i).len() + 1 <= buf.len(),
        buf.subrange(p, p + crate::codec::byte_items_from(b, i).len())
            == crate::codec::byte_items_from(b, i),
        buf[p + crate::codec::byte_items_from(b, i).len()] == 93,
    ensures
        crate::parse::sp_byte_items(buf, p) == Option::Some(
            (b.skip(i), p + crate::codec::byte_items_from(b, i).len() + 1),
        ),
    decreases b.len() - i,
{
    let items = crate::codec::byte_items_from(b, i);
    let d = dec_bytes(b[i] as nat);
    if i == b.len() - 1 {
        assert(items == d);
        lemma_rt_u64(buf, p, b[i] as u64);
        assert(sp_u64(buf, p) == Option::Some((b[i] as u64, p + d.len())));
        assert(buf[p + d.len()] == 93);
        assert(seq![b[i]] =~= b.skip(i));
    } else {
        let rest = crate::codec::byte_items_from(b, i + 1);
        assert(items == d + seq![44u8] + rest);
        assert(items =~= d + (seq![44u8] + rest));
        lemma_subrange_cat(buf, p, d, seq![44u8] + rest);
        lemma_subrange_cat(buf, p + d.len(), seq![44u8], rest);
        lemma_byte_at(buf, p + d.len(), 44);
        lemma_rt_u64(buf, p, b[i] as u64);
        let j = p + d.len();
        assert(sp_u64(buf, p) == Option::Some((b[i] as u64, j)));
        assert(buf[j] == 44);
        assert(buf.subrange(j + 1, j + 1 + rest.len()) == rest);
        assert(p + items.len() == j + 1 + rest.len());
        lemma_rt_byte_items(buf, j + 1, b, i + 1);
        assert(crate::parse::sp_byte_items(buf, j + 1) == Option::Some(
            (b.skip(i + 1), p + items.len() + 1),
        ));
        assert(seq![b[i]] + b.skip(i + 1) =~= b.skip(i));
    }
}

/// Parsing at a rendered byte array recovers the bytes.
pub proof fn lemma_rt_byte_array(buf: Seq<u8>, p: int, b: Seq<u8>)
    requires
        0 <= p,
        p + crate::codec::byte_array_json(b).len() <= buf.len(),
        buf.subrange(p, p + crate::codec::byte_array_json(b).len())
            == crate::codec::byte_array_json(b),
    ensures
        crate::parse::sp_byte_array(buf, p) == Option::Some(
            (b, p + crate::codec::byte_array_json(b).len()),
        ),
{
    let items = crate::codec::byte_items_from(b, 0);
    let whole = crate::codec::byte_array_json(b);
    assert(whole =~= seq![91u8] + (items + seq![93u8]));
    lemma_subrange_cat(buf, p, seq![91u8], items + seq![93u8]);
    lemma_subrange_cat(buf, p + 1, items, seq![93u8]);
    lemma_byte_at(buf, p, 91);
    lemma_byte_at(buf, p + 1 + items.len(), 93);
    if b.len() == 0 {
        assert(items.len() == 0);
        assert(buf[p + 1] == 93);
        assert(b =~= Seq::<u8>::empty());
    } else {
        let d = dec_bytes(b[0] as nat);
        lemma_dec_bytes_digits(b[0] as nat);
        if b.len() == 1 {
            assert(items == d);
        } else {
            assert(items == d + seq![44u8] + crate::codec::byte_items_from(b, 1));
            assert(items[0] == d[0]);
        }
        assert(items[0] == d[0]);
        assert(is_digit(d[0]));
        assert(buf[p + 1] == buf.subrange(p + 1, p + 1 + items.len())[0]);
        assert(buf[p + 1] == items[0]);
        assert(buf[p + 1] != 93);
        lemma_rt_byte_items(buf, p + 1, b, 0);
        assert(b.skip(0) =~= b);
    }
}

/// Parsing at a rendered proof bundle recovers it.
pub proof fn lemma_rt_proof(buf: Seq<u8>, p: int, pv: crate::zk_proofs::ProofView)
    requires
        0 <= p,
        p + crate::codec::proof_json(pv).len() <= buf.len(),
        buf.subrange(p, p + crate::codec::proof_json(pv).len()) == crate::codec::proof_json(pv),
    ensures
        crate::parse::sp_proof(buf, p) == Option::Some(
            (pv, p + crate::codec::proof_json(pv).len()),
        ),
{
    let k1 = crate::codec::key_proof_open();
    let a1 = crate::codec::byte_array_json(pv.proof);
    let k2 = crate::codec::key_vk();
    let a2 = crate::codec::byte_array_json(pv.vk);
    let whole = crate::codec::proof_json(pv);
    assert(whole =~= k1 + (a1 + (k2 + (a2 + seq![125u8]))));
    lemma_subrange_cat(buf, p, k1, a1 + (k2 + (a2 + seq![125u8])));
    let q1 = p + k1.len();
    lemma_subrange_cat(buf, q1, a1, k2 + (a2 + seq![125u8]));
    let q2 = q1 + a1.len();
    lemma_subrange_cat(buf, q2, k2, a2 + seq![125u8]);
    let q3 = q2 + k2.len();
    lemma_subrange_cat(buf, q3, a2, seq![125u8]);
    let q4 = q3 + a2.len();
    lemma_byte_at(buf, q4, 125);
    assert(crate::parse::sp_lit(buf, p, k1) == Option::Some(q1));
    lemma_rt_byte_array(buf, q1, pv.proof);
    assert(crate::parse::sp_lit(buf, q2, k2) == Option::Some(q3));
    lemma_rt_byte_array(buf, q3, pv.vk);
    assert(crate::zk_proofs::ProofView { proof: pv.proof, vk: pv.vk } == pv);
}

/// Parsing at a rendered optional signature recovers it.
pub proof fn lemma_rt_sig(buf: Seq<u8>, p: int, s: Option<Seq<char>>)
    requires
        0 <= p,
        p + crate::codec::sig_json(s).len() <= buf.len(),
        buf.subrange(p, p + crate::codec::sig_json(s).len()) == crate::codec::sig_json(s),
    ensures
        crate::parse::sp_sig(buf, p) == Option::Some((s, p + crate::codec::sig_json(s).len())),
{
    match s {
        Option::None => {
            assert(crate::codec::sig_json(s) == crate::codec::lit_null());
            assert(crate::parse::sp_lit(buf, p, crate::codec::lit_null()) == Option::Some(p + 4));
        },
        Option::Some(x) => {
            assert(crate::codec::sig_json(s) == json_string_bytes(x));
            assert(buf[p] == buf.subrange(p, p + json_string_bytes(x).len())[0]);
            assert(buf[p] == 34);
            if crate::parse::sp_lit(buf, p, crate::codec::lit_null()) is Some {
                assert(buf.subrange(p, p + 4) == crate::codec::lit_null());
                assert(buf[p] == buf.subrange(p, p + 4)[0]);
                assert(buf[p] == 110);
                assert(false);
            }
            lemma_rt_string(buf, p, x);
        },
    }
}

/// Parsing at a rendered transaction recovers its view.
#[verifier::rlimit(100)]
#[verifier::spinoff_prover]
pub proof fn lemma_rt_tx(buf: Seq<u8>, p: int, t: crate::transaction::TxView)
    requires
        0 <= p,
        p + crate::codec::tx_json(t).len() <= buf.len(),
        buf.subrange(p, p + crate::codec::tx_json(t).len()) == crate::codec::tx_json(t),
    ensures
        crate::parse::sp_tx(buf, p) == Option::Some((t, p + crate::codec::tx_json(t).len())),
{
    reveal(crate::codec::tx_json);
    reveal(crate::parse::sp_tx);
    let k1 = crate::codec::key_sender_open();
    let s1 = json_string_bytes(t.sender);
    let k2 = crate::codec::key_recipient();
    let s2 = json_string_bytes(t.recipient);
    let k3 = crate::codec::key_amount();
    let n1 = dec_bytes(t.amount as nat);
    let k4 = crate::codec::key_signature();
    let sg = crate::codec::sig_json(t.signature);
    let k5 = crate::codec::key_proof();
    let pf = crate::codec::proof_json(t.proof);
    let whole = crate::codec::tx_json(t);
    assert(whole =~= k1 + (s1 + (k2 + (s2 + (k3 + (n1 + (k4 + (sg + (k5 + (pf
        + seq![125u8]))))))))));
    lemma_subrange_cat(buf, p, k1, s1 + (k2 + (s2 + (k3 + (n1 + (k4 + (sg + (k5 + (pf
        + seq![125u8])))))))));
    let q1 = p + k1.len();
    lemma_subrange_cat(buf, q1, s1, k2 + (s2 + (k3 + (n1 + (k4 + (sg + (k5 + (pf
        + seq![125u8]))))))));
    let q2 = q1 + s1.len();
    lemma_subrange_cat(buf, q2, k2, s2 + (k3 + (n1 + (k4 + (sg + (k5 + (pf + seq![125u8])))))));
    let q3 = q2 + k2.len();
    lemma_subrange_cat(buf, q3, s2, k3 + (n1 + (k4 + (sg + (k5 + (pf + seq![125u8]))))));
    let q4 = q3 + s2.len();
    lemma_subrange_cat(buf, q4, k3, n1 + (k4 + (sg + (k5 + (pf + seq![125u8])))));
    let q5 = q4 + k3.len();
    lemma_subrange_cat(buf, q5, n1, k4 + (sg + (k5 + (pf + seq![125u8]))));
    let q6 = q5 + n1.len();
    lemma_subrange_cat(buf, q6, k4, sg + (k5 + (pf + seq![125u8])));
    let q7 = q6 + k4.len();
    lemma_subrange_cat(buf, q7, sg, k5 + (pf + seq![125u8]));
    let q8 = q7 + sg.len();
    lemma_subrange_cat(buf, q8, k5, pf + seq![125u8]);
    let q9 = q8 + k5.len();
    lemma_subrange_cat(buf, q9, pf, seq![125u8]);
    let q10 = q9 + pf.len();
    lemma_byte_at(buf, q10, 125);
    assert(crate::parse::sp_lit(buf, p, k1) == Option::Some(q1));
    lemma_rt_string(buf, q1, t.sender);
    assert(crate::parse::sp_lit(buf, q2, k2) == Option::Some(q3));
    lemma_rt_string(buf, q3, t.recipient);
    assert(crate::parse::sp_lit(buf, q4, k3) == Option::Some(q5));
    assert(buf[q6] == buf.subrange(q6, q6 + k4.len())[0]);
    assert(buf[q6] == 44);
    lemma_rt_u64(buf, q5, t.amount);
    assert(sp_u64(buf, q5) == Option::Some((t.amount, q6)));
    assert(crate::parse::sp_lit(buf, q6, k4) == Option::Some(q7));
    lemma_rt_sig(buf, q7, t.signature);
    assert(crate::parse::sp_lit(buf, q8, k5) == Option::Some(q9));
    lemma_rt_proof(buf, q9, t.proof);
    assert(crate::transaction::TxView {
        sender: t.sender,
        recipient: t.recipient,
        amount: t.amount,
        signature: t.signature,
        proof: t.proof,
    } == t);
}


/// A rendered transaction starts with an opening brace.
pub proof fn lemma_tx_json_first(t: crate::transaction::TxView)
    ensures
        crate::codec::tx_json(t).len() >= 1,
        crate::codec::tx_json(t)[0] == 123,
{
    reveal(crate::codec::tx_json);
    assert(crate::codec::tx_json(t)[0] == crate::codec::key_sender_open()[0]);
}

/// A rendered block starts with an opening brace.
pub proof fn lemma_block_json_first(b: crate::block::BlockView)
    ensures
        crate::codec::block_json(b).len() >= 1,
        crate::codec::block_json(b)[0] == 123,
{
    reveal(crate::codec::block_json);
    assert(crate::codec::block_json(b)[0] == crate::codec::key_index_open()[0]);
}

/// Parsing at rendered transaction items recovers the remaining views.
#[verifier::rlimit(100)]
#[verifier::spinoff_prover]
pub proof fn lemma_rt_tx_items(buf: Seq<u8>, p: int, ts: Seq<crate::transaction::TxView>, i: int)
    requires
        0 <= i < ts.len(),
        0 <= p,
        p + crate::codec::tx_items_from(ts, i).len() + 1 <= buf.len(),
        buf.subrange(p, p + crate::codec::tx_items_from(ts, i).len())
            == crate::codec::tx_items_from(ts, i),
        buf[p + crate::codec::tx_items_from(ts, i).len()] == 93,
    ensures
        crate::parse::sp_tx_items(buf, p) == Option::Some(
            (ts.skip(i), p + crate::codec::tx_items_from(ts, i).len() + 1),
        ),
    decreases ts.len() - i,
{
    let items = crate::codec::tx_items_from(ts, i);
    let d = crate::codec::tx_json(ts[i]);
    lemma_tx_json_first(ts[i]);
    if i == ts.len() - 1 {
        assert(items == d);
        lemma_rt_tx(buf, p, ts[i]);
        assert(buf[p + d.len()] == 93);
        assert(seq![ts[i]] =~= ts.skip(i));
    } else {
        let rest = crate::codec::tx_items_from(ts, i + 1);
        assert(items == d + seq![44u8] + rest);
        assert(items =~= d + (seq![44u8] + rest));
        lemma_subrange_cat(buf, p, d, seq![44u8] + rest);
        lemma_subrange_cat(buf, p + d.len(), seq![44u8], rest);
        lemma_byte_at(buf, p + d.len(), 44);
        lemma_rt_tx(buf, p, ts[i]);
        let j = p + d.len();
        assert(buf[j] == 44);
        assert(p + items.len() == j + 1 + rest.len());
        lemma_rt_tx_items(buf, j + 1, ts, i + 1);
        assert(seq![ts[i]] + ts.skip(i + 1) =~= ts.skip(i));
    }
}

/// Parsing at a rendered transaction array recovers the views.
#[verifier::rlimit(100)]
#[verifier::spinoff_prover]
pub proof fn lemma_rt_tx_array(buf: Seq<u8>, p: int, ts: Seq<crate::transaction::TxView>)
    requires
        0 <= p,
        p + crate::codec::tx_list_json(ts).len() <= buf.len(),
        buf.subrange(p, p + crate::codec::tx_list_json(ts).len()) == crate::codec::tx_list_json(
            ts,
        ),
    ensures
        crate::parse::sp_tx_array(buf, p) == Option::Some(
            (ts, p + crate::codec::tx_list_json(ts).len()),
        ),
{
    let items = crate::codec::tx_items_from(ts, 0);
    let whole = crate::codec::tx_list_json(ts);
    assert(whole =~= seq![91u8] + (items + seq![93u8]));
    lemma_subrange_cat(buf, p, seq![91u8], items + seq![93u8]);
    lemma_subrange_cat(buf, p + 1, items, seq![93u8]);
    lemma_byte_at(buf, p, 91);
    lemma_byte_at(buf, p + 1 + items.len(), 93);
    if ts.len() == 0 {
        assert(items.len() == 0);
        assert(buf[p + 1] == 93);
        assert(ts =~= Seq::<crate::transaction::TxView>::empty());
    } else {
        let d = crate::codec::tx_json(ts[0]);
        lemma_tx_json_first(ts[0]);
        if ts.len() == 1 {
            assert(items == d);
        } else {
            assert(items == d + seq![44u8] + crate::codec::tx_items_from(ts, 1));
            assert(items[0] == d[0]);
        }
        assert(items[0] == d[0]);
        assert(buf[p + 1] == buf.subrange(p + 1, p + 1 + items.len())[0]);
        assert(buf[p + 1] == 123);
        lemma_rt_tx_items(buf, p + 1, ts, 0);
        assert(ts.skip(0) =~= ts);
    }
}

/// Parsing at a rendered block recovers its view.
#[verifier::rlimit(100)]
#[verifier::spinoff_prover]
pub proof fn lemma_rt_block(buf: Seq<u8>, p: int, b: crate::block::BlockView)
    requires
        0 <= p,
        p + crate::codec::block_json(b).len() <= buf.len(),
        buf.subrange(p, p + crate::codec::block_json(b).len()) == crate::codec::block_json(b),
    ensures
        crate::parse::sp_block(buf, p) == Option::Some(
            (b, p + crate::codec::block_json(b).len()),
        ),
{
    reveal(crate::codec::block_json);
    reveal(crate::parse::sp_block);
    let k1 = crate::codec::key_index_open();
    let n1 = dec_bytes(b.index as nat);
    let k2 = crate::codec::key_timestamp();
    let n2 = dec_bytes_signed(b.timestamp as int);
    let k3 = crate::codec::key_previous_hash();
    let s1 = json_string_bytes(b.previous_hash);
    let k4 = crate::codec::key_nonce();
    let n3 = dec_bytes(b.nonce as nat);
    let k5 = crate::codec::key_transactions();
    let ta = crate::codec::tx_list_json(b.transactions);
    let k6 = crate::codec::key_hash();
    let s2 = json_string_bytes(b.hash);
    let whole = crate::codec::block_json(b);
    let t1 = k1 + n1;
    let t2 = t1 + k2;
    let t3 = t2 + n2;
    let t4 = t3 + k3;
    let t5 = t4 + s1;
    let t6 = t5 + k4;
    let t7 = t6 + n3;
    let t8 = t7 + k5;
    let t9 = t8 + ta;
    let t10 = t9 + k6;
    let t11 = t10 + s2;
    assert(whole == t11 + seq![125u8]);
    lemma_subrange_cat(buf, p, t11, seq![125u8]);
    lemma_subrange_cat(buf, p, t10, s2);
    lemma_subrange_cat(buf, p, t9, k6);
    lemma_subrange_cat(buf, p, t8, ta);
    lemma_subrange_cat(buf, p, t7, k5);
    lemma_subrange_cat(buf, p, t6, n3);
    lemma_subrange_cat(buf, p, t5, k4);
    lemma_subrange_cat(buf, p, t4, s1);
    lemma_subrange_cat(buf, p, t3, k3);
    lemma_subrange_cat(buf, p, t2, n2);
    lemma_subrange_cat(buf, p, t1, k2);
    lemma_subrange_cat(buf, p, k1, n1);
    let q1 = p + k1.len();
    let q2 = q1 + n1.len();
    let q3 = q2 + k2.len();
    let q4 = q3 + n2.len();
    let q5 = q4 + k3.len();
    let q6 = q5 + s1.len();
    let q7 = q6 + k4.len();
    let q8 = q7 + n3.len();
    let q9 = q8 + k5.len();
    let q10 = q9 + ta.len();
    let q11 = q10 + k6.len();
    let q12 = q11 + s2.len();
    lemma_byte_at(buf, q12, 125);
    assert(crate::parse::sp_lit(buf, p, k1) == Option::Some(q1));
    assert(buf[q2] == buf.subrange(q2, q2 + k2.len())[0]);
    assert(buf[q2] == 44);
    lemma_rt_u64(buf, q1, b.index);
    assert(crate::parse::sp_lit(buf, q2, k2) == Option::Some(q3));
    assert(buf[q4] == buf.subrange(q4, q4 + k3.len())[0]);
    assert(buf[q4] == 44);
    lemma_rt_i64(buf, q3, b.timestamp);
    assert(crate::parse::sp_lit(buf, q4, k3) == Option::Some(q5));
    lemma_rt_string(buf, q5, b.previous_hash);
    assert(crate::parse::sp_lit(buf, q6, k4) == Option::Some(q7));
    assert(buf[q8] == buf.subrange(q8, q8 + k5.len())[0]);
    assert(buf[q8] == 44);
    lemma_rt_u64(buf, q7, b.nonce);
    assert(crate::parse::sp_lit(buf, q8, k5) == Option::Some(q9));
    lemma_rt_tx_array(buf, q9, b.transactions);
    assert(crate::parse::sp_lit(buf, q10, k6) == Option::Some(q11));
    lemma_rt_string(buf, q11, b.hash);
    assert(crate::block::BlockView {
        index: b.index,
        timestamp: b.timestamp,
        previous_hash: b.previous_hash,
        nonce: b.nonce,
        transactions: b.transactions,
        hash: b.hash,
    } == b);
}

/// Parsing at rendered block items recovers the remaining views.
#[verifier::rlimit(100)]
#[verifier::spinoff_prover]
pub proof fn lemma_rt_block_items(buf: Seq<u8>, p: int, bs: Seq<crate::block::BlockView>, i: int)
    requires
        0 <= i < bs.len(),
        0 <= p,
        p + crate::codec::block_items_from(bs, i).len() + 1 <= buf.len(),
        buf.subrange(p, p + crate::codec::block_items_from(bs, i).len())
            == crate::codec::block_items_from(bs, i),
        buf[p + crate::codec::block_items_from(bs, i).len()] == 93,
    ensures
        crate::parse::sp_block_items(buf, p) == Option::Some(
            (bs.skip(i), p + crate::codec::block_items_from(bs, i).len() + 1),
        ),
    decreases bs.len() - i,
{
    let items = crate::codec::block_items_from(bs, i);
    let d = crate::codec::block_json(bs[i]);
    lemma_block_json_first(bs[i]);
    if i == bs.len() - 1 {
        assert(items == d);
        lemma_rt_block(buf, p, bs[i]);
        assert(buf[p + d.len()] == 93);
        assert(seq![bs[i]] =~= bs.skip(i));
    } else {
        let rest = crate::codec::block_items_from(bs, i + 1);
        assert(items == (d + seq![44u8]) + rest);
        lemma_subrange_cat(buf, p, d + seq![44u8], rest);
        lemma_subrange_cat(buf, p, d, seq![44u8]);
        lemma_byte_at(buf, p + d.len(), 44);
        assert(buf.subrange(p + d.len() + 1, p + d.len() + 1 + rest.len()) == rest);
        lemma_rt_block(buf, p, bs[i]);
        let j = p + d.len();
        assert(buf[j] == 44);
        assert(p + items.len() == j + 1 + rest.len());
        lemma_rt_block_items(buf, j + 1, bs, i + 1);
        assert(seq![bs[i]] + bs.skip(i + 1) =~= bs.skip(i));
    }
}

/// Parsing at a rendered block array recovers the views.
#[verifier::rlimit(100)]
#[verifier::spinoff_prover]
pub proof fn lemma_rt_block_array(buf: Seq<u8>, p: int, bs: Seq<crate::block::BlockView>)
    requires
        0 <= p,
        p + crate::codec::block_list_json(bs).len() <= buf.len(),
        buf.subrange(p, p + crate::codec::block_list_json(bs).len())
            == crate::codec::block_list_json(bs),
    ensures
        crate::parse::sp_block_array(buf, p) == Option::Some(
            (bs, p + crate::codec::block_list_json(bs).len()),
        ),
{
    let items = crate::codec::block_items_from(bs, 0);
    let whole = crate::codec::block_list_json(bs);
    assert(whole == (seq![91u8] + items) + seq![93u8]);
    lemma_subrange_cat(buf, p, seq![91u8] + items, seq![93u8]);
    lemma_subrange_cat(buf, p, seq![91u8], items);
    lemma_byte_at(buf, p, 91);
    lemma_byte_at(buf, p + 1 + items.len(), 93);
    assert(buf.subrange(p + 1, p + 1 + items.len()) == items);
    if bs.len() == 0 {
        assert(items.len() == 0);
        assert(buf[p + 1] == 93);
        assert(bs =~= Seq::<crate::block::BlockView>::empty());
    } else {
        let d = crate::codec::block_json(bs[0]);
        lemma_block_json_first(bs[0]);
        if bs.len() == 1 {
            assert(items == d);
        } else {
            assert(items == d + seq![44u8] + crate::codec::block_items_from(bs, 1));
            assert(items[0] == d[0]);
        }
        assert(items[0] == d[0]);
        assert(buf[p + 1] == buf.subrange(p + 1, p + 1 + items.len())[0]);
        assert(buf[p + 1] == 123);
        lemma_rt_block_items(buf, p + 1, bs, 0);
        assert(bs.skip(0) =~= bs);
    }
}

/// The snapshot round trip: parsing a rendered snapshot document recovers
/// the chain, the pending queue and the difficulty exactly.
#[verifier::rlimit(100)]
#[verifier::spinoff_prover]
pub proof fn lemma_snapshot_round_trip(
    chain: Seq<crate::block::BlockView>,
    pending: Seq<crate::transaction::TxView>,
    difficulty: u32,
)
    ensures
        crate::parse::sp_snapshot(crate::codec::snapshot_json(chain, pending, difficulty))
            == Option::Some((chain, pending, difficulty)),
{
    let buf = crate::codec::snapshot_json(chain, pending, difficulty);
    let k1 = crate::codec::key_chain_open();
    let ba = crate::codec::block_list_json(chain);
    let k2 = crate::codec::key_pending();
    let ta = crate::codec::tx_list_json(pending);
    let k3 = crate::codec::key_difficulty();
    let n1 = dec_bytes(difficulty as nat);
    let t1 = k1 + ba;
    let t2 = t1 + k2;
    let t3 = t2 + ta;
    let t4 = t3 + k3;
    let t5 = t4 + n1;
    assert(buf == t5 + seq![125u8]);
    assert(buf.subrange(0, buf.len() as int) =~= buf);
    lemma_subrange_cat(buf, 0, t5, seq![125u8]);
    lemma_subrange_cat(buf, 0, t4, n1);
    lemma_subrange_cat(buf, 0, t3, k3);
    lemma_subrange_cat(buf, 0, t2, ta);
    lemma_subrange_cat(buf, 0, t1, k2);
    lemma_subrange_cat(buf, 0, k1, ba);
    let q1 = k1.len() as int;
    let q2 = q1 + ba.len();
    let q3 = q2 + k2.len();
    let q4 = q3 + ta.len();
    let q5 = q4 + k3.len();
    let q6 = q5 + n1.len();
    lemma_byte_at(buf, q6, 125);
    assert(crate::parse::sp_lit(buf, 0, k1) == Option::Some(q1));
    lemma_rt_block_array(buf, q1, chain);
    assert(crate::parse::sp_lit(buf, q2, k2) == Option::Some(q3));
    lemma_rt_tx_array(buf, q3, pending);
    assert(crate::parse::sp_lit(buf, q4, k3) == Option::Some(q5));
    lemma_rt_u64(buf, q5, difficulty as u64);
    assert(q6 + 1 == buf.len());
}

/// The chain-offer round trip: parsing a rendered chain message recovers
/// the chain exactly.
pub proof fn lemma_chain_msg_round_trip(chain: Seq<crate::block::BlockView>)
    ensures
        crate::parse::sp_chain_msg(crate::codec::chain_msg_json(chain)) == Option::Some(chain),
{
    let buf = crate::codec::chain_msg_json(chain);
    let k1 = crate::codec::key_chain_open();
    let ba = crate::codec::block_list_json(chain);
    assert(buf == (k1 + ba) + seq![125u8]);
    assert(buf.subrange(0, buf.len() as int) =~= buf);
    lemma_subrange_cat(buf, 0, k1 + ba, seq![125u8]);
    lemma_subrange_cat(buf, 0, k1, ba);
    let q1 = k1.len() as int;
    let q2 = q1 + ba.len();
    lemma_byte_at(buf, q2, 125);
    assert(crate::parse::sp_lit(buf, 0, k1) == Option::Some(q1));
    lemma_rt_block_array(buf, q1, chain);
    assert(q2 + 1 == buf.len());
}

/// The block-offer round trip: parsing a rendered block message recovers
/// the block exactly.
pub proof fn lemma_new_block_msg_round_trip(b: crate::block::BlockView)
    ensures
        crate::parse::sp_new_block_msg(crate::codec::new_block_msg_json(b)) == Option::Some(b),
{
    let buf = crate::codec::new_block_msg_json(b);
    let k1 = crate::codec::key_new_block_open();
    let bj = crate::codec::block_json(b);
    assert(buf == (k1 + bj) + seq![125u8]);
    assert(buf.subrange(0, buf.len() as int) =~= buf);
    lemma_subrange_cat(buf, 0, k1 + bj, seq![125u8]);
    lemma_subrange_cat(buf, 0, k1, bj);
    let q1 = k1.len() as int;
    let q2 = q1 + bj.len();
    lemma_byte_at(buf, q2, 125);
    assert(crate::parse::sp_lit(buf, 0, k1) == Option::Some(q1));
    lemma_rt_block(buf, q1, b);
    assert(q2 + 1 == buf.len());
}

/// The persistence round trip over a whole chain state: what the snapshot
/// renderer writes, the snapshot parser reads back unchanged.
pub proof fn lemma_save_load(bc: &crate::blockchain::Blockchain)
    ensures
        crate::parse::sp_snapshot(
            crate::codec::snapshot_json(bc.chain_view(), bc.pending_view(), bc.difficulty),
        ) == Option::Some((bc.chain_view(), bc.pending_view(), bc.difficulty)),
{
    lemma_snapshot_round_trip(bc.chain_view(), bc.pending_view(), bc.difficulty);
}

} // verus!
