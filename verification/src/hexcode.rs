//! Lowercase hex encoding and permissive hex decoding of byte strings, with
//! exact specifications and the round-trip law relating them.

use vstd::prelude::*;

verus! {

/// The lowercase hex character for a value below 16.
pub open spec fn hex_char_of(n: u8) -> char {
    if n == 0 {
        '0'
    } else if n == 1 {
        '1'
    } else if n == 2 {
        '2'
    } else if n == 3 {
        '3'
    } else if n == 4 {
        '4'
    } else if n == 5 {
        '5'
    } else if n == 6 {
        '6'
    } else if n == 7 {
        '7'
    } else if n == 8 {
        '8'
    } else if n == 9 {
        '9'
    } else if n == 10 {
        'a'
    } else if n == 11 {
        'b'
    } else if n == 12 {
        'c'
    } else if n == 13 {
        'd'
    } else if n == 14 {
        'e'
    } else {
        'f'
    }
}

/// Lowercase hex rendering of a byte string: two characters per byte,
/// high nibble first.
pub open spec fn hex_encode(bytes: Seq<u8>) -> Seq<char> {
    Seq::new(
        bytes.len() * 2,
        |i: int| if i % 2 == 0 {
            hex_char_of(bytes[i / 2] / 16)
        } else {
            hex_char_of(bytes[i / 2] % 16)
        },
    )
}

/// A character accepted by the hex decoder: a digit, or a letter of either
/// case between `a` and `f`.
pub open spec fn is_hex_char(c: char) -> bool {
    ||| (48 <= c as u32 && c as u32 <= 57)
    ||| (65 <= c as u32 && c as u32 <= 70)
    ||| (97 <= c as u32 && c as u32 <= 102)
}

/// The value of one hex character.
pub open spec fn hex_val_of(c: char) -> u8 {
    if 48 <= c as u32 && c as u32 <= 57 {
        (c as u32 - 48) as u8
    } else if 65 <= c as u32 && c as u32 <= 70 {
        (c as u32 - 65 + 10) as u8
    } else {
        (c as u32 - 97 + 10) as u8
    }
}

/// Whether a character string is accepted by the hex decoder: an even number
/// of characters, every one a hex digit.
pub open spec fn hex_ok(s: Seq<char>) -> bool {
    &&& s.len() % 2 == 0
    &&& forall|i: int| 0 <= i < s.len() ==> is_hex_char(s[i])
}

/// The bytes denoted by a hex character string: one byte per character pair.
pub open spec fn hex_decode(s: Seq<char>) -> Seq<u8> {
    Seq::new(s.len() / 2, |i: int| (hex_val_of(s[2 * i]) * 16 + hex_val_of(s[2 * i + 1])) as u8)
}

/// An encoded byte string is accepted by the decoder, and all its characters
/// are lowercase hex digits.
pub proof fn lemma_hex_encode_ok(bytes: Seq<u8>)
    ensures
        hex_ok(hex_encode(bytes)),
        hex_encode(bytes).len() == bytes.len() * 2,
{
    assert forall|i: int| 0 <= i < hex_encode(bytes).len() implies is_hex_char(
        hex_encode(bytes)[i],
    ) by {
        let b = bytes[i / 2];
        assert(b / 16 < 16 && b % 16 < 16);
    }
}

/// Decoding inverts encoding: `hex_decode(hex_encode(b)) == b`.
pub proof fn lemma_hex_round_trip(bytes: Seq<u8>)
    ensures
        hex_decode(hex_encode(bytes)) =~= bytes,
{
    let enc = hex_encode(bytes);
    assert forall|i: int| 0 <= i < bytes.len() implies hex_decode(enc)[i] == bytes[i] by {
        let b = bytes[i];
        assert(enc[2 * i] == hex_char_of(b / 16));
        assert(enc[2 * i + 1] == hex_char_of(b % 16));
        assert(b / 16 < 16 && b % 16 < 16);
        assert(hex_val_of(hex_char_of(b / 16)) == b / 16);
        assert(hex_val_of(hex_char_of(b % 16)) == b % 16);
        assert((b / 16) * 16 + b % 16 == b) by {
            vstd::arithmetic::div_mod::lemma_fundamental_div_mod(b as int, 16);
        }
    }
}

/// Relies on `hex::encode`: two lowercase hex characters per input byte, high
/// nibble first.
#[verifier::external_body]
pub(crate) fn hex_encode_bytes(data: &[u8]) -> (r: String)
    ensures
        r@ == hex_encode(data@),
{
    hex::encode(data)
}

/// Relies on `hex::decode`: accepts exactly the strings with an even number
/// of characters, all hex digits of either case, and returns the denoted
/// bytes; every failure is collapsed to `None`.
#[verifier::external_body]
pub(crate) fn hex_decode_string(s: &str) -> (r: Option<Vec<u8>>)
    ensures
        r is Some <==> hex_ok(s@),
        r is Some ==> r.unwrap()@ == hex_decode(s@),
{
    match hex::decode(s) {
        Ok(v) => Some(v),
        Err(_) => None,
    }
}

} // verus!
