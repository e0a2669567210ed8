//! Hexadecimal form of byte strings. The archive layout and the disk cache
//! are both addressed by the lowercase hexadecimal form of a content hash, so
//! the exact digit-for-digit shape of that form is pinned down here.

use vstd::prelude::*;
use vstd::utf8::is_ascii_chars;

verus! {

/// The lowercase hexadecimal digit for a nibble value (values above 15 do not
/// arise: every nibble is a shifted or masked byte).
pub open spec fn hex_digit_lower(n: u8) -> char {
    if n == 0 {
        '0'
    } else if n == 1 {
        '1'
    } else if n == 2 {
        '2'
    } else if n == 3 {
        '3'
    } else if n == 4 {
        '4'
    } else if n == 5 {
        '5'
    } else if n == 6 {
        '6'
    } else if n == 7 {
        '7'
    } else if n == 8 {
        '8'
    } else if n == 9 {
        '9'
    } else if n == 10 {
        'a'
    } else if n == 11 {
        'b'
    } else if n == 12 {
        'c'
    } else if n == 13 {
        'd'
    } else if n == 14 {
        'e'
    } else {
        'f'
    }
}

/// The uppercase hexadecimal digit for a nibble value.
pub open spec fn hex_digit_upper(n: u8) -> char {
    if n == 0 {
        '0'
    } else if n == 1 {
        '1'
    } else if n == 2 {
        '2'
    } else if n == 3 {
        '3'
    } else if n == 4 {
        '4'
    } else if n == 5 {
        '5'
    } else if n == 6 {
        '6'
    } else if n == 7 {
        '7'
    } else if n == 8 {
        '8'
    } else if n == 9 {
        '9'
    } else if n == 10 {
        'A'
    } else if n == 11 {
        'B'
    } else if n == 12 {
        'C'
    } else if n == 13 {
        'D'
    } else if n == 14 {
        'E'
    } else {
        'F'
    }
}

/// Lowercase hexadecimal form of a byte string: two digits per byte, high
/// nibble first.
pub open spec fn hex_lower(data: Seq<u8>) -> Seq<char>
    decreases data.len(),
{
    if data.len() == 0 {
        seq![]
    } else {
        seq![
            hex_digit_lower(data.first() >> 4u8),
            hex_digit_lower(data.first() & 0x0fu8),
        ] + hex_lower(data.drop_first())
    }
}

/// Uppercase hexadecimal form of a byte string.
pub open spec fn hex_upper(data: Seq<u8>) -> Seq<char>
    decreases data.len(),
{
    if data.len() == 0 {
        seq![]
    } else {
        seq![
            hex_digit_upper(data.first() >> 4u8),
            hex_digit_upper(data.first() & 0x0fu8),
        ] + hex_upper(data.drop_first())
    }
}

pub proof fn lemma_hex_lower_len(data: Seq<u8>)
    ensures
        hex_lower(data).len() == 2 * data.len(),
    decreases data.len(),
{
    if data.len() > 0 {
        lemma_hex_lower_len(data.drop_first());
    }
}

/// Every hexadecimal digit is an ASCII character, so the hexadecimal form of
/// any byte string is an ASCII string.
pub proof fn lemma_hex_lower_ascii(data: Seq<u8>)
    ensures
        is_ascii_chars(hex_lower(data)),
    decreases data.len(),
{
    if data.len() > 0 {
        lemma_hex_lower_ascii(data.drop_first());
        lemma_hex_lower_len(data.drop_first());
        let enc = hex_lower(data);
        assert forall|i: int| 0 <= i < enc.len() implies '\0' <= #[trigger] enc[i]
            <= '\u{7f}' by {
            if i >= 2 {
                assert(enc[i] == hex_lower(data.drop_first())[i - 2]);
            }
        }
    }
}

/// Relies on hex::encode: the lowercase hexadecimal form of the bytes, two
/// digits per byte, high nibble first.
#[verifier::external_body]
pub(crate) fn hex_encode(data: &[u8]) -> (r: String)
    ensures
        r@ == hex_lower(data@),
{
    hex::encode(data)
}

/// Relies on hex::encode_upper: the uppercase hexadecimal form of the bytes,
/// two digits per byte, high nibble first.
#[verifier::external_body]
pub(crate) fn hex_encode_upper(data: &[u8]) -> (r: String)
    ensures
        r@ == hex_upper(data@),
{
    hex::encode_upper(data)
}

} // verus!
