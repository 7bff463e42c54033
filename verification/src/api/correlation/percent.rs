//! Percent-encoding of the names and values of the correlation wire format.
use crate::api::text::{append_chars, chars_of, string_from_chars};
use vstd::prelude::*;
use vstd::utf8::{decode_utf8, encode_utf8, valid_utf8};

verus! {

/// Whether the wire format escapes the byte `b`: the control characters, the
/// space, the double quote, the delimiters `;` and `,`, and every byte
/// outside ASCII. The equals sign stands for itself.
pub open spec fn must_escape(b: u8) -> bool {
    b <= 0x20 || b >= 0x7f || b == 0x22 || b == 0x2c || b == 0x3b
}

/// The sixteen hexadecimal digits, upper case.
pub open spec fn hex_digits() -> Seq<char> {
    seq!['0', '1', '2', '3', '4', '5', '6', '7', '8', '9', 'A', 'B', 'C', 'D', 'E', 'F']
}

/// The escape of `b`: a percent sign and the two hexadecimal digits of `b`.
pub open spec fn escaped_byte(b: u8) -> Seq<char> {
    seq!['%', hex_digits()[b as int / 16], hex_digits()[b as int % 16]]
}

/// What the byte `b` becomes on the wire.
pub open spec fn encoded_byte(b: u8) -> Seq<char> {
    if must_escape(b) {
        escaped_byte(b)
    } else {
        seq![b as char]
    }
}

/// The percent-encoding of a byte sequence.
pub open spec fn percent_encoded_bytes(bytes: Seq<u8>) -> Seq<char>
    decreases bytes.len(),
{
    if bytes.len() == 0 {
        Seq::empty()
    } else {
        encoded_byte(bytes[0]) + percent_encoded_bytes(bytes.drop_first())
    }
}

/// The percent-encoding of the UTF-8 form of `text`.
pub open spec fn percent_encoded(text: Seq<char>) -> Seq<char> {
    percent_encoded_bytes(encode_utf8(text))
}

/// The value of the hexadecimal digit `b`, in either case.
pub open spec fn hex_value(b: u8) -> Option<int> {
    if 0x30 <= b <= 0x39 {
        Some(b - 0x30)
    } else if 0x41 <= b <= 0x46 {
        Some(b - 0x41 + 10)
    } else if 0x61 <= b <= 0x66 {
        Some(b - 0x61 + 10)
    } else {
        None
    }
}

/// Whether `bytes` starts with a percent sign and two hexadecimal digits.
pub open spec fn starts_with_escape(bytes: Seq<u8>) -> bool {
    bytes.len() >= 3 && bytes[0] == 0x25 && hex_value(bytes[1]) is Some && hex_value(
        bytes[2],
    ) is Some
}

/// The bytes that `bytes` stands for: each percent sign that two hexadecimal
/// digits follow is replaced, with them, by the byte they denote; every other
/// byte stands for itself.
pub open spec fn percent_decoded(bytes: Seq<u8>) -> Seq<u8>
    decreases bytes.len(),
{
    if bytes.len() == 0 {
        Seq::empty()
    } else if starts_with_escape(bytes) {
        seq![(hex_value(bytes[1])->0 * 16 + hex_value(bytes[2])->0) as u8] + percent_decoded(
            bytes.skip(3),
        )
    } else {
        seq![bytes[0]] + percent_decoded(bytes.drop_first())
    }
}

/// The text that `segment` stands for: its UTF-8 form percent-decoded and
/// read as UTF-8 again, or `None` where the decoded bytes are not UTF-8.
pub open spec fn percent_decoded_text(segment: Seq<char>) -> Option<Seq<char>> {
    let bytes = percent_decoded(encode_utf8(segment));
    if valid_utf8(bytes) {
        Some(decode_utf8(bytes))
    } else {
        None
    }
}

/// Calls `percent_encoding::percent_encode_byte`, which looks `b` up in a
/// table of the 256 escapes `%00` to `%FF`.
#[verifier::external_body]
pub(crate) fn escape_byte(b: u8) -> (r: &'static str)
    ensures
        r@ == escaped_byte(b),
{
    percent_encoding::percent_encode_byte(b)
}

/// Calls `percent_encoding::percent_decode_str` on the characters of
/// `segment` and `decode_utf8` on what it gives: every `%` followed by two
/// hexadecimal digits is decoded, and the bytes are then read as UTF-8, which
/// fails where they are not well formed.
#[verifier::external_body]
pub(crate) fn percent_decode(segment: &[char]) -> (r: Option<Vec<char>>)
    ensures
        r is Some <==> percent_decoded_text(segment@) is Some,
        r matches Some(text) ==> percent_decoded_text(segment@) == Some(text@),
{
    let s: String = segment.iter().collect();
    percent_encoding::percent_decode_str(&s).decode_utf8().ok().map(|t| t.chars().collect())
}

/// Decides `must_escape`.
pub fn is_escaped(b: u8) -> (r: bool)
    ensures
        r == must_escape(b),
{
    b <= 0x20 || b >= 0x7f || b == 0x22 || b == 0x2c || b == 0x3b
}

/// Percent-encodes the UTF-8 form of `text`.
pub fn percent_encode(text: &[char]) -> (out: Vec<char>)
    ensures
        out@ == percent_encoded(text@),
{
    let owned = string_from_chars(text);
    let bytes = owned.as_str().as_bytes();
    let mut out: Vec<char> = Vec::new();
    let mut i: usize = 0;
    assert(bytes@.skip(0) =~= bytes@);
    while i < bytes.len()
        invariant
            i <= bytes.len(),
            bytes@ == encode_utf8(text@),
            percent_encoded(text@) == out@ + percent_encoded_bytes(bytes@.skip(i as int)),
        decreases bytes.len() - i,
    {
        let b = bytes[i];
        proof {
            assert(bytes@.skip(i as int).drop_first() == bytes@.skip(i + 1));
        }
        if is_escaped(b) {
            let escape = chars_of(escape_byte(b));
            append_chars(&mut out, escape.as_slice());
        } else {
            out.push(b as char);
        }
        assert(percent_encoded(text@) =~= out@ + percent_encoded_bytes(bytes@.skip(i + 1)));
        i += 1;
    }
    out
}

} // verus!
