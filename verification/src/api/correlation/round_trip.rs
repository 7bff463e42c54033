//! Decoding undoes encoding: what the wire format does to names and values
//! that it can carry unchanged.
use crate::api::context::propagation::text_propagator::TextMapFormat;
use crate::api::context::propagation::{field_ignoring_case, reading, setting, Injector};
use crate::api::context::{correlations_of, ContextView};
use crate::api::correlation::percent::{
    encoded_byte, escaped_byte, hex_digits, hex_value, must_escape, percent_decoded,
    percent_decoded_text, percent_encoded, percent_encoded_bytes, starts_with_escape,
};
use crate::api::correlation::propagation::{
    decoded_entries, decoded_entry, decoded_header, decoded_pair, encoded_entries, encoded_entry,
    encoded_header, extracted_context, header_name, property_suffix,
    CorrelationContextPropagator,
};
use crate::api::correlation::{lemma_key_index_is, unique_keys, with_entries, with_entry, Entry};
use crate::api::text::{is_trimmed, joined, lemma_position_is, split_on, trimmed};
use crate::api::value::{value_text, ValueView};
use std::collections::HashMap;
use vstd::prelude::*;
use vstd::utf8::{
    char_is_scalar, char_u32_cast, encode_scalar, encode_utf8, encode_utf8_decode_utf8,
    encode_utf8_valid_utf8, is_ascii_chars, is_ascii_chars_encode_utf8,
};

verus! {

/// Whether `bytes` hold, somewhere, a percent sign followed by two
/// hexadecimal digits: text that decoding would take for an escape.
pub open spec fn has_escape(bytes: Seq<u8>) -> bool {
    exists|i: int| 0 <= i < bytes.len() && #[trigger] starts_with_escape(bytes.skip(i))
}

/// The characters of `s` as bytes, one for one.
pub open spec fn as_bytes(s: Seq<char>) -> Seq<u8> {
    Seq::new(s.len(), |i: int| s[i] as u8)
}

/// Whether `c` is one of the delimiters that the wire format escapes.
pub open spec fn is_delimiter(c: char) -> bool {
    c == ',' || c == ';'
}

/// Whether `text` holds no equals sign.
pub open spec fn holds_no_equals(text: Seq<char>) -> bool {
    forall|i: int| 0 <= i < text.len() ==> text[i] != '='
}

/// The escape of a byte is a percent sign and two hexadecimal digits that
/// denote the byte.
proof fn lemma_escaped_byte(b: u8)
    ensures
        escaped_byte(b).len() == 3,
        escaped_byte(b)[0] == '%',
        hex_value(escaped_byte(b)[1] as u8) == Some(b as int / 16),
        hex_value(escaped_byte(b)[2] as u8) == Some(b as int % 16),
        is_ascii_chars(escaped_byte(b)),
        forall|i: int| 0 <= i < 3 ==> !is_delimiter(#[trigger] escaped_byte(b)[i]),
{
    let digits = hex_digits();
    assert forall|n: int| 0 <= n < 16 implies hex_value(#[trigger] digits[n] as u8) == Some(n)
        && !is_delimiter(digits[n]) && '\0' <= digits[n] <= '\u{7f}' by {
        if n == 0 {
        } else if n == 1 {
        } else if n == 2 {
        } else if n == 3 {
        } else if n == 4 {
        } else if n == 5 {
        } else if n == 6 {
        } else if n == 7 {
        } else if n == 8 {
        } else if n == 9 {
        } else if n == 10 {
        } else if n == 11 {
        } else if n == 12 {
        } else if n == 13 {
        } else if n == 14 {
        } else {
        }
    }
    let high = b as int / 16;
    let low = b as int % 16;
    assert(0 <= high < 16 && 0 <= low < 16);
    assert(escaped_byte(b)[1] == digits[high]);
    assert(escaped_byte(b)[2] == digits[low]);
}

/// What a byte becomes on the wire is ASCII and holds no delimiter.
proof fn lemma_encoded_byte(b: u8)
    ensures
        is_ascii_chars(encoded_byte(b)),
        forall|i: int|
            0 <= i < encoded_byte(b).len() ==> !is_delimiter(#[trigger] encoded_byte(b)[i]),
{
    lemma_escaped_byte(b);
    if !must_escape(b) {
        assert(encoded_byte(b)[0] == b as char);
        assert(b != 0x2c && b != 0x3b);
        assert((b as char) as u8 == b);
    }
}

/// The percent-encoding of any bytes is ASCII and holds no delimiter.
pub proof fn lemma_encoded_holds_no_delimiter(bytes: Seq<u8>)
    ensures
        is_ascii_chars(percent_encoded_bytes(bytes)),
        forall|i: int|
            0 <= i < percent_encoded_bytes(bytes).len() ==> !is_delimiter(
                #[trigger] percent_encoded_bytes(bytes)[i],
            ),
    decreases bytes.len(),
{
    if bytes.len() > 0 {
        lemma_encoded_byte(bytes[0]);
        lemma_encoded_holds_no_delimiter(bytes.drop_first());
        let head = encoded_byte(bytes[0]);
        let tail = percent_encoded_bytes(bytes.drop_first());
        let all = percent_encoded_bytes(bytes);
        assert(all == head + tail);
        assert forall|i: int| 0 <= i < all.len() implies !is_delimiter(#[trigger] all[i])
            && '\0' <= all[i] <= '\u{7f}' by {
            if i < head.len() {
                assert(all[i] == head[i]);
            } else {
                assert(all[i] == tail[i - head.len()]);
            }
        }
    }
}

/// No byte of the UTF-8 form of a character other than the equals sign is
/// the byte of the equals sign.
proof fn lemma_scalar_holds_no_equals(v: u32)
    by (bit_vector)
    requires
        v != 0x3d,
        v <= 0x10ffff,
    ensures
        v <= 0x7f ==> (v & 0x7f) as u8 != 0x3d,
        (0xC0 | ((v >> 6) & 0x1F) as u8) != 0x3d,
        (0xE0 | ((v >> 12) & 0x0F) as u8) != 0x3d,
        (0xF0 | ((v >> 18) & 0x7) as u8) != 0x3d,
        (0x80 | (v & 0x3F) as u8) != 0x3d,
        (0x80 | ((v >> 6) & 0x3F) as u8) != 0x3d,
        (0x80 | ((v >> 12) & 0x3F) as u8) != 0x3d,
{
}

/// The UTF-8 form of a text without an equals sign holds no byte of one.
proof fn lemma_bytes_hold_no_equals(text: Seq<char>)
    requires
        holds_no_equals(text),
    ensures
        forall|j: int| 0 <= j < encode_utf8(text).len() ==> encode_utf8(text)[j] != 0x3d,
    decreases text.len(),
{
    if text.len() > 0 {
        let rest = text.drop_first();
        assert forall|i: int| 0 <= i < rest.len() implies rest[i] != '=' by {
            assert(rest[i] == text[i + 1]);
        }
        lemma_bytes_hold_no_equals(rest);
        let c = text[0];
        let v = c as u32;
        assert(c != '=');
        assert('=' as u32 == 0x3d);
        char_is_scalar(c);
        char_u32_cast(c, v);
        char_u32_cast('=', 0x3d);
        lemma_scalar_holds_no_equals(v);
        let head = encode_scalar(v);
        let tail = encode_utf8(rest);
        assert(encode_utf8(text) == head + tail);
        assert forall|j: int| 0 <= j < encode_utf8(text).len() implies encode_utf8(text)[j]
            != 0x3d by {
            if j < head.len() {
                assert(encode_utf8(text)[j] == head[j]);
            } else {
                assert(encode_utf8(text)[j] == tail[j - head.len()]);
            }
        }
    }
}

/// The percent-encoding of bytes without an equals sign holds none.
proof fn lemma_encoded_holds_no_equals(bytes: Seq<u8>)
    requires
        forall|i: int| 0 <= i < bytes.len() ==> bytes[i] != 0x3d,
    ensures
        forall|j: int|
            0 <= j < percent_encoded_bytes(bytes).len() ==> percent_encoded_bytes(bytes)[j] != '=',
    decreases bytes.len(),
{
    if bytes.len() > 0 {
        let b = bytes[0];
        let rest = bytes.drop_first();
        assert forall|i: int| 0 <= i < rest.len() implies rest[i] != 0x3d by {
            assert(rest[i] == bytes[i + 1]);
        }
        lemma_encoded_holds_no_equals(rest);
        lemma_escaped_byte(b);
        let head = encoded_byte(b);
        let tail = percent_encoded_bytes(rest);
        let all = percent_encoded_bytes(bytes);
        assert(all == head + tail);
        assert forall|i: int| 0 <= i < head.len() implies head[i] != '=' by {
            if must_escape(b) {
                assert(hex_value('=' as u8) is None);
            } else {
                assert(head[0] == b as char);
                assert((b as char) as u8 == b);
            }
        }
        assert forall|j: int| 0 <= j < all.len() implies all[j] != '=' by {
            if j < head.len() {
                assert(all[j] == head[j]);
            } else {
                assert(all[j] == tail[j - head.len()]);
            }
        }
    }
}

/// The bytes of two texts, one after the other, are the bytes of the one
/// followed by those of the other.
proof fn lemma_as_bytes_of_both(first: Seq<char>, second: Seq<char>)
    ensures
        as_bytes(first + second) == as_bytes(first) + as_bytes(second),
{
    assert(as_bytes(first + second) =~= as_bytes(first) + as_bytes(second));
}

/// An encoding that starts with a hexadecimal digit starts with a byte that
/// stands for itself.
proof fn lemma_encoded_starts_with_digit(bytes: Seq<u8>)
    requires
        percent_encoded_bytes(bytes).len() > 0,
        hex_value(percent_encoded_bytes(bytes)[0] as u8) is Some,
    ensures
        bytes.len() > 0,
        percent_encoded_bytes(bytes)[0] as u8 == bytes[0],
        percent_encoded_bytes(bytes) == seq![bytes[0] as char] + percent_encoded_bytes(
            bytes.drop_first(),
        ),
{
    assert(bytes.len() > 0);
    let b = bytes[0];
    if must_escape(b) {
        lemma_escaped_byte(b);
        assert(percent_encoded_bytes(bytes)[0] == escaped_byte(b)[0]);
    } else {
        assert(percent_encoded_bytes(bytes)[0] == encoded_byte(b)[0]);
        assert((b as char) as u8 == b);
    }
}

/// What follows the first byte holds no escape where the whole holds none.
proof fn lemma_rest_has_no_escape(bytes: Seq<u8>)
    requires
        bytes.len() > 0,
        !has_escape(bytes),
    ensures
        !has_escape(bytes.drop_first()),
{
    let rest = bytes.drop_first();
    if has_escape(rest) {
        let i = choose|i: int| 0 <= i < rest.len() && #[trigger] starts_with_escape(rest.skip(i));
        assert(rest.skip(i) =~= bytes.skip(i + 1));
        assert(starts_with_escape(bytes.skip(i + 1)));
    }
}

/// Percent-decoding undoes percent-encoding for bytes that hold no escape.
pub proof fn lemma_decoding_undoes_encoding(bytes: Seq<u8>)
    requires
        !has_escape(bytes),
    ensures
        percent_decoded(as_bytes(percent_encoded_bytes(bytes))) == bytes,
    decreases bytes.len(),
{
    if bytes.len() == 0 {
        assert(as_bytes(percent_encoded_bytes(bytes)) =~= Seq::<u8>::empty());
    } else {
        let b = bytes[0];
        let rest = bytes.drop_first();
        lemma_rest_has_no_escape(bytes);
        lemma_decoding_undoes_encoding(rest);
        let wire = as_bytes(percent_encoded_bytes(bytes));
        let wire_rest = as_bytes(percent_encoded_bytes(rest));
        lemma_as_bytes_of_both(encoded_byte(b), percent_encoded_bytes(rest));
        assert(wire == as_bytes(encoded_byte(b)) + wire_rest);
        if must_escape(b) {
            lemma_escaped_byte(b);
            assert(wire[0] == 0x25);
            assert(wire[1] == escaped_byte(b)[1] as u8);
            assert(wire[2] == escaped_byte(b)[2] as u8);
            assert(starts_with_escape(wire));
            assert(wire.skip(3) =~= wire_rest);
            assert((b as int / 16) * 16 + b as int % 16 == b as int);
            assert(percent_decoded(wire) =~= seq![b] + percent_decoded(wire_rest));
            assert(seq![b] + rest =~= bytes);
        } else {
            assert((b as char) as u8 == b);
            assert(as_bytes(encoded_byte(b)) =~= seq![b]);
            assert(wire[0] == b);
            assert(wire.drop_first() =~= wire_rest);
            if starts_with_escape(wire) {
                assert(b == 0x25);
                let coded = percent_encoded_bytes(rest);
                assert(wire[1] == coded[0] as u8);
                assert(wire[2] == coded[1] as u8);
                lemma_encoded_starts_with_digit(rest);
                let tail = rest.drop_first();
                let coded_tail = percent_encoded_bytes(tail);
                assert(coded[1] == coded_tail[0]);
                lemma_encoded_starts_with_digit(tail);
                assert(bytes[1] == wire[1] && bytes[2] == wire[2]);
                assert(bytes.skip(0) =~= bytes);
                assert(starts_with_escape(bytes.skip(0)));
            }
            assert(percent_decoded(wire) =~= seq![b] + percent_decoded(wire_rest));
            assert(seq![b] + rest =~= bytes);
        }
    }
}

/// A text whose bytes hold no escape comes back from the wire as it went.
pub proof fn lemma_text_comes_back(text: Seq<char>)
    requires
        !has_escape(encode_utf8(text)),
    ensures
        percent_decoded_text(percent_encoded(text)) == Some(text),
{
    let bytes = encode_utf8(text);
    let wire = percent_encoded(text);
    lemma_encoded_holds_no_delimiter(bytes);
    is_ascii_chars_encode_utf8(wire);
    assert(encode_utf8(wire) =~= as_bytes(wire));
    lemma_decoding_undoes_encoding(bytes);
    encode_utf8_valid_utf8(text);
    encode_utf8_decode_utf8(text);
}

/// Joined texts start with the first of them.
proof fn lemma_joined_from_the_front(parts: Seq<Seq<char>>, sep: char)
    requires
        parts.len() >= 2,
    ensures
        joined(parts, sep) == parts[0] + seq![sep] + joined(parts.drop_first(), sep),
    decreases parts.len(),
{
    let rest = parts.drop_first();
    if parts.len() == 2 {
        assert(parts.drop_last().len() == 1);
        assert(joined(parts.drop_last(), sep) == parts[0]);
        assert(joined(rest, sep) == parts[1]);
    } else {
        let init = parts.drop_last();
        lemma_joined_from_the_front(init, sep);
        assert(init.drop_first() =~= rest.drop_last());
        assert(rest.last() == parts.last());
        assert(joined(parts, sep) =~= parts[0] + seq![sep] + joined(rest, sep));
    }
}

/// Splitting what was joined gives the texts back, where none of them holds
/// the separator.
pub proof fn lemma_split_of_joined(parts: Seq<Seq<char>>, sep: char)
    requires
        parts.len() >= 1,
        forall|i: int, k: int|
            0 <= i < parts.len() && 0 <= k < parts[i].len() ==> #[trigger] parts[i][k] != sep,
    ensures
        split_on(joined(parts, sep), sep) == parts,
    decreases parts.len(),
{
    let whole = joined(parts, sep);
    let head = parts[0];
    if parts.len() == 1 {
        lemma_position_is(whole, sep, whole.len() as int);
        assert(split_on(whole, sep) =~= parts);
    } else {
        let rest = parts.drop_first();
        lemma_joined_from_the_front(parts, sep);
        assert forall|k: int| 0 <= k < head.len() implies whole[k] != sep by {
            assert(whole[k] == parts[0][k]);
        }
        assert(whole[head.len() as int] == sep);
        lemma_position_is(whole, sep, head.len() as int);
        assert(whole.take(head.len() as int) =~= head);
        assert(whole.skip(head.len() as int + 1) =~= joined(rest, sep));
        assert forall|i: int, k: int|
            0 <= i < rest.len() && 0 <= k < rest[i].len() implies #[trigger] rest[i][k] != sep by {
            assert(rest[i][k] == parts[i + 1][k]);
        }
        lemma_split_of_joined(rest, sep);
        assert(seq![head] + rest =~= parts);
    }
}

/// Whether the wire format carries `text` unchanged: it neither starts nor
/// ends with whitespace, which encoding trims, and holds no percent sign
/// followed by two hexadecimal digits, which decoding takes for an escape.
pub open spec fn comes_through(text: Seq<char>) -> bool {
    is_trimmed(text) && !has_escape(encode_utf8(text))
}

/// Whether the wire format carries the name of the entry and the text of
/// its value unchanged. A name must hold no equals sign either: the first
/// one on the wire ends the name.
pub open spec fn text_comes_through(entry: Entry) -> bool {
    comes_through(entry.0) && holds_no_equals(entry.0) && comes_through(value_text(entry.1))
}

/// Whether the wire format carries the entry unchanged: its value is a text,
/// and name and value come through.
pub open spec fn entry_comes_through(entry: Entry) -> bool {
    entry.1 is String && text_comes_through(entry)
}

/// The entry with the text of its value in place of the value: what the
/// wire format can give back of it.
pub open spec fn as_text(entry: Entry) -> Entry {
    (entry.0, ValueView::String(value_text(entry.1)))
}

/// The entries, each with the text of its value in place of the value.
pub open spec fn as_texts(entries: Seq<Entry>) -> Seq<Entry> {
    entries.map_values(|entry: Entry| as_text(entry))
}

/// An entry whose texts come through decodes to its name and the text of
/// its value, and holds no comma on the wire.
pub proof fn lemma_entry_comes_back(entry: Entry)
    requires
        text_comes_through(entry),
    ensures
        decoded_pair(encoded_entry(entry)) == Some(as_text(entry)),
        forall|k: int|
            0 <= k < encoded_entry(entry).len() ==> #[trigger] encoded_entry(entry)[k] != ',',
{
    let name = entry.0;
    let text = value_text(entry.1);
    assert(trimmed(name) == name);
    assert(trimmed(text) == text);
    let coded_name = percent_encoded(name);
    let coded_text = percent_encoded(text);
    let wire = encoded_entry(entry);
    assert(wire == coded_name + seq!['='] + coded_text);
    lemma_encoded_holds_no_delimiter(encode_utf8(name));
    lemma_encoded_holds_no_delimiter(encode_utf8(text));
    assert forall|k: int| 0 <= k < wire.len() implies #[trigger] wire[k] != ',' && wire[k]
        != ';' by {
        if k < coded_name.len() {
            assert(wire[k] == coded_name[k]);
            assert(!is_delimiter(coded_name[k]));
        } else if k > coded_name.len() {
            assert(wire[k] == coded_text[k - coded_name.len() - 1]);
            assert(!is_delimiter(coded_text[k - coded_name.len() - 1]));
        }
    }
    lemma_position_is(wire, ';', wire.len() as int);
    let pieces = split_on(wire, ';');
    assert(pieces =~= seq![wire]);
    lemma_bytes_hold_no_equals(name);
    lemma_encoded_holds_no_equals(encode_utf8(name));
    assert forall|k: int| 0 <= k < coded_name.len() implies wire[k] != '=' by {
        assert(wire[k] == coded_name[k]);
    }
    lemma_position_is(wire, '=', coded_name.len() as int);
    assert(wire.take(coded_name.len() as int) =~= coded_name);
    assert(wire.skip(coded_name.len() as int + 1) =~= coded_text);
    lemma_text_comes_back(name);
    lemma_text_comes_back(text);
    assert(pieces.skip(1) =~= Seq::<Seq<char>>::empty());
    assert(property_suffix(pieces.skip(1)) =~= Seq::<char>::empty());
    assert(text + Seq::<char>::empty() =~= text);
}

/// Entries whose texts come through decode, one by one, to their texts.
proof fn lemma_entries_come_back(entries: Seq<Entry>)
    requires
        forall|i: int| 0 <= i < entries.len() ==> text_comes_through(#[trigger] entries[i]),
    ensures
        decoded_entries(encoded_entries(entries)) == as_texts(entries),
    decreases entries.len(),
{
    let coded = encoded_entries(entries);
    if entries.len() == 0 {
        assert(decoded_entries(coded) =~= as_texts(entries));
    } else {
        let init = entries.drop_last();
        assert forall|i: int| 0 <= i < init.len() implies text_comes_through(
            #[trigger] init[i],
        ) by {
            assert(init[i] == entries[i]);
        }
        lemma_entries_come_back(init);
        assert(coded.drop_last() =~= encoded_entries(init));
        assert(coded.last() == encoded_entry(entries.last()));
        assert(text_comes_through(entries[entries.len() - 1]));
        lemma_entry_comes_back(entries.last());
        assert(as_texts(init).push(as_text(entries.last())) =~= as_texts(entries));
    }
}

/// What comes back from the wire: the value of the field for entries whose
/// texts come through stands for those entries in their order, each with
/// the text of its value.
pub proof fn decode_gives_texts(entries: Seq<Entry>)
    requires
        forall|i: int| 0 <= i < entries.len() ==> text_comes_through(#[trigger] entries[i]),
    ensures
        decoded_header(encoded_header(entries)) == as_texts(entries),
{
    let coded = encoded_entries(entries);
    if entries.len() == 0 {
        let nothing = Seq::<char>::empty();
        assert(encoded_header(entries) =~= nothing);
        lemma_position_is(nothing, ',', 0);
        assert(split_on(nothing, ',') =~= seq![nothing]);
        lemma_position_is(nothing, ';', 0);
        assert(split_on(nothing, ';') =~= seq![nothing]);
        lemma_position_is(nothing, '=', 0);
        assert(decoded_entry(nothing) is None);
        let pieces = seq![nothing];
        assert(pieces.drop_last() =~= Seq::<Seq<char>>::empty());
        assert(decoded_entries(pieces.drop_last()) =~= Seq::<Entry>::empty());
        assert(decoded_entries(pieces) =~= as_texts(entries));
    } else {
        assert forall|i: int, k: int|
            0 <= i < coded.len() && 0 <= k < coded[i].len() implies #[trigger] coded[i][k]
            != ',' by {
            assert(text_comes_through(entries[i]));
            lemma_entry_comes_back(entries[i]);
            assert(coded[i] == encoded_entry(entries[i]));
        }
        lemma_split_of_joined(coded, ',');
        lemma_entries_come_back(entries);
    }
}

/// Decoding undoes encoding: the value of the field for entries that come
/// through stands for exactly those entries, in their order.
pub proof fn decode_inverts_encode(entries: Seq<Entry>)
    requires
        forall|i: int| 0 <= i < entries.len() ==> entry_comes_through(#[trigger] entries[i]),
    ensures
        decoded_header(encoded_header(entries)) == entries,
{
    assert forall|i: int| 0 <= i < entries.len() implies text_comes_through(
        #[trigger] entries[i],
    ) by {
        assert(entry_comes_through(entries[i]));
    }
    decode_gives_texts(entries);
    assert forall|i: int| 0 <= i < entries.len() implies as_texts(entries)[i] == entries[i] by {
        assert(entry_comes_through(entries[i]));
    }
    assert(as_texts(entries) =~= entries);
}

/// Putting entries with unique keys into entries that share no key with
/// them appends them in order.
proof fn lemma_with_new_entries(entries: Seq<Entry>, more: Seq<Entry>)
    requires
        unique_keys(entries + more),
    ensures
        with_entries(entries, more) == entries + more,
    decreases more.len(),
{
    if more.len() == 0 {
        assert(entries + more =~= entries);
    } else {
        let all = entries + more;
        let first = more[0];
        assert forall|k: int| 0 <= k < entries.len() implies entries[k].0 != first.0 by {
            assert(all[k] == entries[k]);
            assert(all[entries.len() as int] == first);
        }
        lemma_key_index_is(entries, first.0, entries.len() as int);
        let next = with_entry(entries, first.0, first.1);
        assert(next =~= entries.push(first));
        assert(next + more.drop_first() =~= all);
        lemma_with_new_entries(next, more.drop_first());
    }
}

/// The round trip through a map carrier: where a context whose correlation
/// data has unique names and comes through the wire format is injected into
/// a carrier that does not yet hold the field, extracting from that carrier
/// into a context without correlation data gives the same entries, in the
/// same order.
pub proof fn extract_inverts_inject(
    propagator: CorrelationContextPropagator,
    cx: ContextView,
    before: HashMap<String, String>,
    after: HashMap<String, String>,
    base: ContextView,
    out: ContextView,
)
    requires
        unique_keys(correlations_of(cx)),
        forall|i: int|
            0 <= i < correlations_of(cx).len() ==> entry_comes_through(
                #[trigger] correlations_of(cx)[i],
            ),
        field_ignoring_case(before.fields(), header_name()) is None,
        correlations_of(base).len() == 0,
        propagator.injects(
            cx,
            setting::<HashMap<String, String>>(),
            before.fields(),
            after.fields(),
        ),
        propagator.extracts(base, reading(&after), out),
    ensures
        correlations_of(out) == correlations_of(cx),
{
    let entries = correlations_of(cx);
    let field = choose|field: Option<Seq<char>>| #[trigger]
        reading(&after)(header_name(), field) && out == extracted_context(base, field);
    assert(field == field_ignoring_case(after.fields(), header_name()));
    if entries.len() == 0 {
        assert(after.fields() == before.fields());
        assert(field is None);
        assert(correlations_of(out) =~= entries);
    } else {
        assert(field == Some(encoded_header(entries)));
        decode_inverts_encode(entries);
        assert(Seq::<Entry>::empty() + entries =~= entries);
        assert(correlations_of(base) =~= Seq::<Entry>::empty());
        lemma_with_new_entries(Seq::<Entry>::empty(), entries);
    }
}

} // verus!
