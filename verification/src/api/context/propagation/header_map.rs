//! HTTP header maps as carriers.
use crate::api::context::propagation::{Extractor, Fields, Injector};
use http::header::{HeaderName, HeaderValue};
use http::HeaderMap;
use vstd::prelude::*;
use vstd::utf8::{decode_utf8, encode_utf8, encode_utf8_decode_utf8};

verus! {

/// `http::HeaderMap`: a map from header names to one or more values each.
#[verifier::external_type_specification]
#[verifier::external_body]
#[verifier::reject_recursive_types(T)]
pub struct ExHeaderMap<T>(http::HeaderMap<T>);

/// `http::header::HeaderName`: a header name in normalized form.
#[verifier::external_type_specification]
#[verifier::external_body]
pub struct ExHeaderName(http::header::HeaderName);

/// `http::header::HeaderValue`: the bytes of a header value.
#[verifier::external_type_specification]
#[verifier::external_body]
pub struct ExHeaderValue(http::header::HeaderValue);

/// What a header map holds: for each header name in it, the bytes of the
/// first value under that name (what `HeaderMap::get` finds).
pub uninterp spec fn header_values(map: HeaderMap) -> Map<Seq<char>, Seq<u8>>;

/// The characters that a header name holds (`HeaderName::as_str`).
pub uninterp spec fn name_chars(name: HeaderName) -> Seq<char>;

/// The bytes that a header value holds (`HeaderValue::as_bytes`).
pub uninterp spec fn value_bytes(value: HeaderValue) -> Seq<u8>;

/// Whether `lowered`, a text without ASCII capital letters, is a header
/// name: whether `HeaderName::from_bytes` accepts its bytes.
pub uninterp spec fn is_header_name(lowered: Seq<char>) -> bool;

/// Whether the map takes a value under `name`: whether `HeaderMap::try_insert`
/// with that name answers `Ok`. It does unless the map has no room left.
pub uninterp spec fn header_takes(map: HeaderMap, name: Seq<char>) -> bool;

/// `text` with each ASCII capital letter replaced by its small letter.
pub open spec fn ascii_lowered(text: Seq<char>) -> Seq<char> {
    text.map_values(
        |c: char|
            if 'A' <= c <= 'Z' {
                ((c as u8) + 32) as char
            } else {
                c
            },
    )
}

/// The header name that `key` stands for, in the form in which header maps
/// file it, or `None` where `key` is no header name. Header names ignore
/// ASCII case: the name is `key` in small letters, and whether `key` is a
/// header name depends on that form alone.
pub open spec fn parsed_header_name(key: Seq<char>) -> Option<Seq<char>> {
    if is_header_name(ascii_lowered(key)) {
        Some(ascii_lowered(key))
    } else {
        None
    }
}

/// Whether a header value can be made of `bytes`: none of them is a control
/// character other than the tab.
pub open spec fn is_header_value(bytes: Seq<u8>) -> bool {
    forall|i: int| 0 <= i < bytes.len() ==> (bytes[i] >= 32 && bytes[i] != 127) || bytes[i] == 9
}

/// Whether a header value of `bytes` can be read as text: all of them are
/// visible ASCII characters, spaces or tabs.
pub open spec fn is_visible_text(bytes: Seq<u8>) -> bool {
    forall|i: int| 0 <= i < bytes.len() ==> (32 <= bytes[i] < 127) || bytes[i] == 9
}

/// The fields that can be read from a header map: the names whose first
/// value is visible text, each with that text.
pub open spec fn readable_fields(values: Map<Seq<char>, Seq<u8>>) -> Fields {
    Map::new(
        |name: Seq<char>| values.contains_key(name) && is_visible_text(values[name]),
        |name: Seq<char>| decode_utf8(values[name]),
    )
}

/// The readable fields once `bytes` are the only value under `name`.
pub open spec fn fields_with_value(fields: Fields, name: Seq<char>, bytes: Seq<u8>) -> Fields {
    if is_visible_text(bytes) {
        fields.insert(name, decode_utf8(bytes))
    } else {
        fields.remove(name)
    }
}

/// Storing a value changes the readable fields under its name alone.
pub proof fn lemma_readable_after_insert(
    values: Map<Seq<char>, Seq<u8>>,
    name: Seq<char>,
    bytes: Seq<u8>,
)
    ensures
        readable_fields(values.insert(name, bytes)) == fields_with_value(
            readable_fields(values),
            name,
            bytes,
        ),
{
    assert(readable_fields(values.insert(name, bytes)) =~= fields_with_value(
        readable_fields(values),
        name,
        bytes,
    ));
}

/// Calls `HeaderName::from_bytes` on the bytes of `key`, which maps each
/// byte through one table: a capital letter to its small letter, every
/// other byte of a name to itself, and every byte that no name holds to
/// zero, on which it refuses the key. So it accepts `key` where it accepts
/// `key` in small letters, and the name it makes is `key` in small letters.
#[verifier::external_body]
pub(crate) fn header_name(key: &str) -> (name: Option<HeaderName>)
    ensures
        name is Some <==> is_header_name(ascii_lowered(key@)),
        name matches Some(n) ==> name_chars(n) == ascii_lowered(key@),
{
    HeaderName::from_bytes(key.as_bytes()).ok()
}

/// Calls `HeaderName::as_str`: the characters that the name holds.
#[verifier::external_body]
pub(crate) fn header_name_text(name: &HeaderName) -> (text: &str)
    ensures
        text@ == name_chars(*name),
{
    name.as_str()
}

/// Calls `HeaderValue::from_str`, which takes the bytes of `value` as they
/// are unless one of them is a control character other than the tab.
#[verifier::external_body]
pub(crate) fn header_value(value: &str) -> (made: Option<HeaderValue>)
    ensures
        made is Some <==> is_header_value(encode_utf8(value@)),
        made matches Some(v) ==> value_bytes(v) == encode_utf8(value@),
{
    HeaderValue::from_str(value).ok()
}

/// Calls `HeaderMap::try_insert`. Where it returns `Ok`, `value` is the one
/// value under `name` and every other name is as it was; where the map has
/// no room left, it returns an error and the map holds what it held. Which
/// of the two it does depends on the map and the name alone, and is what
/// [`header_takes`] names.
#[verifier::external_body]
pub(crate) fn header_insert(
    map: &mut HeaderMap,
    name: HeaderName,
    value: HeaderValue,
) -> (stored: bool)
    ensures
        stored == header_takes(*old(map), name_chars(name)),
        stored ==> header_values(*final(map)) == header_values(*old(map)).insert(
            name_chars(name),
            value_bytes(value),
        ),
        !stored ==> header_values(*final(map)) == header_values(*old(map)),
{
    map.try_insert(name, value).is_ok()
}

/// The bytes of the first value under the name that `key` stands for, if
/// `key` stands for a header name and the map holds a value under it.
pub open spec fn first_value(values: Map<Seq<char>, Seq<u8>>, key: Seq<char>) -> Option<Seq<u8>> {
    match parsed_header_name(key) {
        Some(name) => if values.contains_key(name) {
            Some(values[name])
        } else {
            None
        },
        None => None,
    }
}

/// The text that a header map gives for `key`: the first value under the
/// name that `key` stands for, where that value is visible text.
pub open spec fn header_text(values: Map<Seq<char>, Seq<u8>>, key: Seq<char>) -> Option<Seq<char>> {
    match first_value(values, key) {
        Some(bytes) => if is_visible_text(bytes) {
            Some(decode_utf8(bytes))
        } else {
            None
        },
        None => None,
    }
}

/// Calls `HeaderMap::get` with `key`, which finds the first value under the
/// name that `key` stands for, and nothing where `key` is no header name.
#[verifier::external_body]
pub(crate) fn header_first<'a>(map: &'a HeaderMap, key: &str) -> (found: Option<&'a HeaderValue>)
    ensures
        found is Some <==> first_value(header_values(*map), key@) is Some,
        found matches Some(value) ==> first_value(header_values(*map), key@) == Some(
            value_bytes(*value),
        ),
{
    map.get(key)
}

/// Calls `HeaderValue::to_str`, which gives the value as text where all its
/// bytes are visible ASCII characters, spaces or tabs.
#[verifier::external_body]
pub(crate) fn header_value_text<'a>(value: &'a HeaderValue) -> (text: Option<&'a str>)
    ensures
        text is Some <==> is_visible_text(value_bytes(*value)),
        text matches Some(t) ==> t@ == decode_utf8(value_bytes(*value)),
{
    value.to_str().ok()
}

/// Whether `set` with `key` and `value` stores a value in the map: `key` is
/// a header name, the bytes of `value` make a header value, and the map
/// takes a value under that name.
pub open spec fn header_map_stores(map: HeaderMap, key: Seq<char>, value: Seq<char>) -> bool {
    is_header_name(ascii_lowered(key)) && is_header_value(encode_utf8(value)) && header_takes(
        map,
        ascii_lowered(key),
    )
}

/// What the map holds after `set` with `key` and `value`: where the field is
/// stored, the bytes of `value` are the one value under `key` in small
/// letters and every other name is as it was; where it is not, the map holds
/// what it held.
pub open spec fn header_values_after_set(map: HeaderMap, key: Seq<char>, value: Seq<char>) -> Map<
    Seq<char>,
    Seq<u8>,
> {
    if header_map_stores(map, key, value) {
        header_values(map).insert(ascii_lowered(key), encode_utf8(value))
    } else {
        header_values(map)
    }
}

/// A header map takes a field where its key is a header name and its value
/// a header value, and files it under the normalized name; any other field
/// is dropped without a word, and so is one for which the map has no room.
impl Injector for HeaderMap {
    open spec fn fields(&self) -> Fields {
        readable_fields(header_values(*self))
    }

    open spec fn sets(before: Fields, key: Seq<char>, value: Seq<char>, after: Fields) -> bool {
        ||| after == before
        ||| (parsed_header_name(key) is Some && is_header_value(encode_utf8(value)) && after
            == fields_with_value(before, parsed_header_name(key)->0, encode_utf8(value)))
    }

    /// Sets a field. Does nothing where the key or the value is not valid.
    fn set(&mut self, key: &str, value: String)
        ensures
            header_values(*final(self)) == header_values_after_set(*old(self), key@, value@),
    {
        if let Some(name) = header_name(key) {
            if let Some(val) = header_value(value.as_str()) {
                proof {
                    lemma_readable_after_insert(
                        header_values(*self),
                        name_chars(name),
                        value_bytes(val),
                    );
                }
                let _ = header_insert(self, name, val);
            }
        }
    }
}

/// A header map gives the first value under the name that the key stands
/// for, where that value is visible text.
impl Extractor for HeaderMap {
    open spec fn gives(&self, key: Seq<char>, value: Option<Seq<char>>) -> bool {
        value == header_text(header_values(*self), key)
    }

    /// Gets the first value under a key. Gives nothing where that value is
    /// not visible text.
    fn get(&self, key: &str) -> (value: Option<&str>) {
        match header_first(self, key) {
            Some(value) => header_value_text(value),
            None => None,
        }
    }
}

/// A header map ignores the ASCII case of names: once a value that is
/// visible text stands under a header name, reading under any spelling of
/// that name gives the value, and reading under any other name gives what
/// it gave before.
pub proof fn header_map_ignores_case(
    values: Map<Seq<char>, Seq<u8>>,
    written: Seq<char>,
    value: Seq<char>,
    asked: Seq<char>,
)
    requires
        is_header_name(ascii_lowered(written)),
        is_visible_text(encode_utf8(value)),
    ensures
        is_header_value(encode_utf8(value)),
        ascii_lowered(asked) == ascii_lowered(written) ==> header_text(
            values.insert(ascii_lowered(written), encode_utf8(value)),
            asked,
        ) == Some(value),
        ascii_lowered(asked) != ascii_lowered(written) ==> header_text(
            values.insert(ascii_lowered(written), encode_utf8(value)),
            asked,
        ) == header_text(values, asked),
{
    encode_utf8_decode_utf8(value);
}

/// The last write wins in a header map: of two values stored under
/// spellings of one name, the map holds the later one under that name, and
/// under every other name what it held before both.
pub proof fn header_map_keeps_the_last(
    values: Map<Seq<char>, Seq<u8>>,
    first_key: Seq<char>,
    first: Seq<u8>,
    second_key: Seq<char>,
    second: Seq<u8>,
)
    requires
        ascii_lowered(first_key) == ascii_lowered(second_key),
    ensures
        values.insert(ascii_lowered(first_key), first).insert(ascii_lowered(second_key), second)
            == values.insert(ascii_lowered(second_key), second),
{
    assert(values.insert(ascii_lowered(first_key), first).insert(
        ascii_lowered(second_key),
        second,
    ) =~= values.insert(ascii_lowered(second_key), second));
}

} // verus!
