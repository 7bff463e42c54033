//! gRPC metadata maps as carriers of text fields.
use crate::api::context::propagation::header_map::{
    ascii_lowered, fields_with_value, header_name, header_name_text, header_text, header_value,
    is_header_name, is_header_value, is_visible_text, lemma_readable_after_insert, name_chars,
    parsed_header_name, readable_fields, value_bytes,
};
use crate::api::context::propagation::{Extractor, Fields, Injector};
use crate::api::text::chars_of;
use vstd::prelude::*;
use vstd::utf8::{encode_utf8, encode_utf8_decode_utf8};

verus! {

/// `tonic::metadata::MetadataMap`: a header map that holds the metadata of a
/// gRPC call.
#[verifier::external_type_specification]
#[verifier::external_body]
pub struct ExMetadataMap(tonic::metadata::MetadataMap);

/// What a metadata map holds: for each key in it, the bytes of the first
/// value under that key (the header map inside it, as `header_values` sees
/// one).
pub uninterp spec fn metadata_values(map: tonic::metadata::MetadataMap) -> Map<Seq<char>, Seq<u8>>;

/// Whether the map takes a value under `name`: whether
/// `HeaderMap::try_insert` on the header map inside it answers `Ok` for that
/// name. It does unless the map has no room left.
pub uninterp spec fn metadata_takes(map: tonic::metadata::MetadataMap, name: Seq<char>) -> bool;

/// Whether `key` names binary metadata: it ends in `-bin`.
pub open spec fn is_binary_key(key: Seq<char>) -> bool {
    key.len() >= 4 && key.skip(key.len() - 4) == seq!['-', 'b', 'i', 'n']
}

/// Decides `is_binary_key`.
pub fn has_binary_suffix(key: &str) -> (binary: bool)
    ensures
        binary == is_binary_key(key@),
{
    let chars = chars_of(key);
    let n = chars.len();
    if n < 4 {
        false
    } else {
        let binary = chars[n - 4] == '-' && chars[n - 3] == 'b' && chars[n - 2] == 'i' && chars[n
            - 1] == 'n';
        proof {
            let tail = key@.skip(key@.len() - 4);
            assert(tail.len() == 4);
            assert(tail[0] == chars@[n - 4] && tail[1] == chars@[n - 3] && tail[2] == chars@[n - 2]
                && tail[3] == chars@[n - 1]);
            if binary {
                assert(tail =~= seq!['-', 'b', 'i', 'n']);
            }
        }
        binary
    }
}

/// Takes the header map out of the metadata map (`MetadataMap::into_headers`),
/// calls `HeaderMap::try_insert` on it and puts it back
/// (`MetadataMap::from_headers`). Where the insertion returns `Ok`, `value` is
/// the one value under `name` and every other key is as it was; where the
/// map has no room left, it holds what it held. Which of the two happens
/// depends on the map and the name alone, and is what [`metadata_takes`]
/// names.
#[verifier::external_body]
pub(crate) fn metadata_insert(
    map: &mut tonic::metadata::MetadataMap,
    name: http::header::HeaderName,
    value: http::header::HeaderValue,
) -> (stored: bool)
    ensures
        stored == metadata_takes(*old(map), name_chars(name)),
        stored ==> metadata_values(*final(map)) == metadata_values(*old(map)).insert(
            name_chars(name),
            value_bytes(value),
        ),
        !stored ==> metadata_values(*final(map)) == metadata_values(*old(map)),
{
    let mut headers = std::mem::take(map).into_headers();
    let stored = headers.try_insert(name, value).is_ok();
    *map = tonic::metadata::MetadataMap::from_headers(headers);
    stored
}

/// The text that a metadata map gives for `key`: nothing for the key of
/// binary metadata, else the first value under the name that `key` stands
/// for, where that value is visible text.
pub open spec fn metadata_text(values: Map<Seq<char>, Seq<u8>>, key: Seq<char>) -> Option<
    Seq<char>,
> {
    if is_binary_key(key) {
        None
    } else {
        header_text(values, key)
    }
}

/// Calls `MetadataMap::get` with `key`, which gives nothing for a key that
/// ends in `-bin` and else the first value under the name that `key` stands
/// for, and `MetadataValue::to_str` on that value, which gives its text where
/// all its bytes are visible ASCII.
#[verifier::external_body]
pub(crate) fn metadata_get<'a>(map: &'a tonic::metadata::MetadataMap, key: &str) -> (value: Option<
    &'a str,
>)
    ensures
        value is Some <==> metadata_text(metadata_values(*map), key@) is Some,
        value matches Some(v) ==> metadata_text(metadata_values(*map), key@) == Some(v@),
{
    map.get(key).and_then(|value| value.to_str().ok())
}

/// Whether `set` with `key` and `value` stores a value in the map: `key` is
/// a header name that does not name binary metadata, the bytes of `value`
/// make a header value, and the map takes a value under that name.
pub open spec fn metadata_map_stores(
    map: tonic::metadata::MetadataMap,
    key: Seq<char>,
    value: Seq<char>,
) -> bool {
    is_header_name(ascii_lowered(key)) && !is_binary_key(ascii_lowered(key)) && is_header_value(
        encode_utf8(value),
    ) && metadata_takes(map, ascii_lowered(key))
}

/// What the map holds after `set` with `key` and `value`: where the field is
/// stored, the bytes of `value` are the one value under `key` in small
/// letters and every other key is as it was; where it is not, the map holds
/// what it held.
pub open spec fn metadata_values_after_set(
    map: tonic::metadata::MetadataMap,
    key: Seq<char>,
    value: Seq<char>,
) -> Map<Seq<char>, Seq<u8>> {
    if metadata_map_stores(map, key, value) {
        metadata_values(map).insert(ascii_lowered(key), encode_utf8(value))
    } else {
        metadata_values(map)
    }
}

/// A metadata map takes a field where its key is a header name that does
/// not name binary metadata and its value a header value, and files it under
/// the normalized name; any other field is dropped without a word, and so is
/// one for which the map has no room.
impl Injector for tonic::metadata::MetadataMap {
    open spec fn fields(&self) -> Fields {
        readable_fields(metadata_values(*self))
    }

    open spec fn sets(before: Fields, key: Seq<char>, value: Seq<char>, after: Fields) -> bool {
        ||| after == before
        ||| (parsed_header_name(key) is Some && !is_binary_key(parsed_header_name(key)->0)
            && is_header_value(encode_utf8(value)) && after == fields_with_value(
            before,
            parsed_header_name(key)->0,
            encode_utf8(value),
        ))
    }

    /// Sets a field. Does nothing where the key or the value is not valid.
    fn set(&mut self, key: &str, value: String)
        ensures
            metadata_values(*final(self)) == metadata_values_after_set(*old(self), key@, value@),
    {
        if let Some(name) = header_name(key) {
            if !has_binary_suffix(header_name_text(&name)) {
                if let Some(val) = header_value(value.as_str()) {
                    proof {
                        lemma_readable_after_insert(
                            metadata_values(*self),
                            name_chars(name),
                            value_bytes(val),
                        );
                    }
                    let _ = metadata_insert(self, name, val);
                }
            }
        }
    }
}

/// A metadata map gives the first value under the name that the key stands
/// for, where that value is visible text.
impl Extractor for tonic::metadata::MetadataMap {
    open spec fn gives(&self, key: Seq<char>, value: Option<Seq<char>>) -> bool {
        value == metadata_text(metadata_values(*self), key)
    }

    fn get(&self, key: &str) -> (value: Option<&str>) {
        metadata_get(self, key)
    }
}

/// A metadata map ignores the ASCII case of keys: once a value that is
/// visible text stands under a key, reading under any spelling of that key
/// that does not end in `-bin` gives the value, and reading under any other
/// key gives what it gave before.
pub proof fn metadata_map_ignores_case(
    values: Map<Seq<char>, Seq<u8>>,
    written: Seq<char>,
    value: Seq<char>,
    asked: Seq<char>,
)
    requires
        is_header_name(ascii_lowered(written)),
        is_visible_text(encode_utf8(value)),
    ensures
        is_header_value(encode_utf8(value)),
        ascii_lowered(asked) == ascii_lowered(written) && !is_binary_key(asked) ==> metadata_text(
            values.insert(ascii_lowered(written), encode_utf8(value)),
            asked,
        ) == Some(value),
        ascii_lowered(asked) != ascii_lowered(written) ==> metadata_text(
            values.insert(ascii_lowered(written), encode_utf8(value)),
            asked,
        ) == metadata_text(values, asked),
{
    encode_utf8_decode_utf8(value);
}

} // verus!
