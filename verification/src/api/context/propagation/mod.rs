//! Carriers: the containers that fields are written to and read from when a
//! context crosses a boundary.
use std::collections::HashMap;
use std::hash::BuildHasher;
use vstd::prelude::*;
use vstd::std_specs::hash::builds_valid_hashers;

pub mod binary_propagator;
pub mod composite_propagator;
pub mod header_map;
pub mod metadata_map;
pub mod text_propagator;

verus! {

/// What a carrier holds: its fields, name to value, as the carrier files
/// them.
pub type Fields = Map<Seq<char>, Seq<char>>;

/// A carrier that fields can be written to.
///
/// What an implementation says of itself in `fields` and `sets` is what
/// callers can rely on; one that says nothing promises nothing.
pub trait Injector {
    /// The fields that the carrier holds.
    open spec fn fields(&self) -> Fields {
        Map::empty()
    }

    /// Whether `set` with `key` and `value` may take a carrier of this type
    /// from the fields `before` to the fields `after`.
    open spec fn sets(before: Fields, key: Seq<char>, value: Seq<char>, after: Fields) -> bool {
        true
    }

    /// Writes a field, over one of the same name. How names are matched, and
    /// which names and values the carrier takes, is for the carrier to say.
    fn set(&mut self, key: &str, value: String)
        ensures
            Self::sets(old(self).fields(), key@, value@, final(self).fields()),
    ;
}

/// The text that was read, if one was.
pub open spec fn text_read(value: Option<&str>) -> Option<Seq<char>> {
    match value {
        Some(text) => Some(text@),
        None => None,
    }
}

/// A carrier that fields can be read from.
///
/// What an implementation says of itself in `gives` is what callers can
/// rely on; one that says nothing promises nothing.
pub trait Extractor {
    /// Whether `get` with `key` may give `value`.
    open spec fn gives(&self, key: Seq<char>, value: Option<Seq<char>>) -> bool {
        true
    }

    /// Reads the first value of a field.
    fn get(&self, key: &str) -> (value: Option<&str>)
        ensures
            self.gives(key@, text_read(value)),
    ;
}

/// What `set` does to the fields of a carrier: whether, with a key and a
/// value, it may take the fields given first to those given last.
pub type Setting = spec_fn(Fields, Seq<char>, Seq<char>, Fields) -> bool;

/// What a carrier may give for each key.
pub type Reading = spec_fn(Seq<char>, Option<Seq<char>>) -> bool;

/// What `set` does to the fields of a carrier of type `I`.
pub open spec fn setting<I: Injector>() -> Setting {
    |before: Fields, key: Seq<char>, value: Seq<char>, after: Fields|
        I::sets(before, key, value, after)
}

/// What `extractor` may give for each key.
pub open spec fn reading<E: Extractor>(extractor: &E) -> Reading {
    |key: Seq<char>, value: Option<Seq<char>>| extractor.gives(key, value)
}

/// The lower-case form of `s`, as `str::to_lowercase` gives it.
pub uninterp spec fn lowercased(s: Seq<char>) -> Seq<char>;

/// Calls `str::to_lowercase`. Its result is the one that [`lowercased`]
/// names: it depends on the text alone.
#[verifier::external_body]
pub(crate) fn lowercase(s: &str) -> (r: String)
    ensures
        r@ == lowercased(s@),
{
    s.to_lowercase()
}

/// The entries of a map with `String` keys and values, as texts.
pub open spec fn text_fields(m: Map<String, String>) -> Fields {
    Map::new(
        |key: Seq<char>| exists|k: String| k@ == key && m.contains_key(k),
        |key: Seq<char>| m[choose|k: String| k@ == key && m.contains_key(k)]@,
    )
}

/// Calls `HashMap::insert`: afterwards the map holds `value` under `key`,
/// and under every other key what it held before. That holds of a map whose
/// hash builder gives equal keys equal hashes, as the default one does; of
/// any other nothing is said.
#[verifier::external_body]
pub(crate) fn map_insert<S: BuildHasher>(
    map: &mut HashMap<String, String, S>,
    key: String,
    value: String,
)
    ensures
        builds_valid_hashers::<S>() ==> text_fields(final(map)@) == text_fields(old(map)@).insert(
            key@,
            value@,
        ),
{
    map.insert(key, value);
}

/// Calls `HashMap::get`: the value that the map holds under `key`, if it
/// holds one. That holds of a map whose hash builder gives equal keys equal
/// hashes, as the default one does; of any other nothing is said.
#[verifier::external_body]
pub(crate) fn map_get<'a, S: BuildHasher>(map: &'a HashMap<String, String, S>, key: &str) -> (value:
    Option<&'a str>)
    ensures
        builds_valid_hashers::<S>() ==> (value is Some <==> text_fields(map@).contains_key(key@)),
        builds_valid_hashers::<S>() ==> (value matches Some(v) ==> text_fields(map@)[key@] == v@),
{
    map.get(key).map(|v| v.as_str())
}

/// The value filed under the lower-case form of `key`.
pub open spec fn field_ignoring_case(fields: Fields, key: Seq<char>) -> Option<Seq<char>> {
    if fields.contains_key(lowercased(key)) {
        Some(fields[lowercased(key)])
    } else {
        None
    }
}

/// A map of field names to values is a carrier that ignores case: it files
/// every field under the lower-case form of its name. This is said of maps
/// whose hash builder gives equal keys equal hashes, as the default one does.
impl<S: BuildHasher> Injector for HashMap<String, String, S> {
    open spec fn fields(&self) -> Fields {
        text_fields(self@)
    }

    open spec fn sets(before: Fields, key: Seq<char>, value: Seq<char>, after: Fields) -> bool {
        builds_valid_hashers::<S>() ==> after == before.insert(lowercased(key), value)
    }

    fn set(&mut self, key: &str, value: String) {
        map_insert(self, lowercase(key), value);
    }
}

/// A map of field names to values is read by the lower-case form of the
/// name asked for. This is said of maps whose hash builder gives equal keys
/// equal hashes, as the default one does.
impl<S: BuildHasher> Extractor for HashMap<String, String, S> {
    open spec fn gives(&self, key: Seq<char>, value: Option<Seq<char>>) -> bool {
        builds_valid_hashers::<S>() ==> value == field_ignoring_case(text_fields(self@), key)
    }

    fn get(&self, key: &str) -> (value: Option<&str>) {
        let name = lowercase(key);
        map_get(self, name.as_str())
    }
}

/// A map carrier ignores the case of field names: after a field has been set
/// under one name, reading under any name with the same lower-case form
/// gives the value that was set.
pub proof fn map_carrier_ignores_case(
    before: Fields,
    written: Seq<char>,
    value: Seq<char>,
    after: Fields,
    asked: Seq<char>,
)
    requires
        <HashMap<String, String> as Injector>::sets(before, written, value, after),
        lowercased(asked) == lowercased(written),
    ensures
        field_ignoring_case(after, asked) == Some(value),
{
}

} // verus!
