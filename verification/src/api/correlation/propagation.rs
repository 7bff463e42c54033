//! The propagator of correlation data, and the wire format it writes: one
//! field that holds `name=value` entries separated by commas, names and
//! values percent-encoded, each entry followed by any number of properties
//! that start with a semicolon.
use crate::api::context::propagation::text_propagator::{names_of, TextMapFormat};
use crate::api::context::propagation::{
    reading, setting, text_read, Extractor, Fields, Injector, Reading, Setting,
};
use crate::api::context::{correlations_of, Context, ContextView, CurrentContext};
use crate::api::correlation::percent::{
    percent_decode, percent_decoded_text, percent_encode, percent_encoded,
};
use crate::api::correlation::{entries_of, with_entries, CorrelationContext, Entry};
use crate::api::text::{
    append_chars, chars_of, copy_range, find_char, joined, position, split, split_on,
    string_from_chars, texts, trim, trimmed,
};
use crate::api::value::{value_text, Key, KeyValue, Value, ValueView};
use std::collections::HashMap;
use vstd::prelude::*;

verus! {

/// The name of the field that carries correlation data.
pub const CORRELATION_CONTEXT_HEADER: &'static str = "otcorrelations";

/// The name of the field that carries correlation data, as a text.
pub open spec fn header_name() -> Seq<char> {
    CORRELATION_CONTEXT_HEADER@
}

/// The name of the field is `otcorrelations`: lower-case ASCII letters only.
pub proof fn header_name_is_lower_case()
    ensures
        header_name().len() == 14,
        forall|i: int| 0 <= i < 14 ==> 'a' <= #[trigger] header_name()[i] <= 'z',
{
    reveal_strlit("otcorrelations");
}

/// An entry on the wire: the trimmed name and the trimmed text of the value,
/// both percent-encoded, with an equals sign between them.
pub open spec fn encoded_entry(entry: Entry) -> Seq<char> {
    percent_encoded(trimmed(entry.0)) + seq!['='] + percent_encoded(trimmed(value_text(entry.1)))
}

/// The entries on the wire, one text for each.
pub open spec fn encoded_entries(entries: Seq<Entry>) -> Seq<Seq<char>> {
    entries.map_values(|entry: Entry| encoded_entry(entry))
}

/// The value of the field for `entries`: the encoded entries in order,
/// separated by commas.
pub open spec fn encoded_header(entries: Seq<Entry>) -> Seq<char> {
    joined(encoded_entries(entries), ',')
}

/// What the properties of an entry add to its value: for each one that
/// percent-decodes, a semicolon and the trimmed property. One that does not
/// decode adds nothing.
pub open spec fn property_suffix(properties: Seq<Seq<char>>) -> Seq<char>
    decreases properties.len(),
{
    if properties.len() == 0 {
        Seq::empty()
    } else {
        property_suffix(properties.drop_last()) + match percent_decoded_text(properties.last()) {
            Some(property) => seq![';'] + trimmed(property),
            None => Seq::empty(),
        }
    }
}

/// The name and value that one entry of the field stands for, or `None`
/// where the entry is malformed. The entry is split at its semicolons; its
/// first piece is split at the first equals sign, and an entry without one is
/// malformed. Name and value are percent-decoded, then trimmed; an entry
/// whose name or value does not decode is malformed. The properties follow
/// the value.
pub open spec fn decoded_entry(entry: Seq<char>) -> Option<(Seq<char>, Seq<char>)> {
    let pieces = split_on(entry, ';');
    let pair = pieces[0];
    let at = position(pair, '=');
    if 0 <= at < pair.len() {
        match (percent_decoded_text(pair.take(at)), percent_decoded_text(pair.skip(at + 1))) {
            (Some(name), Some(value)) => Some(
                (trimmed(name), trimmed(value) + property_suffix(pieces.skip(1))),
            ),
            _ => None,
        }
    } else {
        None
    }
}

/// The entry that one piece of the field stands for: its value is a text.
pub open spec fn decoded_pair(entry: Seq<char>) -> Option<Entry> {
    match decoded_entry(entry) {
        Some((name, value)) => Some((name, ValueView::String(value))),
        None => None,
    }
}

/// The entries that the pieces of a field stand for, in order; malformed
/// pieces are left out.
pub open spec fn decoded_entries(pieces: Seq<Seq<char>>) -> Seq<Entry>
    decreases pieces.len(),
{
    if pieces.len() == 0 {
        Seq::empty()
    } else {
        let before = decoded_entries(pieces.drop_last());
        match decoded_pair(pieces.last()) {
            Some(entry) => before.push(entry),
            None => before,
        }
    }
}

/// The entries that the value of the field stands for.
pub open spec fn decoded_header(header: Seq<char>) -> Seq<Entry> {
    decoded_entries(split_on(header, ','))
}

/// A split has at least one piece.
pub proof fn lemma_split_has_a_piece(s: Seq<char>, sep: char)
    ensures
        split_on(s, sep).len() >= 1,
{
}

/// Appends the wire form of one entry to `out`.
pub fn encode_entry(out: &mut Vec<char>, pair: &KeyValue)
    ensures
        final(out)@ == old(out)@ + encoded_entry(pair@),
{
    let name = chars_of(pair.key.as_str());
    let name = trim(name.as_slice());
    let name = percent_encode(name.as_slice());
    let mut value: Vec<char> = Vec::new();
    pair.value.push_text(&mut value);
    let value = trim(value.as_slice());
    let value = percent_encode(value.as_slice());
    append_chars(out, name.as_slice());
    out.push('=');
    append_chars(out, value.as_slice());
    assert(final(out)@ =~= old(out)@ + encoded_entry(pair@));
}

/// The value of the field for the given entries.
pub fn encode_header(pairs: &[KeyValue]) -> (header: Vec<char>)
    ensures
        header@ == encoded_header(entries_of(pairs@)),
{
    let ghost entries = entries_of(pairs@);
    let mut header: Vec<char> = Vec::new();
    let mut i: usize = 0;
    assert(encoded_entries(entries.take(0)) =~= Seq::<Seq<char>>::empty());
    while i < pairs.len()
        invariant
            i <= pairs.len(),
            entries == entries_of(pairs@),
            header@ == encoded_header(entries.take(i as int)),
        decreases pairs.len() - i,
    {
        if i > 0 {
            header.push(',');
        }
        encode_entry(&mut header, &pairs[i]);
        proof {
            let done = encoded_entries(entries.take(i + 1));
            assert(done.drop_last() =~= encoded_entries(entries.take(i as int)));
            assert(done.last() == encoded_entry(pairs@[i as int]@));
            assert(header@ =~= joined(done, ','));
        }
        i += 1;
    }
    assert(entries.take(pairs.len() as int) =~= entries);
    header
}

/// The name and value that one entry of the field stands for, the value as
/// a text; `None` where the entry is malformed.
pub fn decode_entry(entry: &[char]) -> (pair: Option<KeyValue>)
    ensures
        pair is Some <==> decoded_pair(entry@) is Some,
        pair matches Some(kv) ==> decoded_pair(entry@) == Some(kv@),
{
    let pieces = split(entry, ';');
    proof {
        lemma_split_has_a_piece(entry@, ';');
        assert(texts(pieces@).len() == pieces@.len());
        assert(texts(pieces@)[0] == pieces@[0]@);
    }
    let pair = pieces[0].as_slice();
    assert(pair@.skip(0) =~= pair@);
    let at = find_char(pair, 0, '=');
    if at == pair.len() {
        return None;
    }
    let name = copy_range(pair, 0, at);
    let value = copy_range(pair, at + 1, pair.len());
    assert(name@ == pair@.take(at as int));
    assert(value@ == pair@.skip(at + 1));
    let name = match percent_decode(name.as_slice()) {
        Some(name) => name,
        None => {
            return None;
        },
    };
    let value = match percent_decode(value.as_slice()) {
        Some(value) => value,
        None => {
            return None;
        },
    };
    let name = trim(name.as_slice());
    let mut text = trim(value.as_slice());
    let ghost properties = texts(pieces@).skip(1);
    let ghost start = text@;
    let mut i: usize = 1;
    assert(properties.take(0) =~= Seq::<Seq<char>>::empty());
    while i < pieces.len()
        invariant
            1 <= i <= pieces.len(),
            properties == texts(pieces@).skip(1),
            text@ == start + property_suffix(properties.take(i - 1)),
        decreases pieces.len() - i,
    {
        proof {
            let done = properties.take(i as int);
            assert(done.drop_last() =~= properties.take(i - 1));
            assert(done.last() == pieces@[i as int]@);
        }
        match percent_decode(pieces[i].as_slice()) {
            Some(property) => {
                let property = trim(property.as_slice());
                text.push(';');
                append_chars(&mut text, property.as_slice());
            },
            None => {},
        }
        assert(text@ =~= start + property_suffix(properties.take(i as int)));
        i += 1;
    }
    assert(properties.take(pieces.len() - 1) =~= properties);
    let key = Key::new(string_from_chars(name.as_slice()).as_str());
    let value = Value::String(string_from_chars(text.as_slice()));
    Some(KeyValue::new(key, value))
}

/// The entries that the value of the field stands for, in order, each value
/// a text. Malformed entries are left out.
pub fn decode_header(header: &[char]) -> (pairs: Vec<KeyValue>)
    ensures
        entries_of(pairs@) == decoded_header(header@),
{
    let pieces = split(header, ',');
    let ghost all = texts(pieces@);
    let mut pairs: Vec<KeyValue> = Vec::new();
    let mut i: usize = 0;
    assert(entries_of(pairs@) =~= decoded_entries(all.take(0)));
    while i < pieces.len()
        invariant
            i <= pieces.len(),
            all == texts(pieces@),
            entries_of(pairs@) == decoded_entries(all.take(i as int)),
        decreases pieces.len() - i,
    {
        proof {
            let done = all.take(i + 1);
            assert(done.drop_last() =~= all.take(i as int));
            assert(done.last() == pieces@[i as int]@);
        }
        let ghost before = pairs@;
        match decode_entry(pieces[i].as_slice()) {
            Some(pair) => {
                pairs.push(pair);
                assert(entries_of(pairs@) =~= entries_of(before).push(pair@));
            },
            None => {},
        }
        i += 1;
    }
    assert(all.take(pieces.len() as int) =~= all);
    pairs
}

/// Propagates correlation data as name/value pairs in one text field.
#[derive(Debug, Default)]
pub struct CorrelationContextPropagator {
    _private: (),
}

impl CorrelationContextPropagator {
    /// The one value of this type.
    pub closed spec fn only() -> Self {
        CorrelationContextPropagator { _private: () }
    }

    /// The propagator of correlation data.
    pub fn new() -> (propagator: Self)
        ensures
            propagator == Self::only(),
    {
        CorrelationContextPropagator { _private: () }
    }
}

/// The context that extraction makes of `base` where the carrier gives
/// `field` for the correlation field: the entries that the field stands for
/// are put into the correlation data of `base`, over entries of the same
/// name. Without a field, and with a field that stands for no entry, `base`
/// is left as it is.
pub open spec fn extracted_context(base: ContextView, field: Option<Seq<char>>) -> ContextView {
    match field {
        Some(header) => if decoded_header(header).len() == 0 {
            base
        } else {
            ContextView {
                correlations: Some(with_entries(correlations_of(base), decoded_header(header))),
                ..base
            }
        },
        None => base,
    }
}

impl TextMapFormat for CorrelationContextPropagator {
    /// Correlation data without entries writes nothing. Otherwise the one
    /// field is set to the encoded entries.
    open spec fn injects(
        &self,
        cx: ContextView,
        sets: Setting,
        before: Fields,
        after: Fields,
    ) -> bool {
        if correlations_of(cx).len() == 0 {
            after == before
        } else {
            sets(before, header_name(), encoded_header(correlations_of(cx)), after)
        }
    }

    /// Extraction reads the one field and makes of the context what
    /// `extracted_context` says.
    open spec fn extracts(&self, base: ContextView, gives: Reading, out: ContextView) -> bool {
        exists|field: Option<Seq<char>>| #[trigger]
            gives(header_name(), field) && out == extracted_context(base, field)
    }

    /// The one field.
    open spec fn lists(&self, names: Seq<Seq<char>>) -> bool {
        names == seq![header_name()]
    }

    /// Encodes the correlation data of `cx` and sets the field to it. Where
    /// there are no entries the carrier is left alone.
    fn inject_context<I: Injector>(&self, cx: &Context, injector: &mut I) {
        let correlations = cx.correlations();
        if !correlations.is_empty() {
            let header = encode_header(correlations.entries());
            injector.set(CORRELATION_CONTEXT_HEADER, string_from_chars(header.as_slice()));
        }
    }

    /// Decodes the field, if the carrier has it, and merges its entries into
    /// the correlation data of `cx`.
    fn extract_with_context<E: Extractor>(&self, cx: &Context, extractor: &E) -> (out: Context) {
        let field = extractor.get(CORRELATION_CONTEXT_HEADER);
        assert(reading(extractor)(header_name(), text_read(field)));
        match field {
            Some(header) => {
                let header = chars_of(header);
                let correlations = decode_header(header.as_slice());
                if correlations.len() == 0 {
                    cx.clone()
                } else {
                    cx.with_correlations(correlations)
                }
            },
            None => cx.clone(),
        }
    }

    fn fields(&self) -> (names: Vec<String>) {
        let mut names: Vec<String> = Vec::new();
        names.push(CORRELATION_CONTEXT_HEADER.to_owned());
        assert(names_of(names@) =~= seq![header_name()]);
        names
    }
}

/// Methods for storing and retrieving correlation data in a context.
pub trait CorrelationContextExt: Sized {
    /// The view of the context.
    spec fn context(&self) -> ContextView;

    /// A copy of the current context of `slot` with the given name/value
    /// pairs put into its correlation data.
    fn current_with_correlations(slot: &CurrentContext, correlations: Vec<KeyValue>) -> (cx: Self)
        ensures
            cx.context() == (ContextView {
                correlations: Some(
                    with_entries(correlations_of(slot@), entries_of(correlations@)),
                ),
                ..slot@
            }),
    ;

    /// A copy of the context with the given name/value pairs put into its
    /// correlation data, in order: a pair takes the place of an entry of the
    /// same name, and of two pairs of one name the later one stays.
    fn with_correlations(&self, correlations: Vec<KeyValue>) -> (cx: Self)
        ensures
            cx.context() == (ContextView {
                correlations: Some(
                    with_entries(correlations_of(self.context()), entries_of(correlations@)),
                ),
                ..self.context()
            }),
    ;

    /// A copy of the context with empty correlation data.
    fn with_cleared_correlations(&self) -> (cx: Self)
        ensures
            cx.context() == (ContextView {
                correlations: Some(Seq::empty()),
                ..self.context()
            }),
    ;

    /// The correlation data of the context, empty where none has been set.
    fn correlation_context(&self) -> (cc: &CorrelationContext)
        ensures
            cc@ == correlations_of(self.context()),
    ;
}

impl CorrelationContextExt for Context {
    open spec fn context(&self) -> ContextView {
        self@
    }

    fn current_with_correlations(slot: &CurrentContext, correlations: Vec<KeyValue>) -> (cx: Self) {
        slot.current().with_correlations(correlations)
    }

    fn with_correlations(&self, correlations: Vec<KeyValue>) -> (cx: Self) {
        let mut merged = self.correlation_context().clone();
        let ghost start = merged@;
        let ghost all = entries_of(correlations@);
        let mut correlations = correlations;
        let mut i: usize = 0;
        assert(all.skip(0) =~= all);
        while i < correlations.len()
            invariant
                i <= correlations.len(),
                all == entries_of(correlations@),
                with_entries(start, all) == with_entries(merged@, all.skip(i as int)),
            decreases correlations.len() - i,
        {
            proof {
                assert(all.skip(i as int).drop_first() =~= all.skip(i + 1));
                assert(all.skip(i as int)[0] == correlations@[i as int]@);
            }
            let pair = correlations[i].clone();
            merged.insert(pair.key, pair.value);
            i += 1;
        }
        self.with_value(merged)
    }

    fn with_cleared_correlations(&self) -> (cx: Self) {
        self.with_value(CorrelationContext::new())
    }

    fn correlation_context(&self) -> (cc: &CorrelationContext) {
        let cc = self.correlations();
        assert(cc@ == correlations_of(self@));
        assert(self.context() == self@);
        cc
    }
}

/// Correlation data without entries never writes the field: injecting it
/// leaves every carrier as it was.
pub proof fn empty_correlations_write_nothing(
    propagator: CorrelationContextPropagator,
    cx: ContextView,
    sets: Setting,
    before: Fields,
    after: Fields,
)
    requires
        correlations_of(cx).len() == 0,
        propagator.injects(cx, sets, before, after),
    ensures
        after == before,
{
}

/// Injection is repeatable: injecting the same context into two carriers
/// that hold the same fields leaves them with the same fields, where what
/// `set` leaves in such a carrier depends on what it held, the key and the
/// value alone.
pub proof fn inject_twice_gives_same_fields(
    propagator: CorrelationContextPropagator,
    cx: ContextView,
    sets: Setting,
    before: Fields,
    first: Fields,
    second: Fields,
)
    requires
        forall|held: Fields, key: Seq<char>, value: Seq<char>, one: Fields, other: Fields|
            #![trigger sets(held, key, value, one), sets(held, key, value, other)]
            sets(held, key, value, one) && sets(held, key, value, other) ==> one == other,
        propagator.injects(cx, sets, before, first),
        propagator.injects(cx, sets, before, second),
    ensures
        first == second,
{
}

/// Injection into map carriers is repeatable: injecting the same context
/// into two maps that hold the same fields leaves them with the same fields.
pub proof fn inject_twice_gives_same_map(
    propagator: CorrelationContextPropagator,
    cx: ContextView,
    before: Fields,
    first: Fields,
    second: Fields,
)
    requires
        propagator.injects(cx, setting::<HashMap<String, String>>(), before, first),
        propagator.injects(cx, setting::<HashMap<String, String>>(), before, second),
    ensures
        first == second,
{
}

} // verus!
