//! Correlation data: name/value pairs that travel with a request.
use crate::api::value::{Key, KeyValue, Value, ValueView};
use vstd::prelude::*;

pub mod percent;
pub mod propagation;
pub mod round_trip;

verus! {

/// A name with its value, as mathematical data.
pub type Entry = (Seq<char>, ValueView);

/// The entries that `pairs` hold.
pub open spec fn entries_of(pairs: Seq<KeyValue>) -> Seq<Entry> {
    pairs.map_values(|pair: KeyValue| pair@)
}

/// Whether no two entries share a key.
pub open spec fn unique_keys(entries: Seq<Entry>) -> bool {
    forall|i: int, j: int| 0 <= i < j < entries.len() ==> entries[i].0 != entries[j].0
}

/// The index of the first entry under `key`, or the number of entries if
/// there is none.
pub open spec fn key_index(entries: Seq<Entry>, key: Seq<char>) -> int
    decreases entries.len(),
{
    if entries.len() == 0 || entries[0].0 == key {
        0
    } else {
        1 + key_index(entries.drop_first(), key)
    }
}

/// Whether an entry stands under `key`.
pub open spec fn has_key(entries: Seq<Entry>, key: Seq<char>) -> bool {
    exists|i: int| 0 <= i < entries.len() && entries[i].0 == key
}

/// The value under `key`, if there is one.
pub open spec fn value_of(entries: Seq<Entry>, key: Seq<char>) -> Option<ValueView> {
    let at = key_index(entries, key);
    if 0 <= at < entries.len() {
        Some(entries[at].1)
    } else {
        None
    }
}

/// The entries once `value` stands under `key`: an entry under that key keeps
/// its place and takes the new value, a new key goes to the end.
pub open spec fn with_entry(entries: Seq<Entry>, key: Seq<char>, value: ValueView) -> Seq<Entry> {
    let at = key_index(entries, key);
    if 0 <= at < entries.len() {
        entries.update(at, (key, value))
    } else {
        entries.push((key, value))
    }
}

/// The entries once each of `more` has been put in, in order: of two under
/// one key the later one stays.
pub open spec fn with_entries(entries: Seq<Entry>, more: Seq<Entry>) -> Seq<Entry>
    decreases more.len(),
{
    if more.len() == 0 {
        entries
    } else {
        with_entries(with_entry(entries, more[0].0, more[0].1), more.drop_first())
    }
}

/// The entries without the one under `key`.
pub open spec fn without_key(entries: Seq<Entry>, key: Seq<char>) -> Seq<Entry> {
    let at = key_index(entries, key);
    if 0 <= at < entries.len() {
        entries.remove(at)
    } else {
        entries
    }
}

/// `key_index` is the least index under `key`, and the length where no entry
/// stands under it.
pub proof fn lemma_key_index(entries: Seq<Entry>, key: Seq<char>)
    ensures
        0 <= key_index(entries, key) <= entries.len(),
        forall|k: int| 0 <= k < key_index(entries, key) ==> entries[k].0 != key,
        key_index(entries, key) < entries.len() ==> entries[key_index(entries, key)].0 == key,
        has_key(entries, key) <==> key_index(entries, key) < entries.len(),
    decreases entries.len(),
{
    if entries.len() == 0 || entries[0].0 == key {
    } else {
        let rest = entries.drop_first();
        lemma_key_index(rest, key);
        assert forall|k: int| 0 <= k < key_index(entries, key) implies entries[k].0 != key by {
            if k > 0 {
                assert(entries[k] == rest[k - 1]);
            }
        }
        if has_key(entries, key) {
            let i = choose|i: int| 0 <= i < entries.len() && entries[i].0 == key;
            assert(rest[i - 1].0 == key);
        }
        if has_key(rest, key) {
            let i = choose|i: int| 0 <= i < rest.len() && rest[i].0 == key;
            assert(entries[i + 1].0 == key);
        }
    }
}

/// An index under `key` after none under it is the `key_index`.
pub proof fn lemma_key_index_is(entries: Seq<Entry>, key: Seq<char>, at: int)
    requires
        0 <= at <= entries.len(),
        forall|k: int| 0 <= k < at ==> entries[k].0 != key,
        at < entries.len() ==> entries[at].0 == key,
    ensures
        key_index(entries, key) == at,
{
    lemma_key_index(entries, key);
    let found = key_index(entries, key);
    if found < at {
        assert(entries[found].0 == key);
    } else if at < found {
        assert(entries[at].0 == key);
    }
}

/// Putting an entry in keeps the keys unique, sets the value under its key
/// and leaves every other key as it was.
pub proof fn lemma_with_entry(entries: Seq<Entry>, key: Seq<char>, value: ValueView)
    requires
        unique_keys(entries),
    ensures
        unique_keys(with_entry(entries, key, value)),
        value_of(with_entry(entries, key, value), key) == Some(value),
        forall|other: Seq<char>|
            other != key ==> #[trigger] value_of(with_entry(entries, key, value), other)
                == value_of(entries, other),
        with_entry(entries, key, value).len() >= entries.len(),
{
    lemma_key_index(entries, key);
    let at = key_index(entries, key);
    let after = with_entry(entries, key, value);
    lemma_key_index_is(after, key, at);
    assert forall|other: Seq<char>| other != key implies #[trigger] value_of(after, other)
        == value_of(entries, other) by {
        lemma_key_index(entries, other);
        let there = key_index(entries, other);
        if there < entries.len() {
            lemma_key_index_is(after, other, there);
        } else {
            lemma_key_index_is(after, other, after.len() as int);
        }
    }
}

/// Merging keeps the keys unique and loses no entry.
pub proof fn merge_keeps_keys_unique(base: Seq<Entry>, more: Seq<Entry>)
    requires
        unique_keys(base),
    ensures
        unique_keys(with_entries(base, more)),
        with_entries(base, more).len() >= base.len(),
    decreases more.len(),
{
    if more.len() > 0 {
        lemma_with_entry(base, more[0].0, more[0].1);
        merge_keeps_keys_unique(with_entry(base, more[0].0, more[0].1), more.drop_first());
    }
}

/// Merging leaves a key alone that none of the new entries has: its value,
/// or its absence, is that of the base.
pub proof fn merge_keeps_the_base(base: Seq<Entry>, more: Seq<Entry>, key: Seq<char>)
    requires
        unique_keys(base),
        !has_key(more, key),
    ensures
        value_of(with_entries(base, more), key) == value_of(base, key),
    decreases more.len(),
{
    if more.len() > 0 {
        let rest = more.drop_first();
        assert(more[0].0 != key);
        assert(!has_key(rest, key)) by {
            if has_key(rest, key) {
                let i = choose|i: int| 0 <= i < rest.len() && rest[i].0 == key;
                assert(more[i + 1].0 == key);
            }
        }
        lemma_with_entry(base, more[0].0, more[0].1);
        merge_keeps_the_base(with_entry(base, more[0].0, more[0].1), rest, key);
    }
}

/// Of several new entries under one key the last one wins: after merging,
/// the key of an entry that no later entry shares holds the value of that
/// entry, whatever the base and the earlier entries held under it.
pub proof fn merge_takes_the_last(base: Seq<Entry>, more: Seq<Entry>, last: int)
    requires
        unique_keys(base),
        0 <= last < more.len(),
        forall|k: int| last < k < more.len() ==> (#[trigger] more[k]).0 != more[last].0,
    ensures
        value_of(with_entries(base, more), more[last].0) == Some(more[last].1),
    decreases more.len(),
{
    let rest = more.drop_first();
    let next = with_entry(base, more[0].0, more[0].1);
    lemma_with_entry(base, more[0].0, more[0].1);
    if last == 0 {
        assert(!has_key(rest, more[0].0)) by {
            if has_key(rest, more[0].0) {
                let i = choose|i: int| 0 <= i < rest.len() && rest[i].0 == more[0].0;
                assert(more[i + 1].0 == more[0].0);
            }
        }
        merge_keeps_the_base(next, rest, more[0].0);
    } else {
        assert(rest[last - 1] == more[last]);
        assert forall|k: int| last - 1 < k < rest.len() implies (#[trigger] rest[k]).0 != rest[last
            - 1].0 by {
            assert(rest[k] == more[k + 1]);
        }
        merge_takes_the_last(next, rest, last - 1);
    }
}

/// Name/value pairs of application data, kept in the order in which their
/// keys first came. No two entries share a key.
#[derive(Debug)]
pub struct CorrelationContext {
    entries: Vec<KeyValue>,
}

impl View for CorrelationContext {
    type V = Seq<Entry>;

    closed spec fn view(&self) -> Seq<Entry> {
        entries_of(self.entries@)
    }
}

impl Clone for CorrelationContext {
    fn clone(&self) -> (r: Self)
        ensures
            r@ == self@,
    {
        proof {
            use_type_invariant(self);
        }
        let mut entries: Vec<KeyValue> = Vec::new();
        let mut i: usize = 0;
        while i < self.entries.len()
            invariant
                i <= self.entries.len(),
                entries.len() == i,
                entries_of(entries@) == self@.take(i as int),
            decreases self.entries.len() - i,
        {
            let pair = self.entries[i].clone();
            let ghost before = entries@;
            entries.push(pair);
            assert forall|k: int| 0 <= k <= i implies entries_of(entries@)[k] == self@[k] by {
                if k < i {
                    assert(entries_of(before)[k] == self@.take(i as int)[k]);
                }
            }
            assert(entries_of(entries@) =~= self@.take(i + 1));
            i += 1;
        }
        assert(self@.take(self.entries.len() as int) =~= self@);
        CorrelationContext { entries }
    }
}

impl CorrelationContext {
    #[verifier::type_invariant]
    closed spec fn keys_are_unique(&self) -> bool {
        unique_keys(self@)
    }

    /// An empty correlation context.
    pub fn new() -> (cc: CorrelationContext)
        ensures
            cc@ == Seq::<Entry>::empty(),
    {
        let cc = CorrelationContext { entries: Vec::new() };
        assert(cc@ =~= Seq::<Entry>::empty());
        cc
    }

    /// The number of entries.
    pub fn len(&self) -> (n: usize)
        ensures
            n == self@.len(),
    {
        self.entries.len()
    }

    /// Whether there is no entry.
    pub fn is_empty(&self) -> (empty: bool)
        ensures
            empty == (self@.len() == 0),
    {
        self.entries.len() == 0
    }

    /// The entries, in order. No two share a key.
    pub fn entries(&self) -> (entries: &[KeyValue])
        ensures
            entries_of(entries@) == self@,
            unique_keys(self@),
    {
        proof {
            use_type_invariant(self);
        }
        self.entries.as_slice()
    }

    /// Moves the entries out and leaves none.
    fn take_entries(&mut self) -> (entries: Vec<KeyValue>)
        ensures
            entries_of(entries@) == old(self)@,
            final(self)@ == Seq::<Entry>::empty(),
    {
        let mut taken = CorrelationContext::new();
        core::mem::swap(self, &mut taken);
        let CorrelationContext { entries } = taken;
        entries
    }

    /// The index of the entry under `key`, or the number of entries.
    fn find(&self, key: &str) -> (at: usize)
        ensures
            at == key_index(self@, key@),
            at <= self@.len(),
    {
        let mut i: usize = 0;
        while i < self.entries.len() && !self.entries[i].key.is_named(key)
            invariant
                i <= self.entries.len(),
                forall|k: int| 0 <= k < i ==> self@[k].0 != key@,
            decreases self.entries.len() - i,
        {
            i += 1;
        }
        proof {
            lemma_key_index_is(self@, key@, i as int);
        }
        i
    }

    /// The value under `key`, if there is one.
    pub fn get(&self, key: &str) -> (value: Option<&Value>)
        ensures
            value is Some <==> has_key(self@, key@),
            value matches Some(v) ==> value_of(self@, key@) == Some(v@),
    {
        proof {
            lemma_key_index(self@, key@);
        }
        let at = self.find(key);
        if at < self.entries.len() {
            Some(&self.entries[at].value)
        } else {
            None
        }
    }

    /// Puts `value` under `key`. An entry under that key keeps its place and
    /// takes the new value; a new key goes to the end.
    pub fn insert(&mut self, key: Key, value: Value)
        ensures
            final(self)@ == with_entry(old(self)@, key@, value@),
    {
        proof {
            use_type_invariant(&*self);
            lemma_with_entry(self@, key@, value@);
        }
        let at = self.find(key.as_str());
        let ghost before = self@;
        let mut entries = self.take_entries();
        if at < entries.len() {
            entries.set(at, KeyValue::new(key, value));
        } else {
            entries.push(KeyValue::new(key, value));
        }
        assert(entries_of(entries@) =~= with_entry(before, key@, value@));
        *self = CorrelationContext { entries };
    }

    /// Takes out the entry under `key`, if there is one, and returns its value.
    pub fn remove(&mut self, key: &str) -> (value: Option<Value>)
        ensures
            final(self)@ == without_key(old(self)@, key@),
            value is Some <==> has_key(old(self)@, key@),
            value matches Some(v) ==> value_of(old(self)@, key@) == Some(v@),
    {
        proof {
            use_type_invariant(&*self);
            lemma_key_index(self@, key@);
        }
        let at = self.find(key);
        let ghost before = self@;
        if at < self.entries.len() {
            let mut entries = self.take_entries();
            let pair = entries.remove(at);
            assert(entries_of(entries@) =~= before.remove(at as int));
            *self = CorrelationContext { entries };
            Some(pair.value)
        } else {
            None
        }
    }
}

} // verus!
