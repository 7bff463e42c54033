//! Keys and values: the data that attributes and correlations are made of.
use crate::api::text::{
    append_chars, chars_of, decimal, push_decimal, push_signed_decimal, signed_decimal,
    string_from_chars, text_from_utf8,
};
use vstd::prelude::*;
use vstd::utf8::{decode_utf8, valid_utf8};

verus! {

/// The name of an attribute or of a correlation.
#[derive(Debug, PartialEq, Eq, Hash)]
pub struct Key {
    name: String,
}

impl View for Key {
    type V = Seq<char>;

    closed spec fn view(&self) -> Seq<char> {
        self.name@
    }
}

impl Clone for Key {
    fn clone(&self) -> (r: Self)
        ensures
            r@ == self@,
    {
        Key { name: self.name.clone() }
    }
}

impl Key {
    /// A key with the given name.
    pub fn new(name: &str) -> (key: Key)
        ensures
            key@ == name@,
    {
        Key { name: name.to_owned() }
    }

    /// The name of the key.
    pub fn as_str(&self) -> (name: &str)
        ensures
            name@ == self@,
    {
        self.name.as_str()
    }

    /// Whether the key has the given name.
    pub fn is_named(&self, name: &str) -> (same: bool)
        ensures
            same == (self@ == name@),
    {
        let other = name.to_owned();
        self.name == other
    }
}

/// A value: one of a closed set of kinds.
#[derive(Debug, PartialEq)]
pub enum Value {
    /// A truth value.
    Bool(bool),
    /// A signed integer.
    I64(i64),
    /// An unsigned integer.
    U64(u64),
    /// A floating-point number, held as its decimal numeral.
    F64(String),
    /// A text.
    String(String),
    /// A byte sequence.
    Bytes(Vec<u8>),
    /// A list of values.
    Array(Vec<Value>),
}

/// What a [`Value`] holds, as mathematical data.
pub enum ValueView {
    Bool(bool),
    I64(i64),
    U64(u64),
    F64(Seq<char>),
    String(Seq<char>),
    Bytes(Seq<u8>),
    Array(Seq<ValueView>),
}

/// What `v` holds.
pub open spec fn value_view(v: Value) -> ValueView
    decreases v,
{
    match v {
        Value::Bool(b) => ValueView::Bool(b),
        Value::I64(n) => ValueView::I64(n),
        Value::U64(n) => ValueView::U64(n),
        Value::F64(numeral) => ValueView::F64(numeral@),
        Value::String(text) => ValueView::String(text@),
        Value::Bytes(bytes) => ValueView::Bytes(bytes@),
        Value::Array(items) => ValueView::Array(
            Seq::new(
                items@.len(),
                |i: int|
                    if 0 <= i < items@.len() {
                        value_view(items@[i])
                    } else {
                        ValueView::Bool(false)
                    },
            ),
        ),
    }
}

impl View for Value {
    type V = ValueView;

    open spec fn view(&self) -> ValueView {
        value_view(*self)
    }
}

/// The text of a value: `true` or `false`, a decimal numeral, the text
/// itself, the bytes read as UTF-8 (nothing where they are not UTF-8), or, for
/// a list, the texts of its items between square brackets.
pub open spec fn value_text(v: ValueView) -> Seq<char>
    decreases v, 2int, 0nat,
{
    match v {
        ValueView::Bool(b) => if b {
            seq!['t', 'r', 'u', 'e']
        } else {
            seq!['f', 'a', 'l', 's', 'e']
        },
        ValueView::I64(n) => signed_decimal(n as int),
        ValueView::U64(n) => decimal(n as nat),
        ValueView::F64(numeral) => numeral,
        ValueView::String(text) => text,
        ValueView::Bytes(bytes) => if valid_utf8(bytes) {
            decode_utf8(bytes)
        } else {
            Seq::empty()
        },
        ValueView::Array(items) => seq!['['] + listed_text(v, items.len()) + seq![']'],
    }
}

/// The texts of the first `n` items of the list `v`, separated by commas.
pub open spec fn listed_text(v: ValueView, n: nat) -> Seq<char>
    decreases v, 1int, n,
{
    match v {
        ValueView::Array(items) => if n == 0 || n > items.len() {
            Seq::empty()
        } else if n == 1 {
            item_text(items[0])
        } else {
            listed_text(v, (n - 1) as nat) + seq![','] + item_text(items[n - 1])
        },
        _ => Seq::empty(),
    }
}

/// The text of a value as an item of a list: texts and byte sequences stand
/// in double quotes.
pub open spec fn item_text(v: ValueView) -> Seq<char>
    decreases v, 3int, 0nat,
{
    match v {
        ValueView::String(_) | ValueView::Bytes(_) => seq!['"'] + value_text(v) + seq!['"'],
        _ => value_text(v),
    }
}

impl Clone for Value {
    fn clone(&self) -> (r: Self)
        ensures
            r@ == self@,
    {
        self.duplicate()
    }
}

impl Value {
    /// A copy of the value.
    pub fn duplicate(&self) -> (r: Self)
        ensures
            r@ == self@,
        decreases self,
    {
        match self {
            Value::Bool(b) => Value::Bool(*b),
            Value::I64(n) => Value::I64(*n),
            Value::U64(n) => Value::U64(*n),
            Value::F64(numeral) => Value::F64(numeral.clone()),
            Value::String(text) => Value::String(text.clone()),
            Value::Bytes(bytes) => {
                let mut copy: Vec<u8> = Vec::new();
                let mut i: usize = 0;
                while i < bytes.len()
                    invariant
                        i <= bytes.len(),
                        copy@ == bytes@.take(i as int),
                    decreases bytes.len() - i,
                {
                    copy.push(bytes[i]);
                    i += 1;
                }
                assert(bytes@.take(bytes.len() as int) == bytes@);
                Value::Bytes(copy)
            },
            Value::Array(items) => {
                let mut copy: Vec<Value> = Vec::new();
                let mut i: usize = 0;
                while i < items.len()
                    invariant
                        i <= items.len(),
                        copy.len() == i,
                        *self == Value::Array(*items),
                        forall|k: int| 0 <= k < i ==> copy@[k]@ == items@[k]@,
                    decreases items.len() - i,
                {
                    proof {
                        assert(self@ is Array);
                        assert(decreases_to!(*self => *items));
                        assert(decreases_to!(*items => items[i as int]));
                    }
                    copy.push(items[i].duplicate());
                    i += 1;
                }
                let r = Value::Array(copy);
                assert(r@ == self@) by {
                    assert(r@->Array_0 =~= self@->Array_0);
                }
                r
            },
        }
    }

    /// Appends the text of the value to `out`.
    pub fn push_text(&self, out: &mut Vec<char>)
        ensures
            final(out)@ == old(out)@ + value_text(self@),
        decreases self, 0int,
    {
        match self {
            Value::Bool(b) => {
                if *b {
                    out.push('t');
                    out.push('r');
                    out.push('u');
                    out.push('e');
                } else {
                    out.push('f');
                    out.push('a');
                    out.push('l');
                    out.push('s');
                    out.push('e');
                }
                assert(final(out)@ =~= old(out)@ + value_text(self@));
            },
            Value::I64(n) => push_signed_decimal(out, *n),
            Value::U64(n) => push_decimal(out, *n),
            Value::F64(numeral) => {
                let chars = chars_of(numeral.as_str());
                append_chars(out, chars.as_slice());
            },
            Value::String(text) => {
                let chars = chars_of(text.as_str());
                append_chars(out, chars.as_slice());
            },
            Value::Bytes(bytes) => {
                match text_from_utf8(bytes.as_slice()) {
                    Some(chars) => append_chars(out, chars.as_slice()),
                    None => {
                        assert(final(out)@ =~= old(out)@ + value_text(self@));
                    },
                }
            },
            Value::Array(items) => {
                out.push('[');
                let mut i: usize = 0;
                while i < items.len()
                    invariant
                        i <= items.len(),
                        *self == Value::Array(*items),
                        out@ == old(out)@ + seq!['['] + listed_text(self@, i as nat),
                    decreases items.len() - i,
                {
                    if i > 0 {
                        out.push(',');
                    }
                    proof {
                        assert(decreases_to!(*self => *items));
                        assert(decreases_to!(*items => items[i as int]));
                    }
                    items[i].push_item_text(out);
                    assert(out@ =~= old(out)@ + seq!['['] + listed_text(self@, (i + 1) as nat));
                    i += 1;
                }
                out.push(']');
                assert(final(out)@ =~= old(out)@ + value_text(self@));
            },
        }
    }

    /// Appends the text of the value as an item of a list to `out`.
    pub fn push_item_text(&self, out: &mut Vec<char>)
        ensures
            final(out)@ == old(out)@ + item_text(self@),
        decreases self, 1int,
    {
        match self {
            Value::String(_) | Value::Bytes(_) => {
                out.push('"');
                self.push_text(out);
                out.push('"');
                assert(final(out)@ =~= old(out)@ + item_text(self@));
            },
            _ => self.push_text(out),
        }
    }

    /// The text of the value.
    pub fn text(&self) -> (text: String)
        ensures
            text@ == value_text(self@),
    {
        let mut out: Vec<char> = Vec::new();
        self.push_text(&mut out);
        string_from_chars(out.as_slice())
    }
}

/// A key with its value.
#[derive(Debug, PartialEq)]
pub struct KeyValue {
    /// The key.
    pub key: Key,
    /// The value.
    pub value: Value,
}

impl View for KeyValue {
    type V = (Seq<char>, ValueView);

    open spec fn view(&self) -> (Seq<char>, ValueView) {
        (self.key@, self.value@)
    }
}

impl Clone for KeyValue {
    fn clone(&self) -> (r: Self)
        ensures
            r@ == self@,
    {
        KeyValue { key: self.key.clone(), value: self.value.clone() }
    }
}

impl KeyValue {
    /// The pair of `key` and `value`.
    pub fn new(key: Key, value: Value) -> (pair: KeyValue)
        ensures
            pair@ == (key@, value@),
    {
        KeyValue { key, value }
    }
}

} // verus!
