//! The typed values that flow through the connectors, and the named-field
//! records built from them.

use crate::string_map::StringMap;
use crate::text::{bytes_equal, text_equal};
use vstd::prelude::*;

verus! {

/// What an event does to the row it carries.
#[derive(Clone, Copy, Debug, PartialEq, Eq, Structural)]
pub enum DataEventType {
    Insert,
    Delete,
    Upsert,
}

/// The declared type of a column.
#[derive(Clone, Copy, Debug, PartialEq, Eq, Structural)]
pub enum Type {
    Any,
    Bool,
    Int,
    Float,
    Pointer,
    String,
    Bytes,
    DateTimeNaive,
    DateTimeUtc,
    Duration,
    Array,
    Json,
    Tuple,
    PyObjectWrapper,
}

/// One typed value.
///
/// Floating-point numbers are carried as their IEEE-754 binary64 bit pattern
/// and two of them are the same value exactly when the patterns are the same.
/// Points in time and durations are counted in nanoseconds. JSON documents are
/// carried as their text.
#[derive(Debug, PartialEq, Eq)]
pub enum Value {
    /// The absent value.
    Null,
    Bool(bool),
    Int(i64),
    Float(u64),
    Pointer(u128),
    String(String),
    Bytes(Vec<u8>),
    Tuple(Vec<Value>),
    /// Shape and row-major elements of an integer array.
    IntArray(Vec<u64>, Vec<i64>),
    /// Shape and row-major elements (as bit patterns) of a float array.
    FloatArray(Vec<u64>, Vec<u64>),
    DateTimeNaive(i64),
    DateTimeUtc(i64),
    Duration(i64),
    Json(String),
    Error,
    /// An opaque foreign object in its serialised form.
    PyObjectWrapper(Vec<u8>),
}

/// The mathematical content of a [`Value`].
pub enum ValueView {
    Null,
    Bool(bool),
    Int(i64),
    Float(u64),
    Pointer(u128),
    String(Seq<char>),
    Bytes(Seq<u8>),
    Tuple(Seq<ValueView>),
    IntArray(Seq<u64>, Seq<i64>),
    FloatArray(Seq<u64>, Seq<u64>),
    DateTimeNaive(i64),
    DateTimeUtc(i64),
    Duration(i64),
    Json(Seq<char>),
    Error,
    PyObjectWrapper(Seq<u8>),
}

/// The content of each value of a list, in order.
pub open spec fn values_view(items: Seq<Value>) -> Seq<ValueView>
    decreases items, 0nat,
{
    Seq::new(
        items.len(),
        |i: int|
            if 0 <= i < items.len() {
                value_view(items[i])
            } else {
                ValueView::Null
            },
    )
}

/// The content of one value.
pub open spec fn value_view(v: Value) -> ValueView
    decreases v, 1nat,
{
    match v {
        Value::Null => ValueView::Null,
        Value::Bool(b) => ValueView::Bool(b),
        Value::Int(i) => ValueView::Int(i),
        Value::Float(bits) => ValueView::Float(bits),
        Value::Pointer(p) => ValueView::Pointer(p),
        Value::String(s) => ValueView::String(s@),
        Value::Bytes(b) => ValueView::Bytes(b@),
        Value::Tuple(items) => ValueView::Tuple(values_view(items@)),
        Value::IntArray(shape, data) => ValueView::IntArray(shape@, data@),
        Value::FloatArray(shape, data) => ValueView::FloatArray(shape@, data@),
        Value::DateTimeNaive(t) => ValueView::DateTimeNaive(t),
        Value::DateTimeUtc(t) => ValueView::DateTimeUtc(t),
        Value::Duration(d) => ValueView::Duration(d),
        Value::Json(text) => ValueView::Json(text@),
        Value::Error => ValueView::Error,
        Value::PyObjectWrapper(b) => ValueView::PyObjectWrapper(b@),
    }
}

impl View for Value {
    type V = ValueView;

    open spec fn view(&self) -> ValueView {
        value_view(*self)
    }
}

/// The content of an optional list of values.
pub open spec fn optional_values_view(key: Option<Vec<Value>>) -> Option<Seq<ValueView>> {
    match key {
        Some(items) => Some(values_view(items@)),
        None => None,
    }
}

/// A copy of a list of plain elements.
pub fn copy_of<T: Copy>(items: &Vec<T>) -> (r: Vec<T>)
    ensures
        r@ == items@,
{
    let mut r: Vec<T> = Vec::new();
    let mut i: usize = 0;
    while i < items.len()
        invariant
            i <= items.len(),
            r@ == items@.subrange(0, i as int),
        decreases items.len() - i,
    {
        r.push(items[i]);
        assert(r@ =~= items@.subrange(0, i + 1));
        i += 1;
    }
    assert(items@.subrange(0, items.len() as int) =~= items@);
    r
}

fn same_u64s(a: &Vec<u64>, b: &Vec<u64>) -> (r: bool)
    ensures
        r == (a@ == b@),
{
    if a.len() != b.len() {
        return false;
    }
    let mut i: usize = 0;
    while i < a.len()
        invariant
            i <= a.len(),
            a.len() == b.len(),
            forall|j: int| 0 <= j < i ==> a@[j] == b@[j],
        decreases a.len() - i,
    {
        if a[i] != b[i] {
            return false;
        }
        i += 1;
    }
    assert(a@ =~= b@);
    true
}

fn same_i64s(a: &Vec<i64>, b: &Vec<i64>) -> (r: bool)
    ensures
        r == (a@ == b@),
{
    if a.len() != b.len() {
        return false;
    }
    let mut i: usize = 0;
    while i < a.len()
        invariant
            i <= a.len(),
            a.len() == b.len(),
            forall|j: int| 0 <= j < i ==> a@[j] == b@[j],
        decreases a.len() - i,
    {
        if a[i] != b[i] {
            return false;
        }
        i += 1;
    }
    assert(a@ =~= b@);
    true
}

impl Value {
    /// Whether two values have the same content.
    pub fn same(&self, other: &Value) -> (r: bool)
        ensures
            r == (self@ == other@),
        decreases self,
    {
        match self {
            Value::Null => matches!(other, Value::Null),
            Value::Bool(a) => match other {
                Value::Bool(b) => *a == *b,
                _ => false,
            },
            Value::Int(a) => match other {
                Value::Int(b) => *a == *b,
                _ => false,
            },
            Value::Float(a) => match other {
                Value::Float(b) => *a == *b,
                _ => false,
            },
            Value::Pointer(a) => match other {
                Value::Pointer(b) => *a == *b,
                _ => false,
            },
            Value::String(a) => match other {
                Value::String(b) => text_equal(a.as_str(), b.as_str()),
                _ => false,
            },
            Value::Bytes(a) => match other {
                Value::Bytes(b) => bytes_equal(a.as_slice(), b.as_slice()),
                _ => false,
            },
            Value::Tuple(a) => match other {
                Value::Tuple(b) => {
                    if a.len() != b.len() {
                        assert(values_view(a@).len() != values_view(b@).len());
                        return false;
                    }
                    let mut i: usize = 0;
                    while i < a.len()
                        invariant
                            i <= a.len(),
                            a.len() == b.len(),
                            *self == Value::Tuple(*a),
                            *other == Value::Tuple(*b),
                            forall|j: int| 0 <= j < i ==> a[j]@ == b[j]@,
                        decreases a.len() - i,
                    {
                        proof {
                            assert(decreases_to!(*self => self->Tuple_0));
                            assert(decreases_to!(self->Tuple_0 => self->Tuple_0[i as int]));
                        }
                        if !a[i].same(&b[i]) {
                            assert(values_view(a@)[i as int] == a[i as int]@);
                            assert(values_view(b@)[i as int] == b[i as int]@);
                            return false;
                        }
                        i += 1;
                    }
                    assert(values_view(a@) =~= values_view(b@));
                    true
                },
                _ => false,
            },
            Value::IntArray(shape, data) => match other {
                Value::IntArray(other_shape, other_data) => same_u64s(shape, other_shape)
                    && same_i64s(data, other_data),
                _ => false,
            },
            Value::FloatArray(shape, data) => match other {
                Value::FloatArray(other_shape, other_data) => same_u64s(shape, other_shape)
                    && same_u64s(data, other_data),
                _ => false,
            },
            Value::DateTimeNaive(a) => match other {
                Value::DateTimeNaive(b) => *a == *b,
                _ => false,
            },
            Value::DateTimeUtc(a) => match other {
                Value::DateTimeUtc(b) => *a == *b,
                _ => false,
            },
            Value::Duration(a) => match other {
                Value::Duration(b) => *a == *b,
                _ => false,
            },
            Value::Json(a) => match other {
                Value::Json(b) => text_equal(a.as_str(), b.as_str()),
                _ => false,
            },
            Value::Error => matches!(other, Value::Error),
            Value::PyObjectWrapper(a) => match other {
                Value::PyObjectWrapper(b) => bytes_equal(a.as_slice(), b.as_slice()),
                _ => false,
            },
        }
    }

    /// The text value made of `text`.
    pub fn from_text(text: &str) -> (r: Value)
        ensures
            r@ == ValueView::String(text@),
    {
        Value::String(text.to_owned())
    }
}

impl Clone for Value {
    fn clone(&self) -> (r: Self)
        ensures
            r@ == self@,
        decreases self,
    {
        match self {
            Value::Null => Value::Null,
            Value::Bool(b) => Value::Bool(*b),
            Value::Int(i) => Value::Int(*i),
            Value::Float(bits) => Value::Float(*bits),
            Value::Pointer(p) => Value::Pointer(*p),
            Value::String(s) => Value::String(s.clone()),
            Value::Bytes(b) => Value::Bytes(copy_of(b)),
            Value::Tuple(items) => {
                let mut copies: Vec<Value> = Vec::new();
                let mut i: usize = 0;
                while i < items.len()
                    invariant
                        i <= items.len(),
                        *self == Value::Tuple(*items),
                        copies.len() == i,
                        forall|j: int| 0 <= j < i ==> copies[j]@ == items[j]@,
                    decreases items.len() - i,
                {
                    proof {
                        assert(decreases_to!(*self => self->Tuple_0));
                        assert(decreases_to!(self->Tuple_0 => self->Tuple_0[i as int]));
                    }
                    copies.push(items[i].clone());
                    i += 1;
                }
                assert(values_view(copies@) =~= values_view(items@));
                Value::Tuple(copies)
            },
            Value::IntArray(shape, data) => Value::IntArray(copy_of(shape), copy_of(data)),
            Value::FloatArray(shape, data) => Value::FloatArray(copy_of(shape), copy_of(data)),
            Value::DateTimeNaive(t) => Value::DateTimeNaive(*t),
            Value::DateTimeUtc(t) => Value::DateTimeUtc(*t),
            Value::Duration(d) => Value::Duration(*d),
            Value::Json(text) => Value::Json(text.clone()),
            Value::Error => Value::Error,
            Value::PyObjectWrapper(b) => Value::PyObjectWrapper(copy_of(b)),
        }
    }
}

/// A copy of a list of values.
pub fn clone_values(items: &Vec<Value>) -> (r: Vec<Value>)
    ensures
        values_view(r@) == values_view(items@),
{
    let mut copies: Vec<Value> = Vec::new();
    let mut i: usize = 0;
    while i < items.len()
        invariant
            i <= items.len(),
            copies.len() == i,
            forall|j: int| 0 <= j < i ==> copies[j]@ == items[j]@,
        decreases items.len() - i,
    {
        copies.push(items[i].clone());
        i += 1;
    }
    assert(values_view(copies@) =~= values_view(items@));
    copies
}

/// The field name under which a producer announces the end of its stream.
pub open spec fn special_field_name() -> Seq<char> {
    "_pw_special"@
}

/// The content of each value of a record.
pub open spec fn record_view(fields: Map<Seq<char>, Value>) -> Map<Seq<char>, ValueView> {
    fields.map_values(|v: Value| v@)
}

/// A record: typed values under field names.
#[derive(Debug)]
pub struct ValuesMap {
    map: StringMap<Value>,
}

impl View for ValuesMap {
    type V = Map<Seq<char>, ValueView>;

    closed spec fn view(&self) -> Map<Seq<char>, ValueView> {
        record_view(self.map@)
    }
}

impl ValuesMap {
    /// No field name occurs twice.
    pub closed spec fn wf(&self) -> bool {
        self.map.wf()
    }

    /// A record is the special record for `value` when `_pw_special` is its
    /// only field and holds the text `value`.
    pub open spec fn spec_is_special(&self, value: Seq<char>) -> bool {
        &&& self@.dom() == set![special_field_name()]
        &&& self@[special_field_name()] == ValueView::String(value)
    }

    /// The record without fields.
    pub fn new() -> (r: Self)
        ensures
            r.wf(),
            r@ == Map::<Seq<char>, ValueView>::empty(),
    {
        let r = ValuesMap { map: StringMap::new() };
        assert(r@ =~= Map::<Seq<char>, ValueView>::empty());
        r
    }

    /// Sets the field `name` to `value`.
    pub fn insert(&mut self, name: String, value: Value)
        requires
            old(self).wf(),
        ensures
            final(self).wf(),
            final(self)@ == old(self)@.insert(name@, value@),
    {
        self.map.insert(name, value);
        assert(self@ =~= old(self)@.insert(name@, value@));
    }

    /// Number of fields.
    pub fn len(&self) -> (n: usize)
        requires
            self.wf(),
        ensures
            n == self@.dom().len(),
    {
        proof {
            self.map.lemma_dom();
            assert(self@.dom() =~= self.map@.dom());
        }
        self.map.len()
    }

    /// Whether the record is the special record for `value`.
    pub fn is_special(&self, value: &str) -> (r: bool)
        requires
            self.wf(),
        ensures
            r == self.spec_is_special(value@),
    {
        proof {
            self.map.lemma_dom();
            assert(self@.dom() =~= self.map@.dom());
        }
        if self.map.len() != 1 {
            proof {
                if self@.dom() == set![special_field_name()] {
                    assert(set![special_field_name()].len() == 1) by {
                        assert(set![special_field_name()] =~= Set::<Seq<char>>::empty().insert(
                            special_field_name(),
                        ));
                    }
                }
            }
            return false;
        }
        match self.map.get("_pw_special") {
            Some(found) => {
                proof {
                    assert(self@.dom().len() == 1);
                    assert(self@.dom().contains(special_field_name()));
                    assert(self@.dom() =~= set![special_field_name()]) by {
                        assert forall|k: Seq<char>| self@.dom().contains(k) implies k
                            == special_field_name() by {
                            if k != special_field_name() {
                                let rest = self@.dom().remove(special_field_name());
                                assert(rest.contains(k));
                                assert(rest.len() == 0);
                            }
                        }
                    }
                }
                match found {
                    Value::String(text) => text_equal(text.as_str(), value),
                    _ => false,
                }
            },
            None => false,
        }
    }

    /// The value of the field `key`.
    pub fn get(&self, key: &str) -> (r: Option<&Value>)
        requires
            self.wf(),
        ensures
            match r {
                Some(v) => self@.contains_key(key@) && v@ == self@[key@],
                None => !self@.contains_key(key@),
            },
    {
        self.map.get(key)
    }

    /// Whether two records have the same fields with the same content.
    pub fn same(&self, other: &ValuesMap) -> (r: bool)
        requires
            self.wf(),
            other.wf(),
        ensures
            r == (self@ == other@),
    {
        proof {
            self.map.lemma_dom();
            other.map.lemma_dom();
            assert(self@.dom() =~= self.map@.dom());
            assert(other@.dom() =~= other.map@.dom());
        }
        if self.map.len() != other.map.len() {
            return false;
        }
        let mut i: usize = 0;
        while i < self.map.len()
            invariant
                i <= self.map.keys().len(),
                self.wf(),
                other.wf(),
                self.map.keys().len() == other.map.keys().len(),
                forall|j: int|
                    0 <= j < i ==> other@.contains_key(#[trigger] self.map.keys()[j]) && other@[self.map.keys()[j]]
                        == self@[self.map.keys()[j]],
            decreases self.map.keys().len() - i,
        {
            proof {
                self.map.lemma_entry(i as int);
            }
            let name = self.map.key_at(i);
            let value = self.map.value_at(i);
            match other.map.get(name.as_str()) {
                Some(found) => {
                    if !value.same(found) {
                        assert(self@[name@] == value@);
                        assert(other@[name@] == found@);
                        return false;
                    }
                },
                None => {
                    assert(self@.contains_key(name@));
                    assert(!other@.contains_key(name@));
                    return false;
                },
            }
            i += 1;
        }
        proof {
            assert forall|k: Seq<char>| self@.contains_key(k) implies other@.contains_key(k)
                && other@[k] == self@[k] by {
                let j = self.map.lemma_key_position(k);
                assert(self.map.keys()[j] == k);
            }
            assert(self@.dom().subset_of(other@.dom()));
            vstd::set_lib::lemma_subset_equality(self@.dom(), other@.dom());
            assert(self@ =~= other@);
        }
        true
    }
}

impl Clone for ValuesMap {
    fn clone(&self) -> (r: Self)
        ensures
            self.wf() ==> r.wf() && r@ == self@,
    {
        let mut copy: StringMap<Value> = StringMap::new();
        let mut i: usize = 0;
        if self.map.len() > 0 {
            while i < self.map.len()
                invariant
                    i <= self.map.keys().len(),
                    copy.wf(),
                    self.wf() ==> copy.keys() == self.map.keys().subrange(0, i as int),
                    self.wf() ==> forall|j: int|
                        0 <= j < i ==> (#[trigger] copy.values()[j])@ == self.map.values()[j]@,
                decreases self.map.keys().len() - i,
            {
                let name = self.map.key_at(i).clone();
                let value = self.map.value_at(i).clone();
                proof {
                    if self.wf() {
                        assert(!copy.keys().contains(name@)) by {
                            if copy.keys().contains(name@) {
                                let j = copy.keys().index_of(name@);
                                assert(self.map.keys()[j] == name@);
                            }
                        }
                    }
                }
                let ghost before = copy;
                copy.insert(name, value);
                proof {
                    if self.wf() {
                        assert(copy.keys() =~= self.map.keys().subrange(0, i + 1));
                        assert forall|j: int| 0 <= j < i + 1 implies (#[trigger] copy.values()[j])@
                            == self.map.values()[j]@ by {
                            copy.lemma_entry(j);
                            if j < i {
                                before.lemma_entry(j);
                            }
                        }
                    }
                }
                i += 1;
            }
        }
        let r = ValuesMap { map: copy };
        proof {
            if self.wf() {
                assert(self.map.keys().subrange(0, self.map.keys().len() as int)
                    =~= self.map.keys());
                assert forall|k: Seq<char>| self@.contains_key(k) implies r@.contains_key(k)
                    && r@[k] == self@[k] by {
                    let j = self.map.lemma_key_position(k);
                    r.map.lemma_entry(j);
                }
                assert forall|k: Seq<char>| r@.contains_key(k) implies self@.contains_key(k) by {
                    let j = r.map.lemma_key_position(k);
                    self.map.lemma_entry(j);
                }
                assert(r@ =~= self@);
            }
        }
        r
    }
}

} // verus!
