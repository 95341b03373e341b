//! Dynamically typed values: what a schema-free document holds in its fields.
//!
//! The executable types [`Value`] and [`Field`] own their strings and vectors.
//! Contracts speak of their views, [`ValueView`] and [`FieldView`], which are
//! plain mathematical data.

use crate::search::{first_true, lemma_first_true, lemma_first_true_is};
use vstd::prelude::*;

verus! {

/// Mathematical form of a [`Value`].
pub enum ValueView {
    Null,
    Bool(bool),
    Int(i64),
    /// A binary64 number, held as its bit pattern.
    Float(u64),
    Text(Seq<char>),
    Array(Seq<ValueView>),
    Object(Seq<FieldView>),
}

/// Mathematical form of a [`Field`].
pub struct FieldView {
    pub name: Seq<char>,
    pub value: ValueView,
}

/// A dynamically typed value.
///
/// Numbers are either 64-bit integers or binary64 numbers. The latter are held
/// as their bit pattern, so two of them are equal exactly when their bits are.
#[derive(Debug, PartialEq, Eq)]
pub enum Value {
    Null,
    Bool(bool),
    Int(i64),
    Float(u64),
    Text(String),
    Array(Vec<Value>),
    Object(Vec<Field>),
}

/// A named value: one entry of an object or of a document.
#[derive(Debug, PartialEq, Eq)]
pub struct Field {
    pub name: String,
    pub value: Value,
}

impl View for Value {
    type V = ValueView;

    open spec fn view(&self) -> ValueView
        decreases self, 1nat,
    {
        match self {
            Value::Null => ValueView::Null,
            Value::Bool(b) => ValueView::Bool(*b),
            Value::Int(n) => ValueView::Int(*n),
            Value::Float(bits) => ValueView::Float(*bits),
            Value::Text(s) => ValueView::Text(s@),
            Value::Array(items) => ValueView::Array(items_view(items@)),
            Value::Object(fields) => ValueView::Object(fields_view(fields@)),
        }
    }
}

impl View for Field {
    type V = FieldView;

    open spec fn view(&self) -> FieldView
        decreases self, 1nat,
    {
        FieldView { name: self.name@, value: self.value@ }
    }
}

/// The views of a sequence of values, in order.
pub open spec fn items_view(items: Seq<Value>) -> Seq<ValueView>
    decreases items, 0nat,
{
    Seq::new(
        items.len(),
        |i: int|
            if 0 <= i < items.len() {
                items[i]@
            } else {
                ValueView::Null
            },
    )
}

/// The views of a sequence of fields, in order.
pub open spec fn fields_view(fields: Seq<Field>) -> Seq<FieldView>
    decreases fields, 0nat,
{
    Seq::new(
        fields.len(),
        |i: int|
            if 0 <= i < fields.len() {
                fields[i]@
            } else {
                FieldView { name: Seq::empty(), value: ValueView::Null }
            },
    )
}

/// For each field, whether it is called `name`.
pub open spec fn named(fields: Seq<FieldView>, name: Seq<char>) -> Seq<bool> {
    Seq::new(fields.len(), |i: int| fields[i].name == name)
}

/// Index of the first field called `name`, or `fields.len()` when no field has
/// that name.
pub open spec fn position(fields: Seq<FieldView>, name: Seq<char>) -> int {
    first_true(named(fields, name))
}

/// Whether some field is called `name`.
pub open spec fn has_field(fields: Seq<FieldView>, name: Seq<char>) -> bool {
    position(fields, name) < fields.len()
}

/// The value of the first field called `name`.
pub open spec fn field_value(fields: Seq<FieldView>, name: Seq<char>) -> Option<ValueView> {
    if has_field(fields, name) {
        Some(fields[position(fields, name)].value)
    } else {
        None
    }
}

/// `position` is the least index that carries the name.
pub proof fn lemma_position(fields: Seq<FieldView>, name: Seq<char>)
    ensures
        0 <= position(fields, name) <= fields.len(),
        has_field(fields, name) ==> fields[position(fields, name)].name == name,
        forall|j: int| 0 <= j < position(fields, name) ==> (#[trigger] fields[j]).name != name,
{
    let flags = named(fields, name);
    lemma_first_true(flags);
    assert forall|j: int| 0 <= j < position(fields, name) implies (#[trigger] fields[j]).name
        != name by {
        assert(!flags[j]);
    }
}

/// An index that carries the name, with none before it, is the `position`.
pub proof fn lemma_position_is(fields: Seq<FieldView>, name: Seq<char>, i: int)
    requires
        0 <= i <= fields.len(),
        i < fields.len() ==> fields[i].name == name,
        forall|j: int| 0 <= j < i ==> (#[trigger] fields[j]).name != name,
    ensures
        position(fields, name) == i,
{
    lemma_first_true_is(named(fields, name), i);
}

/// What a value holds under `name`: the value of its first field of that name
/// when it is an object, nothing otherwise.
pub open spec fn member_of(value: ValueView, name: Seq<char>) -> Option<ValueView> {
    match value {
        ValueView::Object(fields) => field_value(fields, name),
        _ => None,
    }
}

/// Finds the first field called `name`.
pub fn find_field(fields: &Vec<Field>, name: &String) -> (index: usize)
    ensures
        index == position(fields_view(fields@), name@),
{
    let mut i: usize = 0;
    while i < fields.len()
        invariant
            0 <= i <= fields.len(),
            forall|j: int| 0 <= j < i ==> (#[trigger] fields_view(fields@)[j]).name != name@,
        decreases fields.len() - i,
    {
        if fields[i].name == *name {
            proof {
                lemma_position_is(fields_view(fields@), name@, i as int);
            }
            return i;
        }
        i += 1;
    }
    proof {
        lemma_position_is(fields_view(fields@), name@, i as int);
    }
    i
}

/// Structural equality of two sequences of values.
pub fn same_items(a: &Vec<Value>, b: &Vec<Value>) -> (equal: bool)
    ensures
        equal == (items_view(a@) == items_view(b@)),
    decreases a, 0nat,
{
    if a.len() != b.len() {
        assert(items_view(a@).len() != items_view(b@).len());
        return false;
    }
    let mut i: usize = 0;
    while i < a.len()
        invariant
            0 <= i <= a.len(),
            a.len() == b.len(),
            forall|j: int| 0 <= j < i ==> a[j]@ == b[j]@,
        decreases a.len() - i,
    {
        if !a[i].same(&b[i]) {
            assert(items_view(a@)[i as int] != items_view(b@)[i as int]);
            return false;
        }
        i += 1;
    }
    assert(items_view(a@) =~= items_view(b@));
    true
}

/// Structural equality of two sequences of fields: the same names with the
/// same values in the same order.
pub fn same_fields(a: &Vec<Field>, b: &Vec<Field>) -> (equal: bool)
    ensures
        equal == (fields_view(a@) == fields_view(b@)),
    decreases a, 0nat,
{
    if a.len() != b.len() {
        assert(fields_view(a@).len() != fields_view(b@).len());
        return false;
    }
    let mut i: usize = 0;
    while i < a.len()
        invariant
            0 <= i <= a.len(),
            a.len() == b.len(),
            forall|j: int| 0 <= j < i ==> a[j]@ == b[j]@,
        decreases a.len() - i,
    {
        if !(a[i].name == b[i].name && a[i].value.same(&b[i].value)) {
            assert(fields_view(a@)[i as int] != fields_view(b@)[i as int]);
            return false;
        }
        i += 1;
    }
    assert(fields_view(a@) =~= fields_view(b@));
    true
}

/// Copies a sequence of values.
pub fn copy_items(items: &Vec<Value>) -> (copy: Vec<Value>)
    ensures
        items_view(copy@) == items_view(items@),
    decreases items, 0nat,
{
    let mut copy: Vec<Value> = Vec::new();
    let mut i: usize = 0;
    while i < items.len()
        invariant
            0 <= i <= items.len(),
            copy.len() == i,
            forall|j: int| 0 <= j < i ==> copy[j]@ == items[j]@,
        decreases items.len() - i,
    {
        copy.push(items[i].clone());
        i += 1;
    }
    assert(items_view(copy@) =~= items_view(items@));
    copy
}

/// Copies a sequence of fields.
pub fn copy_fields(fields: &Vec<Field>) -> (copy: Vec<Field>)
    ensures
        fields_view(copy@) == fields_view(fields@),
    decreases fields, 0nat,
{
    let mut copy: Vec<Field> = Vec::new();
    let mut i: usize = 0;
    while i < fields.len()
        invariant
            0 <= i <= fields.len(),
            copy.len() == i,
            forall|j: int| 0 <= j < i ==> copy[j]@ == fields[j]@,
        decreases fields.len() - i,
    {
        copy.push(Field { name: fields[i].name.clone(), value: fields[i].value.clone() });
        i += 1;
    }
    assert(fields_view(copy@) =~= fields_view(fields@));
    copy
}

impl Clone for Value {
    fn clone(&self) -> (copy: Value)
        ensures
            copy@ == self@,
        decreases self, 1nat,
    {
        match self {
            Value::Null => Value::Null,
            Value::Bool(b) => Value::Bool(*b),
            Value::Int(n) => Value::Int(*n),
            Value::Float(bits) => Value::Float(*bits),
            Value::Text(s) => Value::Text(s.clone()),
            Value::Array(items) => Value::Array(copy_items(items)),
            Value::Object(fields) => Value::Object(copy_fields(fields)),
        }
    }
}

impl Clone for Field {
    fn clone(&self) -> (copy: Field)
        ensures
            copy@ == self@,
    {
        Field { name: self.name.clone(), value: self.value.clone() }
    }
}

impl Value {
    /// Structural equality: the same kind of value with the same contents.
    pub fn same(&self, other: &Value) -> (equal: bool)
        ensures
            equal == (self@ == other@),
        decreases self, 1nat,
    {
        match self {
            Value::Null => match other {
                Value::Null => true,
                _ => false,
            },
            Value::Bool(a) => match other {
                Value::Bool(b) => *a == *b,
                _ => false,
            },
            Value::Int(a) => match other {
                Value::Int(b) => *a == *b,
                _ => false,
            },
            Value::Float(a) => match other {
                Value::Float(b) => *a == *b,
                _ => false,
            },
            Value::Text(a) => match other {
                Value::Text(b) => *a == *b,
                _ => false,
            },
            Value::Array(a) => match other {
                Value::Array(b) => same_items(a, b),
                _ => false,
            },
            Value::Object(a) => match other {
                Value::Object(b) => same_fields(a, b),
                _ => false,
            },
        }
    }

    /// The value held under `name`, when this is an object with such a field.
    pub fn member(&self, name: &str) -> (found: Option<&Value>)
        ensures
            match found {
                Some(value) => member_of(self@, name@) == Some(value@),
                None => member_of(self@, name@) is None,
            },
    {
        match self {
            Value::Object(fields) => {
                let key: String = name.to_owned();
                let index = find_field(fields, &key);
                if index < fields.len() {
                    Some(&fields[index].value)
                } else {
                    None
                }
            },
            _ => None,
        }
    }
}

} // verus!
