//! Documents: schema-free records made of named values.
//!
//! A document is an ordered list of fields. A lookup by name takes the first
//! field of that name, and setting a name changes that field in place or, when
//! the name is new, adds a field at the end.

use crate::value::{
    copy_fields, field_value, fields_view, find_field, has_field, lemma_position,
    lemma_position_is, position, same_fields, Field, FieldView, Value, ValueView,
};
use vstd::prelude::*;

verus! {

/// The fields with `name` set to `value`: the first field called `name` takes
/// the value, and a new field is added at the end when there was none.
pub open spec fn with_field(fields: Seq<FieldView>, name: Seq<char>, value: ValueView) -> Seq<
    FieldView,
> {
    if has_field(fields, name) {
        fields.update(position(fields, name), FieldView { name, value })
    } else {
        fields.push(FieldView { name, value })
    }
}

/// The fields with every field of `patch` set, in the order of `patch`.
pub open spec fn merged(fields: Seq<FieldView>, patch: Seq<FieldView>) -> Seq<FieldView>
    decreases patch.len(),
{
    if patch.len() == 0 {
        fields
    } else {
        with_field(merged(fields, patch.drop_last()), patch.last().name, patch.last().value)
    }
}

/// Setting a name leaves the first field of that name where it was, or puts it
/// last.
pub proof fn lemma_with_field_position(fields: Seq<FieldView>, name: Seq<char>, value: ValueView)
    ensures
        position(with_field(fields, name, value), name) == position(fields, name),
        has_field(with_field(fields, name, value), name),
        field_value(with_field(fields, name, value), name) == Some(value),
{
    lemma_position(fields, name);
    let after = with_field(fields, name, value);
    let p = position(fields, name);
    assert forall|j: int| 0 <= j < p implies (#[trigger] after[j]).name != name by {
        assert(after[j] == fields[j]);
    }
    lemma_position_is(after, name, p);
}

/// Setting a name changes no field of another name.
pub proof fn lemma_with_field_other(
    fields: Seq<FieldView>,
    name: Seq<char>,
    value: ValueView,
    other: Seq<char>,
)
    requires
        other != name,
    ensures
        has_field(with_field(fields, name, value), other) == has_field(fields, other),
        has_field(fields, other) ==> position(with_field(fields, name, value), other) == position(
            fields,
            other,
        ),
        field_value(with_field(fields, name, value), other) == field_value(fields, other),
{
    lemma_position(fields, name);
    lemma_position(fields, other);
    let after = with_field(fields, name, value);
    let q = position(fields, other);
    assert forall|j: int| 0 <= j < after.len() implies ((#[trigger] after[j]).name == other <==> (j
        < fields.len() && fields[j].name == other)) by {
        if j < fields.len() && j != position(fields, name) {
            assert(after[j] == fields[j]);
        }
    }
    if q < fields.len() {
        assert(after[q].name == other);
        assert forall|j: int| 0 <= j < q implies (#[trigger] after[j]).name != other by {
            assert(fields[j].name != other);
        }
        lemma_position_is(after, other, q);
        assert(after[q] == fields[q]);
    } else {
        assert forall|j: int| 0 <= j < after.len() implies (#[trigger] after[j]).name != other by {
            if j < fields.len() {
                assert(fields[j].name != other);
            }
        }
        lemma_position_is(after, other, after.len() as int);
    }
}

/// Setting the same name to the same value a second time changes nothing.
pub proof fn lemma_with_field_twice(fields: Seq<FieldView>, name: Seq<char>, value: ValueView)
    ensures
        with_field(with_field(fields, name, value), name, value) == with_field(fields, name, value),
{
    lemma_position(fields, name);
    lemma_with_field_position(fields, name, value);
    let once = with_field(fields, name, value);
    assert(with_field(once, name, value) =~= once);
}

/// Whether no two fields have the same name.
pub open spec fn distinct_names(fields: Seq<FieldView>) -> bool {
    forall|i: int, j: int|
        0 <= i < j < fields.len() ==> (#[trigger] fields[i]).name != (#[trigger] fields[j]).name
}

/// Setting a name keeps the names distinct.
pub proof fn lemma_with_field_distinct(fields: Seq<FieldView>, name: Seq<char>, value: ValueView)
    requires
        distinct_names(fields),
    ensures
        distinct_names(with_field(fields, name, value)),
{
    lemma_position(fields, name);
    let after = with_field(fields, name, value);
    assert forall|i: int, j: int| 0 <= i < j < after.len() implies (#[trigger] after[i]).name != (
    #[trigger] after[j]).name by {
        if j < fields.len() {
            assert(after[i].name == fields[i].name);
            assert(after[j].name == fields[j].name);
        } else {
            assert(after[i] == fields[i]);
        }
    }
}

/// Setting fields keeps the names distinct.
pub proof fn lemma_merged_distinct(fields: Seq<FieldView>, patch: Seq<FieldView>)
    requires
        distinct_names(fields),
    ensures
        distinct_names(merged(fields, patch)),
    decreases patch.len(),
{
    if patch.len() > 0 {
        lemma_merged_distinct(fields, patch.drop_last());
        lemma_with_field_distinct(
            merged(fields, patch.drop_last()),
            patch.last().name,
            patch.last().value,
        );
    }
}

/// A schema-free record: an ordered list of named values.
///
/// A document is meant to hold each name once. [`Document::set`] and
/// [`Document::merge`] keep it so, and [`Document::has_distinct_names`] tells
/// whether a document that was put together by hand is so.
#[derive(Debug, PartialEq, Eq)]
pub struct Document {
    pub fields: Vec<Field>,
}

impl View for Document {
    type V = Seq<FieldView>;

    open spec fn view(&self) -> Seq<FieldView> {
        fields_view(self.fields@)
    }
}

impl Clone for Document {
    fn clone(&self) -> (copy: Document)
        ensures
            copy@ == self@,
    {
        Document { fields: copy_fields(&self.fields) }
    }
}

impl Document {
    /// A document without fields.
    pub fn new() -> (document: Document)
        ensures
            document@ == Seq::<FieldView>::empty(),
            distinct_names(document@),
    {
        let document = Document { fields: Vec::new() };
        assert(document@ =~= Seq::<FieldView>::empty());
        document
    }

    /// Whether both documents hold the same fields in the same order.
    pub fn same(&self, other: &Document) -> (equal: bool)
        ensures
            equal == (self@ == other@),
    {
        same_fields(&self.fields, &other.fields)
    }

    /// Whether no two fields of the document have the same name.
    pub fn has_distinct_names(&self) -> (distinct: bool)
        ensures
            distinct == distinct_names(self@),
    {
        let mut j: usize = 0;
        while j < self.fields.len()
            invariant
                0 <= j <= self.fields.len(),
                distinct_names(self@.take(j as int)),
            decreases self.fields.len() - j,
        {
            let index = find_field(&self.fields, &self.fields[j].name);
            proof {
                lemma_position(self@, self.fields[j as int].name@);
            }
            if index < j {
                assert(self@[index as int].name == self@[j as int].name);
                return false;
            }
            proof {
                let before = self@.take(j as int);
                let now = self@.take(j + 1);
                assert forall|a: int, b: int| 0 <= a < b < now.len() implies (
                #[trigger] now[a]).name != (#[trigger] now[b]).name by {
                    if b < j {
                        assert(before[a] == now[a]);
                        assert(before[b] == now[b]);
                    } else {
                        assert(now[a] == self@[a]);
                    }
                }
            }
            j += 1;
        }
        assert(self@.take(j as int) =~= self@);
        true
    }

    /// The value of the first field called `name`.
    pub fn get(&self, name: &str) -> (found: Option<&Value>)
        ensures
            match found {
                Some(value) => field_value(self@, name@) == Some(value@),
                None => field_value(self@, name@) is None,
            },
    {
        let key: String = name.to_owned();
        let index = find_field(&self.fields, &key);
        if index < self.fields.len() {
            Some(&self.fields[index].value)
        } else {
            None
        }
    }

    /// Sets `name` to `value`, in place when the document has such a field and
    /// at the end otherwise.
    pub fn set(&mut self, name: String, value: Value)
        ensures
            final(self)@ == with_field(old(self)@, name@, value@),
            distinct_names(old(self)@) ==> distinct_names(final(self)@),
    {
        proof {
            if distinct_names(self@) {
                lemma_with_field_distinct(self@, name@, value@);
            }
        }
        let index = find_field(&self.fields, &name);
        let ghost before = self@;
        let ghost field = FieldView { name: name@, value: value@ };
        if index < self.fields.len() {
            self.fields.set(index, Field { name, value });
            assert(self@ =~= before.update(index as int, field));
        } else {
            self.fields.push(Field { name, value });
            assert(self@ =~= before.push(field));
        }
    }

    /// Sets every field of `patch`, in the order of `patch`.
    pub fn merge(&mut self, patch: &Vec<Field>)
        ensures
            final(self)@ == merged(old(self)@, fields_view(patch@)),
            distinct_names(old(self)@) ==> distinct_names(final(self)@),
    {
        proof {
            if distinct_names(self@) {
                lemma_merged_distinct(self@, fields_view(patch@));
            }
        }
        let ghost all = fields_view(patch@);
        let mut i: usize = 0;
        while i < patch.len()
            invariant
                0 <= i <= patch.len(),
                all == fields_view(patch@),
                self@ == merged(old(self)@, all.take(i as int)),
            decreases patch.len() - i,
        {
            proof {
                assert(all.take(i + 1).drop_last() =~= all.take(i as int));
                assert(all.take(i + 1).last() == patch[i as int]@);
            }
            self.set(patch[i].name.clone(), patch[i].value.clone());
            i += 1;
        }
        assert(all.take(i as int) =~= all);
    }
}

} // verus!
