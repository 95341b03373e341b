//! What the store protocol means: a document store as mathematical data, and
//! the effect of each request on it.
//!
//! [`store_step`] is the reference for every store that serves the protocol.
//! The in-memory [`crate::store::MemoryStore`] is proved to follow it.

use crate::document::{lemma_with_field_other, merged, with_field};
use crate::ident::{id_text, lemma_id_text_injective};
use crate::protocol::{MutationView, StoreReplyView, StoreRequestView};
use crate::search::{first_true, lemma_first_true, lemma_first_true_is};
use crate::value::{
    field_value, has_field, lemma_position, lemma_position_is, FieldView, ValueView,
};
use vstd::prelude::*;

verus! {

/// A named collection: its documents in the order in which they were added.
pub struct CollectionView {
    pub name: Seq<char>,
    pub documents: Seq<Seq<FieldView>>,
}

/// A document store: its collections in the order in which they were created,
/// and the number of the next identifier that it will assign.
pub struct StoreView {
    pub collections: Seq<CollectionView>,
    pub next_id: nat,
}

/// Name of the field that holds a document's identifier.
pub open spec fn id_name() -> Seq<char> {
    "_id"@
}

/// The number that no identifier reaches.
pub open spec fn id_limit() -> nat {
    u64::MAX as nat
}

/// Whether the document's `field` equals `value`.
pub open spec fn is_match(document: Seq<FieldView>, field: Seq<char>, value: ValueView) -> bool {
    field_value(document, field) == Some(value)
}

/// For each document, whether its `field` equals `value`.
pub open spec fn match_flags(
    documents: Seq<Seq<FieldView>>,
    field: Seq<char>,
    value: ValueView,
) -> Seq<bool> {
    Seq::new(documents.len(), |i: int| is_match(documents[i], field, value))
}

/// The first document whose `field` equals `value`.
pub open spec fn first_match(
    documents: Seq<Seq<FieldView>>,
    field: Seq<char>,
    value: ValueView,
) -> Option<Seq<FieldView>> {
    let index = first_true(match_flags(documents, field, value));
    if index < documents.len() {
        Some(documents[index])
    } else {
        None
    }
}

/// The documents whose `field` equals `value`, in order.
pub open spec fn matching(
    documents: Seq<Seq<FieldView>>,
    field: Seq<char>,
    value: ValueView,
) -> Seq<Seq<FieldView>>
    decreases documents.len(),
{
    if documents.len() == 0 {
        Seq::empty()
    } else {
        let before = matching(documents.drop_last(), field, value);
        if is_match(documents.last(), field, value) {
            before.push(documents.last())
        } else {
            before
        }
    }
}

/// The documents whose `field` does not equal `value`, in order.
pub open spec fn remaining(
    documents: Seq<Seq<FieldView>>,
    field: Seq<char>,
    value: ValueView,
) -> Seq<Seq<FieldView>>
    decreases documents.len(),
{
    if documents.len() == 0 {
        Seq::empty()
    } else {
        let before = remaining(documents.drop_last(), field, value);
        if is_match(documents.last(), field, value) {
            before
        } else {
            before.push(documents.last())
        }
    }
}

/// What a field-setting mutation makes of a document.
pub open spec fn mutated(document: Seq<FieldView>, mutation: MutationView) -> Seq<FieldView> {
    match mutation {
        MutationView::SetField { name, value } => with_field(document, name, value),
        MutationView::SetFields { fields } => merged(document, fields),
        MutationView::Remove => document,
    }
}

/// The documents after the mutation was applied to those whose `field`
/// equals `value`.
pub open spec fn updated(
    documents: Seq<Seq<FieldView>>,
    field: Seq<char>,
    value: ValueView,
    mutation: MutationView,
) -> Seq<Seq<FieldView>> {
    if mutation is Remove {
        remaining(documents, field, value)
    } else {
        Seq::new(
            documents.len(),
            |i: int|
                if is_match(documents[i], field, value) {
                    mutated(documents[i], mutation)
                } else {
                    documents[i]
                },
        )
    }
}

/// Whether the mutation would set the identifier field.
pub open spec fn touches_id(mutation: MutationView) -> bool {
    match mutation {
        MutationView::SetField { name, .. } => name == id_name(),
        MutationView::SetFields { fields } => has_field(fields, id_name()),
        MutationView::Remove => false,
    }
}

/// The field that holds the identifier with number `number`.
pub open spec fn id_entry(number: nat) -> FieldView {
    FieldView { name: id_name(), value: ValueView::Text(id_text(number)) }
}

/// The document as the store keeps it: its identifier first, the given fields
/// after it.
pub open spec fn stored(document: Seq<FieldView>, number: nat) -> Seq<FieldView> {
    seq![id_entry(number)] + document
}

/// The documents as the store keeps them, numbered from `first` on.
pub open spec fn stored_all(documents: Seq<Seq<FieldView>>, first: nat) -> Seq<Seq<FieldView>> {
    Seq::new(documents.len(), |k: int| stored(documents[k], (first + k) as nat))
}

/// The identifiers numbered from `first` on.
pub open spec fn id_texts(first: nat, count: nat) -> Seq<Seq<char>> {
    Seq::new(count, |k: int| id_text((first + k) as nat))
}

/// For each document, whether it has an identifier field.
pub open spec fn id_flags(documents: Seq<Seq<FieldView>>) -> Seq<bool> {
    Seq::new(documents.len(), |k: int| has_field(documents[k], id_name()))
}

/// Whether the document starts with an identifier whose number is below
/// `bound`.
pub open spec fn carries_id(document: Seq<FieldView>, bound: nat) -> bool {
    exists|number: nat| number < bound && #[trigger] starts_with_id(document, number)
}

/// Whether the document starts with the identifier with number `number`.
pub open spec fn starts_with_id(document: Seq<FieldView>, number: nat) -> bool {
    document.len() > 0 && document[0] == id_entry(number)
}

/// For each collection, whether it is called `name`.
pub open spec fn collection_flags(collections: Seq<CollectionView>, name: Seq<char>) -> Seq<bool> {
    Seq::new(collections.len(), |i: int| collections[i].name == name)
}

impl StoreView {
    /// A store without collections.
    pub open spec fn empty() -> StoreView {
        StoreView { collections: Seq::empty(), next_id: 0 }
    }

    /// Index of the first collection called `name`, or the number of
    /// collections when there is none.
    pub open spec fn slot(self, name: Seq<char>) -> int {
        first_true(collection_flags(self.collections, name))
    }

    /// Whether the store has a collection called `name`.
    pub open spec fn has_collection(self, name: Seq<char>) -> bool {
        self.slot(name) < self.collections.len()
    }

    /// The documents of the collection called `name`; none when the store has
    /// no such collection.
    pub open spec fn documents(self, name: Seq<char>) -> Seq<Seq<FieldView>> {
        if self.has_collection(name) {
            self.collections[self.slot(name)].documents
        } else {
            Seq::empty()
        }
    }

    /// The store with a collection called `name`: itself when it has one, and
    /// with a new, empty collection at the end otherwise.
    pub open spec fn opened(self, name: Seq<char>) -> StoreView {
        if self.has_collection(name) {
            self
        } else {
            StoreView {
                collections: self.collections.push(
                    CollectionView { name, documents: Seq::empty() },
                ),
                next_id: self.next_id,
            }
        }
    }

    /// The store with the documents of its collection called `name` replaced.
    pub open spec fn with_documents(
        self,
        name: Seq<char>,
        documents: Seq<Seq<FieldView>>,
    ) -> StoreView {
        StoreView {
            collections: self.collections.update(
                self.slot(name),
                CollectionView { name, documents },
            ),
            next_id: self.next_id,
        }
    }

    /// The store after it has assigned `count` more identifiers.
    pub open spec fn advanced(self, count: nat) -> StoreView {
        StoreView { collections: self.collections, next_id: self.next_id + count }
    }

    /// Every document starts with an identifier that the store has assigned,
    /// no two documents of a collection have the same identifier, and the
    /// store can still count its identifiers.
    pub open spec fn wf(self) -> bool {
        &&& self.next_id <= id_limit()
        &&& forall|c: int, d: int|
            0 <= c < self.collections.len() && 0 <= d < self.collections[c].documents.len()
                ==> carries_id(#[trigger] self.collections[c].documents[d], self.next_id)
        &&& forall|c: int, id: ValueView|
            0 <= c < self.collections.len() ==> (#[trigger] matching(
                self.collections[c].documents,
                id_name(),
                id,
            )).len() <= 1
    }
}

/// The store and its answer after one request.
///
/// The collection is created when it is missing, whatever follows. An insert
/// fails when a document brings an identifier field of its own or when the
/// identifiers are used up; an update fails when it would set the identifier
/// field. A failed request changes no document.
pub open spec fn store_step(db: StoreView, request: StoreRequestView) -> (
    StoreView,
    StoreReplyView,
) {
    let open = db.opened(request.collection());
    let present = open.documents(request.collection());
    match request {
        StoreRequestView::Insert { collection, document } => {
            if has_field(document, id_name()) || db.next_id >= id_limit() {
                (open, StoreReplyView::Failed)
            } else {
                (
                    open.with_documents(
                        collection,
                        present.push(stored(document, db.next_id)),
                    ).advanced(1),
                    StoreReplyView::Inserted { id: id_text(db.next_id) },
                )
            }
        },
        StoreRequestView::InsertMany { collection, documents } => {
            if first_true(id_flags(documents)) < documents.len() || db.next_id + documents.len()
                > id_limit() {
                (open, StoreReplyView::Failed)
            } else {
                (
                    open.with_documents(
                        collection,
                        present + stored_all(documents, db.next_id),
                    ).advanced(documents.len()),
                    StoreReplyView::InsertedMany { ids: id_texts(db.next_id, documents.len()) },
                )
            }
        },
        StoreRequestView::Find { field, value, .. } => (
            open,
            StoreReplyView::Found { documents: matching(present, field, value) },
        ),
        StoreRequestView::FindOne { field, value, .. } => (
            open,
            StoreReplyView::FoundOne { document: first_match(present, field, value) },
        ),
        StoreRequestView::Update { collection, field, value, mutation } => {
            if touches_id(mutation) {
                (open, StoreReplyView::Failed)
            } else {
                (
                    open.with_documents(collection, updated(present, field, value, mutation)),
                    StoreReplyView::Updated { count: matching(present, field, value).len() },
                )
            }
        },
    }
}

/// Opening a collection leaves what every collection holds as it was, and the
/// opened collection is there afterwards.
pub proof fn lemma_opened(db: StoreView, name: Seq<char>, other: Seq<char>)
    ensures
        db.opened(name).has_collection(name),
        db.opened(name).slot(name) == db.slot(name),
        db.opened(name).documents(other) == db.documents(other),
        db.opened(name).next_id == db.next_id,
        db.has_collection(other) ==> db.opened(name).slot(other) == db.slot(other),
        db.wf() ==> db.opened(name).wf(),
{
    let open = db.opened(name);
    let flags = collection_flags(db.collections, name);
    lemma_first_true(flags);
    lemma_first_true(collection_flags(db.collections, other));
    if !db.has_collection(name) {
        let added = collection_flags(open.collections, name);
        assert forall|j: int| 0 <= j < db.collections.len() implies !#[trigger] added[j] by {
            assert(!flags[j]);
        }
        lemma_first_true_is(added, db.collections.len() as int);
        let before = collection_flags(db.collections, other);
        let after = collection_flags(open.collections, other);
        let q = first_true(before);
        assert forall|j: int| 0 <= j < q implies !#[trigger] after[j] by {
            assert(!before[j]);
        }
        if q < db.collections.len() {
            assert(after[q] == before[q]);
            lemma_first_true_is(after, q);
        } else if other == name {
            lemma_first_true_is(after, q);
        } else {
            lemma_first_true_is(after, q + 1);
        }
        if db.wf() {
            assert forall|c: int, d: int|
                0 <= c < open.collections.len() && 0 <= d < open.collections[c].documents.len()
                    implies carries_id(
                #[trigger] open.collections[c].documents[d],
                open.next_id,
            ) by {
                assert(open.collections[c] == db.collections[c]);
            }
        }
    }
}

/// Replacing the documents of a collection that the store has changes that
/// collection and no other.
pub proof fn lemma_with_documents(
    db: StoreView,
    name: Seq<char>,
    documents: Seq<Seq<FieldView>>,
    other: Seq<char>,
)
    requires
        db.has_collection(name),
    ensures
        db.with_documents(name, documents).slot(other) == db.slot(other),
        db.with_documents(name, documents).has_collection(other) == db.has_collection(other),
        db.with_documents(name, documents).documents(name) == documents,
        other != name ==> db.with_documents(name, documents).documents(other) == db.documents(
            other,
        ),
{
    let after = db.with_documents(name, documents);
    lemma_first_true(collection_flags(db.collections, name));
    assert(collection_flags(after.collections, other) =~= collection_flags(db.collections, other));
    assert(collection_flags(after.collections, name) =~= collection_flags(db.collections, name));
    lemma_first_true(collection_flags(db.collections, other));
}

/// The matching documents of a sequence with one more document at its end.
pub proof fn lemma_matching_push(
    documents: Seq<Seq<FieldView>>,
    last: Seq<FieldView>,
    field: Seq<char>,
    value: ValueView,
)
    ensures
        matching(documents.push(last), field, value) == if is_match(last, field, value) {
            matching(documents, field, value).push(last)
        } else {
            matching(documents, field, value)
        },
        remaining(documents.push(last), field, value) == if is_match(last, field, value) {
            remaining(documents, field, value)
        } else {
            remaining(documents, field, value).push(last)
        },
{
    assert(documents.push(last).drop_last() =~= documents);
}

/// Where no document matches, none is found and all remain; and conversely.
pub proof fn lemma_matching_none(
    documents: Seq<Seq<FieldView>>,
    field: Seq<char>,
    value: ValueView,
)
    ensures
        (forall|i: int|
            0 <= i < documents.len() ==> !is_match(#[trigger] documents[i], field, value))
            <==> matching(documents, field, value).len() == 0,
        matching(documents, field, value).len() == 0 ==> remaining(documents, field, value)
            == documents,
        matching(documents, field, value).len() <= documents.len(),
    decreases documents.len(),
{
    if documents.len() > 0 {
        let before = documents.drop_last();
        lemma_matching_none(before, field, value);
        if matching(documents, field, value).len() == 0 {
            assert forall|i: int| 0 <= i < documents.len() implies !is_match(
                #[trigger] documents[i],
                field,
                value,
            ) by {
                if i < before.len() {
                    assert(before[i] == documents[i]);
                }
            }
            assert(remaining(documents, field, value) =~= documents);
        } else if !is_match(documents.last(), field, value) {
            let i = choose|i: int|
                0 <= i < before.len() && is_match(#[trigger] before[i], field, value);
            assert(before[i] == documents[i]);
        }
    }
}

/// No remaining document matches.
pub proof fn lemma_remaining_none_match(
    documents: Seq<Seq<FieldView>>,
    field: Seq<char>,
    value: ValueView,
)
    ensures
        forall|i: int|
            0 <= i < remaining(documents, field, value).len() ==> !is_match(
                #[trigger] remaining(documents, field, value)[i],
                field,
                value,
            ),
        forall|i: int|
            0 <= i < remaining(documents, field, value).len() ==> documents.contains(
                #[trigger] remaining(documents, field, value)[i],
            ),
    decreases documents.len(),
{
    if documents.len() > 0 {
        let before = documents.drop_last();
        lemma_remaining_none_match(before, field, value);
        let kept = remaining(documents, field, value);
        assert forall|i: int| 0 <= i < kept.len() implies documents.contains(
            #[trigger] kept[i],
        ) by {
            if i < remaining(before, field, value).len() {
                let j = choose|j: int| 0 <= j < before.len() && before[j] == kept[i];
                assert(documents[j] == kept[i]);
            } else {
                assert(documents[documents.len() - 1] == kept[i]);
            }
        }
    }
}

/// Where exactly one document matches, exactly that one is found.
pub proof fn lemma_matching_single(
    documents: Seq<Seq<FieldView>>,
    index: int,
    field: Seq<char>,
    value: ValueView,
)
    requires
        0 <= index < documents.len(),
        forall|j: int|
            0 <= j < documents.len() ==> (is_match(#[trigger] documents[j], field, value) <==> j
                == index),
    ensures
        matching(documents, field, value) == seq![documents[index]],
    decreases documents.len(),
{
    let before = documents.drop_last();
    if index == documents.len() - 1 {
        assert forall|j: int| 0 <= j < before.len() implies !is_match(
            #[trigger] before[j],
            field,
            value,
        ) by {
            assert(before[j] == documents[j]);
        }
        lemma_matching_none(before, field, value);
        assert(matching(documents, field, value) =~= seq![documents[index]]);
    } else {
        assert forall|j: int| 0 <= j < before.len() implies (is_match(
            #[trigger] before[j],
            field,
            value,
        ) <==> j == index) by {
            assert(before[j] == documents[j]);
        }
        lemma_matching_single(before, index, field, value);
        assert(before[index] == documents[index]);
    }
}

/// Documents that match at the same places are found in the same number.
pub proof fn lemma_matching_count(
    a: Seq<Seq<FieldView>>,
    b: Seq<Seq<FieldView>>,
    field: Seq<char>,
    value: ValueView,
)
    requires
        a.len() == b.len(),
        forall|j: int|
            0 <= j < a.len() ==> is_match(#[trigger] a[j], field, value) == is_match(
                b[j],
                field,
                value,
            ),
    ensures
        matching(a, field, value).len() == matching(b, field, value).len(),
    decreases a.len(),
{
    if a.len() > 0 {
        assert(is_match(a[a.len() - 1], field, value) == is_match(b[a.len() - 1], field, value));
        assert forall|j: int| 0 <= j < a.len() - 1 implies is_match(
            #[trigger] a.drop_last()[j],
            field,
            value,
        ) == is_match(b.drop_last()[j], field, value) by {
            assert(a.drop_last()[j] == a[j]);
            assert(b.drop_last()[j] == b[j]);
        }
        lemma_matching_count(a.drop_last(), b.drop_last(), field, value);
    }
}

/// A document that the store keeps is found by its identifier and by no
/// other.
pub proof fn lemma_stored_id(document: Seq<FieldView>, number: nat, other: nat)
    requires
        starts_with_id(document, number),
    ensures
        is_match(document, id_name(), ValueView::Text(id_text(other))) <==> other == number,
{
    lemma_position_is(document, id_name(), 0);
    if id_text(other) == id_text(number) {
        lemma_id_text_injective(other, number);
    }
}

/// The matching documents of two sequences, one after the other.
pub proof fn lemma_matching_concat(
    a: Seq<Seq<FieldView>>,
    b: Seq<Seq<FieldView>>,
    field: Seq<char>,
    value: ValueView,
)
    ensures
        matching(a + b, field, value) == matching(a, field, value) + matching(b, field, value),
    decreases b.len(),
{
    if b.len() == 0 {
        assert(a + b =~= a);
        assert(matching(a, field, value) + matching(b, field, value) =~= matching(a, field, value));
    } else {
        assert((a + b).drop_last() =~= a + b.drop_last());
        assert((a + b).last() == b.last());
        lemma_matching_concat(a, b.drop_last(), field, value);
        assert(matching(a + b, field, value) =~= matching(a, field, value) + matching(
            b,
            field,
            value,
        ));
    }
}

/// Where no two documents match, at most one is found.
pub proof fn lemma_matching_at_most_one(
    documents: Seq<Seq<FieldView>>,
    field: Seq<char>,
    value: ValueView,
)
    requires
        forall|i: int, j: int|
            0 <= i < j < documents.len() ==> !(is_match(#[trigger] documents[i], field, value)
                && is_match(#[trigger] documents[j], field, value)),
    ensures
        matching(documents, field, value).len() <= 1,
    decreases documents.len(),
{
    if documents.len() > 0 {
        let before = documents.drop_last();
        assert forall|i: int, j: int| 0 <= i < j < before.len() implies !(is_match(
            #[trigger] before[i],
            field,
            value,
        ) && is_match(#[trigger] before[j], field, value)) by {
            assert(before[i] == documents[i]);
            assert(before[j] == documents[j]);
        }
        lemma_matching_at_most_one(before, field, value);
        if is_match(documents.last(), field, value) {
            assert forall|i: int| 0 <= i < before.len() implies !is_match(
                #[trigger] before[i],
                field,
                value,
            ) by {
                assert(before[i] == documents[i]);
                assert(documents[documents.len() - 1] == documents.last());
            }
            lemma_matching_none(before, field, value);
        }
    }
}

/// Removing documents does not add to what is found.
pub proof fn lemma_remaining_fewer(
    documents: Seq<Seq<FieldView>>,
    field: Seq<char>,
    value: ValueView,
    other_field: Seq<char>,
    other_value: ValueView,
)
    ensures
        matching(remaining(documents, field, value), other_field, other_value).len() <= matching(
            documents,
            other_field,
            other_value,
        ).len(),
    decreases documents.len(),
{
    if documents.len() > 0 {
        let before = documents.drop_last();
        lemma_remaining_fewer(before, field, value, other_field, other_value);
        if !is_match(documents.last(), field, value) {
            lemma_matching_push(
                remaining(before, field, value),
                documents.last(),
                other_field,
                other_value,
            );
        }
    }
}

/// Setting a field other than the identifier leaves the identifier in place.
pub proof fn lemma_with_field_keeps_id(
    document: Seq<FieldView>,
    name: Seq<char>,
    value: ValueView,
    number: nat,
)
    requires
        starts_with_id(document, number),
        name != id_name(),
    ensures
        starts_with_id(with_field(document, name, value), number),
        field_value(with_field(document, name, value), id_name()) == field_value(
            document,
            id_name(),
        ),
{
    lemma_position(document, name);
    lemma_with_field_other(document, name, value, id_name());
}

/// Setting fields none of which is the identifier leaves the identifier in
/// place.
pub proof fn lemma_merged_keeps_id(document: Seq<FieldView>, patch: Seq<FieldView>, number: nat)
    requires
        starts_with_id(document, number),
        !has_field(patch, id_name()),
    ensures
        starts_with_id(merged(document, patch), number),
    decreases patch.len(),
{
    if patch.len() > 0 {
        lemma_position(patch, id_name());
        let before = patch.drop_last();
        assert forall|j: int| 0 <= j < before.len() implies (#[trigger] before[j]).name
            != id_name() by {
            assert(before[j] == patch[j]);
        }
        lemma_position_is(before, id_name(), before.len() as int);
        lemma_merged_keeps_id(document, before, number);
        assert(patch[patch.len() - 1].name != id_name());
        lemma_with_field_keeps_id(
            merged(document, before),
            patch.last().name,
            patch.last().value,
            number,
        );
    }
}

/// A request leaves a well-formed store well-formed.
pub proof fn lemma_store_step_wf(db: StoreView, request: StoreRequestView)
    requires
        db.wf(),
    ensures
        store_step(db, request).0.wf(),
{
    let name = request.collection();
    let open = db.opened(name);
    let present = open.documents(name);
    let after = store_step(db, request).0;
    lemma_opened(db, name, name);
    lemma_first_true(collection_flags(open.collections, name));
    let slot = open.slot(name);
    assert(open.collections[slot].documents == present);
    assert forall|d: int| 0 <= d < present.len() implies carries_id(
        #[trigger] present[d],
        db.next_id,
    ) by {
        assert(carries_id(open.collections[slot].documents[d], open.next_id));
    }
    if after != open {
        let changed = after.collections[slot].documents;
        assert forall|c: int, d: int|
            0 <= c < after.collections.len() && 0 <= d < after.collections[c].documents.len()
                implies carries_id(#[trigger] after.collections[c].documents[d], after.next_id) by {
            let document = after.collections[c].documents[d];
            if c != slot {
                assert(after.collections[c] == open.collections[c]);
                let number = choose|number: nat|
                    number < open.next_id && #[trigger] starts_with_id(
                        open.collections[c].documents[d],
                        number,
                    );
                assert(starts_with_id(document, number));
            } else {
                match request {
                    StoreRequestView::Insert { document: added, .. } => {
                        if d < present.len() {
                            let number = choose|number: nat|
                                number < db.next_id && #[trigger] starts_with_id(
                                    present[d],
                                    number,
                                );
                            assert(starts_with_id(document, number));
                        } else {
                            assert(starts_with_id(document, db.next_id));
                        }
                    },
                    StoreRequestView::InsertMany { documents: added, .. } => {
                        if d < present.len() {
                            let number = choose|number: nat|
                                number < db.next_id && #[trigger] starts_with_id(
                                    present[d],
                                    number,
                                );
                            assert(starts_with_id(document, number));
                        } else {
                            let k = d - present.len();
                            assert(document == stored(added[k], (db.next_id + k) as nat));
                            assert(starts_with_id(document, (db.next_id + k) as nat));
                        }
                    },
                    StoreRequestView::Update { field, value, mutation, .. } => {
                        if mutation is Remove {
                            lemma_remaining_none_match(present, field, value);
                            let j = choose|j: int| 0 <= j < present.len() && present[j] == document;
                            assert(carries_id(present[j], db.next_id));
                        } else {
                            let number = choose|number: nat|
                                number < db.next_id && #[trigger] starts_with_id(
                                    present[d],
                                    number,
                                );
                            if is_match(present[d], field, value) {
                                match mutation {
                                    MutationView::SetField { name: set, value: to } => {
                                        lemma_with_field_keeps_id(present[d], set, to, number);
                                    },
                                    MutationView::SetFields { fields } => {
                                        lemma_merged_keeps_id(present[d], fields, number);
                                    },
                                    MutationView::Remove => {},
                                }
                            }
                            assert(starts_with_id(document, number));
                        }
                    },
                    _ => {},
                }
            }
        }
        assert forall|c: int, id: ValueView| 0 <= c < after.collections.len() implies (
        #[trigger] matching(after.collections[c].documents, id_name(), id)).len() <= 1 by {
            if c != slot {
                assert(after.collections[c] == open.collections[c]);
                assert(matching(open.collections[c].documents, id_name(), id).len() <= 1);
            } else {
                assert(matching(open.collections[slot].documents, id_name(), id).len() <= 1);
                lemma_step_keeps_ids_apart(db.next_id, present, request, id);
            }
        }
    }
}

/// A request leaves the identifiers of a collection different from one
/// another.
proof fn lemma_step_keeps_ids_apart(
    next_id: nat,
    present: Seq<Seq<FieldView>>,
    request: StoreRequestView,
    id: ValueView,
)
    requires
        forall|d: int| 0 <= d < present.len() ==> carries_id(#[trigger] present[d], next_id),
        matching(present, id_name(), id).len() <= 1,
    ensures
        match request {
            StoreRequestView::Insert { document, .. } => matching(
                present.push(stored(document, next_id)),
                id_name(),
                id,
            ).len() <= 1,
            StoreRequestView::InsertMany { documents, .. } => matching(
                present + stored_all(documents, next_id),
                id_name(),
                id,
            ).len() <= 1,
            StoreRequestView::Update { field, value, mutation, .. } => !touches_id(mutation)
                ==> matching(updated(present, field, value, mutation), id_name(), id).len() <= 1,
            _ => true,
        },
{
    match request {
        StoreRequestView::Insert { document, .. } => {
            let kept = stored(document, next_id);
            lemma_matching_push(present, kept, id_name(), id);
            if is_match(kept, id_name(), id) {
                lemma_position_is(kept, id_name(), 0);
                lemma_fresh_id_matches_none(next_id, present, next_id);
            }
        },
        StoreRequestView::InsertMany { documents, .. } => {
            let kept = stored_all(documents, next_id);
            lemma_matching_concat(present, kept, id_name(), id);
            assert forall|i: int, j: int| 0 <= i < j < kept.len() implies !(is_match(
                #[trigger] kept[i],
                id_name(),
                id,
            ) && is_match(#[trigger] kept[j], id_name(), id)) by {
                lemma_position_is(kept[i], id_name(), 0);
                lemma_position_is(kept[j], id_name(), 0);
                if id_text((next_id + i) as nat) == id_text((next_id + j) as nat) {
                    lemma_id_text_injective((next_id + i) as nat, (next_id + j) as nat);
                }
            }
            lemma_matching_at_most_one(kept, id_name(), id);
            lemma_matching_none(kept, id_name(), id);
            if matching(kept, id_name(), id).len() > 0 {
                let k = choose|k: int|
                    0 <= k < kept.len() && is_match(#[trigger] kept[k], id_name(), id);
                lemma_position_is(kept[k], id_name(), 0);
                lemma_fresh_id_matches_none(next_id, present, (next_id + k) as nat);
            }
        },
        StoreRequestView::Update { field, value, mutation, .. } => {
            if !touches_id(mutation) {
                let after = updated(present, field, value, mutation);
                if mutation is Remove {
                    lemma_remaining_fewer(present, field, value, id_name(), id);
                } else {
                    assert forall|j: int| 0 <= j < present.len() implies is_match(
                        #[trigger] after[j],
                        id_name(),
                        id,
                    ) == is_match(present[j], id_name(), id) by {
                        let number = choose|number: nat|
                            number < next_id && #[trigger] starts_with_id(present[j], number);
                        if is_match(present[j], field, value) {
                            match mutation {
                                MutationView::SetField { name: set, value: to } => {
                                    lemma_with_field_keeps_id(present[j], set, to, number);
                                },
                                MutationView::SetFields { fields } => {
                                    lemma_merged_keeps_id(present[j], fields, number);
                                },
                                MutationView::Remove => {},
                            }
                        }
                        lemma_position_is(present[j], id_name(), 0);
                        lemma_position_is(after[j], id_name(), 0);
                    }
                    lemma_matching_count(after, present, id_name(), id);
                }
            }
        },
        _ => {},
    }
}

/// No document that the store holds has an identifier that it has yet to
/// assign.
proof fn lemma_fresh_id_matches_none(next_id: nat, present: Seq<Seq<FieldView>>, number: nat)
    requires
        forall|d: int| 0 <= d < present.len() ==> carries_id(#[trigger] present[d], next_id),
        number >= next_id,
    ensures
        matching(present, id_name(), ValueView::Text(id_text(number))).len() == 0,
{
    assert forall|d: int| 0 <= d < present.len() implies !is_match(
        #[trigger] present[d],
        id_name(),
        ValueView::Text(id_text(number)),
    ) by {
        let held = choose|held: nat| held < next_id && #[trigger] starts_with_id(present[d], held);
        lemma_stored_id(present[d], held, number);
    }
    lemma_matching_none(present, id_name(), ValueView::Text(id_text(number)));
}

} // verus!
