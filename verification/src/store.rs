//! A document store in memory that serves the store protocol.
//!
//! It is the model made executable: [`MemoryStore::execute`] is proved to do
//! to the store exactly what [`store_step`] lays down. It is there to try the
//! guard and the service out without a database. It keeps nothing: what it
//! holds is gone with it.

use crate::document::Document;
use crate::ident::{id_text, render_id};
use crate::model::{
    collection_flags, first_match, id_flags, id_name, id_texts, is_match, lemma_matching_push,
    lemma_opened, lemma_store_step_wf, match_flags, matching, mutated, remaining, store_step,
    stored, stored_all, touches_id, updated, CollectionView, StoreView,
};
use crate::protocol::{documents_view, texts_view, Mutation, StoreReply, StoreRequest};
use crate::search::{first_true, lemma_first_true, lemma_first_true_is};
use crate::value::{fields_view, find_field, has_field, Field, Value};
use vstd::prelude::*;

verus! {

/// A named collection of documents.
struct Collection {
    name: String,
    documents: Vec<Document>,
}

/// A document store held in memory.
pub struct MemoryStore {
    collections: Vec<Collection>,
    next_id: u64,
}

impl View for Collection {
    type V = CollectionView;

    closed spec fn view(&self) -> CollectionView {
        CollectionView { name: self.name@, documents: documents_view(self.documents@) }
    }
}

/// The views of a sequence of collections, in order.
spec fn collections_view(collections: Seq<Collection>) -> Seq<CollectionView> {
    Seq::new(collections.len(), |i: int| collections[i]@)
}

impl View for MemoryStore {
    type V = StoreView;

    closed spec fn view(&self) -> StoreView {
        StoreView {
            collections: collections_view(self.collections@),
            next_id: self.next_id as nat,
        }
    }
}

/// Whether the document's `field` equals `value`.
fn document_matches(document: &Document, field: &String, value: &Value) -> (matched: bool)
    ensures
        matched == is_match(document@, field@, value@),
{
    let index = find_field(&document.fields, field);
    if index < document.fields.len() {
        document.fields[index].value.same(value)
    } else {
        false
    }
}

/// Copies the documents whose `field` equals `value`.
fn find_all(documents: &Vec<Document>, field: &String, value: &Value) -> (found: Vec<Document>)
    ensures
        documents_view(found@) == matching(documents_view(documents@), field@, value@),
{
    let ghost all = documents_view(documents@);
    let mut found: Vec<Document> = Vec::new();
    let mut i: usize = 0;
    assert(all.take(0) =~= Seq::empty());
    while i < documents.len()
        invariant
            0 <= i <= documents.len(),
            all == documents_view(documents@),
            documents_view(found@) =~= matching(all.take(i as int), field@, value@),
        decreases documents.len() - i,
    {
        proof {
            assert(all.take(i + 1) =~= all.take(i as int).push(all[i as int]));
            lemma_matching_push(all.take(i as int), all[i as int], field@, value@);
        }
        if document_matches(&documents[i], field, value) {
            found.push(documents[i].clone());
        }
        i += 1;
    }
    assert(all.take(i as int) =~= all);
    found
}

/// Copies the first document whose `field` equals `value`.
fn find_first(documents: &Vec<Document>, field: &String, value: &Value) -> (found: Option<
    Document,
>)
    ensures
        match found {
            Some(document) => first_match(documents_view(documents@), field@, value@) == Some(
                document@,
            ),
            None => first_match(documents_view(documents@), field@, value@) is None,
        },
{
    let ghost flags = match_flags(documents_view(documents@), field@, value@);
    let mut i: usize = 0;
    while i < documents.len()
        invariant
            0 <= i <= documents.len(),
            flags == match_flags(documents_view(documents@), field@, value@),
            forall|j: int| 0 <= j < i ==> !#[trigger] flags[j],
        decreases documents.len() - i,
    {
        if document_matches(&documents[i], field, value) {
            proof {
                lemma_first_true_is(flags, i as int);
            }
            return Some(documents[i].clone());
        }
        i += 1;
    }
    proof {
        lemma_first_true_is(flags, i as int);
    }
    None
}

/// The document as the store keeps it under the identifier numbered `number`.
fn store_document(document: &Document, number: u64) -> (kept: Document)
    ensures
        kept@ == stored(document@, number as nat),
{
    let mut fields: Vec<Field> = Vec::new();
    fields.push(Field { name: "_id".to_owned(), value: Value::Text(render_id(number)) });
    let mut i: usize = 0;
    while i < document.fields.len()
        invariant
            0 <= i <= document.fields.len(),
            fields.len() == i + 1,
            fields_view(fields@) =~= stored(document@, number as nat).take(i + 1),
        decreases document.fields.len() - i,
    {
        fields.push(document.fields[i].clone());
        i += 1;
    }
    assert(stored(document@, number as nat).take(i + 1) =~= stored(document@, number as nat));
    Document { fields }
}

/// Applies a field-setting mutation to the documents whose `field` equals
/// `value`, and counts them.
fn set_matching(
    documents: &mut Vec<Document>,
    field: &String,
    value: &Value,
    mutation: &Mutation,
) -> (count: usize)
    requires
        !(mutation@ is Remove),
    ensures
        documents_view(final(documents)@) == updated(
            documents_view(old(documents)@),
            field@,
            value@,
            mutation@,
        ),
        count == matching(documents_view(old(documents)@), field@, value@).len(),
{
    let ghost all = documents_view(documents@);
    let mut count: usize = 0;
    let mut i: usize = 0;
    assert(all.take(0) =~= Seq::empty());
    while i < documents.len()
        invariant
            0 <= i <= documents.len(),
            documents.len() == all.len(),
            !(mutation@ is Remove),
            count <= i,
            count == matching(all.take(i as int), field@, value@).len(),
            forall|j: int|
                0 <= j < i ==> (#[trigger] documents[j])@ == updated(
                    all,
                    field@,
                    value@,
                    mutation@,
                )[j],
            forall|j: int| i <= j < all.len() ==> (#[trigger] documents[j])@ == all[j],
        decreases documents.len() - i,
    {
        proof {
            assert(all.take(i + 1) =~= all.take(i as int).push(all[i as int]));
            lemma_matching_push(all.take(i as int), all[i as int], field@, value@);
        }
        if document_matches(&documents[i], field, value) {
            match mutation {
                Mutation::SetField { name, value: to } => {
                    documents[i].set(name.clone(), to.clone());
                },
                Mutation::SetFields { fields } => {
                    documents[i].merge(fields);
                },
                Mutation::Remove => {},
            }
            assert(documents[i as int]@ == mutated(all[i as int], mutation@));
            count += 1;
        }
        i += 1;
    }
    assert(all.take(i as int) =~= all);
    assert(documents_view(documents@) =~= updated(all, field@, value@, mutation@));
    count
}

/// Removes the documents whose `field` equals `value`, and counts them.
fn remove_matching(documents: &mut Vec<Document>, field: &String, value: &Value) -> (count: usize)
    ensures
        documents_view(final(documents)@) == remaining(
            documents_view(old(documents)@),
            field@,
            value@,
        ),
        count == matching(documents_view(old(documents)@), field@, value@).len(),
{
    let ghost all = documents_view(documents@);
    let mut count: usize = 0;
    let mut i: usize = 0;
    assert(all.take(0) =~= Seq::empty());
    assert(all.len() == documents.len());
    while i < documents.len()
        invariant
            0 <= i <= documents.len(),
            all.len() <= usize::MAX,
            i + count + (documents.len() - i) == all.len(),
            count == matching(all.take(i + count), field@, value@).len(),
            documents_view(documents@).take(i as int) =~= remaining(
                all.take(i + count),
                field@,
                value@,
            ),
            documents_view(documents@).skip(i as int) =~= all.skip(i + count),
        decreases documents.len() - i,
    {
        let ghost done = i + count;
        let ghost now = documents_view(documents@);
        proof {
            assert(now.skip(i as int)[0] == all.skip(done)[0]);
            assert(all.take(done + 1) =~= all.take(done).push(all[done]));
            lemma_matching_push(all.take(done), all[done], field@, value@);
        }
        if document_matches(&documents[i], field, value) {
            documents.remove(i);
            count += 1;
            proof {
                let next = documents_view(documents@);
                assert(next =~= now.remove(i as int));
                assert(next.take(i as int) =~= now.take(i as int));
                assert(next.skip(i as int) =~= now.skip(i as int).skip(1));
                assert(all.skip(done + 1) =~= all.skip(done).skip(1));
            }
        } else {
            proof {
                assert(now.take(i + 1) =~= now.take(i as int).push(now[i as int]));
                assert(now.skip(i + 1) =~= now.skip(i as int).skip(1));
                assert(all.skip(done + 1) =~= all.skip(done).skip(1));
            }
            i += 1;
        }
    }
    proof {
        assert(all.take(i + count) =~= all);
        assert(documents_view(documents@).take(i as int) =~= documents_view(documents@));
    }
    count
}

/// Whether the mutation would set the identifier field.
fn mutation_touches_id(mutation: &Mutation) -> (touches: bool)
    ensures
        touches == touches_id(mutation@),
{
    let id: String = "_id".to_owned();
    match mutation {
        Mutation::SetField { name, .. } => *name == id,
        Mutation::SetFields { fields } => find_field(fields, &id) < fields.len(),
        Mutation::Remove => false,
    }
}

/// Whether one of the documents has an identifier field.
fn any_has_id(documents: &Vec<Document>) -> (any: bool)
    ensures
        any == (first_true(id_flags(documents_view(documents@))) < documents.len()),
{
    let id: String = "_id".to_owned();
    let ghost flags = id_flags(documents_view(documents@));
    let mut i: usize = 0;
    while i < documents.len()
        invariant
            0 <= i <= documents.len(),
            id@ == id_name(),
            flags == id_flags(documents_view(documents@)),
            forall|j: int| 0 <= j < i ==> !#[trigger] flags[j],
        decreases documents.len() - i,
    {
        if find_field(&documents[i].fields, &id) < documents[i].fields.len() {
            proof {
                lemma_first_true_is(flags, i as int);
            }
            return true;
        }
        i += 1;
    }
    proof {
        lemma_first_true_is(flags, i as int);
    }
    false
}

/// Index of the first collection called `name`, or the number of collections
/// when there is none.
fn find_collection(collections: &Vec<Collection>, name: &String) -> (slot: usize)
    ensures
        slot == first_true(collection_flags(collections_view(collections@), name@)),
        slot <= collections.len(),
{
    let ghost flags = collection_flags(collections_view(collections@), name@);
    let mut i: usize = 0;
    while i < collections.len()
        invariant
            0 <= i <= collections.len(),
            flags == collection_flags(collections_view(collections@), name@),
            forall|j: int| 0 <= j < i ==> !#[trigger] flags[j],
        decreases collections.len() - i,
    {
        if collections[i].name == *name {
            proof {
                lemma_first_true_is(flags, i as int);
            }
            return i;
        }
        i += 1;
    }
    proof {
        lemma_first_true_is(flags, i as int);
    }
    i
}

impl MemoryStore {
    /// A store without collections.
    pub fn new() -> (db: MemoryStore)
        ensures
            db@ == StoreView::empty(),
            db@.wf(),
    {
        let db = MemoryStore { collections: Vec::new(), next_id: 0 };
        assert(db@.collections =~= Seq::empty());
        db
    }

    /// Finds the collection called `name`, and creates it when there is none.
    fn open(&mut self, name: &String) -> (slot: usize)
        ensures
            final(self)@ == old(self)@.opened(name@),
            slot == final(self)@.slot(name@),
            slot < final(self).collections.len(),
    {
        let slot = find_collection(&self.collections, name);
        proof {
            lemma_opened(self@, name@, name@);
        }
        if slot == self.collections.len() {
            self.collections.push(Collection { name: name.clone(), documents: Vec::new() });
            proof {
                let added = self.collections[slot as int];
                assert(added@.documents =~= Seq::empty());
                assert(self@.collections =~= old(self)@.opened(name@).collections);
            }
        }
        slot
    }

    /// Performs one request.
    pub fn execute(&mut self, request: &StoreRequest) -> (reply: StoreReply)
        requires
            old(self)@.wf(),
        ensures
            final(self)@.wf(),
            (final(self)@, reply@) == store_step(old(self)@, request@),
    {
        proof {
            lemma_store_step_wf(self@, request@);
        }
        match request {
            StoreRequest::Insert { collection, document } => {
                let slot = self.open(collection);
                if has_id(document) || self.next_id == u64::MAX {
                    return StoreReply::Failed;
                }
                let id = render_id(self.next_id);
                let kept = store_document(document, self.next_id);
                let ghost open = self@;
                let ghost before = self.collections@;
                self.collections[slot].documents.push(kept);
                self.next_id = self.next_id + 1;
                proof {
                    let present = open.documents(collection@);
                    let added = present.push(stored(document@, open.next_id));
                    assert(documents_view(self.collections[slot as int].documents@) =~= added);
                    lemma_slot_changed(before, self.collections@, slot as int, collection@, open);
                }
                StoreReply::Inserted { id }
            },
            StoreRequest::InsertMany { collection, documents } => {
                let slot = self.open(collection);
                if any_has_id(documents) || documents.len() as u64 > u64::MAX - self.next_id {
                    return StoreReply::Failed;
                }
                let ghost open = self@;
                let ghost before = self.collections@;
                let ghost present = open.documents(collection@);
                let ghost added = documents_view(documents@);
                let first = self.next_id;
                let mut ids: Vec<String> = Vec::new();
                let mut i: usize = 0;
                proof {
                    lemma_first_true(collection_flags(open.collections, collection@));
                    assert(stored_all(added, first as nat).take(0) =~= Seq::empty());
                }
                while i < documents.len()
                    invariant
                        0 <= i <= documents.len(),
                        slot < before.len(),
                        first + documents.len() <= u64::MAX,
                        added == documents_view(documents@),
                        present == documents_view(before[slot as int].documents@),
                        self.next_id == first,
                        self.collections@.len() == before.len(),
                        forall|j: int|
                            0 <= j < before.len() && j != slot ==> self.collections[j] == before[j],
                        self.collections[slot as int].name == before[slot as int].name,
                        documents_view(self.collections[slot as int].documents@) =~= present
                            + stored_all(added, first as nat).take(i as int),
                        texts_view(ids@) =~= id_texts(first as nat, i as nat),
                    decreases documents.len() - i,
                {
                    let number = first + i as u64;
                    let ghost ids_before = texts_view(ids@);
                    let ghost kept_before = documents_view(
                        self.collections[slot as int].documents@,
                    );
                    ids.push(render_id(number));
                    let kept = store_document(&documents[i], number);
                    self.collections[slot].documents.push(kept);
                    proof {
                        let all = stored_all(added, first as nat);
                        assert(all[i as int] == kept@);
                        assert(all.take(i + 1) =~= all.take(i as int).push(all[i as int]));
                        assert(documents_view(self.collections[slot as int].documents@)
                            =~= kept_before.push(kept@));
                        assert(texts_view(ids@) =~= ids_before.push(id_text(number as nat)));
                        assert(id_texts(first as nat, (i + 1) as nat) =~= id_texts(
                            first as nat,
                            i as nat,
                        ).push(id_text(number as nat)));
                    }
                    i += 1;
                }
                self.next_id = first + documents.len() as u64;
                proof {
                    let all = stored_all(added, first as nat);
                    assert(all.take(i as int) =~= all);
                    lemma_slot_changed(before, self.collections@, slot as int, collection@, open);
                }
                StoreReply::InsertedMany { ids }
            },
            StoreRequest::Find { collection, field, value } => {
                let slot = self.open(collection);
                proof {
                    lemma_first_true(collection_flags(self@.collections, collection@));
                }
                let documents = find_all(&self.collections[slot].documents, field, value);
                StoreReply::Found { documents }
            },
            StoreRequest::FindOne { collection, field, value } => {
                let slot = self.open(collection);
                proof {
                    lemma_first_true(collection_flags(self@.collections, collection@));
                }
                StoreReply::FoundOne {
                    document: find_first(&self.collections[slot].documents, field, value),
                }
            },
            StoreRequest::Update { collection, field, value, mutation } => {
                let slot = self.open(collection);
                if mutation_touches_id(mutation) {
                    return StoreReply::Failed;
                }
                let ghost open = self@;
                let ghost before = self.collections@;
                let count = match mutation {
                    Mutation::Remove => remove_matching(
                        &mut self.collections[slot].documents,
                        field,
                        value,
                    ),
                    _ => set_matching(
                        &mut self.collections[slot].documents,
                        field,
                        value,
                        mutation,
                    ),
                };
                proof {
                    lemma_slot_changed(before, self.collections@, slot as int, collection@, open);
                }
                StoreReply::Updated { count }
            },
        }
    }
}

/// What changing the documents of one collection does to the store's view.
proof fn lemma_slot_changed(
    before: Seq<Collection>,
    after: Seq<Collection>,
    slot: int,
    name: Seq<char>,
    open: StoreView,
)
    requires
        open.collections == collections_view(before),
        slot == open.slot(name),
        0 <= slot < before.len(),
        after.len() == before.len(),
        forall|j: int| 0 <= j < before.len() && j != slot ==> after[j] == before[j],
        after[slot].name == before[slot].name,
    ensures
        collections_view(after) == open.with_documents(
            name,
            documents_view(after[slot].documents@),
        ).collections,
        open.documents(name) == documents_view(before[slot].documents@),
{
    lemma_first_true(collection_flags(open.collections, name));
    assert(open.collections[slot] == before[slot]@);
    assert forall|j: int| 0 <= j < before.len() && j != slot implies collections_view(after)[j]
        == open.collections[j] by {
        assert(after[j] == before[j]);
    }
    assert(collections_view(after) =~= open.with_documents(
        name,
        documents_view(after[slot].documents@),
    ).collections);
}

/// Whether the document has an identifier field.
fn has_id(document: &Document) -> (any: bool)
    ensures
        any == has_field(document@, id_name()),
{
    let id: String = "_id".to_owned();
    find_field(&document.fields, &id) < document.fields.len()
}

} // verus!
