//! The store protocol: what the service asks of a document store, and what the
//! store answers.
//!
//! The service never touches a store itself. It hands out a [`StoreRequest`],
//! whoever owns the store performs it, and the [`StoreReply`] comes back.

use crate::document::Document;
use crate::value::{fields_view, Field, FieldView, Value, ValueView};
use vstd::prelude::*;

verus! {

/// What an update does to each document that its query matches.
#[derive(Debug, PartialEq, Eq, Clone)]
pub enum Mutation {
    /// Set one field.
    SetField { name: String, value: Value },
    /// Set every one of these fields, in order.
    SetFields { fields: Vec<Field> },
    /// Remove the document.
    Remove,
}

/// Mathematical form of a [`Mutation`].
pub enum MutationView {
    SetField { name: Seq<char>, value: ValueView },
    SetFields { fields: Seq<FieldView> },
    Remove,
}

impl View for Mutation {
    type V = MutationView;

    open spec fn view(&self) -> MutationView {
        match self {
            Mutation::SetField { name, value } => MutationView::SetField {
                name: name@,
                value: value@,
            },
            Mutation::SetFields { fields } => MutationView::SetFields {
                fields: fields_view(fields@),
            },
            Mutation::Remove => MutationView::Remove,
        }
    }
}

/// One operation on a named collection of a document store. The collection
/// is created when the store does not have it yet.
#[derive(Debug, PartialEq, Eq, Clone)]
pub enum StoreRequest {
    /// Add a document; the store assigns its identifier.
    Insert { collection: String, document: Document },
    /// Add these documents, in order.
    InsertMany { collection: String, documents: Vec<Document> },
    /// All documents whose `field` equals `value`.
    Find { collection: String, field: String, value: Value },
    /// The first document whose `field` equals `value`.
    FindOne { collection: String, field: String, value: Value },
    /// Apply `mutation` to every document whose `field` equals `value`.
    Update { collection: String, field: String, value: Value, mutation: Mutation },
}

/// Mathematical form of a [`StoreRequest`].
pub enum StoreRequestView {
    Insert { collection: Seq<char>, document: Seq<FieldView> },
    InsertMany { collection: Seq<char>, documents: Seq<Seq<FieldView>> },
    Find { collection: Seq<char>, field: Seq<char>, value: ValueView },
    FindOne { collection: Seq<char>, field: Seq<char>, value: ValueView },
    Update { collection: Seq<char>, field: Seq<char>, value: ValueView, mutation: MutationView },
}

/// The views of a sequence of documents, in order.
pub open spec fn documents_view(documents: Seq<Document>) -> Seq<Seq<FieldView>> {
    Seq::new(documents.len(), |i: int| documents[i]@)
}

/// The views of a sequence of strings, in order.
pub open spec fn texts_view(texts: Seq<String>) -> Seq<Seq<char>> {
    Seq::new(texts.len(), |i: int| texts[i]@)
}

impl View for StoreRequest {
    type V = StoreRequestView;

    open spec fn view(&self) -> StoreRequestView {
        match self {
            StoreRequest::Insert { collection, document } => StoreRequestView::Insert {
                collection: collection@,
                document: document@,
            },
            StoreRequest::InsertMany { collection, documents } => StoreRequestView::InsertMany {
                collection: collection@,
                documents: documents_view(documents@),
            },
            StoreRequest::Find { collection, field, value } => StoreRequestView::Find {
                collection: collection@,
                field: field@,
                value: value@,
            },
            StoreRequest::FindOne { collection, field, value } => StoreRequestView::FindOne {
                collection: collection@,
                field: field@,
                value: value@,
            },
            StoreRequest::Update { collection, field, value, mutation } => {
                StoreRequestView::Update {
                    collection: collection@,
                    field: field@,
                    value: value@,
                    mutation: mutation@,
                }
            },
        }
    }
}

impl StoreRequestView {
    /// The collection that the request is for.
    pub open spec fn collection(self) -> Seq<char> {
        match self {
            StoreRequestView::Insert { collection, .. } => collection,
            StoreRequestView::InsertMany { collection, .. } => collection,
            StoreRequestView::Find { collection, .. } => collection,
            StoreRequestView::FindOne { collection, .. } => collection,
            StoreRequestView::Update { collection, .. } => collection,
        }
    }
}

/// What a store answers to a [`StoreRequest`].
#[derive(Debug, PartialEq, Eq, Clone)]
pub enum StoreReply {
    /// The document was added under this identifier.
    Inserted { id: String },
    /// The documents were added under these identifiers, in order.
    InsertedMany { ids: Vec<String> },
    /// The documents that a `Find` matched.
    Found { documents: Vec<Document> },
    /// The document that a `FindOne` matched, if any.
    FoundOne { document: Option<Document> },
    /// The number of documents that an `Update` matched.
    Updated { count: usize },
    /// The store rejected the operation.
    Failed,
}

/// Mathematical form of a [`StoreReply`].
pub enum StoreReplyView {
    Inserted { id: Seq<char> },
    InsertedMany { ids: Seq<Seq<char>> },
    Found { documents: Seq<Seq<FieldView>> },
    FoundOne { document: Option<Seq<FieldView>> },
    Updated { count: nat },
    Failed,
}

impl View for StoreReply {
    type V = StoreReplyView;

    open spec fn view(&self) -> StoreReplyView {
        match self {
            StoreReply::Inserted { id } => StoreReplyView::Inserted { id: id@ },
            StoreReply::InsertedMany { ids } => StoreReplyView::InsertedMany {
                ids: texts_view(ids@),
            },
            StoreReply::Found { documents } => StoreReplyView::Found {
                documents: documents_view(documents@),
            },
            StoreReply::FoundOne { document } => StoreReplyView::FoundOne {
                document: match document {
                    Some(found) => Some(found@),
                    None => None,
                },
            },
            StoreReply::Updated { count } => StoreReplyView::Updated { count: *count as nat },
            StoreReply::Failed => StoreReplyView::Failed,
        }
    }
}

} // verus!
