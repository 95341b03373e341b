//! The document service: create, read, patch and delete documents by field,
//! without a fixed schema.
//!
//! Each operation is one exchange with the store. A handler turns the
//! operation's payload into the [`StoreRequest`] to perform, and [`respond`]
//! turns the store's reply into the answer for the client.

use crate::document::Document;
use crate::model::id_name;
use crate::protocol::{
    documents_view, texts_view, Mutation, MutationView, StoreReply, StoreReplyView, StoreRequest,
    StoreRequestView,
};
use crate::value::{copy_fields, fields_view, member_of, Field, FieldView, Value, ValueView};
use vstd::prelude::*;
use vstd::string::*;

verus! {

/// Payload of [`insert_doc`]: a new document with exactly one field.
#[derive(Debug, PartialEq, Eq, Clone)]
pub struct InsertDoc {
    pub collection_name: String,
    pub field_name: String,
    pub field_value: Value,
}

/// Payload of [`read_doc`]: the identifier of the document to read.
#[derive(Debug, PartialEq, Eq, Clone)]
pub struct GetDoc {
    pub collection_name: String,
    pub doc_id: String,
}

/// Payload of [`insert_field`]: one field to set on the document with this
/// identifier.
#[derive(Debug, PartialEq, Eq, Clone)]
pub struct InsertField {
    pub collection_name: String,
    pub doc_id: String,
    pub field_name: String,
    pub field_value: Value,
}

/// Payload of [`delete_doc`]: the identifier of the document to delete.
#[derive(Debug, PartialEq, Eq, Clone)]
pub struct DeleteDoc {
    pub collection_name: String,
    pub doc_id: String,
}

/// Payload of [`search_doc_by_one_field`]: the field and the value that the
/// documents to find have.
#[derive(Debug, PartialEq, Eq, Clone)]
pub struct OneFieldSearch {
    pub collection_name: String,
    pub search_key: String,
    pub search_value: Value,
}

/// Why an operation gave no answer.
#[derive(Debug, PartialEq, Eq, Clone, Copy)]
pub enum ServiceError {
    /// The payload does not have the shape that the operation takes.
    BadRequest,
    /// No document has the identifier that a patch names.
    NotFound,
    /// The store rejected the operation, or answered something else.
    StoreFailure,
}

/// The answer to a successful operation.
#[derive(Debug, PartialEq, Eq, Clone)]
pub enum ServiceResponse {
    /// An identifier or a message.
    Text(String),
    /// The identifiers of the documents that were added, in order.
    Ids(Vec<String>),
    /// The documents that were found.
    Documents(Vec<Document>),
    /// Nothing to say.
    Empty,
}

/// Mathematical form of a [`ServiceResponse`].
pub enum ServiceResponseView {
    Text(Seq<char>),
    Ids(Seq<Seq<char>>),
    Documents(Seq<Seq<FieldView>>),
    Empty,
}

impl View for ServiceResponse {
    type V = ServiceResponseView;

    open spec fn view(&self) -> ServiceResponseView {
        match self {
            ServiceResponse::Text(text) => ServiceResponseView::Text(text@),
            ServiceResponse::Ids(ids) => ServiceResponseView::Ids(texts_view(ids@)),
            ServiceResponse::Documents(documents) => ServiceResponseView::Documents(
                documents_view(documents@),
            ),
            ServiceResponse::Empty => ServiceResponseView::Empty,
        }
    }
}

/// The view of an operation's outcome.
pub open spec fn outcome_view(outcome: Result<ServiceResponse, ServiceError>) -> Result<
    ServiceResponseView,
    ServiceError,
> {
    match outcome {
        Ok(response) => Ok(response@),
        Err(error) => Err(error),
    }
}

/// The view of a handler's result.
pub open spec fn request_view(request: Result<StoreRequest, ServiceError>) -> Result<
    StoreRequestView,
    ServiceError,
> {
    match request {
        Ok(request) => Ok(request@),
        Err(error) => Err(error),
    }
}

/// The text that a payload holds under `name`.
pub open spec fn text_of(payload: ValueView, name: Seq<char>) -> Option<Seq<char>> {
    match member_of(payload, name) {
        Some(ValueView::Text(text)) => Some(text),
        _ => None,
    }
}

/// The fields of the object that a payload holds under `name`.
pub open spec fn fields_of(payload: ValueView, name: Seq<char>) -> Option<Seq<FieldView>> {
    match member_of(payload, name) {
        Some(ValueView::Object(fields)) => Some(fields),
        _ => None,
    }
}

/// What a payload holds under `name`, and null when it holds nothing.
pub open spec fn value_of(payload: ValueView, name: Seq<char>) -> ValueView {
    match member_of(payload, name) {
        Some(value) => value,
        None => ValueView::Null,
    }
}

/// Whether every entry holds an object.
pub open spec fn all_objects(entries: Seq<FieldView>) -> bool {
    forall|i: int| 0 <= i < entries.len() ==> (#[trigger] entries[i]).value is Object
}

/// The fields of the object that each entry holds, in the order of the
/// entries.
pub open spec fn entry_documents(entries: Seq<FieldView>) -> Seq<Seq<FieldView>> {
    Seq::new(
        entries.len(),
        |i: int|
            match entries[i].value {
                ValueView::Object(fields) => fields,
                _ => Seq::empty(),
            },
    )
}

/// The request of [`insert_doc`].
pub open spec fn insert_doc_request(
    collection: Seq<char>,
    name: Seq<char>,
    value: ValueView,
) -> StoreRequestView {
    StoreRequestView::Insert { collection, document: seq![FieldView { name, value }] }
}

/// The request of [`insert_doc_multifield`]: the payload's `data` becomes a
/// document of the collection that `collection_name` names.
pub open spec fn insert_doc_multifield_request(payload: ValueView) -> Result<
    StoreRequestView,
    ServiceError,
> {
    match (text_of(payload, "collection_name"@), fields_of(payload, "data"@)) {
        (Some(collection), Some(document)) => Ok(StoreRequestView::Insert { collection, document }),
        _ => Err(ServiceError::BadRequest),
    }
}

/// The request of [`insert_docs`]: every entry of the payload's `docs`
/// becomes a document, in the order of the entries.
pub open spec fn insert_docs_request(payload: ValueView) -> Result<StoreRequestView, ServiceError> {
    match (text_of(payload, "collection_name"@), fields_of(payload, "docs"@)) {
        (Some(collection), Some(entries)) => {
            if all_objects(entries) {
                Ok(StoreRequestView::InsertMany { collection, documents: entry_documents(entries) })
            } else {
                Err(ServiceError::BadRequest)
            }
        },
        _ => Err(ServiceError::BadRequest),
    }
}

/// The request of [`read_doc`].
pub open spec fn read_doc_request(collection: Seq<char>, id: Seq<char>) -> StoreRequestView {
    StoreRequestView::Find { collection, field: id_name(), value: ValueView::Text(id) }
}

/// The request of [`insert_field`].
pub open spec fn insert_field_request(
    collection: Seq<char>,
    id: Seq<char>,
    name: Seq<char>,
    value: ValueView,
) -> StoreRequestView {
    StoreRequestView::Update {
        collection,
        field: id_name(),
        value: ValueView::Text(id),
        mutation: MutationView::SetField { name, value },
    }
}

/// The request of [`delete_doc`].
pub open spec fn delete_doc_request(collection: Seq<char>, id: Seq<char>) -> StoreRequestView {
    StoreRequestView::Update {
        collection,
        field: id_name(),
        value: ValueView::Text(id),
        mutation: MutationView::Remove,
    }
}

/// The request of [`insert_many_fields`]: the payload's `fields_to_insert`
/// are set on the documents whose identifier is the payload's `doc_id`.
pub open spec fn insert_many_fields_request(payload: ValueView) -> Result<
    StoreRequestView,
    ServiceError,
> {
    match (text_of(payload, "collection_name"@), fields_of(payload, "fields_to_insert"@)) {
        (Some(collection), Some(fields)) => Ok(
            StoreRequestView::Update {
                collection,
                field: id_name(),
                value: value_of(payload, "doc_id"@),
                mutation: MutationView::SetFields { fields },
            },
        ),
        _ => Err(ServiceError::BadRequest),
    }
}

/// The request of [`search_doc_by_one_field`].
pub open spec fn search_request(
    collection: Seq<char>,
    field: Seq<char>,
    value: ValueView,
) -> StoreRequestView {
    StoreRequestView::Find { collection, field, value }
}

/// The answer to the client for a store's reply to a request.
///
/// A failed store, and a reply that does not answer the request, give
/// `StoreFailure`. A patch that matched no document gives `NotFound`; a
/// delete that matched none is no error, nor is a read that found none.
pub open spec fn response_to(request: StoreRequestView, reply: StoreReplyView) -> Result<
    ServiceResponseView,
    ServiceError,
> {
    match (request, reply) {
        (StoreRequestView::Insert { .. }, StoreReplyView::Inserted { id }) => Ok(
            ServiceResponseView::Text(id),
        ),
        (StoreRequestView::InsertMany { .. }, StoreReplyView::InsertedMany { ids }) => Ok(
            ServiceResponseView::Ids(ids),
        ),
        (StoreRequestView::Find { .. }, StoreReplyView::Found { documents }) => Ok(
            ServiceResponseView::Documents(documents),
        ),
        (StoreRequestView::FindOne { .. }, StoreReplyView::FoundOne { document }) => Ok(
            ServiceResponseView::Documents(
                match document {
                    Some(found) => seq![found],
                    None => Seq::empty(),
                },
            ),
        ),
        (StoreRequestView::Update { mutation, .. }, StoreReplyView::Updated { count }) => {
            match mutation {
                MutationView::SetField { .. } => {
                    if count == 0 {
                        Err(ServiceError::NotFound)
                    } else {
                        Ok(ServiceResponseView::Text("Field Added Successfully!"@))
                    }
                },
                MutationView::SetFields { .. } => {
                    if count == 0 {
                        Err(ServiceError::NotFound)
                    } else {
                        Ok(ServiceResponseView::Empty)
                    }
                },
                MutationView::Remove => Ok(ServiceResponseView::Text("Document Deleted!"@)),
            }
        },
        _ => Err(ServiceError::StoreFailure),
    }
}

/// The status code of the answer to the client.
pub open spec fn status_of(outcome: Result<ServiceResponseView, ServiceError>) -> u16 {
    match outcome {
        Ok(_) => 200,
        Err(ServiceError::BadRequest) => 400,
        Err(ServiceError::NotFound) => 404,
        Err(ServiceError::StoreFailure) => 500,
    }
}

/// The text that a payload holds under `name`.
fn payload_text(payload: &Value, name: &str) -> (text: Option<String>)
    ensures
        match text {
            Some(found) => text_of(payload@, name@) == Some(found@),
            None => text_of(payload@, name@) is None,
        },
{
    match payload.member(name) {
        Some(Value::Text(text)) => Some(text.clone()),
        _ => None,
    }
}

/// The fields of the object that a payload holds under `name`.
fn payload_fields(payload: &Value, name: &str) -> (fields: Option<Vec<Field>>)
    ensures
        match fields {
            Some(found) => fields_of(payload@, name@) == Some(fields_view(found@)),
            None => fields_of(payload@, name@) is None,
        },
{
    match payload.member(name) {
        Some(Value::Object(fields)) => Some(copy_fields(fields)),
        _ => None,
    }
}

/// Insert One, single field: a new document that holds exactly the given
/// field.
pub fn insert_doc(data: InsertDoc) -> (request: StoreRequest)
    ensures
        request@ == insert_doc_request(
            data.collection_name@,
            data.field_name@,
            data.field_value@,
        ),
{
    let mut fields: Vec<Field> = Vec::new();
    fields.push(Field { name: data.field_name, value: data.field_value });
    let document = Document { fields };
    assert(document@ =~= seq![
        FieldView { name: data.field_name@, value: data.field_value@ },
    ]);
    StoreRequest::Insert { collection: data.collection_name, document }
}

/// Insert One, many fields: a new document built from the object `data` of
/// the payload.
pub fn insert_doc_multifield(data: &Value) -> (request: Result<StoreRequest, ServiceError>)
    ensures
        request_view(request) == insert_doc_multifield_request(data@),
{
    let collection = match payload_text(data, "collection_name") {
        Some(collection) => collection,
        None => { return Err(ServiceError::BadRequest); },
    };
    let fields = match payload_fields(data, "data") {
        Some(fields) => fields,
        None => { return Err(ServiceError::BadRequest); },
    };
    Ok(StoreRequest::Insert { collection, document: Document { fields } })
}

/// Insert Many: one new document for every entry of the object `docs` of the
/// payload, whatever the entries are called.
pub fn insert_docs(data: &Value) -> (request: Result<StoreRequest, ServiceError>)
    ensures
        request_view(request) == insert_docs_request(data@),
{
    let collection = match payload_text(data, "collection_name") {
        Some(collection) => collection,
        None => { return Err(ServiceError::BadRequest); },
    };
    let entries = match payload_fields(data, "docs") {
        Some(entries) => entries,
        None => { return Err(ServiceError::BadRequest); },
    };
    let ghost all = fields_view(entries@);
    let mut documents: Vec<Document> = Vec::new();
    let mut i: usize = 0;
    while i < entries.len()
        invariant
            0 <= i <= entries.len(),
            all == fields_view(entries@),
            text_of(data@, "collection_name"@) == Some(collection@),
            fields_of(data@, "docs"@) == Some(all),
            documents.len() == i,
            forall|j: int| 0 <= j < i ==> (#[trigger] all[j]).value is Object,
            forall|j: int| 0 <= j < i ==> (#[trigger] documents[j])@ == entry_documents(all)[j],
        decreases entries.len() - i,
    {
        match &entries[i].value {
            Value::Object(fields) => {
                documents.push(Document { fields: copy_fields(fields) });
            },
            _ => {
                assert(!(all[i as int].value is Object));
                return Err(ServiceError::BadRequest);
            },
        }
        i += 1;
    }
    assert(documents_view(documents@) =~= entry_documents(all));
    Ok(StoreRequest::InsertMany { collection, documents })
}

/// Read by Id: the documents whose identifier is `doc_id`.
pub fn read_doc(data: GetDoc) -> (request: StoreRequest)
    ensures
        request@ == read_doc_request(data.collection_name@, data.doc_id@),
{
    StoreRequest::Find {
        collection: data.collection_name,
        field: "_id".to_owned(),
        value: Value::Text(data.doc_id),
    }
}

/// Patch One Field: set one field of the document whose identifier is
/// `doc_id`.
pub fn insert_field(data: InsertField) -> (request: StoreRequest)
    ensures
        request@ == insert_field_request(
            data.collection_name@,
            data.doc_id@,
            data.field_name@,
            data.field_value@,
        ),
{
    StoreRequest::Update {
        collection: data.collection_name,
        field: "_id".to_owned(),
        value: Value::Text(data.doc_id),
        mutation: Mutation::SetField { name: data.field_name, value: data.field_value },
    }
}

/// Delete by Id: remove the document whose identifier is `doc_id`.
pub fn delete_doc(data: DeleteDoc) -> (request: StoreRequest)
    ensures
        request@ == delete_doc_request(data.collection_name@, data.doc_id@),
{
    StoreRequest::Update {
        collection: data.collection_name,
        field: "_id".to_owned(),
        value: Value::Text(data.doc_id),
        mutation: Mutation::Remove,
    }
}

/// Patch Many Fields: set the fields of the object `fields_to_insert` of the
/// payload on the document whose identifier is the payload's `doc_id`.
pub fn insert_many_fields(data: &Value) -> (request: Result<StoreRequest, ServiceError>)
    ensures
        request_view(request) == insert_many_fields_request(data@),
{
    let collection = match payload_text(data, "collection_name") {
        Some(collection) => collection,
        None => { return Err(ServiceError::BadRequest); },
    };
    let fields = match payload_fields(data, "fields_to_insert") {
        Some(fields) => fields,
        None => { return Err(ServiceError::BadRequest); },
    };
    let id = match data.member("doc_id") {
        Some(value) => value.clone(),
        None => Value::Null,
    };
    Ok(
        StoreRequest::Update {
            collection,
            field: "_id".to_owned(),
            value: id,
            mutation: Mutation::SetFields { fields },
        },
    )
}

/// Read by Field Match: the documents whose field `search_key` equals
/// `search_value`.
pub fn search_doc_by_one_field(data: OneFieldSearch) -> (request: StoreRequest)
    ensures
        request@ == search_request(data.collection_name@, data.search_key@, data.search_value@),
{
    StoreRequest::Find {
        collection: data.collection_name,
        field: data.search_key,
        value: data.search_value,
    }
}

/// Turns the store's reply to a request into the answer for the client.
pub fn respond(request: &StoreRequest, reply: StoreReply) -> (outcome: Result<
    ServiceResponse,
    ServiceError,
>)
    ensures
        outcome_view(outcome) == response_to(request@, reply@),
{
    match reply {
        StoreReply::Inserted { id } => match request {
            StoreRequest::Insert { .. } => Ok(ServiceResponse::Text(id)),
            _ => Err(ServiceError::StoreFailure),
        },
        StoreReply::InsertedMany { ids } => match request {
            StoreRequest::InsertMany { .. } => Ok(ServiceResponse::Ids(ids)),
            _ => Err(ServiceError::StoreFailure),
        },
        StoreReply::Found { documents } => match request {
            StoreRequest::Find { .. } => Ok(ServiceResponse::Documents(documents)),
            _ => Err(ServiceError::StoreFailure),
        },
        StoreReply::FoundOne { document } => match request {
            StoreRequest::FindOne { .. } => {
                let mut documents: Vec<Document> = Vec::new();
                match document {
                    Some(found) => {
                        documents.push(found);
                        assert(documents_view(documents@) =~= seq![found@]);
                    },
                    None => {
                        assert(documents_view(documents@) =~= Seq::empty());
                    },
                }
                Ok(ServiceResponse::Documents(documents))
            },
            _ => Err(ServiceError::StoreFailure),
        },
        StoreReply::Updated { count } => match request {
            StoreRequest::Update { mutation, .. } => match mutation {
                Mutation::SetField { .. } => {
                    if count == 0 {
                        Err(ServiceError::NotFound)
                    } else {
                        Ok(ServiceResponse::Text("Field Added Successfully!".to_owned()))
                    }
                },
                Mutation::SetFields { .. } => {
                    if count == 0 {
                        Err(ServiceError::NotFound)
                    } else {
                        Ok(ServiceResponse::Empty)
                    }
                },
                Mutation::Remove => Ok(ServiceResponse::Text("Document Deleted!".to_owned())),
            },
            _ => Err(ServiceError::StoreFailure),
        },
        StoreReply::Failed => Err(ServiceError::StoreFailure),
    }
}

/// The status code of the answer to the client.
pub fn status(outcome: &Result<ServiceResponse, ServiceError>) -> (code: u16)
    ensures
        code == status_of(outcome_view(*outcome)),
{
    match outcome {
        Ok(_) => 200,
        Err(ServiceError::BadRequest) => 400,
        Err(ServiceError::NotFound) => 404,
        Err(ServiceError::StoreFailure) => 500,
    }
}

} // verus!
