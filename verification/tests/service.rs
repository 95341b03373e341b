use ezbase::document::Document;
use ezbase::protocol::{Mutation, StoreReply, StoreRequest};
use ezbase::service::{
    delete_doc, insert_doc, insert_doc_multifield, insert_docs, insert_field, insert_many_fields,
    read_doc, respond, search_doc_by_one_field, status, DeleteDoc, GetDoc, InsertDoc, InsertField,
    OneFieldSearch, ServiceError, ServiceResponse,
};
use ezbase::value::{Field, Value};

fn text(s: &str) -> Value {
    Value::Text(s.to_string())
}

fn field(name: &str, value: Value) -> Field {
    Field { name: name.to_string(), value }
}

fn object(fields: Vec<Field>) -> Value {
    Value::Object(fields)
}

fn brown() -> Vec<Field> {
    vec![field("Height", Value::Int(185)), field("Color", text("Brown"))]
}

fn find(collection: &str) -> StoreRequest {
    StoreRequest::Find { collection: collection.to_string(), field: "a".to_string(), value: Value::Null }
}

fn update(mutation: Mutation) -> StoreRequest {
    StoreRequest::Update {
        collection: "Users".to_string(),
        field: "_id".to_string(),
        value: text("1"),
        mutation,
    }
}

#[test]
fn insert_doc_asks_for_a_document_of_one_field() {
    let data = InsertDoc {
        collection_name: "Users".to_string(),
        field_name: "Height".to_string(),
        field_value: Value::Int(185),
    };
    assert_eq!(
        insert_doc(data),
        StoreRequest::Insert {
            collection: "Users".to_string(),
            document: Document { fields: vec![field("Height", Value::Int(185))] },
        }
    );
}

#[test]
fn insert_doc_multifield_asks_for_the_data_as_document() {
    let payload = object(vec![field("collection_name", text("Users")), field("data", object(brown()))]);
    assert_eq!(
        insert_doc_multifield(&payload),
        Ok(StoreRequest::Insert {
            collection: "Users".to_string(),
            document: Document { fields: brown() },
        })
    );
}

#[test]
fn insert_doc_multifield_wants_a_collection_name() {
    let payload = object(vec![field("data", object(brown()))]);
    assert_eq!(insert_doc_multifield(&payload), Err(ServiceError::BadRequest));
    let payload = object(vec![field("collection_name", Value::Int(1)), field("data", object(brown()))]);
    assert_eq!(insert_doc_multifield(&payload), Err(ServiceError::BadRequest));
}

#[test]
fn insert_doc_multifield_wants_an_object_as_data() {
    let payload = object(vec![field("collection_name", text("Users"))]);
    assert_eq!(insert_doc_multifield(&payload), Err(ServiceError::BadRequest));
    let payload = object(vec![
        field("collection_name", text("Users")),
        field("data", Value::Array(vec![Value::Int(1)])),
    ]);
    assert_eq!(insert_doc_multifield(&payload), Err(ServiceError::BadRequest));
    assert_eq!(insert_doc_multifield(&Value::Null), Err(ServiceError::BadRequest));
    assert_eq!(insert_doc_multifield(&text("Users")), Err(ServiceError::BadRequest));
}

#[test]
fn insert_docs_asks_for_the_entries_in_order() {
    let left = vec![field("Height", Value::Int(195))];
    let payload = object(vec![
        field("collection_name", text("Users")),
        field("docs", object(vec![field("b", object(brown())), field("a", object(left.clone()))])),
    ]);
    assert_eq!(
        insert_docs(&payload),
        Ok(StoreRequest::InsertMany {
            collection: "Users".to_string(),
            documents: vec![Document { fields: brown() }, Document { fields: left }],
        })
    );
}

#[test]
fn insert_docs_wants_objects_as_entries() {
    let payload = object(vec![
        field("collection_name", text("Users")),
        field("docs", object(vec![field("0", object(brown())), field("1", Value::Int(3))])),
    ]);
    assert_eq!(insert_docs(&payload), Err(ServiceError::BadRequest));
}

#[test]
fn insert_docs_wants_a_collection_name_and_docs() {
    let payload = object(vec![field("docs", object(vec![]))]);
    assert_eq!(insert_docs(&payload), Err(ServiceError::BadRequest));
    let payload = object(vec![field("collection_name", text("Users"))]);
    assert_eq!(insert_docs(&payload), Err(ServiceError::BadRequest));
    let payload = object(vec![
        field("collection_name", text("Users")),
        field("docs", Value::Array(vec![object(brown())])),
    ]);
    assert_eq!(insert_docs(&payload), Err(ServiceError::BadRequest));
}

#[test]
fn read_doc_asks_by_identifier() {
    let data = GetDoc { collection_name: "Users".to_string(), doc_id: "7".to_string() };
    assert_eq!(
        read_doc(data),
        StoreRequest::Find {
            collection: "Users".to_string(),
            field: "_id".to_string(),
            value: text("7"),
        }
    );
}

#[test]
fn insert_field_asks_to_set_one_field_by_identifier() {
    let data = InsertField {
        collection_name: "Users".to_string(),
        doc_id: "7".to_string(),
        field_name: "Color".to_string(),
        field_value: text("Blue"),
    };
    assert_eq!(
        insert_field(data),
        StoreRequest::Update {
            collection: "Users".to_string(),
            field: "_id".to_string(),
            value: text("7"),
            mutation: Mutation::SetField { name: "Color".to_string(), value: text("Blue") },
        }
    );
}

#[test]
fn delete_doc_asks_to_remove_by_identifier() {
    let data = DeleteDoc { collection_name: "Users".to_string(), doc_id: "7".to_string() };
    assert_eq!(
        delete_doc(data),
        StoreRequest::Update {
            collection: "Users".to_string(),
            field: "_id".to_string(),
            value: text("7"),
            mutation: Mutation::Remove,
        }
    );
}

#[test]
fn insert_many_fields_asks_to_set_the_fields_by_identifier() {
    let payload = object(vec![
        field("collection_name", text("Users")),
        field("doc_id", text("7")),
        field("fields_to_insert", object(brown())),
    ]);
    assert_eq!(
        insert_many_fields(&payload),
        Ok(StoreRequest::Update {
            collection: "Users".to_string(),
            field: "_id".to_string(),
            value: text("7"),
            mutation: Mutation::SetFields { fields: brown() },
        })
    );
}

#[test]
fn insert_many_fields_without_identifier_asks_for_null() {
    let payload = object(vec![
        field("collection_name", text("Users")),
        field("fields_to_insert", object(brown())),
    ]);
    assert_eq!(
        insert_many_fields(&payload),
        Ok(StoreRequest::Update {
            collection: "Users".to_string(),
            field: "_id".to_string(),
            value: Value::Null,
            mutation: Mutation::SetFields { fields: brown() },
        })
    );
}

#[test]
fn insert_many_fields_wants_a_collection_name_and_fields() {
    let payload = object(vec![field("doc_id", text("7")), field("fields_to_insert", object(brown()))]);
    assert_eq!(insert_many_fields(&payload), Err(ServiceError::BadRequest));
    let payload = object(vec![field("collection_name", text("Users")), field("doc_id", text("7"))]);
    assert_eq!(insert_many_fields(&payload), Err(ServiceError::BadRequest));
    let payload = object(vec![
        field("collection_name", text("Users")),
        field("doc_id", text("7")),
        field("fields_to_insert", text("Color")),
    ]);
    assert_eq!(insert_many_fields(&payload), Err(ServiceError::BadRequest));
}

#[test]
fn search_asks_by_the_given_field() {
    let data = OneFieldSearch {
        collection_name: "Users".to_string(),
        search_key: "Color".to_string(),
        search_value: text("Brown"),
    };
    assert_eq!(
        search_doc_by_one_field(data),
        StoreRequest::Find {
            collection: "Users".to_string(),
            field: "Color".to_string(),
            value: text("Brown"),
        }
    );
}

#[test]
fn an_insert_answers_with_the_identifier() {
    let request = StoreRequest::Insert { collection: "Users".to_string(), document: Document::new() };
    assert_eq!(
        respond(&request, StoreReply::Inserted { id: "12".to_string() }),
        Ok(ServiceResponse::Text("12".to_string()))
    );
}

#[test]
fn an_insert_of_many_answers_with_the_identifiers() {
    let request = StoreRequest::InsertMany { collection: "Users".to_string(), documents: vec![] };
    let ids = vec!["3".to_string(), "4".to_string()];
    assert_eq!(
        respond(&request, StoreReply::InsertedMany { ids: ids.clone() }),
        Ok(ServiceResponse::Ids(ids))
    );
}

#[test]
fn a_read_answers_with_the_documents() {
    let documents = vec![Document { fields: brown() }];
    assert_eq!(
        respond(&find("Users"), StoreReply::Found { documents: documents.clone() }),
        Ok(ServiceResponse::Documents(documents))
    );
    assert_eq!(
        respond(&find("Users"), StoreReply::Found { documents: vec![] }),
        Ok(ServiceResponse::Documents(vec![]))
    );
}

#[test]
fn a_lookup_of_one_answers_with_at_most_one_document() {
    let request = StoreRequest::FindOne {
        collection: "Users".to_string(),
        field: "a".to_string(),
        value: Value::Null,
    };
    assert_eq!(
        respond(&request, StoreReply::FoundOne { document: Some(Document { fields: brown() }) }),
        Ok(ServiceResponse::Documents(vec![Document { fields: brown() }]))
    );
    assert_eq!(
        respond(&request, StoreReply::FoundOne { document: None }),
        Ok(ServiceResponse::Documents(vec![]))
    );
}

#[test]
fn a_patch_that_matched_answers_with_its_message() {
    let set = update(Mutation::SetField { name: "a".to_string(), value: Value::Null });
    assert_eq!(
        respond(&set, StoreReply::Updated { count: 1 }),
        Ok(ServiceResponse::Text("Field Added Successfully!".to_string()))
    );
    let many = update(Mutation::SetFields { fields: brown() });
    assert_eq!(respond(&many, StoreReply::Updated { count: 3 }), Ok(ServiceResponse::Empty));
}

#[test]
fn a_patch_that_matched_nothing_is_not_found() {
    let set = update(Mutation::SetField { name: "a".to_string(), value: Value::Null });
    assert_eq!(respond(&set, StoreReply::Updated { count: 0 }), Err(ServiceError::NotFound));
    let many = update(Mutation::SetFields { fields: brown() });
    assert_eq!(respond(&many, StoreReply::Updated { count: 0 }), Err(ServiceError::NotFound));
}

#[test]
fn a_delete_answers_with_its_message_whatever_it_matched() {
    let remove = update(Mutation::Remove);
    let message = Ok(ServiceResponse::Text("Document Deleted!".to_string()));
    assert_eq!(respond(&remove, StoreReply::Updated { count: 1 }), message);
    assert_eq!(respond(&remove, StoreReply::Updated { count: 0 }), message);
}

#[test]
fn a_failed_store_is_a_store_failure() {
    assert_eq!(respond(&find("Users"), StoreReply::Failed), Err(ServiceError::StoreFailure));
    assert_eq!(respond(&update(Mutation::Remove), StoreReply::Failed), Err(ServiceError::StoreFailure));
}

#[test]
fn a_reply_to_another_request_is_a_store_failure() {
    assert_eq!(
        respond(&find("Users"), StoreReply::Updated { count: 1 }),
        Err(ServiceError::StoreFailure)
    );
    assert_eq!(
        respond(&update(Mutation::Remove), StoreReply::Inserted { id: "1".to_string() }),
        Err(ServiceError::StoreFailure)
    );
    assert_eq!(
        respond(&find("Users"), StoreReply::FoundOne { document: None }),
        Err(ServiceError::StoreFailure)
    );
    let insert = StoreRequest::Insert { collection: "Users".to_string(), document: Document::new() };
    assert_eq!(
        respond(&insert, StoreReply::InsertedMany { ids: vec![] }),
        Err(ServiceError::StoreFailure)
    );
}

#[test]
fn status_codes() {
    assert_eq!(status(&Ok(ServiceResponse::Empty)), 200);
    assert_eq!(status(&Ok(ServiceResponse::Text("x".to_string()))), 200);
    assert_eq!(status(&Err(ServiceError::BadRequest)), 400);
    assert_eq!(status(&Err(ServiceError::NotFound)), 404);
    assert_eq!(status(&Err(ServiceError::StoreFailure)), 500);
}
