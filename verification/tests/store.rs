use ezbase::document::Document;
use ezbase::driver;
use ezbase::protocol::{Mutation, StoreReply, StoreRequest};
use ezbase::service::{
    delete_doc, insert_doc, insert_doc_multifield, insert_docs, insert_field, insert_many_fields,
    read_doc, search_doc_by_one_field, DeleteDoc, GetDoc, InsertDoc, InsertField, OneFieldSearch,
    ServiceError, ServiceResponse,
};
use ezbase::store::MemoryStore;
use ezbase::value::{Field, Value};

fn text(s: &str) -> Value {
    Value::Text(s.to_string())
}

fn field(name: &str, value: Value) -> Field {
    Field { name: name.to_string(), value }
}

fn object(fields: Vec<Field>) -> Value {
    Value::Object(fields)
}

fn serve(db: &mut MemoryStore, request: StoreRequest) -> Result<ServiceResponse, ServiceError> {
    driver::serve(db, &request)
}

fn insert(db: &mut MemoryStore, collection: &str, fields: Vec<Field>) -> String {
    let payload = object(vec![field("collection_name", text(collection)), field("data", object(fields))]);
    match serve(db, insert_doc_multifield(&payload).unwrap()) {
        Ok(ServiceResponse::Text(id)) => id,
        other => panic!("insert failed: {:?}", other),
    }
}

fn read(db: &mut MemoryStore, collection: &str, id: &str) -> Vec<Document> {
    let data = GetDoc { collection_name: collection.to_string(), doc_id: id.to_string() };
    match serve(db, read_doc(data)) {
        Ok(ServiceResponse::Documents(documents)) => documents,
        other => panic!("read failed: {:?}", other),
    }
}

fn all(db: &mut MemoryStore, collection: &str) -> Vec<Document> {
    let mut found = Vec::new();
    let mut number = 0u64;
    while number < 64 {
        found.extend(read(db, collection, &number.to_string()));
        number += 1;
    }
    found
}

fn patch(db: &mut MemoryStore, collection: &str, id: &str, name: &str, value: Value) -> Result<ServiceResponse, ServiceError> {
    let data = InsertField {
        collection_name: collection.to_string(),
        doc_id: id.to_string(),
        field_name: name.to_string(),
        field_value: value,
    };
    serve(db, insert_field(data))
}

fn delete(db: &mut MemoryStore, collection: &str, id: &str) -> Result<ServiceResponse, ServiceError> {
    serve(db, delete_doc(DeleteDoc { collection_name: collection.to_string(), doc_id: id.to_string() }))
}

fn brown() -> Vec<Field> {
    vec![field("Height", Value::Int(185)), field("Color", text("Brown"))]
}

#[test]
fn a_new_store_finds_nothing() {
    let mut db = MemoryStore::new();
    assert_eq!(read(&mut db, "Users", "0"), Vec::<Document>::new());
}

#[test]
fn insert_then_read_by_id_round_trips() {
    let mut db = MemoryStore::new();
    let id = insert(&mut db, "Users", brown());
    let mut expected = vec![field("_id", text(&id))];
    expected.extend(brown());
    assert_eq!(read(&mut db, "Users", &id), vec![Document { fields: expected }]);
}

#[test]
fn identifiers_are_assigned_in_order() {
    let mut db = MemoryStore::new();
    assert_eq!(insert(&mut db, "Users", brown()), "0");
    assert_eq!(insert(&mut db, "Users", brown()), "1");
    assert_eq!(insert(&mut db, "Pets", brown()), "2");
}

#[test]
fn equal_documents_get_different_identifiers() {
    let mut db = MemoryStore::new();
    let first = insert(&mut db, "Users", brown());
    let second = insert(&mut db, "Users", brown());
    assert_ne!(first, second);
    assert_eq!(read(&mut db, "Users", &first).len(), 1);
    assert_eq!(read(&mut db, "Users", &second).len(), 1);
}

#[test]
fn insert_one_field_makes_a_document_of_that_field() {
    let mut db = MemoryStore::new();
    let data = InsertDoc {
        collection_name: "Users".to_string(),
        field_name: "Height".to_string(),
        field_value: Value::Int(185),
    };
    let outcome = serve(&mut db, insert_doc(data));
    assert_eq!(outcome, Ok(ServiceResponse::Text("0".to_string())));
    assert_eq!(
        read(&mut db, "Users", "0"),
        vec![Document { fields: vec![field("_id", text("0")), field("Height", Value::Int(185))] }]
    );
}

#[test]
fn collections_are_apart() {
    let mut db = MemoryStore::new();
    let id = insert(&mut db, "Users", brown());
    assert_eq!(read(&mut db, "Pets", &id), Vec::<Document>::new());
    assert_eq!(read(&mut db, "Users", &id).len(), 1);
}

#[test]
fn read_of_an_unknown_id_is_empty_and_no_error() {
    let mut db = MemoryStore::new();
    insert(&mut db, "Users", brown());
    assert_eq!(read(&mut db, "Users", "41"), Vec::<Document>::new());
}

#[test]
fn patch_sets_one_field_and_leaves_the_others() {
    let mut db = MemoryStore::new();
    let id = insert(&mut db, "Users", brown());
    let outcome = patch(&mut db, "Users", &id, "Color", text("Blue"));
    assert_eq!(outcome, Ok(ServiceResponse::Text("Field Added Successfully!".to_string())));
    assert_eq!(
        read(&mut db, "Users", &id),
        vec![Document {
            fields: vec![
                field("_id", text(&id)),
                field("Height", Value::Int(185)),
                field("Color", text("Blue")),
            ],
        }]
    );
}

#[test]
fn patch_adds_a_field_that_was_not_there() {
    let mut db = MemoryStore::new();
    let id = insert(&mut db, "Users", brown());
    patch(&mut db, "Users", &id, "Hand", text("Right")).unwrap();
    let found = read(&mut db, "Users", &id);
    assert_eq!(found[0].get("Hand"), Some(&text("Right")));
    assert_eq!(found[0].fields.len(), 4);
}

#[test]
fn patch_touches_no_other_document() {
    let mut db = MemoryStore::new();
    let first = insert(&mut db, "Users", brown());
    let second = insert(&mut db, "Users", brown());
    patch(&mut db, "Users", &second, "Color", text("Blue")).unwrap();
    assert_eq!(read(&mut db, "Users", &first)[0].get("Color"), Some(&text("Brown")));
    assert_eq!(read(&mut db, "Users", &second)[0].get("Color"), Some(&text("Blue")));
}

#[test]
fn patch_is_idempotent() {
    let mut db = MemoryStore::new();
    let id = insert(&mut db, "Users", brown());
    insert(&mut db, "Users", brown());
    let first = patch(&mut db, "Users", &id, "Color", text("Blue"));
    let once = all(&mut db, "Users");
    let second = patch(&mut db, "Users", &id, "Color", text("Blue"));
    let twice = all(&mut db, "Users");
    assert_eq!(first, second);
    assert_eq!(once, twice);
}

#[test]
fn patch_of_an_unknown_id_is_not_found() {
    let mut db = MemoryStore::new();
    insert(&mut db, "Users", brown());
    let before = all(&mut db, "Users");
    assert_eq!(patch(&mut db, "Users", "41", "Color", text("Blue")), Err(ServiceError::NotFound));
    assert_eq!(all(&mut db, "Users"), before);
}

#[test]
fn patch_of_the_identifier_is_a_store_failure() {
    let mut db = MemoryStore::new();
    let id = insert(&mut db, "Users", brown());
    let before = all(&mut db, "Users");
    assert_eq!(patch(&mut db, "Users", &id, "_id", text("7")), Err(ServiceError::StoreFailure));
    assert_eq!(all(&mut db, "Users"), before);
}

#[test]
fn patch_many_fields_merges_them() {
    let mut db = MemoryStore::new();
    let id = insert(&mut db, "Users", brown());
    let payload = object(vec![
        field("collection_name", text("Users")),
        field("doc_id", text(&id)),
        field(
            "fields_to_insert",
            object(vec![field("Color", text("Blue")), field("Hand", text("Right"))]),
        ),
    ]);
    let outcome = serve(&mut db, insert_many_fields(&payload).unwrap());
    assert_eq!(outcome, Ok(ServiceResponse::Empty));
    assert_eq!(
        read(&mut db, "Users", &id),
        vec![Document {
            fields: vec![
                field("_id", text(&id)),
                field("Height", Value::Int(185)),
                field("Color", text("Blue")),
                field("Hand", text("Right")),
            ],
        }]
    );
}

#[test]
fn patch_many_fields_of_an_unknown_id_is_not_found() {
    let mut db = MemoryStore::new();
    insert(&mut db, "Users", brown());
    let payload = object(vec![
        field("collection_name", text("Users")),
        field("doc_id", text("41")),
        field("fields_to_insert", object(vec![field("Color", text("Blue"))])),
    ]);
    assert_eq!(serve(&mut db, insert_many_fields(&payload).unwrap()), Err(ServiceError::NotFound));
}

#[test]
fn patch_many_fields_with_an_identifier_is_a_store_failure() {
    let mut db = MemoryStore::new();
    let id = insert(&mut db, "Users", brown());
    let payload = object(vec![
        field("collection_name", text("Users")),
        field("doc_id", text(&id)),
        field("fields_to_insert", object(vec![field("Color", text("Blue")), field("_id", text("9"))])),
    ]);
    let before = all(&mut db, "Users");
    assert_eq!(
        serve(&mut db, insert_many_fields(&payload).unwrap()),
        Err(ServiceError::StoreFailure)
    );
    assert_eq!(all(&mut db, "Users"), before);
}

#[test]
fn delete_removes_the_document() {
    let mut db = MemoryStore::new();
    let first = insert(&mut db, "Users", brown());
    let second = insert(&mut db, "Users", brown());
    let outcome = delete(&mut db, "Users", &first);
    assert_eq!(outcome, Ok(ServiceResponse::Text("Document Deleted!".to_string())));
    assert_eq!(read(&mut db, "Users", &first), Vec::<Document>::new());
    assert_eq!(read(&mut db, "Users", &second).len(), 1);
}

#[test]
fn delete_is_idempotent() {
    let mut db = MemoryStore::new();
    let id = insert(&mut db, "Users", brown());
    insert(&mut db, "Users", brown());
    let first = delete(&mut db, "Users", &id);
    let once = all(&mut db, "Users");
    let second = delete(&mut db, "Users", &id);
    let twice = all(&mut db, "Users");
    assert_eq!(first, Ok(ServiceResponse::Text("Document Deleted!".to_string())));
    assert_eq!(second, first);
    assert_eq!(once, twice);
    assert_eq!(read(&mut db, "Users", &id), Vec::<Document>::new());
}

#[test]
fn delete_of_an_unknown_id_is_no_error() {
    let mut db = MemoryStore::new();
    insert(&mut db, "Users", brown());
    let before = all(&mut db, "Users");
    assert_eq!(
        delete(&mut db, "Users", "41"),
        Ok(ServiceResponse::Text("Document Deleted!".to_string()))
    );
    assert_eq!(all(&mut db, "Users"), before);
}

#[test]
fn a_deleted_identifier_is_not_assigned_again() {
    let mut db = MemoryStore::new();
    let first = insert(&mut db, "Users", brown());
    delete(&mut db, "Users", &first).unwrap();
    let second = insert(&mut db, "Users", brown());
    assert_ne!(first, second);
}

#[test]
fn insert_many_returns_one_identifier_for_each_entry() {
    let mut db = MemoryStore::new();
    insert(&mut db, "Users", brown());
    let left = vec![field("Height", Value::Int(195)), field("Hand", text("Left"))];
    let payload = object(vec![
        field("collection_name", text("Users")),
        field(
            "docs",
            object(vec![
                field("0", object(brown())),
                field("1", object(left.clone())),
                field("anything", object(vec![])),
            ]),
        ),
    ]);
    let ids = match serve(&mut db, insert_docs(&payload).unwrap()) {
        Ok(ServiceResponse::Ids(ids)) => ids,
        other => panic!("insert failed: {:?}", other),
    };
    assert_eq!(ids, vec!["1".to_string(), "2".to_string(), "3".to_string()]);
    let contents = vec![brown(), left, vec![]];
    for (id, content) in ids.iter().zip(contents) {
        let mut expected = vec![field("_id", text(id))];
        expected.extend(content);
        assert_eq!(read(&mut db, "Users", id), vec![Document { fields: expected }]);
    }
}

#[test]
fn insert_many_of_nothing_returns_no_identifier() {
    let mut db = MemoryStore::new();
    let payload =
        object(vec![field("collection_name", text("Users")), field("docs", object(vec![]))]);
    assert_eq!(serve(&mut db, insert_docs(&payload).unwrap()), Ok(ServiceResponse::Ids(vec![])));
    assert_eq!(insert(&mut db, "Users", brown()), "0");
}

#[test]
fn insert_of_a_document_with_an_identifier_is_a_store_failure() {
    let mut db = MemoryStore::new();
    let payload = object(vec![
        field("collection_name", text("Users")),
        field("data", object(vec![field("Height", Value::Int(185)), field("_id", text("5"))])),
    ]);
    assert_eq!(
        serve(&mut db, insert_doc_multifield(&payload).unwrap()),
        Err(ServiceError::StoreFailure)
    );
    assert_eq!(read(&mut db, "Users", "5"), Vec::<Document>::new());
    assert_eq!(insert(&mut db, "Users", brown()), "0");
}

#[test]
fn insert_many_with_an_identifier_adds_nothing() {
    let mut db = MemoryStore::new();
    let payload = object(vec![
        field("collection_name", text("Users")),
        field(
            "docs",
            object(vec![
                field("a", object(brown())),
                field("b", object(vec![field("_id", text("5"))])),
            ]),
        ),
    ]);
    assert_eq!(serve(&mut db, insert_docs(&payload).unwrap()), Err(ServiceError::StoreFailure));
    assert_eq!(all(&mut db, "Users"), Vec::<Document>::new());
}

#[test]
fn search_finds_every_document_with_the_value() {
    let mut db = MemoryStore::new();
    let first = insert(&mut db, "Users", brown());
    insert(&mut db, "Users", vec![field("Color", text("Blue"))]);
    let third = insert(&mut db, "Users", vec![field("Color", text("Brown")), field("Height", Value::Int(1))]);
    insert(&mut db, "Users", vec![field("Height", Value::Int(2))]);
    let data = OneFieldSearch {
        collection_name: "Users".to_string(),
        search_key: "Color".to_string(),
        search_value: text("Brown"),
    };
    let found = match serve(&mut db, search_doc_by_one_field(data)) {
        Ok(ServiceResponse::Documents(documents)) => documents,
        other => panic!("search failed: {:?}", other),
    };
    assert_eq!(found.len(), 2);
    assert_eq!(found[0].get("_id"), Some(&text(&first)));
    assert_eq!(found[1].get("_id"), Some(&text(&third)));
}

#[test]
fn search_matches_exactly() {
    let mut db = MemoryStore::new();
    insert(&mut db, "Users", vec![field("Height", Value::Int(185))]);
    for value in [text("185"), Value::Int(184), Value::Float(185), Value::Null] {
        let data = OneFieldSearch {
            collection_name: "Users".to_string(),
            search_key: "Height".to_string(),
            search_value: value,
        };
        assert_eq!(
            serve(&mut db, search_doc_by_one_field(data)),
            Ok(ServiceResponse::Documents(vec![]))
        );
    }
}

#[test]
fn search_matches_nested_values() {
    let mut db = MemoryStore::new();
    let address = object(vec![field("city", text("Oslo")), field("zip", Value::Array(vec![Value::Int(1)]))]);
    let id = insert(&mut db, "Users", vec![field("address", address.clone())]);
    let data = OneFieldSearch {
        collection_name: "Users".to_string(),
        search_key: "address".to_string(),
        search_value: address,
    };
    let found = match serve(&mut db, search_doc_by_one_field(data)) {
        Ok(ServiceResponse::Documents(documents)) => documents,
        other => panic!("search failed: {:?}", other),
    };
    assert_eq!(found.len(), 1);
    assert_eq!(found[0].get("_id"), Some(&text(&id)));
}

#[test]
fn find_one_gives_the_first_match() {
    let mut db = MemoryStore::new();
    let first = insert(&mut db, "Users", brown());
    insert(&mut db, "Users", brown());
    let request = StoreRequest::FindOne {
        collection: "Users".to_string(),
        field: "Color".to_string(),
        value: text("Brown"),
    };
    match db.execute(&request) {
        StoreReply::FoundOne { document: Some(document) } => {
            assert_eq!(document.get("_id"), Some(&text(&first)));
        },
        other => panic!("nothing found: {:?}", other),
    }
    let request = StoreRequest::FindOne {
        collection: "Users".to_string(),
        field: "Color".to_string(),
        value: text("Red"),
    };
    assert_eq!(db.execute(&request), StoreReply::FoundOne { document: None });
}

#[test]
fn update_counts_the_documents_that_it_matched() {
    let mut db = MemoryStore::new();
    insert(&mut db, "Users", brown());
    insert(&mut db, "Users", vec![field("Color", text("Blue"))]);
    insert(&mut db, "Users", brown());
    let request = StoreRequest::Update {
        collection: "Users".to_string(),
        field: "Color".to_string(),
        value: text("Brown"),
        mutation: Mutation::SetField { name: "Hand".to_string(), value: text("Right") },
    };
    assert_eq!(db.execute(&request), StoreReply::Updated { count: 2 });
    let request = StoreRequest::Update {
        collection: "Users".to_string(),
        field: "Hand".to_string(),
        value: text("Right"),
        mutation: Mutation::Remove,
    };
    assert_eq!(db.execute(&request), StoreReply::Updated { count: 2 });
    assert_eq!(db.execute(&request), StoreReply::Updated { count: 0 });
    assert_eq!(all(&mut db, "Users").len(), 1);
}

#[test]
fn patched_color_shows_and_height_stays() {
    let mut db = MemoryStore::new();
    let id = insert(&mut db, "Users", brown());
    patch(&mut db, "Users", &id, "Color", text("Blue")).unwrap();
    let found = read(&mut db, "Users", &id);
    assert_eq!(found.len(), 1);
    assert_eq!(found[0].get("Color"), Some(&text("Blue")));
    assert_eq!(found[0].get("Height"), Some(&Value::Int(185)));
}

#[test]
fn serving_is_executing_and_responding() {
    let mut one = MemoryStore::new();
    let mut other = MemoryStore::new();
    let requests = vec![
        insert_doc(InsertDoc {
            collection_name: "Users".to_string(),
            field_name: "Height".to_string(),
            field_value: Value::Int(185),
        }),
        insert_field(InsertField {
            collection_name: "Users".to_string(),
            doc_id: "0".to_string(),
            field_name: "Color".to_string(),
            field_value: text("Blue"),
        }),
        read_doc(GetDoc { collection_name: "Users".to_string(), doc_id: "0".to_string() }),
        delete_doc(DeleteDoc { collection_name: "Users".to_string(), doc_id: "0".to_string() }),
        read_doc(GetDoc { collection_name: "Users".to_string(), doc_id: "0".to_string() }),
    ];
    for request in requests {
        let reply = other.execute(&request);
        assert_eq!(driver::serve(&mut one, &request), ezbase::service::respond(&request, reply));
    }
}

#[test]
fn ids_run_out_at_the_limit_only() {
    let mut db = MemoryStore::new();
    for number in 0..300u64 {
        assert_eq!(insert(&mut db, "Users", brown()), number.to_string());
    }
    assert_eq!(read(&mut db, "Users", "299").len(), 1);
    assert_eq!(read(&mut db, "Users", "300").len(), 0);
}
