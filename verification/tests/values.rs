use ezbase::document::Document;
use ezbase::ident::render_id;
use ezbase::value::{find_field, Field, Value};

fn text(s: &str) -> Value {
    Value::Text(s.to_string())
}

fn field(name: &str, value: Value) -> Field {
    Field { name: name.to_string(), value }
}

fn person() -> Document {
    Document { fields: vec![field("Height", Value::Int(185)), field("Color", text("Brown"))] }
}

#[test]
fn equal_values_are_the_same() {
    let a = Value::Object(vec![field("Height", Value::Int(185))]);
    let b = a.clone();
    assert!(a.same(&b));
    assert_eq!(a, b);
}

#[test]
fn values_of_different_kinds_differ() {
    assert!(!Value::Null.same(&Value::Bool(false)));
    assert!(!Value::Int(1).same(&Value::Float(1)));
    assert!(!text("1").same(&Value::Int(1)));
    assert!(!Value::Array(vec![]).same(&Value::Object(vec![])));
    assert!(Value::Null.same(&Value::Null));
    assert!(Value::Float(0x3ff8_0000_0000_0000).same(&Value::Float(0x3ff8_0000_0000_0000)));
}

#[test]
fn arrays_are_compared_item_by_item() {
    let a = Value::Array(vec![Value::Int(1), text("x"), Value::Array(vec![Value::Null])]);
    let b = Value::Array(vec![Value::Int(1), text("x"), Value::Array(vec![Value::Null])]);
    let shorter = Value::Array(vec![Value::Int(1), text("x")]);
    let other = Value::Array(vec![Value::Int(1), text("x"), Value::Array(vec![Value::Bool(true)])]);
    assert!(a.same(&b));
    assert!(!a.same(&shorter));
    assert!(!a.same(&other));
}

#[test]
fn objects_are_compared_in_order() {
    let a = Value::Object(vec![field("a", Value::Int(1)), field("b", Value::Int(2))]);
    let swapped = Value::Object(vec![field("b", Value::Int(2)), field("a", Value::Int(1))]);
    let renamed = Value::Object(vec![field("a", Value::Int(1)), field("c", Value::Int(2))]);
    assert!(a.same(&a.clone()));
    assert!(!a.same(&swapped));
    assert!(!a.same(&renamed));
}

#[test]
fn clone_copies_nested_values() {
    let nested = Value::Object(vec![
        field("list", Value::Array(vec![Value::Int(1), Value::Object(vec![field("k", text("v"))])])),
        field("none", Value::Null),
    ]);
    let copy = nested.clone();
    assert_eq!(copy, nested);
}

#[test]
fn member_takes_the_first_field_of_a_name() {
    let object = Value::Object(vec![
        field("a", Value::Int(1)),
        field("b", Value::Int(2)),
        field("a", Value::Int(3)),
    ]);
    assert_eq!(object.member("a"), Some(&Value::Int(1)));
    assert_eq!(object.member("b"), Some(&Value::Int(2)));
    assert_eq!(object.member("c"), None);
    assert_eq!(text("a").member("a"), None);
}

#[test]
fn find_field_gives_the_length_when_the_name_is_missing() {
    let fields = vec![field("a", Value::Int(1)), field("b", Value::Int(2))];
    assert_eq!(find_field(&fields, &"a".to_string()), 0);
    assert_eq!(find_field(&fields, &"b".to_string()), 1);
    assert_eq!(find_field(&fields, &"c".to_string()), 2);
    assert_eq!(find_field(&Vec::new(), &"a".to_string()), 0);
}

#[test]
fn a_new_document_has_no_fields() {
    let document = Document::new();
    assert!(document.fields.is_empty());
    assert_eq!(document.get("Height"), None);
}

#[test]
fn get_reads_a_field() {
    let document = person();
    assert_eq!(document.get("Height"), Some(&Value::Int(185)));
    assert_eq!(document.get("Color"), Some(&text("Brown")));
    assert_eq!(document.get("Hand"), None);
}

#[test]
fn set_changes_a_field_in_place() {
    let mut document = person();
    document.set("Height".to_string(), Value::Int(190));
    assert_eq!(
        document,
        Document { fields: vec![field("Height", Value::Int(190)), field("Color", text("Brown"))] }
    );
}

#[test]
fn set_adds_a_new_field_at_the_end() {
    let mut document = person();
    document.set("Hand".to_string(), text("Right"));
    assert_eq!(
        document,
        Document {
            fields: vec![
                field("Height", Value::Int(185)),
                field("Color", text("Brown")),
                field("Hand", text("Right")),
            ],
        }
    );
}

#[test]
fn setting_twice_is_setting_once() {
    let mut once = person();
    once.set("Color".to_string(), text("Blue"));
    let mut twice = once.clone();
    twice.set("Color".to_string(), text("Blue"));
    assert_eq!(twice, once);
    assert!(twice.same(&once));
}

#[test]
fn merge_sets_every_field_of_the_patch_in_order() {
    let mut document = person();
    document.merge(&vec![
        field("Color", text("Blue")),
        field("Hand", text("Left")),
        field("Color", text("Green")),
    ]);
    assert_eq!(
        document,
        Document {
            fields: vec![
                field("Height", Value::Int(185)),
                field("Color", text("Green")),
                field("Hand", text("Left")),
            ],
        }
    );
}

#[test]
fn merge_of_nothing_changes_nothing() {
    let mut document = person();
    document.merge(&Vec::new());
    assert_eq!(document, person());
}

#[test]
fn documents_with_other_fields_differ() {
    let mut other = person();
    other.set("Height".to_string(), Value::Int(186));
    assert!(!person().same(&other));
    assert!(person().same(&person()));
}

#[test]
fn identifiers_are_decimal_numbers() {
    assert_eq!(render_id(0), "0");
    assert_eq!(render_id(7), "7");
    assert_eq!(render_id(10), "10");
    assert_eq!(render_id(1234567890), "1234567890");
    assert_eq!(render_id(u64::MAX), "18446744073709551615");
}

#[test]
fn different_numbers_have_different_identifiers() {
    let mut seen: Vec<String> = Vec::new();
    for n in 0..200u64 {
        let id = render_id(n);
        assert!(!seen.contains(&id));
        seen.push(id);
    }
}

#[test]
fn distinct_names_are_told_from_repeated_ones() {
    assert!(Document::new().has_distinct_names());
    assert!(person().has_distinct_names());
    let repeated = Document {
        fields: vec![
            field("Height", Value::Int(185)),
            field("Color", text("Brown")),
            field("Height", Value::Int(190)),
        ],
    };
    assert!(!repeated.has_distinct_names());
    let twice = Document { fields: vec![field("a", Value::Null), field("a", Value::Null)] };
    assert!(!twice.has_distinct_names());
    let late = Document {
        fields: vec![field("a", Value::Null), field("b", Value::Null), field("b", Value::Null)],
    };
    assert!(!late.has_distinct_names());
}

#[test]
fn set_and_merge_keep_names_distinct() {
    let mut document = person();
    document.set("Color".to_string(), text("Blue"));
    document.set("Hand".to_string(), text("Left"));
    document.merge(&vec![field("Hand", text("Right")), field("Age", Value::Int(3))]);
    assert!(document.has_distinct_names());
    assert_eq!(document.fields.len(), 4);
}
