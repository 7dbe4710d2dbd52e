use forwardhook::json::{array_get_or_insert_mut, JsonObject, JsonValue, OrInsertJsonValue};
use forwardhook::path::{resolve_read, resolve_write, write_value, JsonPath, PathError, PathSegment};
use forwardhook::text::same_text;

fn number(n: u64) -> JsonValue {
    JsonValue::Number(serde_json::Number::from(n))
}

fn text(s: &str) -> JsonValue {
    JsonValue::String(s.to_string())
}

fn key(k: &str) -> PathSegment {
    PathSegment::Key(k.to_string())
}

fn index(i: usize) -> PathSegment {
    PathSegment::Index(i)
}

fn object(members: Vec<(&str, JsonValue)>) -> JsonObject {
    let mut made = JsonObject::new();
    for (k, v) in members {
        made.insert(k, v);
    }
    made
}

/// `{"user": {"id": 42, "tags": ["a", "b"], "name": "ann"}, "flag": true}`
fn sample() -> JsonObject {
    object(vec![
        (
            "user",
            JsonValue::Object(object(vec![
                ("id", number(42)),
                ("tags", JsonValue::Array(vec![text("a"), text("b")])),
                ("name", text("ann")),
            ])),
        ),
        ("flag", JsonValue::Bool(true)),
    ])
}

#[test]
fn read_finds_a_nested_scalar() {
    let doc = sample();
    let path: JsonPath = vec![key("user"), key("id")];
    assert_eq!(resolve_read(&path, &doc), Ok(&number(42)));
}

#[test]
fn read_finds_an_array_item() {
    let doc = sample();
    let path: JsonPath = vec![key("user"), key("tags"), index(1)];
    assert_eq!(resolve_read(&path, &doc), Ok(&text("b")));
}

#[test]
fn read_returns_the_subtree_with_its_key_order() {
    let doc = sample();
    let path: JsonPath = vec![key("user")];
    let found = resolve_read(&path, &doc).unwrap();
    let expected = JsonValue::Object(object(vec![
        ("id", number(42)),
        ("tags", JsonValue::Array(vec![text("a"), text("b")])),
        ("name", text("ann")),
    ]));
    assert_eq!(found, &expected);
    let reordered = JsonValue::Object(object(vec![
        ("name", text("ann")),
        ("id", number(42)),
        ("tags", JsonValue::Array(vec![text("a"), text("b")])),
    ]));
    assert_ne!(found, &reordered);
}

#[test]
fn read_leaves_the_document_as_it_was() {
    let doc = sample();
    let path: JsonPath = vec![key("user"), key("tags"), index(0)];
    let _ = resolve_read(&path, &doc);
    assert_eq!(doc, sample());
}

#[test]
fn read_reports_a_missing_first_key() {
    let doc = sample();
    let path: JsonPath = vec![key("nobody"), key("id")];
    assert_eq!(resolve_read(&path, &doc), Err(PathError::MissingKey("nobody".to_string())));
}

#[test]
fn read_reports_a_missing_nested_key() {
    let doc = sample();
    let path: JsonPath = vec![key("user"), key("email")];
    assert_eq!(resolve_read(&path, &doc), Err(PathError::MissingKey("email".to_string())));
}

#[test]
fn read_reports_a_missing_index() {
    let doc = sample();
    let path: JsonPath = vec![key("user"), key("tags"), index(2)];
    assert_eq!(resolve_read(&path, &doc), Err(PathError::MissingIndex(2)));
}

#[test]
fn read_reports_a_key_on_an_array() {
    let doc = sample();
    let path: JsonPath = vec![key("user"), key("tags"), key("first")];
    assert_eq!(resolve_read(&path, &doc), Err(PathError::TypeMismatch));
}

#[test]
fn read_reports_an_index_on_an_object() {
    let doc = sample();
    let path: JsonPath = vec![key("user"), index(0)];
    assert_eq!(resolve_read(&path, &doc), Err(PathError::TypeMismatch));
}

#[test]
fn read_reports_a_step_below_a_scalar() {
    let doc = sample();
    let path: JsonPath = vec![key("flag"), key("deeper")];
    assert_eq!(resolve_read(&path, &doc), Err(PathError::TypeMismatch));
}

#[test]
fn read_rejects_an_empty_path() {
    let doc = sample();
    let path: JsonPath = vec![];
    assert_eq!(resolve_read(&path, &doc), Err(PathError::TypeMismatch));
}

#[test]
fn read_rejects_a_path_that_starts_with_an_index() {
    let doc = sample();
    let path: JsonPath = vec![index(0), key("user")];
    assert_eq!(resolve_read(&path, &doc), Err(PathError::TypeMismatch));
}

#[test]
fn write_creates_nested_objects() {
    let mut doc = JsonObject::new();
    let path: JsonPath = vec![key("a"), key("b")];
    assert_eq!(write_value(&path, &mut doc, number(42)), Ok(()));
    let expected = object(vec![("a", JsonValue::Object(object(vec![("b", number(42))])))]);
    assert_eq!(doc, expected);
}

#[test]
fn write_pads_an_array_with_nulls() {
    let mut doc = JsonObject::new();
    let path: JsonPath = vec![key("items"), index(2)];
    assert_eq!(write_value(&path, &mut doc, number(42)), Ok(()));
    let expected = object(vec![(
        "items",
        JsonValue::Array(vec![JsonValue::Null, JsonValue::Null, number(42)]),
    )]);
    assert_eq!(doc, expected);
}

#[test]
fn write_to_index_zero_of_a_fresh_array() {
    let mut doc = JsonObject::new();
    let path: JsonPath = vec![key("items"), index(0)];
    assert_eq!(write_value(&path, &mut doc, number(42)), Ok(()));
    let expected = object(vec![("items", JsonValue::Array(vec![number(42)]))]);
    assert_eq!(doc, expected);
}

#[test]
fn write_at_the_length_of_an_array_appends() {
    let mut doc = object(vec![("items", JsonValue::Array(vec![number(1), number(2)]))]);
    let path: JsonPath = vec![key("items"), index(2)];
    assert_eq!(write_value(&path, &mut doc, number(3)), Ok(()));
    let expected =
        object(vec![("items", JsonValue::Array(vec![number(1), number(2), number(3)]))]);
    assert_eq!(doc, expected);
}

#[test]
fn write_inside_an_array_replaces_the_item() {
    let mut doc = object(vec![("items", JsonValue::Array(vec![number(1), number(2)]))]);
    let path: JsonPath = vec![key("items"), index(0)];
    assert_eq!(write_value(&path, &mut doc, text("x")), Ok(()));
    let expected = object(vec![("items", JsonValue::Array(vec![text("x"), number(2)]))]);
    assert_eq!(doc, expected);
}

#[test]
fn write_creates_containers_by_the_next_segment() {
    let mut doc = JsonObject::new();
    let path: JsonPath = vec![key("rows"), index(1), key("cell"), index(0)];
    assert_eq!(write_value(&path, &mut doc, JsonValue::Bool(false)), Ok(()));
    let expected = object(vec![(
        "rows",
        JsonValue::Array(vec![
            JsonValue::Null,
            JsonValue::Object(object(vec![(
                "cell",
                JsonValue::Array(vec![JsonValue::Bool(false)]),
            )])),
        ]),
    )]);
    assert_eq!(doc, expected);
}

#[test]
fn write_twice_keeps_the_later_value() {
    let mut doc = JsonObject::new();
    let path: JsonPath = vec![key("x")];
    assert_eq!(write_value(&path, &mut doc, number(1)), Ok(()));
    assert_eq!(write_value(&path, &mut doc, number(2)), Ok(()));
    assert_eq!(doc, object(vec![("x", number(2))]));
}

#[test]
fn write_uses_the_containers_that_exist() {
    let mut doc = JsonObject::new();
    let first: JsonPath = vec![key("a"), key("b")];
    let second: JsonPath = vec![key("a"), key("c")];
    assert_eq!(write_value(&first, &mut doc, number(1)), Ok(()));
    assert_eq!(write_value(&second, &mut doc, number(2)), Ok(()));
    let expected = object(vec![(
        "a",
        JsonValue::Object(object(vec![("b", number(1)), ("c", number(2))])),
    )]);
    assert_eq!(doc, expected);
}

#[test]
fn write_keeps_the_place_of_a_key_that_it_overwrites() {
    let mut doc = object(vec![("a", number(1)), ("b", number(2)), ("c", number(3))]);
    let path: JsonPath = vec![key("b")];
    assert_eq!(write_value(&path, &mut doc, text("two")), Ok(()));
    assert_eq!(doc, object(vec![("a", number(1)), ("b", text("two")), ("c", number(3))]));
}

#[test]
fn written_value_is_read_back() {
    let mut doc = sample();
    let path: JsonPath = vec![key("user"), key("tags"), index(4), key("deep")];
    assert_eq!(write_value(&path, &mut doc, text("v")), Ok(()));
    assert_eq!(resolve_read(&path, &doc), Ok(&text("v")));
}

#[test]
fn write_below_a_scalar_is_a_type_mismatch() {
    let mut doc = object(vec![("a", number(5))]);
    let path: JsonPath = vec![key("a"), key("b")];
    assert_eq!(write_value(&path, &mut doc, number(1)), Err(PathError::TypeMismatch));
    assert_eq!(doc, object(vec![("a", number(5))]));
}

#[test]
fn write_below_null_is_a_type_mismatch() {
    let mut doc = object(vec![("a", JsonValue::Null)]);
    let path: JsonPath = vec![key("a"), index(0)];
    assert_eq!(write_value(&path, &mut doc, number(1)), Err(PathError::TypeMismatch));
}

#[test]
fn write_with_a_key_into_an_array_is_a_type_mismatch() {
    let mut doc = object(vec![("a", JsonValue::Array(vec![]))]);
    let path: JsonPath = vec![key("a"), key("b")];
    assert_eq!(write_value(&path, &mut doc, number(1)), Err(PathError::TypeMismatch));
}

#[test]
fn write_with_an_index_into_an_object_is_a_type_mismatch() {
    let mut doc = object(vec![("a", JsonValue::Object(JsonObject::new()))]);
    let path: JsonPath = vec![key("a"), index(0)];
    assert_eq!(write_value(&path, &mut doc, number(1)), Err(PathError::TypeMismatch));
}

#[test]
fn failed_write_leaves_the_document_as_it_was() {
    let mut doc = sample();
    let path: JsonPath = vec![key("user"), key("tags"), index(0), key("deep"), index(3)];
    assert_eq!(write_value(&path, &mut doc, number(1)), Err(PathError::TypeMismatch));
    assert_eq!(doc, sample());
}

#[test]
fn write_rejects_an_empty_path() {
    let mut doc = sample();
    let path: JsonPath = vec![];
    assert_eq!(write_value(&path, &mut doc, number(1)), Err(PathError::TypeMismatch));
    assert_eq!(doc, sample());
}

#[test]
fn write_rejects_a_path_that_starts_with_an_index() {
    let mut doc = sample();
    let path: JsonPath = vec![index(0)];
    assert_eq!(write_value(&path, &mut doc, number(1)), Err(PathError::TypeMismatch));
    assert_eq!(doc, sample());
}

#[test]
fn resolve_write_hands_out_a_null_placeholder() {
    let mut doc = JsonObject::new();
    let path: JsonPath = vec![key("a"), key("b")];
    {
        let location = resolve_write(&path, &mut doc).unwrap();
        assert_eq!(*location, JsonValue::Null);
    }
    let expected = object(vec![("a", JsonValue::Object(object(vec![("b", JsonValue::Null)])))]);
    assert_eq!(doc, expected);
}

#[test]
fn resolve_write_hands_out_the_value_that_is_there() {
    let mut doc = sample();
    let path: JsonPath = vec![key("user"), key("id")];
    let location = resolve_write(&path, &mut doc).unwrap();
    assert_eq!(*location, number(42));
    *location = number(43);
    let read: JsonPath = vec![key("user"), key("id")];
    assert_eq!(resolve_read(&read, &doc), Ok(&number(43)));
}

#[test]
fn resolve_write_fails_only_with_a_type_mismatch() {
    let mut doc = sample();
    let path: JsonPath = vec![key("flag"), key("x")];
    assert!(matches!(resolve_write(&path, &mut doc), Err(PathError::TypeMismatch)));
}

#[test]
fn object_slot_is_created_once() {
    let mut doc = JsonObject::new();
    *doc.get_or_insert_mut("k", OrInsertJsonValue::Array) = number(1);
    assert_eq!(*doc.get_or_insert_mut("k", OrInsertJsonValue::Object), number(1));
    assert_eq!(doc.len(), 1);
}

#[test]
fn object_slot_is_fresh_where_the_key_is_missing() {
    let mut doc = object(vec![("a", number(1))]);
    assert_eq!(
        *doc.get_or_insert_mut("b", OrInsertJsonValue::Object),
        JsonValue::Object(JsonObject::new())
    );
    assert_eq!(doc.member(0), Some(("a", &number(1))));
    assert_eq!(doc.member(1), Some(("b", &JsonValue::Object(JsonObject::new()))));
    assert_eq!(doc.member(2), None);
}

#[test]
fn array_slot_extends_a_short_array() {
    let mut items = vec![number(1)];
    assert_eq!(
        *array_get_or_insert_mut(&mut items, 3, OrInsertJsonValue::Array),
        JsonValue::Array(vec![])
    );
    assert_eq!(
        items,
        vec![number(1), JsonValue::Null, JsonValue::Null, JsonValue::Array(vec![])]
    );
}

#[test]
fn array_slot_is_the_item_that_is_there() {
    let mut items = vec![number(1), number(2)];
    assert_eq!(*array_get_or_insert_mut(&mut items, 1, OrInsertJsonValue::Object), number(2));
    assert_eq!(items, vec![number(1), number(2)]);
}

#[test]
fn concrete_makes_each_kind() {
    assert_eq!(OrInsertJsonValue::Object.concrete(), JsonValue::Object(JsonObject::new()));
    assert_eq!(OrInsertJsonValue::Array.concrete(), JsonValue::Array(vec![]));
    assert_eq!(OrInsertJsonValue::Null.concrete(), JsonValue::Null);
}

#[test]
fn insert_replaces_in_place_and_appends() {
    let mut doc = JsonObject::new();
    doc.insert("a", number(1));
    doc.insert("b", number(2));
    doc.insert("a", number(3));
    assert_eq!(doc.len(), 2);
    assert_eq!(doc.member(0), Some(("a", &number(3))));
    assert_eq!(doc.member(1), Some(("b", &number(2))));
    assert!(doc.contains_key("a"));
    assert!(!doc.contains_key("c"));
    assert_eq!(doc.get("b"), Some(&number(2)));
    assert_eq!(doc.get("c"), None);
}

#[test]
fn clone_is_a_deep_copy() {
    let doc = sample();
    let mut copy = doc.clone();
    assert_eq!(copy, doc);
    let path: JsonPath = vec![key("user"), key("tags"), index(0)];
    assert_eq!(write_value(&path, &mut copy, text("changed")), Ok(()));
    assert_eq!(doc, sample());
    assert_ne!(copy, doc);
    let value = JsonValue::Object(sample());
    assert_eq!(value.clone(), value);
}

#[test]
fn clone_keeps_every_kind_of_number() {
    let numbers = JsonValue::Array(vec![
        JsonValue::Number(serde_json::Number::from(u64::MAX)),
        JsonValue::Number(serde_json::Number::from(-7i64)),
        JsonValue::Number(serde_json::Number::from_f64(1.5f64).unwrap()),
    ]);
    assert_eq!(numbers.clone(), numbers);
}

#[test]
fn same_text_compares_characters() {
    assert!(same_text("", ""));
    assert!(same_text("käse", "käse"));
    assert!(!same_text("kase", "käse"));
    assert!(!same_text("a", "ab"));
    assert!(!same_text("ab", "ac"));
}
