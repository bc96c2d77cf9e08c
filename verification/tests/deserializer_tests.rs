use sotf_save_analyser::deserializer::{
    deserialize_json, latter_recursion_helper, payload_to_string, recursive_deserialization,
    save_data_file_path, take_data_field, JsonStore,
};
use sotf_save_analyser::json::{JsonNumber, JsonValue};

fn obj(entries: Vec<(&str, JsonValue)>) -> JsonValue {
    JsonValue::Object(entries.into_iter().map(|(k, v)| (k.to_string(), v)).collect())
}

fn s(text: &str) -> JsonValue {
    JsonValue::Str(text.to_string())
}

fn num(n: u64) -> JsonValue {
    JsonValue::Number(JsonNumber::PosInt(n))
}

fn payload_text(store: &JsonStore) -> Option<String> {
    store.payload.as_ref().map(payload_to_string)
}

fn check_shape(stores: &[JsonStore]) {
    for st in stores {
        assert!(st.payload.is_some() != st.children.is_some());
        if let Some(p) = &st.payload {
            assert!(!matches!(p, JsonValue::Object(_)));
        }
        if let Some(c) = &st.children {
            check_shape(c);
        }
    }
}

#[test]
fn non_object_values_give_no_stores() {
    assert!(recursive_deserialization(JsonValue::Null).is_empty());
    assert!(recursive_deserialization(num(3)).is_empty());
    assert!(recursive_deserialization(s("text")).is_empty());
    assert!(recursive_deserialization(JsonValue::Array(vec![obj(vec![("a", num(1))])])).is_empty());
}

#[test]
fn scalar_entries_become_payloads() {
    let stores = recursive_deserialization(obj(vec![
        ("a", num(1)),
        ("b", JsonValue::Bool(true)),
        ("c", JsonValue::Null),
    ]));
    assert_eq!(stores.len(), 3);
    assert_eq!(stores[0].field, "a");
    assert_eq!(payload_text(&stores[0]).as_deref(), Some("1"));
    assert!(stores[0].children.is_none());
    assert_eq!(stores[1].field, "b");
    assert_eq!(payload_text(&stores[1]).as_deref(), Some("true"));
    assert_eq!(stores[2].field, "c");
    assert!(matches!(stores[2].payload, Some(JsonValue::Null)));
}

#[test]
fn plain_string_entry_gets_a_child_payload() {
    let stores = recursive_deserialization(obj(vec![("name", s("plain text"))]));
    assert_eq!(stores.len(), 1);
    assert_eq!(stores[0].field, "name");
    assert!(stores[0].payload.is_none());
    let children = stores[0].children.as_ref().unwrap();
    assert_eq!(children.len(), 1);
    assert_eq!(children[0].field, "name");
    assert_eq!(payload_text(&children[0]).as_deref(), Some("plain text"));
    assert!(children[0].children.is_none());
}

#[test]
fn string_holding_json_object_is_expanded() {
    let stores = recursive_deserialization(obj(vec![("inner", s("{\"x\": 5, \"y\": \"z\"}"))]));
    assert_eq!(stores.len(), 1);
    assert_eq!(stores[0].field, "inner");
    let children = stores[0].children.as_ref().unwrap();
    assert_eq!(children.len(), 2);
    assert_eq!(children[0].field, "x");
    assert_eq!(payload_text(&children[0]).as_deref(), Some("5"));
    assert_eq!(children[1].field, "y");
    let grand = children[1].children.as_ref().unwrap();
    assert_eq!(grand.len(), 1);
    assert_eq!(grand[0].field, "y");
    assert_eq!(payload_text(&grand[0]).as_deref(), Some("z"));
}

#[test]
fn string_holding_non_object_json_has_no_children() {
    let stores = recursive_deserialization(obj(vec![("n", s("123")), ("l", s("[1, 2]"))]));
    assert_eq!(stores.len(), 2);
    assert!(stores[0].children.as_ref().unwrap().is_empty());
    assert!(stores[1].children.as_ref().unwrap().is_empty());
}

#[test]
fn arrays_are_flattened() {
    let stores = recursive_deserialization(obj(vec![(
        "list",
        JsonValue::Array(vec![
            obj(vec![("p", num(1)), ("q", num(2))]),
            num(7),
            s("word"),
            JsonValue::Array(vec![num(1)]),
        ]),
    )]));
    assert_eq!(stores.len(), 5);
    assert_eq!(stores[0].field, "p");
    assert_eq!(stores[1].field, "q");
    assert_eq!(stores[2].field, "array_entry");
    assert_eq!(payload_text(&stores[2]).as_deref(), Some("7"));
    assert_eq!(stores[3].field, "array_entry");
    assert_eq!(payload_text(&stores[3]).as_deref(), Some("word"));
    assert_eq!(stores[4].field, "array_entry");
    assert!(matches!(stores[4].payload, Some(JsonValue::Array(_))));
    assert_eq!(payload_text(&stores[4]).as_deref(), Some(""));
}

#[test]
fn nested_objects_become_children() {
    let stores = recursive_deserialization(obj(vec![("outer", obj(vec![("inner", num(4))]))]));
    assert_eq!(stores.len(), 1);
    assert!(stores[0].payload.is_none());
    let children = stores[0].children.as_ref().unwrap();
    assert_eq!(children.len(), 1);
    assert_eq!(children[0].field, "inner");
}

#[test]
fn trees_are_well_shaped() {
    let stores = recursive_deserialization(obj(vec![
        ("a", s("{\"b\": {\"c\": [1, {\"d\": \"not json\"}]}}")),
        ("e", JsonValue::Array(vec![obj(vec![("f", JsonValue::Null)]), num(2)])),
        ("g", obj(vec![])),
    ]));
    check_shape(&stores);
}

#[test]
fn latter_helper_parses_or_keeps_the_string() {
    let parsed = latter_recursion_helper("k".to_string(), "{\"a\": true}".to_string());
    assert_eq!(parsed.len(), 1);
    assert_eq!(parsed[0].field, "a");
    assert_eq!(payload_text(&parsed[0]).as_deref(), Some("true"));
    let kept = latter_recursion_helper("k".to_string(), "not json".to_string());
    assert_eq!(kept.len(), 1);
    assert_eq!(kept[0].field, "k");
    assert!(matches!(&kept[0].payload, Some(JsonValue::Str(t)) if t == "not json"));
}

#[test]
fn deserialize_json_reads_the_data_entry() {
    let stores = deserialize_json("{\"Other\": 1, \"Data\": {\"GameState\": \"{\\\"Day\\\": 12}\", \"Seed\": -42}}").unwrap();
    assert_eq!(stores.len(), 2);
    assert_eq!(stores[0].field, "GameState");
    let children = stores[0].children.as_ref().unwrap();
    assert_eq!(children.len(), 1);
    assert_eq!(children[0].field, "Day");
    assert_eq!(payload_text(&children[0]).as_deref(), Some("12"));
    assert_eq!(stores[1].field, "Seed");
    assert_eq!(payload_text(&stores[1]).as_deref(), Some("-42"));
}

#[test]
fn deserialize_json_without_data_gives_no_stores() {
    assert!(deserialize_json("{\"Other\": {\"a\": 1}}").unwrap().is_empty());
    assert!(deserialize_json("[1, 2, 3]").unwrap().is_empty());
}

#[test]
fn deserialize_json_rejects_non_json() {
    assert!(deserialize_json("this is not json").is_none());
    assert!(deserialize_json("{\"Data\": ").is_none());
}

#[test]
fn object_keys_come_in_ascending_order() {
    let stores = deserialize_json("{\"Data\": {\"b\": 1, \"a\": 2, \"c\": 3}}").unwrap();
    let fields: Vec<&str> = stores.iter().map(|x| x.field.as_str()).collect();
    assert_eq!(fields, vec!["a", "b", "c"]);
}

#[test]
fn take_data_field_finds_first_data_entry() {
    let doc = obj(vec![("Data", num(1)), ("Data", num(2))]);
    assert!(matches!(take_data_field(doc), JsonValue::Number(JsonNumber::PosInt(1))));
    assert!(matches!(take_data_field(obj(vec![("x", num(1))])), JsonValue::Null));
    assert!(matches!(take_data_field(num(5)), JsonValue::Null));
}

#[test]
fn payload_text_of_numbers() {
    assert_eq!(payload_to_string(&num(0)), "0");
    assert_eq!(payload_to_string(&num(u64::MAX)), "18446744073709551615");
    assert_eq!(payload_to_string(&JsonValue::Number(JsonNumber::NegInt(-7))), "-7");
    assert_eq!(payload_to_string(&JsonValue::Number(JsonNumber::NegInt(i64::MIN))), "-9223372036854775808");
    assert_eq!(payload_to_string(&JsonValue::Number(JsonNumber::NegInt(15))), "15");
    assert_eq!(payload_to_string(&JsonValue::Number(JsonNumber::Float("2.5".to_string()))), "2.5");
}

#[test]
fn parsed_floats_show_as_rust_formats_them() {
    let stores = deserialize_json("{\"Data\": {\"a\": 1.5, \"b\": 2.0, \"c\": 1e3}}").unwrap();
    let texts: Vec<String> = stores.iter().map(|x| payload_text(x).unwrap()).collect();
    assert_eq!(texts, vec!["1.5", "2", "1000"]);
}

#[test]
fn payload_text_of_other_values() {
    assert_eq!(payload_to_string(&JsonValue::Bool(false)), "false");
    assert_eq!(payload_to_string(&JsonValue::Bool(true)), "true");
    assert_eq!(payload_to_string(&s("hello")), "hello");
    assert_eq!(payload_to_string(&JsonValue::Null), "");
    assert_eq!(payload_to_string(&JsonValue::Array(vec![num(1)])), "");
}

#[test]
fn payload_text_of_object_is_pretty_json() {
    let value = obj(vec![("b", JsonValue::Bool(true)), ("a", num(1))]);
    assert_eq!(payload_to_string(&value), "{\n  \"a\": 1,\n  \"b\": true\n}");
    assert_eq!(payload_to_string(&obj(vec![])), "{}");
}

#[test]
fn save_data_path_appends_file_name() {
    assert_eq!(save_data_file_path("/saves/123"), "/saves/123/SaveData.json");
    assert_eq!(save_data_file_path(""), "/SaveData.json");
}

#[test]
fn parsed_payload_text_is_empty_only_for_null_arrays_and_empty_strings() {
    let stores = deserialize_json(
        "{\"Data\": {\"a\": null, \"b\": [1], \"c\": 0.5, \"d\": false, \"e\": -1, \"f\": [\"\"], \"g\": [[1]]}}",
    )
    .unwrap();
    let texts: Vec<String> = stores.iter().filter_map(payload_text).collect();
    assert_eq!(texts, vec!["", "1", "0.5", "false", "-1", "", ""]);
    assert_eq!(payload_to_string(&s("")), "");
}
