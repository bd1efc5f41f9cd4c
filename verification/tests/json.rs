use bargo::convert::to_json;
use bargo::json::{copy_or_empty, default_serde_object, merge, put, Json};
use bargo::sorted_map::SortedMap;

fn read(value: &serde_json::Value) -> Json {
    match value {
        serde_json::Value::Null => Json::Null,
        serde_json::Value::Bool(b) => Json::Bool(*b),
        serde_json::Value::Number(n) => Json::Number(n.clone()),
        serde_json::Value::String(s) => Json::String(s.clone()),
        serde_json::Value::Array(items) => Json::Array(items.iter().map(read).collect()),
        serde_json::Value::Object(entries) => {
            let mut object = SortedMap::new();
            for (key, value) in entries {
                object.insert(key.clone(), read(value));
            }
            Json::Object(object)
        }
    }
}

fn parse(text: &str) -> serde_json::Value {
    serde_json::from_str(text).unwrap()
}

fn json(text: &str) -> Json {
    read(&parse(text))
}

fn merged(a: &str, b: &str) -> serde_json::Value {
    let mut value = json(a);
    merge(&mut value, json(b));
    to_json(&value)
}

#[test]
fn every_kind_of_value_becomes_the_same_serde_json_value() {
    let text = r#"{"a": null, "b": [true, 1, -2, 2.5, "x"], "c": {"d": {}}, "": []}"#;
    assert_eq!(to_json(&json(text)), parse(text));
    assert_eq!(to_json(&json("false")), parse("false"));
    assert_eq!(to_json(&json("18446744073709551615")), parse("18446744073709551615"));
}

#[test]
fn a_clone_holds_the_same() {
    let text = r#"{"a": [1, {"b": "c"}], "d": null}"#;
    let value = json(text);
    assert_eq!(to_json(&value.clone()), parse(text));
}

#[test]
fn objects_are_merged_key_by_key() {
    assert_eq!(
        merged(r#"{"a": 1, "b": {"c": 2, "d": 3}}"#, r#"{"b": {"c": 4}, "e": 5}"#),
        parse(r#"{"a": 1, "b": {"c": 4, "d": 3}, "e": 5}"#)
    );
}

#[test]
fn null_takes_a_key_out() {
    assert_eq!(merged(r#"{"a": 1, "b": 2}"#, r#"{"a": null}"#), parse(r#"{"b": 2}"#));
    assert_eq!(merged(r#"{"a": {"b": 1, "c": 2}}"#, r#"{"a": {"b": null}}"#), parse(r#"{"a": {"c": 2}}"#));
    assert_eq!(merged(r#"{"b": 2}"#, r#"{"a": null}"#), parse(r#"{"b": 2}"#));
}

#[test]
fn a_null_that_meets_no_object_is_kept() {
    assert_eq!(merged("{}", r#"{"a": {"b": null}}"#), parse(r#"{"a": {"b": null}}"#));
    assert_eq!(merged(r#"{"a": 1}"#, r#"{"a": {"b": null}}"#), parse(r#"{"a": {"b": null}}"#));
}

#[test]
fn anything_but_two_objects_is_replaced() {
    assert_eq!(merged("1", r#"{"a": 1}"#), parse(r#"{"a": 1}"#));
    assert_eq!(merged(r#"{"a": 1}"#, "[2]"), parse("[2]"));
    assert_eq!(merged(r#"{"a": 1}"#, "null"), parse("null"));
    assert_eq!(merged("[1, 2]", "[3]"), parse("[3]"));
    assert_eq!(merged(r#"{"a": [1, 2]}"#, r#"{"a": [3]}"#), parse(r#"{"a": [3]}"#));
}

#[test]
fn merging_nothing_changes_nothing() {
    let text = r#"{"a": 1, "b": {"c": null}}"#;
    assert_eq!(merged(text, "{}"), parse(text));
}

#[test]
fn merging_twice_changes_nothing_where_nulls_meet_objects() {
    let base = r#"{"a": {"x": 1}, "b": 2}"#;
    let patch = r#"{"a": {"x": null, "y": 3}, "b": null}"#;
    let mut value = json(base);
    merge(&mut value, json(patch));
    let once = to_json(&value);
    merge(&mut value, json(patch));
    assert_eq!(to_json(&value), once);
}

#[test]
fn merging_twice_takes_out_a_null_that_was_stored() {
    let mut value = json("{}");
    merge(&mut value, json(r#"{"a": {"b": null}}"#));
    merge(&mut value, json(r#"{"a": {"b": null}}"#));
    assert_eq!(to_json(&value), parse(r#"{"a": {}}"#));
}

#[test]
fn an_absent_value_is_the_empty_object() {
    assert_eq!(to_json(&default_serde_object()), parse("{}"));
    assert_eq!(to_json(&copy_or_empty(&None)), parse("{}"));
    assert_eq!(to_json(&copy_or_empty(&Some(json("[1]")))), parse("[1]"));
}

#[test]
fn an_entry_is_put_into_an_object() {
    let mut object = SortedMap::new();
    put(&mut object, "a", Json::Bool(true));
    put(&mut object, "a", Json::Bool(false));
    put(&mut object, "b", Json::Null);
    assert_eq!(to_json(&Json::Object(object)), parse(r#"{"a": false, "b": null}"#));
}
