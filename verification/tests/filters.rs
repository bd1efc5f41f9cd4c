use bargo::convert::to_json;
use bargo::error::{FilterError, ProcessError};
use bargo::filters::{finish_yaml, nindent, nindent_by, nindent_filter, yaml_encode, yaml_encode_filter};
use bargo::json::{put, Json};
use bargo::sorted_map::SortedMap;

fn text(s: &str) -> Json {
    Json::String(s.to_string())
}

fn spaces(argument: Json) -> SortedMap<Json> {
    let mut args = SortedMap::new();
    put(&mut args, "spaces", argument);
    args
}

fn number(n: u64) -> Json {
    Json::Number(serde_json::Number::from(n))
}

fn read(value: &serde_json::Value) -> Json {
    match value {
        serde_json::Value::Null => Json::Null,
        serde_json::Value::Bool(b) => Json::Bool(*b),
        serde_json::Value::Number(n) => Json::Number(n.clone()),
        serde_json::Value::String(s) => Json::String(s.clone()),
        serde_json::Value::Array(items) => Json::Array(items.iter().map(read).collect()),
        serde_json::Value::Object(entries) => {
            let mut object = SortedMap::new();
            for (key, value) in entries {
                object.insert(key.clone(), read(value));
            }
            Json::Object(object)
        }
    }
}

fn string_of(r: Result<Json, FilterError>) -> String {
    match r {
        Ok(Json::String(s)) => s,
        _ => panic!("no string"),
    }
}

#[test]
fn values_are_written_as_yaml_without_white_space_at_the_ends() {
    let mut object = SortedMap::new();
    put(&mut object, "b", number(2));
    put(&mut object, "a", Json::Array(vec![text("x"), Json::Null]));
    match yaml_encode(&Json::Object(object)) {
        Ok(s) => assert_eq!(s, "a:\n- x\n- null\nb: 2"),
        Err(_) => panic!("not written"),
    }
}

#[test]
fn the_filter_yaml_encode_gives_a_string() {
    let mut object = SortedMap::new();
    put(&mut object, "replicas", number(3));
    assert_eq!(string_of(yaml_encode_filter(&Json::Object(object))), "replicas: 3");
    assert_eq!(string_of(yaml_encode_filter(&Json::Bool(true))), "true");
}

#[test]
fn written_yaml_is_trimmed_at_both_ends() {
    match finish_yaml(Ok("\u{3000}\n a b \t\u{85}\u{2003}".to_string())) {
        Ok(s) => assert_eq!(s, "a b"),
        Err(_) => panic!("not written"),
    }
    match finish_yaml(Ok(" \n".to_string())) {
        Ok(s) => assert_eq!(s, ""),
        Err(_) => panic!("not written"),
    }
    for c in '\0'..'\u{ffff}' {
        let padded = format!("{c}x{c}");
        match finish_yaml(Ok(padded.clone())) {
            Ok(s) => assert_eq!(s, padded.trim()),
            Err(_) => panic!("not written"),
        }
    }
}

#[test]
fn a_yaml_error_is_reported_with_its_message() {
    let error = serde_yaml::from_str::<u8>("x").unwrap_err();
    let message = error.to_string();
    match finish_yaml(Err(error)) {
        Err(ProcessError::Yaml(m)) => assert_eq!(m, message),
        _ => panic!("no error"),
    }
}

#[test]
fn each_line_is_indented() {
    assert_eq!(nindent("a: 1\nb: 2", 4), "\n    a: 1\n    b: 2");
    assert_eq!(nindent("", 2), "\n  ");
    assert_eq!(nindent("a\n\n", 1), "\n a\n \n ");
    assert_eq!(nindent("x", 0), "\nx");
    assert_eq!(nindent("é\r\nü", 2), "\n  é\r\n  ü");
}

#[test]
fn the_filter_nindent_takes_the_number_of_spaces() {
    assert_eq!(string_of(nindent_filter(&text("a\nb"), &spaces(number(2)))), "\n  a\n  b");
}

#[test]
fn the_filter_nindent_refuses_what_is_no_string() {
    let r = nindent_filter(&number(1), &SortedMap::new());
    assert!(matches!(r, Err(FilterError::NotAString)));
}

#[test]
fn the_filter_nindent_needs_its_argument() {
    let r = nindent_filter(&text("a"), &SortedMap::new());
    assert!(matches!(r, Err(FilterError::MissingSpaces)));
}

#[test]
fn the_filter_nindent_needs_a_number_of_spaces() {
    let fraction = Json::Number(serde_json::Number::from_f64(2.5).unwrap());
    let negative = Json::Number(serde_json::Number::from(-1));
    for argument in [text("2"), Json::Null, Json::Bool(true), fraction, negative, Json::Array(vec![])] {
        let r = nindent_filter(&text("a"), &spaces(argument));
        assert!(matches!(r, Err(FilterError::InvalidSpaces)));
    }
}

#[test]
fn the_filter_nindent_refuses_more_spaces_than_a_string_can_hold() {
    let r = nindent_filter(&text("a"), &spaces(number(u64::MAX)));
    assert!(matches!(r, Err(FilterError::TooManySpaces)));
}

#[test]
fn what_was_read_from_the_argument_decides() {
    assert!(matches!(nindent_by("a", None), Err(FilterError::MissingSpaces)));
    assert!(matches!(nindent_by("a", Some(None)), Err(FilterError::InvalidSpaces)));
    assert!(matches!(nindent_by("a", Some(Some(usize::MAX))), Err(FilterError::TooManySpaces)));
    match nindent_by("a\nb", Some(Some(1))) {
        Ok(v) => assert_eq!(to_json(&v), serde_json::Value::from("\n a\n b")),
        Err(_) => panic!("refused"),
    }
}

#[test]
fn what_was_written_as_yaml_can_be_read_back() {
    let texts = [
        "null", "true", "0", "-1", "18446744073709551615", r#""""#, r#"" ""#, r#""null""#, r#""~""#,
        r#""true""#, r#""yes""#, r#""1""#, r##""# a""##, r#""a: b""#, r#""- a""#, r#""a'b\"c""#,
        r#""{{ x }}""#, r#""%a""#, r#"" a ""#, r#""---""#, "[]", "{}",
        r#"{"a": [1, {"b": "c: d", "": []}], "e f": {"g": null}}"#,
    ];
    for text in texts {
        let value: serde_json::Value = serde_json::from_str(text).unwrap();
        let written = string_of(yaml_encode_filter(&read(&value)));
        match yaml_encode(&read(&value)) {
            Ok(s) => assert_eq!(s, written),
            Err(_) => panic!("not written"),
        }
        assert_eq!(serde_yaml::from_str::<serde_json::Value>(&written).unwrap(), value);
    }
}
