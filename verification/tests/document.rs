use steam_replay::document::{from_value, parse_document, ParseFailure};
use steam_replay::json::{JsonNumber, JsonValue, MAX_DEPTH};

#[test]
fn scalars_are_read() {
    assert_eq!(parse_document("null"), Ok(JsonValue::Null));
    assert_eq!(parse_document("true"), Ok(JsonValue::Bool(true)));
    assert_eq!(parse_document(" false "), Ok(JsonValue::Bool(false)));
    assert_eq!(parse_document(r#""a\"b""#), Ok(JsonValue::Text("a\"b".to_string())));
}

#[test]
fn numbers_keep_their_kind() {
    assert_eq!(parse_document("0"), Ok(JsonValue::Number(JsonNumber::Unsigned(0))));
    assert_eq!(
        parse_document("18446744073709551615"),
        Ok(JsonValue::Number(JsonNumber::Unsigned(u64::MAX)))
    );
    assert_eq!(parse_document("-7"), Ok(JsonValue::Number(JsonNumber::Negative(-7))));
    assert_eq!(
        parse_document("-9223372036854775808"),
        Ok(JsonValue::Number(JsonNumber::Negative(i64::MIN)))
    );
    assert_eq!(parse_document("1.5"), Ok(JsonValue::Number(JsonNumber::Real("1.5".to_string()))));
}

#[test]
fn number_accessors_follow_the_kind() {
    assert_eq!(JsonNumber::Unsigned(5).as_u64(), Some(5));
    assert_eq!(JsonNumber::Unsigned(5).as_i64(), Some(5));
    assert_eq!(JsonNumber::Unsigned(u64::MAX).as_i64(), None);
    assert_eq!(JsonNumber::Unsigned(i64::MAX as u64).as_i64(), Some(i64::MAX));
    assert_eq!(JsonNumber::Negative(-5).as_u64(), None);
    assert_eq!(JsonNumber::Negative(-5).as_i64(), Some(-5));
    assert_eq!(JsonNumber::Real("2.5".to_string()).as_u64(), None);
    assert_eq!(JsonNumber::Real("2.5".to_string()).as_i64(), None);
}

#[test]
fn arrays_and_objects_are_read_whole() {
    let document = parse_document(r#"{"b":[1,{"c":null}],"a":"x"}"#).expect("valid JSON");
    assert_eq!(document.get("a"), Some(&JsonValue::Text("x".to_string())));
    assert_eq!(
        document.get("b"),
        Some(&JsonValue::Array(vec![
            JsonValue::Number(JsonNumber::Unsigned(1)),
            JsonValue::Object(vec![("c".to_string(), JsonValue::Null)]),
        ]))
    );
    assert_eq!(document.get("c"), None);
    assert_eq!(document.get("b").and_then(|b| b.get("c")), None);
    assert_eq!(document.get("a").and_then(|a| a.get("x")), None);
}

#[test]
fn repeated_key_is_held_once() {
    let document = parse_document(r#"{"a":1,"a":2}"#).expect("valid JSON");
    assert_eq!(
        document,
        JsonValue::Object(vec![("a".to_string(), JsonValue::Number(JsonNumber::Unsigned(2)))])
    );
}

#[test]
fn text_that_is_no_json_is_refused() {
    for text in ["", "{", "[1,]", "nul", "{\"a\" 1}", "1 2", "'a'"] {
        let failure = parse_document(text).expect_err("not JSON");
        assert!(matches!(failure, ParseFailure::Syntax { .. }), "{:?}", text);
        assert!(!failure.message().is_empty(), "{:?}", text);
    }
}

#[test]
fn depth_counts_nested_arrays_and_objects() {
    assert!(parse_document("5").unwrap().within_depth(0));
    assert!(!parse_document("[]").unwrap().within_depth(0));
    assert!(parse_document("[]").unwrap().within_depth(1));
    assert!(parse_document(r#"{"a":[1,[2]],"b":{}}"#).unwrap().within_depth(3));
    assert!(!parse_document(r#"{"a":[1,[2]],"b":{}}"#).unwrap().within_depth(2));
}

#[test]
fn what_the_reader_accepts_can_be_walked() {
    let deepest = format!("{}{}", "[".repeat(127), "]".repeat(127));
    let document = parse_document(&deepest).expect("within the reader's limit");
    assert!(document.within_depth(MAX_DEPTH));
    assert!(steam_replay::playtime::extract_playtime_data(&document).is_ok());
    assert!(steam_replay::identifiers::extract_app_ids(&document).is_ok());
    let deeper = format!("{}{}", "[".repeat(200), "]".repeat(200));
    assert!(parse_document(&deeper).is_err());
}

#[test]
fn values_of_the_reader_are_copied_level_by_level() {
    let mut inner = serde_json::Map::new();
    inner.insert("z".to_string(), serde_json::Value::from(-3i64));
    inner.insert("a".to_string(), serde_json::Value::from(7u64));
    let value = serde_json::Value::Array(vec![
        serde_json::Value::Null,
        serde_json::Value::Bool(true),
        serde_json::Value::from("text"),
        serde_json::Value::from(2.5f64),
        serde_json::Value::Object(inner),
    ]);
    assert_eq!(
        from_value(&value),
        Ok(JsonValue::Array(vec![
            JsonValue::Null,
            JsonValue::Bool(true),
            JsonValue::Text("text".to_string()),
            JsonValue::Number(JsonNumber::Real("2.5".to_string())),
            JsonValue::Object(vec![
                ("a".to_string(), JsonValue::Number(JsonNumber::Unsigned(7))),
                ("z".to_string(), JsonValue::Number(JsonNumber::Negative(-3))),
            ]),
        ]))
    );
}

#[test]
fn value_of_the_reader_that_is_too_deep_is_refused() {
    let mut value = serde_json::Value::Null;
    for _ in 0..MAX_DEPTH {
        value = serde_json::Value::Array(vec![value]);
    }
    assert!(from_value(&value).is_ok());
    value = serde_json::Value::Array(vec![value]);
    assert_eq!(from_value(&value).expect_err("too deep").limit, MAX_DEPTH);
    assert_eq!(
        ParseFailure::TooDeep { limit: MAX_DEPTH }.message(),
        "arrays and objects nest too deep"
    );
}

#[test]
fn keys_held_twice_are_found_at_any_depth() {
    assert!(parse_document(r#"{"a":{"b":1,"c":[{"d":2}]},"b":3}"#).unwrap().has_unique_keys());
    assert!(JsonValue::Null.has_unique_keys());
    let twice = JsonValue::Object(vec![
        ("a".to_string(), JsonValue::Null),
        ("b".to_string(), JsonValue::Null),
        ("a".to_string(), JsonValue::Bool(true)),
    ]);
    assert!(!twice.has_unique_keys());
    assert_eq!(twice.get("a"), Some(&JsonValue::Null));
    let nested = JsonValue::Array(vec![
        JsonValue::Null,
        JsonValue::Object(vec![("x".to_string(), twice)]),
    ]);
    assert!(!nested.has_unique_keys());
}
