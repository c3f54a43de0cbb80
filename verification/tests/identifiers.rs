use steam_replay::document::parse_document;
use steam_replay::identifiers::{extract_app_ids, extract_app_ids_recursive, IdentifierSet};
use steam_replay::json::{JsonValue, MAX_DEPTH};

fn sorted_ids(set: &IdentifierSet) -> Vec<String> {
    let mut ids = set.to_vec();
    ids.sort();
    ids
}

fn ids_of(text: &str) -> Vec<String> {
    let document = parse_document(text).expect("valid JSON");
    sorted_ids(&extract_app_ids(&document).expect("shallow document"))
}

#[test]
fn both_keys_are_collected_at_any_depth() {
    let ids = ids_of(
        r#"{"appid":1,"app_id":2,"x":[{"appid":3,"y":{"app_id":4}},[[{"appid":5}]]],
            "appid_other":6}"#,
    );
    assert_eq!(ids, vec!["1", "2", "3", "4", "5"]);
}

#[test]
fn each_identifier_is_held_once() {
    let document = parse_document(r#"[{"appid":7},{"app_id":7},{"appid":7,"app_id":7}]"#)
        .expect("valid JSON");
    let set = extract_app_ids(&document).expect("shallow document");
    assert_eq!(set.len(), 1);
    assert!(set.contains("7"));
    assert!(!set.contains("8"));
    assert_eq!(set.to_vec(), vec!["7"]);
}

#[test]
fn fields_that_are_no_unsigned_number_are_skipped() {
    let ids = ids_of(
        r#"[{"appid":"12"},{"appid":-1},{"appid":1.0},{"appid":null},{"appid":[3]},
            {"app_id":{"appid":18446744073709551615}},{"appid":0}]"#,
    );
    assert_eq!(ids, vec!["0", "18446744073709551615"]);
}

#[test]
fn document_without_identifier_fields_gives_empty_set() {
    for text in ["null", "1", r#""appid""#, "[]", "{}", r#"{"a":{"b":[1,2,{"c":"appid"}]}}"#] {
        let document = parse_document(text).expect("valid JSON");
        let set = extract_app_ids(&document).expect("shallow document");
        assert!(set.is_empty(), "{}", text);
        assert_eq!(set.len(), 0);
    }
}

#[test]
fn identifiers_do_not_need_a_match() {
    let ids = ids_of(
        r#"{"games":[{"appid":10},{"appid":11,"relative_game_stats":{"total_playtime_seconds":0}}]}"#,
    );
    assert_eq!(ids, vec!["10", "11"]);
}

#[test]
fn collecting_twice_gives_the_same_set() {
    let document = parse_document(r#"{"a":[{"appid":3},{"appid":1}],"b":{"app_id":2}}"#)
        .expect("valid JSON");
    let first = extract_app_ids(&document).expect("shallow document");
    let second = extract_app_ids(&document).expect("shallow document");
    assert_eq!(sorted_ids(&first), sorted_ids(&second));
    assert_eq!(sorted_ids(&first), vec!["1", "2", "3"]);
}

#[test]
fn order_of_keys_does_not_change_the_set() {
    let one = JsonValue::Object(vec![
        ("appid".to_string(), parse_document("5").unwrap()),
        ("x".to_string(), parse_document(r#"{"app_id":6,"appid":7}"#).unwrap()),
        ("app_id".to_string(), parse_document("8").unwrap()),
    ]);
    let other = JsonValue::Object(vec![
        ("app_id".to_string(), parse_document("8").unwrap()),
        (
            "x".to_string(),
            JsonValue::Object(vec![
                ("appid".to_string(), parse_document("7").unwrap()),
                ("app_id".to_string(), parse_document("6").unwrap()),
            ]),
        ),
        ("appid".to_string(), parse_document("5").unwrap()),
    ]);
    let left = extract_app_ids(&one).expect("shallow document");
    let right = extract_app_ids(&other).expect("shallow document");
    assert_eq!(sorted_ids(&left), sorted_ids(&right));
    assert_eq!(sorted_ids(&left), vec!["5", "6", "7", "8"]);
}

#[test]
fn walk_adds_to_what_the_set_holds() {
    let mut set = IdentifierSet::new();
    assert!(set.insert("1".to_string()));
    assert!(!set.insert("1".to_string()));
    let document = parse_document(r#"[{"appid":1},{"appid":2}]"#).expect("valid JSON");
    extract_app_ids_recursive(&document, &mut set);
    assert_eq!(sorted_ids(&set), vec!["1", "2"]);
    assert_eq!(set.len(), 2);
}

#[test]
fn collector_refuses_nesting_beyond_the_limit() {
    let mut value = JsonValue::Object(vec![("appid".to_string(), parse_document("1").unwrap())]);
    for _ in 0..MAX_DEPTH {
        value = JsonValue::Object(vec![("x".to_string(), value)]);
    }
    let refusal = extract_app_ids(&value).expect_err("too deep");
    assert_eq!(refusal.limit, MAX_DEPTH);
}
