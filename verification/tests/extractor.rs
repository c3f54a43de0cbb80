use steam_replay::document::parse_document;
use steam_replay::json::{JsonNumber, JsonValue, MAX_DEPTH};
use steam_replay::path::SectionPath;
use steam_replay::playtime::{
    extract_playtime_data, extract_playtime_recursive, read_record, MeasurementRecord,
};
use steam_replay::section::convert_section_to_month;

fn record(app_id: &str, playtime_seconds: u64, section: &str) -> MeasurementRecord {
    MeasurementRecord {
        app_id: app_id.to_string(),
        playtime_seconds,
        section: section.to_string(),
    }
}

fn records_of(text: &str) -> Vec<MeasurementRecord> {
    let document = parse_document(text).expect("valid JSON");
    extract_playtime_data(&document).expect("shallow document")
}

fn nested_arrays(depth: usize) -> JsonValue {
    let mut value = JsonValue::Null;
    for _ in 0..depth {
        value = JsonValue::Array(vec![value]);
    }
    value
}

#[test]
fn record_outside_named_sections_is_unknown() {
    let found = records_of(
        r#"{"a":{"appid":42,"relative_game_stats":{"total_playtime_seconds":7500}}}"#,
    );
    assert_eq!(found, vec![record("42", 7500, "unknown")]);
    assert_eq!(convert_section_to_month(&found[0].section), "unknown");
}

#[test]
fn document_without_match_has_no_record() {
    for text in [
        "null",
        "[]",
        "{}",
        r#"{"appid":42}"#,
        r#"{"relative_game_stats":{"total_playtime_seconds":5}}"#,
        r#"{"playtime_stats":{"games":[{"appid":1},{"app_id":2,"x":[1,2,3]}]}}"#,
        r#"[{"appid":1,"stats":{"total_playtime_seconds":9}}]"#,
    ] {
        assert_eq!(records_of(text), vec![], "{}", text);
    }
}

#[test]
fn zero_measurement_gives_no_record() {
    let found =
        records_of(r#"{"appid":7,"relative_game_stats":{"total_playtime_seconds":0}}"#);
    assert_eq!(found, vec![]);
}

#[test]
fn measurement_of_one_gives_one_record() {
    let found =
        records_of(r#"{"appid":7,"relative_game_stats":{"total_playtime_seconds":1}}"#);
    assert_eq!(found, vec![record("7", 1, "unknown")]);
}

#[test]
fn unreadable_measurement_gives_no_record() {
    for stats in [
        r#"{}"#,
        r#"{"total_playtime_seconds":"5"}"#,
        r#"{"total_playtime_seconds":-5}"#,
        r#"{"total_playtime_seconds":5.5}"#,
        r#"{"total_playtime_seconds":null}"#,
        r#"[5]"#,
        r#"5"#,
    ] {
        let text = format!(r#"{{"appid":7,"relative_game_stats":{}}}"#, stats);
        assert_eq!(records_of(&text), vec![], "{}", text);
    }
}

#[test]
fn identifier_may_be_number_or_text() {
    let found = records_of(
        r#"[{"appid":"abc,1","relative_game_stats":{"total_playtime_seconds":3}},
            {"appid":18446744073709551615,"relative_game_stats":{"total_playtime_seconds":4}},
            {"appid":-3,"relative_game_stats":{"total_playtime_seconds":5}},
            {"appid":1.5,"relative_game_stats":{"total_playtime_seconds":6}},
            {"appid":true,"relative_game_stats":{"total_playtime_seconds":7}}]"#,
    );
    assert_eq!(
        found,
        vec![record("abc,1", 3, "unknown"), record("18446744073709551615", 4, "unknown")]
    );
}

#[test]
fn legacy_key_alone_is_no_match() {
    let found =
        records_of(r#"{"app_id":7,"relative_game_stats":{"total_playtime_seconds":9}}"#);
    assert_eq!(found, vec![]);
}

#[test]
fn section_keys_build_the_path() {
    let found = records_of(
        r#"{"playtime_stats":{"wrapper":{"games":[
            {"appid":1,"relative_game_stats":{"total_playtime_seconds":10}},
            {"other":{"appid":2,"relative_game_stats":{"total_playtime_seconds":20}}}]}}}"#,
    );
    assert_eq!(
        found,
        vec![record("1", 10, "playtime_stats.games"), record("2", 20, "playtime_stats.games")]
    );
    assert_eq!(convert_section_to_month(&found[0].section), "total");
}

#[test]
fn elements_of_months_get_index_placeholders() {
    let found = records_of(
        r#"{"playtime_stats":{"months":[
            {"game_summary":[{"appid":1,"relative_game_stats":{"total_playtime_seconds":10}}]},
            {"game_summary":[{"appid":2,"relative_game_stats":{"total_playtime_seconds":20}}]}]}}"#,
    );
    assert_eq!(
        found,
        vec![
            record("1", 10, "playtime_stats.months.month_0"),
            record("2", 20, "playtime_stats.months.month_1"),
        ]
    );
    assert_eq!(convert_section_to_month(&found[1].section), "February");
}

#[test]
fn arrays_elsewhere_leave_the_path_alone() {
    let found = records_of(
        r#"{"games":[[{"appid":1,"relative_game_stats":{"total_playtime_seconds":10}}]]}"#,
    );
    assert_eq!(found, vec![record("1", 10, "games")]);
}

#[test]
fn dated_month_replaces_its_placeholder() {
    let march_2024: i64 = 1_709_251_200;
    for filler in ["", r#"{"rtime_month":0},{"x":1},"#] {
        let text = format!(
            r#"{{"playtime_stats":{{"months":[{}{{"rtime_month":{},"game_summary":[
                {{"appid":5,"relative_game_stats":{{"total_playtime_seconds":60}}}}]}}]}}}}"#,
            filler, march_2024
        );
        let found = records_of(&text);
        assert_eq!(found, vec![record("5", 60, "playtime_stats.months.2024-03")]);
        assert_eq!(
            convert_section_to_month(&found[0].section),
            "playtime_stats.months.2024-03"
        );
    }
}

#[test]
fn dated_object_itself_is_recorded_under_its_placeholder() {
    let found = records_of(
        r#"{"months":[{"rtime_month":0,"appid":9,
            "relative_game_stats":{"total_playtime_seconds":4},
            "games":{"appid":10,"relative_game_stats":{"total_playtime_seconds":5}}}]}"#,
    );
    assert_eq!(
        found,
        vec![record("9", 4, "months.month_0"), record("10", 5, "months.1970-01.games")]
    );
}

#[test]
fn timestamp_that_is_no_integer_resolves_nothing() {
    for stamp in [r#""1709251200""#, "1.5", "null", "18446744073709551615"] {
        let text = format!(
            r#"{{"months":[{{"rtime_month":{},"x":{{"appid":5,
                "relative_game_stats":{{"total_playtime_seconds":60}}}}}}]}}"#,
            stamp
        );
        assert_eq!(records_of(&text), vec![record("5", 60, "months.month_0")], "{}", stamp);
    }
}

#[test]
fn timestamp_outside_a_month_element_is_ignored() {
    let found = records_of(
        r#"{"games":{"rtime_month":1709251200,"x":{"appid":5,
            "relative_game_stats":{"total_playtime_seconds":60}}}}"#,
    );
    assert_eq!(found, vec![record("5", 60, "games")]);
}

#[test]
fn matches_nest() {
    let found = records_of(
        r#"{"appid":1,"relative_game_stats":{"total_playtime_seconds":2,
            "appid":3,"relative_game_stats":{"total_playtime_seconds":4}}}"#,
    );
    assert_eq!(found, vec![record("1", 2, "unknown"), record("3", 4, "unknown")]);
}

#[test]
fn walk_appends_behind_what_is_there() {
    let document = parse_document(
        r#"{"appid":1,"relative_game_stats":{"total_playtime_seconds":2}}"#,
    )
    .expect("valid JSON");
    let mut found = vec![record("0", 1, "before")];
    let path = SectionPath::new().extended("games");
    extract_playtime_recursive(&document, &mut found, &path);
    assert_eq!(found, vec![record("0", 1, "before"), record("1", 2, "games")]);
    assert_eq!(read_record(&document, &path), Some(record("1", 2, "games")));
    assert_eq!(read_record(&JsonValue::Null, &path), None);
}

#[test]
fn values_built_by_hand_are_walked_like_parsed_ones() {
    let document = JsonValue::Object(vec![(
        "games".to_string(),
        JsonValue::Array(vec![JsonValue::Object(vec![
            ("appid".to_string(), JsonValue::Number(JsonNumber::Unsigned(42))),
            (
                "relative_game_stats".to_string(),
                JsonValue::Object(vec![(
                    "total_playtime_seconds".to_string(),
                    JsonValue::Number(JsonNumber::Unsigned(7500)),
                )]),
            ),
        ])]),
    )]);
    assert_eq!(extract_playtime_data(&document), Ok(vec![record("42", 7500, "games")]));
}

#[test]
fn nesting_at_the_limit_is_walked() {
    let document = nested_arrays(MAX_DEPTH);
    assert!(document.within_depth(MAX_DEPTH));
    assert!(!document.within_depth(MAX_DEPTH - 1));
    assert_eq!(extract_playtime_data(&document), Ok(vec![]));
}

#[test]
fn nesting_beyond_the_limit_is_refused() {
    let document = nested_arrays(MAX_DEPTH + 1);
    let refusal = extract_playtime_data(&document).expect_err("too deep");
    assert_eq!(refusal.limit, MAX_DEPTH);
    assert_eq!(refusal.limit, 128);
}
