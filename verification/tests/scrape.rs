use steam_replay::json::{JsonNumber, JsonValue};
use steam_replay::scrape::{
    attribute_value, is_data_attribute, put_entry, read_data_attributes, replay_document,
    scrape_replay,
};

const ADDRESS: &str = "https://store.steampowered.com/replay/76561198069815823/2024?l=english";

fn text(value: &str) -> JsonValue {
    JsonValue::Text(value.to_string())
}

fn field<'a>(value: &'a JsonValue, key: &str) -> &'a JsonValue {
    value.get(key).expect("key is there")
}

#[test]
fn data_attributes_begin_with_data_dash() {
    assert!(is_data_attribute("data-config"));
    assert!(is_data_attribute("data-"));
    assert!(!is_data_attribute("data"));
    assert!(!is_data_attribute("id"));
    assert!(!is_data_attribute("xdata-a"));
    assert!(!is_data_attribute(""));
}

#[test]
fn attribute_value_is_json_where_it_can_be() {
    assert_eq!(attribute_value("{\"a\":1}"), JsonValue::Object(vec![(
        "a".to_string(),
        JsonValue::Number(JsonNumber::Unsigned(1)),
    )]));
    assert_eq!(attribute_value("12"), JsonValue::Number(JsonNumber::Unsigned(12)));
    assert_eq!(attribute_value("english"), text("english"));
    assert_eq!(attribute_value(""), text(""));
    assert_eq!(attribute_value("{broken"), text("{broken"));
}

#[test]
fn later_entry_takes_the_place_of_an_earlier_one() {
    let mut entries = vec![("a".to_string(), text("1")), ("b".to_string(), text("2"))];
    put_entry(&mut entries, "a".to_string(), text("3"));
    put_entry(&mut entries, "c".to_string(), text("4"));
    assert_eq!(
        entries,
        vec![
            ("a".to_string(), text("3")),
            ("b".to_string(), text("2")),
            ("c".to_string(), text("4")),
        ]
    );
}

#[test]
fn only_data_attributes_are_stored() {
    let attributes = vec![
        ("id".to_string(), "application_config".to_string()),
        ("data-x".to_string(), "[1]".to_string()),
        ("class".to_string(), "c".to_string()),
        ("data-y".to_string(), "plain".to_string()),
        ("data-x".to_string(), "2".to_string()),
    ];
    assert_eq!(
        read_data_attributes(&attributes),
        vec![
            ("data-x".to_string(), JsonValue::Number(JsonNumber::Unsigned(2))),
            ("data-y".to_string(), text("plain")),
        ]
    );
}

#[test]
fn stored_document_names_address_time_and_data() {
    let document = replay_document("u", "t", vec![("data-x".to_string(), JsonValue::Null)]);
    assert_eq!(
        document,
        JsonValue::Object(vec![
            ("url".to_string(), text("u")),
            ("timestamp".to_string(), text("t")),
            ("data".to_string(), JsonValue::Object(vec![("data-x".to_string(), JsonValue::Null)])),
        ])
    );
}

#[test]
fn page_with_config_element_is_scraped() {
    let html = r#"<!DOCTYPE html><html><head><title>Replay</title></head><body>
        <div id="other" data-skip="1"></div>
        <div id="application_config" class="cfg" data-yir='{"playtime_stats":{"games":[]}}'
             data-lang="english" data-count="3"></div>
        </body></html>"#;
    let scraped = scrape_replay(ADDRESS, "2025-01-02T03:04:05+00:00", html).expect("element");
    assert_eq!(scraped.file_name, "steam_replay_76561198069815823_2024.json");
    assert_eq!(field(&scraped.document, "url"), &text(ADDRESS));
    assert_eq!(field(&scraped.document, "timestamp"), &text("2025-01-02T03:04:05+00:00"));
    let data = field(&scraped.document, "data");
    assert_eq!(field(data, "data-lang"), &text("english"));
    assert_eq!(field(data, "data-count"), &JsonValue::Number(JsonNumber::Unsigned(3)));
    assert_eq!(
        field(field(field(data, "data-yir"), "playtime_stats"), "games"),
        &JsonValue::Array(vec![])
    );
    assert_eq!(data.get("class"), None);
    assert_eq!(data.get("id"), None);
    assert_eq!(data.get("data-skip"), None);
    match data {
        JsonValue::Object(entries) => assert_eq!(entries.len(), 3),
        _ => unreachable!(),
    }
}

#[test]
fn page_without_config_element_gives_nothing() {
    assert_eq!(scrape_replay(ADDRESS, "t", "<html><body><p>hi</p></body></html>"), None);
    assert_eq!(scrape_replay(ADDRESS, "t", ""), None);
}

#[test]
fn stored_document_holds_no_key_twice() {
    let html = r#"<div id="application_config" data-a='{"k":1,"k":2}' data-b="x"></div>"#;
    let scraped = scrape_replay(ADDRESS, "t", html).expect("element");
    assert!(scraped.document.has_unique_keys());
}
