use steam_replay::document::parse_document;
use steam_replay::json::JsonValue;
use steam_replay::replay_url::{
    extract_steam_id, extract_year, extract_year_from_data, replay_output_filename,
    year_from_file_name,
};

const ADDRESS: &str = "https://store.steampowered.com/replay/76561198069815823/2024";

#[test]
fn account_is_the_segment_before_the_last() {
    assert_eq!(extract_steam_id(ADDRESS), Some("76561198069815823"));
    assert_eq!(extract_steam_id("a/b/c"), Some("b"));
    assert_eq!(extract_steam_id("a/"), Some("a"));
    assert_eq!(extract_steam_id("/"), Some(""));
    assert_eq!(extract_steam_id("//x"), Some(""));
    assert_eq!(extract_steam_id("é/ü"), Some("é"));
}

#[test]
fn address_without_slash_has_no_account() {
    assert_eq!(extract_steam_id(""), None);
    assert_eq!(extract_steam_id("2024"), None);
}

#[test]
fn account_agrees_with_splitting() {
    for url in ["", "/", "a", "a/b", "a//b", "/a/b/", "x/y/z?q=1/2", ADDRESS] {
        assert_eq!(extract_steam_id(url), url.split('/').nth_back(1), "{:?}", url);
    }
}

#[test]
fn year_is_the_last_segment_without_query() {
    assert_eq!(extract_year(ADDRESS), Some("2024"));
    assert_eq!(
        extract_year("https://store.steampowered.com/replay/76561198069815823/2024?l=english"),
        Some("2024")
    );
    assert_eq!(extract_year("2023?x?y"), Some("2023"));
    assert_eq!(extract_year("a/b/"), Some(""));
    assert_eq!(extract_year(""), Some(""));
    assert_eq!(extract_year("a/?b"), Some(""));
    assert_eq!(extract_year("a?b/c"), Some("c"));
}

#[test]
fn year_of_document_prefers_its_address() {
    let data = parse_document(
        r#"{"url":"https://store.steampowered.com/replay/7/2022?l=english","data":{}}"#,
    )
    .expect("valid JSON");
    assert_eq!(extract_year_from_data(&data, "steam_replay_7_2024_x.json"), "2022");
}

#[test]
fn year_of_document_falls_back_to_file_name() {
    for text in ["{}", r#"{"url":5}"#, r#"[{"url":"a/2022"}]"#, "null"] {
        let data = parse_document(text).expect("valid JSON");
        assert_eq!(extract_year_from_data(&data, "replay_2021_full.json"), "2021", "{}", text);
    }
}

#[test]
fn year_of_document_is_unknown_without_either() {
    let data = JsonValue::Null;
    for name in ["steam_replay_7_2024.json", "", "_", "20245_1", "abcd_12a4", "２０２４_x"] {
        assert_eq!(extract_year_from_data(&data, name), "unknown", "{:?}", name);
    }
}

#[test]
fn first_year_part_of_file_name_is_taken() {
    assert_eq!(year_from_file_name("2020"), Some("2020"));
    assert_eq!(year_from_file_name("a_2020_2021"), Some("2020"));
    assert_eq!(year_from_file_name("__0000_"), Some("0000"));
    assert_eq!(year_from_file_name("x_123_12345_1999"), Some("1999"));
    assert_eq!(year_from_file_name("steam_replay_1_2024.json"), None);
    assert_eq!(year_from_file_name(""), None);
}

#[test]
fn stored_file_is_named_by_account_and_year() {
    assert_eq!(replay_output_filename(ADDRESS), "steam_replay_76561198069815823_2024.json");
    assert_eq!(
        replay_output_filename("https://h/replay/99/2023?l=english"),
        "steam_replay_99_2023.json"
    );
    assert_eq!(replay_output_filename("2024"), "steam_replay_unknown_2024.json");
    assert_eq!(replay_output_filename(""), "steam_replay_unknown_.json");
}

#[test]
fn year_agrees_with_splitting() {
    for url in ["", "/", "a", "a/b", "a//b", "/a/b/", "x/y/z?q=1/2", "?", "a?b?c", "a/b?", ADDRESS] {
        let expected = url.split('/').nth_back(0).and_then(|part| part.split('?').next());
        assert_eq!(extract_year(url), expected, "{:?}", url);
    }
}

#[test]
fn year_in_file_name_agrees_with_splitting() {
    for name in ["", "2020", "a_2020", "2020_a", "a_20x0_2021_2022", "__", "12345_123_1234", "x_١٢٣٤_y"] {
        let expected = name
            .split('_')
            .find(|part| part.len() == 4 && part.chars().all(|c| c.is_ascii_digit()));
        assert_eq!(year_from_file_name(name), expected, "{:?}", name);
    }
}
