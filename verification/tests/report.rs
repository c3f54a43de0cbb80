use steam_replay::document::parse_document;
use steam_replay::emitter::EnrichedRow;
use steam_replay::json::{JsonValue, MAX_DEPTH};
use steam_replay::report::{
    collect_app_ids, collect_rows, convert_to_csv, first_refused, RefusedDocument, StoredDocument,
};

fn stored(file_name: &str, text: &str) -> StoredDocument {
    StoredDocument {
        file_name: file_name.to_string(),
        data: parse_document(text).expect("valid JSON"),
    }
}

fn too_deep(file_name: &str) -> StoredDocument {
    let mut data = JsonValue::Null;
    for _ in 0..(MAX_DEPTH + 1) {
        data = JsonValue::Array(vec![data]);
    }
    StoredDocument { file_name: file_name.to_string(), data }
}

fn documents() -> Vec<StoredDocument> {
    vec![
        stored(
            "steam_replay_7_2024.json",
            r#"{"url":"https://store.steampowered.com/replay/7/2024?l=english","data":{"yir":
                {"playtime_stats":{
                    "games":[{"appid":730,"relative_game_stats":{"total_playtime_seconds":90}},
                             {"appid":10,"relative_game_stats":{"total_playtime_seconds":0}}],
                    "months":[{"game_summary":[
                        {"appid":730,"relative_game_stats":{"total_playtime_seconds":40}}]}]}}}}"#,
        ),
        stored(
            "old_2023_data.json",
            r#"{"playtime_stats":{"games":[
                {"appid":440,"relative_game_stats":{"total_playtime_seconds":5}}]},
                "extra":{"app_id":99}}"#,
        ),
    ]
}

#[test]
fn run_over_documents_gives_the_table() {
    assert_eq!(
        convert_to_csv(&documents()),
        Ok("app_id,playtime_in_seconds,year,month\n\
            440,5,2023,total\n\
            730,90,2024,total\n\
            730,40,2024,January\n"
            .to_string())
    );
}

#[test]
fn rows_carry_the_year_of_their_document() {
    let rows = collect_rows(&documents()).expect("shallow documents");
    assert_eq!(
        rows,
        vec![
            EnrichedRow {
                app_id: "730".to_string(),
                playtime_seconds: 90,
                year: "2024".to_string(),
                section: "playtime_stats.games".to_string(),
            },
            EnrichedRow {
                app_id: "730".to_string(),
                playtime_seconds: 40,
                year: "2024".to_string(),
                section: "playtime_stats.months.month_0".to_string(),
            },
            EnrichedRow {
                app_id: "440".to_string(),
                playtime_seconds: 5,
                year: "2023".to_string(),
                section: "playtime_stats.games".to_string(),
            },
        ]
    );
}

#[test]
fn run_over_nothing_gives_the_header() {
    assert_eq!(convert_to_csv(&vec![]), Ok("app_id,playtime_in_seconds,year,month\n".to_string()));
    assert!(collect_app_ids(&vec![]).expect("nothing to refuse").is_empty());
    assert_eq!(first_refused(&vec![]), None);
}

#[test]
fn identifiers_of_all_documents_are_collected() {
    let set = collect_app_ids(&documents()).expect("shallow documents");
    let mut ids = set.to_vec();
    ids.sort();
    assert_eq!(ids, vec!["10", "440", "730", "99"]);
}

#[test]
fn first_document_that_is_too_deep_fails_the_run() {
    let mut run = documents();
    run.push(too_deep("deep_one.json"));
    run.push(stored("x_2020_y.json", "{}"));
    run.push(too_deep("deep_two.json"));
    let refusal = RefusedDocument { index: 2, limit: MAX_DEPTH };
    assert_eq!(first_refused(&run), Some(refusal));
    assert_eq!(convert_to_csv(&run), Err(refusal));
    assert_eq!(collect_rows(&run), Err(refusal));
    assert_eq!(collect_app_ids(&run).expect_err("too deep"), refusal);
}
