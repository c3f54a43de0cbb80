use steam_replay::document::parse_document;
use steam_replay::identifiers::IdentifierSet;
use steam_replay::lookups::{Action, LookupRun};
use steam_replay::names::{
    lookup_url, read_game_name, read_lookup_answer, IdToNameTable, LOOKUP_DELAY_MS,
};

#[test]
fn lookup_address_ends_in_the_identifier() {
    assert_eq!(lookup_url("730"), "https://store.steampowered.com/api/appdetails?appids=730");
    assert_eq!(lookup_url(""), "https://store.steampowered.com/api/appdetails?appids=");
}

#[test]
fn pause_between_lookups_is_fixed() {
    assert_eq!(LOOKUP_DELAY_MS, 1500);
}

#[test]
fn answer_with_success_and_name_gives_the_name() {
    let body = r#"{"730":{"success":true,"data":{"name":"Counter-Strike 2","type":"game"}}}"#;
    assert_eq!(read_lookup_answer(body, "730"), Ok(Some("Counter-Strike 2".to_string())));
    let data = parse_document(body).expect("valid JSON");
    assert_eq!(read_game_name(&data, "730"), Some("Counter-Strike 2".to_string()));
    assert_eq!(read_game_name(&data, "731"), None);
}

#[test]
fn answer_without_name_gives_none() {
    for body in [
        r#"{}"#,
        r#"[]"#,
        r#"{"730":null}"#,
        r#"{"730":{"success":false,"data":{"name":"x"}}}"#,
        r#"{"730":{"success":false}}"#,
        r#"{"730":{"success":"true","data":{"name":"x"}}}"#,
        r#"{"730":{"data":{"name":"x"}}}"#,
        r#"{"730":{"success":true}}"#,
        r#"{"730":{"success":true,"data":[]}}"#,
        r#"{"730":{"success":true,"data":{}}}"#,
        r#"{"730":{"success":true,"data":{"name":5}}}"#,
        r#"{"731":{"success":true,"data":{"name":"x"}}}"#,
    ] {
        assert_eq!(read_lookup_answer(body, "730"), Ok(None), "{}", body);
    }
}

#[test]
fn answer_that_is_no_json_is_a_failure() {
    assert!(read_lookup_answer("<html>", "730").is_err());
}

#[test]
fn table_keeps_names_in_order_of_identifiers() {
    let mut table = IdToNameTable::new();
    assert_eq!(table.len(), 0);
    assert_eq!(table.render_mapping(), "app_id,game\n");
    table.insert("730".to_string(), "Counter-Strike 2".to_string());
    table.insert("10".to_string(), "Counter-Strike".to_string());
    table.insert("9".to_string(), "Say \"Hi\", World".to_string());
    table.insert("440".to_string(), "Team Fortress 2".to_string());
    assert_eq!(table.len(), 4);
    assert_eq!(table.get("10"), Some("Counter-Strike"));
    assert_eq!(table.get("1"), None);
    assert_eq!(table.get("99"), None);
    assert_eq!(
        table.render_mapping(),
        "app_id,game\n10,Counter-Strike\n440,Team Fortress 2\n730,Counter-Strike 2\n\
         9,\"Say \"\"Hi\"\", World\"\n"
    );
}

#[test]
fn later_name_takes_the_place_of_an_earlier_one() {
    let mut table = IdToNameTable::new();
    table.insert("5".to_string(), "old".to_string());
    table.insert("6".to_string(), "six".to_string());
    table.insert("5".to_string(), "new".to_string());
    assert_eq!(table.len(), 2);
    assert_eq!(table.get("5"), Some("new"));
    assert_eq!(table.get("6"), Some("six"));
    assert_eq!(table.render_mapping(), "app_id,game\n5,new\n6,six\n");
}

#[test]
fn run_alternates_lookups_and_pauses() {
    let mut ids = IdentifierSet::new();
    ids.insert("20".to_string());
    ids.insert("10".to_string());
    ids.insert("30".to_string());
    let mut run = LookupRun::start(&ids);
    let mut steps: Vec<String> = Vec::new();
    let mut guard = 0;
    loop {
        guard += 1;
        assert!(guard < 20);
        match run.next_action() {
            Action::Lookup { app_id, url } => {
                assert_eq!(url, lookup_url(&app_id));
                steps.push(format!("lookup {}", app_id));
                let found = if app_id == "10" { None } else { Some(format!("game {}", app_id)) };
                run.looked_up(found);
            }
            Action::Pause { millis } => {
                steps.push(format!("pause {}", millis));
                run.paused();
            }
            Action::Finish { mapping } => {
                assert_eq!(mapping, "app_id,game\n20,game 20\n30,game 30\n");
                break;
            }
        }
    }
    assert_eq!(steps, vec!["lookup 20", "pause 1500", "lookup 10", "pause 1500", "lookup 30"]);
    assert_eq!(run.table().len(), 2);
}

#[test]
fn run_ignores_events_it_does_not_wait_for() {
    let mut ids = IdentifierSet::new();
    ids.insert("1".to_string());
    ids.insert("2".to_string());
    let mut run = LookupRun::start(&ids);
    run.paused();
    assert!(matches!(run.next_action(), Action::Lookup { .. }));
    run.looked_up(Some("one".to_string()));
    run.looked_up(Some("stray".to_string()));
    assert_eq!(run.next_action(), Action::Pause { millis: 1500 });
    run.paused();
    run.paused();
    run.looked_up(None);
    run.paused();
    run.looked_up(Some("late".to_string()));
    assert_eq!(run.next_action(), Action::Finish { mapping: "app_id,game\n1,one\n".to_string() });
}

#[test]
fn run_over_nothing_finishes_at_once() {
    let run = LookupRun::start(&IdentifierSet::new());
    assert_eq!(run.next_action(), Action::Finish { mapping: "app_id,game\n".to_string() });
}
