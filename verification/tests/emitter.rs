use steam_replay::emitter::{escape_field, render, render_line, render_rows, sort_rows, EnrichedRow};
use steam_replay::lexical::{text_rank, Rank};

fn row(app_id: &str, playtime_seconds: u64, year: &str, section: &str) -> EnrichedRow {
    EnrichedRow {
        app_id: app_id.to_string(),
        playtime_seconds,
        year: year.to_string(),
        section: section.to_string(),
    }
}

fn std_sorted(mut rows: Vec<EnrichedRow>) -> Vec<EnrichedRow> {
    rows.sort_by(|a, b| a.year.cmp(&b.year).then(a.app_id.cmp(&b.app_id)).then(a.section.cmp(&b.section)));
    rows
}

fn sample() -> Vec<EnrichedRow> {
    vec![
        row("730", 50, "2024", "playtime_stats.months.month_1"),
        row("10", 7, "2024", "playtime_stats.games"),
        row("730", 60, "2023", "playtime_stats.months.month_10"),
        row("9", 1, "2024", "unknown"),
        row("730", 40, "2024", "playtime_stats.months.month_0"),
        row("730", 90, "2024", "playtime_stats.games"),
        row("730", 61, "2023", "playtime_stats.months.month_10"),
        row("é", 2, "2024", "unknown"),
        row("", 3, "", ""),
    ]
}

#[test]
fn header_is_exact() {
    assert_eq!(render(&vec![]), "app_id,playtime_in_seconds,year,month\n");
}

#[test]
fn rows_are_rendered_in_key_order_with_labels() {
    let text = render(&sample());
    assert_eq!(
        text,
        "app_id,playtime_in_seconds,year,month\n\
         ,3,,\n\
         730,60,2023,November\n\
         730,61,2023,November\n\
         10,7,2024,total\n\
         730,90,2024,total\n\
         730,40,2024,January\n\
         730,50,2024,February\n\
         9,1,2024,unknown\n\
         é,2,2024,unknown\n"
    );
}

#[test]
fn sort_agrees_with_a_stable_sort_by_key() {
    assert_eq!(sort_rows(&sample()), std_sorted(sample()));
    let mut reversed = sample();
    reversed.reverse();
    assert_eq!(sort_rows(&reversed), std_sorted(reversed));
}

#[test]
fn rows_equal_in_key_keep_their_order() {
    let rows = vec![row("1", 2, "2024", "s"), row("0", 9, "2024", "s"), row("1", 1, "2024", "s")];
    assert_eq!(
        sort_rows(&rows),
        vec![row("0", 9, "2024", "s"), row("1", 2, "2024", "s"), row("1", 1, "2024", "s")]
    );
}

#[test]
fn rendering_sorted_rows_again_changes_nothing() {
    let sorted = sort_rows(&sample());
    assert_eq!(sort_rows(&sorted), sorted);
    assert_eq!(render(&sorted), render(&sample()));
    assert_eq!(render(&sorted), render_rows(&sorted));
}

#[test]
fn no_row_is_dropped() {
    let rows = sample();
    let text = render(&rows);
    assert_eq!(text.lines().count(), rows.len() + 1);
    assert_eq!(sort_rows(&rows).len(), rows.len());
}

#[test]
fn order_is_fixed_on_sections_as_found() {
    let rows = vec![
        row("1", 1, "2024", "playtime_stats.months.month_1"),
        row("1", 2, "2024", "playtime_stats.months.month_0"),
        row("1", 3, "2024", "playtime_stats.months.month_10"),
    ];
    assert_eq!(
        render(&rows),
        "app_id,playtime_in_seconds,year,month\n1,2,2024,January\n1,1,2024,February\n1,3,2024,November\n"
    );
}

#[test]
fn fields_with_comma_or_quote_are_quoted() {
    assert_eq!(escape_field("plain"), "plain");
    assert_eq!(escape_field(""), "");
    assert_eq!(escape_field("a,b"), "\"a,b\"");
    assert_eq!(escape_field("say \"hi\""), "\"say \"\"hi\"\"\"");
    assert_eq!(escape_field("\""), "\"\"\"\"");
    assert_eq!(escape_field(","), "\",\"");
    assert_eq!(escape_field("né,\"ö\""), "\"né,\"\"ö\"\"\"");
    assert_eq!(escape_field("line\nbreak"), "line\nbreak");
}

#[test]
fn every_text_field_of_a_line_is_escaped() {
    let line = render_line(&row("a,b", 5, "20\"24", "x,y"));
    assert_eq!(line, "\"a,b\",5,\"20\"\"24\",\"x,y\"\n");
}

#[test]
fn texts_rank_as_strings_do() {
    let texts = ["", "a", "ab", "b", "B", "10", "9", "é", "e", "z", "2024", "2023", "ab\u{10FFFF}"];
    for a in texts {
        for b in texts {
            let expected = match a.cmp(b) {
                std::cmp::Ordering::Less => Rank::Before,
                std::cmp::Ordering::Equal => Rank::Same,
                std::cmp::Ordering::Greater => Rank::After,
            };
            assert_eq!(text_rank(a, b), expected, "{:?} {:?}", a, b);
        }
    }
}

#[test]
fn escaping_agrees_with_quoting_by_replacement() {
    for field in ["", "a", "a,b", "\"", "a\"b\"c", ",,", "x\",\"y", "é,ü", "tab\there"] {
        let expected = if field.contains(',') || field.contains('"') {
            format!("\"{}\"", field.replace('"', "\"\""))
        } else {
            field.to_string()
        };
        assert_eq!(escape_field(field), expected, "{:?}", field);
    }
}
