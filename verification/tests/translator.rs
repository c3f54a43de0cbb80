use steam_replay::decimal::{parse_usize, u64_to_decimal};
use steam_replay::section::{convert_section_to_month, get_month_name};

#[test]
fn totals_section_is_labelled_total() {
    assert_eq!(convert_section_to_month("playtime_stats.games"), "total");
}

#[test]
fn first_month_section_is_january() {
    assert_eq!(convert_section_to_month("playtime_stats.months.month_0"), "January");
}

#[test]
fn every_table_month_has_its_name() {
    let names = [
        "January", "February", "March", "April", "May", "June", "July", "August", "September",
        "October", "November", "December",
    ];
    for (index, name) in names.iter().enumerate() {
        assert_eq!(get_month_name(index), *name);
        let section = format!("playtime_stats.months.month_{}", index);
        assert_eq!(convert_section_to_month(&section), *name);
    }
}

#[test]
fn index_beyond_table_keeps_placeholder() {
    let label = convert_section_to_month("playtime_stats.months.month_99");
    assert_eq!(label, "month_99");
    assert!(label.contains("99"));
    assert_eq!(get_month_name(12), "month_12");
    assert_eq!(get_month_name(usize::MAX), format!("month_{}", usize::MAX));
}

#[test]
fn fallback_label_writes_index_without_padding() {
    assert_eq!(convert_section_to_month("playtime_stats.months.month_0099"), "month_99");
    assert_eq!(convert_section_to_month("playtime_stats.months.month_007"), "August");
}

#[test]
fn plus_sign_before_index_is_read() {
    assert_eq!(convert_section_to_month("playtime_stats.months.month_+3"), "April");
}

#[test]
fn unreadable_index_passes_section_through() {
    for section in [
        "playtime_stats.months.month_",
        "playtime_stats.months.month_+",
        "playtime_stats.months.month_-1",
        "playtime_stats.months.month_1a",
        "playtime_stats.months.month_ 1",
        "playtime_stats.months.month_99999999999999999999999999",
        "playtime_stats.months.2024-03",
    ] {
        assert_eq!(convert_section_to_month(section), section);
    }
}

#[test]
fn other_sections_pass_through() {
    for section in ["unknown", "", "playtime_stats", "playtime_stats.games.games", "total"] {
        assert_eq!(convert_section_to_month(section), section);
    }
}

#[test]
fn numerals_are_written_as_std_writes_them() {
    for n in [0u64, 1, 9, 10, 42, 99, 100, 7500, 1_000_000, u64::MAX] {
        assert_eq!(u64_to_decimal(n), n.to_string());
    }
}

#[test]
fn indices_are_read_as_std_reads_them() {
    for text in [
        "", "+", "-", "0", "+0", "-0", "7", "007", "+12", "++1", "1+", "12a", " 1", "1 ", "٣",
        "18446744073709551615", "18446744073709551616", "99999999999999999999999",
        "4294967295", "4294967296",
    ] {
        assert_eq!(parse_usize(text), text.parse::<usize>().ok(), "{:?}", text);
    }
}
