use steam_replay::calendar::format_month_from_timestamp;

#[test]
fn epoch_is_january_1970() {
    assert_eq!(format_month_from_timestamp(0), "1970-01");
}

#[test]
fn known_instants_give_their_month() {
    assert_eq!(format_month_from_timestamp(1_709_251_200), "2024-03");
    assert_eq!(format_month_from_timestamp(1_709_251_199), "2024-02");
    assert_eq!(format_month_from_timestamp(1_704_067_200), "2024-01");
    assert_eq!(format_month_from_timestamp(1_735_689_599), "2024-12");
    assert_eq!(format_month_from_timestamp(-1), "1969-12");
    assert_eq!(format_month_from_timestamp(951_782_400), "2000-02");
}

#[test]
fn instant_beyond_the_calendar_falls_back_to_the_epoch() {
    assert_eq!(format_month_from_timestamp(i64::MAX), "1970-01");
    assert_eq!(format_month_from_timestamp(i64::MIN), "1970-01");
}
