use deep_time::scale::{Scale, Weekday};

#[test]
fn scale_codes_roundtrip() {
    for code in 0u8..=16 {
        assert_eq!(Scale::from_u8(code).to_u8(), code);
    }
    assert_eq!(Scale::from_u8(200), Scale::Custom);
    assert!(Scale::UTC.uses_leap_seconds());
    assert!(Scale::UTCSpice.uses_leap_seconds());
    assert!(!Scale::TAI.uses_leap_seconds());
    assert!(!Scale::GPS.uses_leap_seconds());
}

#[test]
fn weekday_numbering() {
    assert_eq!(Weekday::from_monday_1_based(1), Some(Weekday::Monday));
    assert_eq!(Weekday::from_monday_1_based(7), Some(Weekday::Sunday));
    assert_eq!(Weekday::from_monday_1_based(0), None);
    assert_eq!(Weekday::from_monday_1_based(8), None);
    assert_eq!(Weekday::Sunday.wkday_mon_0_based(), 6);
    assert_eq!(Weekday::Sunday.wkday_sun_0_based(), 0);
    assert_eq!(Weekday::Monday.wkday_sun_0_based(), 1);
}
