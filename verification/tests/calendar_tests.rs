use deep_time::dt::Dt;
use deep_time::scale::Weekday;

#[test]
fn jd_of_known_dates() {
    assert_eq!(Dt::ymd_to_jd(2000, 1, 1), 2_451_545);
    assert_eq!(Dt::ymd_to_jd(1970, 1, 1), 2_440_588);
    assert_eq!(Dt::ymd_to_jd(1858, 11, 17), 2_400_001);
    assert_eq!(Dt::ymd_to_jd(-4713, 11, 24), 0);
    assert_eq!(Dt::jd_to_ymd(2_451_545), (2000, 1, 1));
    assert_eq!(Dt::jd_to_ymd(0), (-4713, 11, 24));
    assert_eq!(Dt::jd_to_ymd(2_451_604), (2000, 2, 29));
}

#[test]
fn jd_roundtrip_many_dates() {
    for yr in [-10_000i64, -4713, -1, 0, 1, 1582, 1900, 1999, 2000, 2024, 2100, 9999, 123_456] {
        for mo in 1u8..=12 {
            for day in 1u8..=Dt::days_in_month(yr, mo) {
                let jd = Dt::ymd_to_jd(yr, mo, day);
                assert_eq!(Dt::jd_to_ymd(jd), (yr, mo, day));
            }
        }
    }
    for jd in [-5_000_000i64, -1, 0, 1, 2_299_160, 2_451_545, 2_460_000, 100_000_000] {
        let (y, m, d) = Dt::jd_to_ymd(jd);
        assert!(Dt::is_valid_ymd(y, m, d));
        assert_eq!(Dt::ymd_to_jd(y, m, d), jd);
    }
}

#[test]
fn unix_seconds_and_dates() {
    assert_eq!(Dt::unix_sec_to_ymd(0), (1970, 1, 1));
    assert_eq!(Dt::unix_sec_to_ymd(-1), (1969, 12, 31));
    assert_eq!(Dt::unix_sec_to_ymd(951_782_400), (2000, 2, 29));
    assert_eq!(Dt::ymd_to_unix_sec(2000, 1, 1, 12, 0, 0), 946_728_000);
    assert_eq!(Dt::ymd_to_unix_sec(1970, 1, 1, 0, 0, 1), 1);
    let s = Dt::ymd_to_unix_sec(2024, 6, 15, 12, 30, 45);
    assert_eq!(Dt::unix_sec_to_ymd(s), (2024, 6, 15));
}

#[test]
fn leap_years_and_month_lengths() {
    assert!(Dt::is_leap_yr(2000));
    assert!(!Dt::is_leap_yr(1900));
    assert!(Dt::is_leap_yr(2024));
    assert!(!Dt::is_leap_yr(2023));
    assert!(Dt::is_leap_yr(-4));
    assert!(Dt::is_leap_yr(0));
    assert_eq!(Dt::days_in_month(2024, 2), 29);
    assert_eq!(Dt::days_in_month(2023, 2), 28);
    assert_eq!(Dt::days_in_month(2023, 4), 30);
    assert_eq!(Dt::days_in_month(2023, 13), 0);
    assert!(Dt::is_valid_ymd(2024, 2, 29));
    assert!(!Dt::is_valid_ymd(2023, 2, 29));
    assert!(!Dt::is_valid_ymd(2023, 0, 1));
    assert!(!Dt::is_valid_ymd(2023, 1, 0));
}

#[test]
fn weekdays_and_weeks() {
    assert_eq!(Dt::jd_to_wkday(2_451_545), 6);
    assert_eq!(Dt::jd_to_wkday(2_459_946), 0);
    assert!(Dt::has_iso_wk_53(2020));
    assert!(Dt::has_iso_wk_53(2015));
    assert!(!Dt::has_iso_wk_53(2021));
    assert_eq!(Dt::iso_wk_to_jd(2020, 53, Weekday::Thursday), 2_459_215);
    assert_eq!(Dt::iso_wk_to_jd(2021, 1, Weekday::Monday), 2_459_219);
    assert_eq!(Dt::wk_sun_to_jd(2023, 1, Weekday::Sunday), 2_459_946);
    assert_eq!(Dt::wk_mon_to_jd(2023, 1, Weekday::Monday), 2_459_947);
    assert_eq!(Dt::ydoy_to_jd(2000, 60), 2_451_604);
}

#[test]
fn days_since_1958() {
    assert_eq!(Dt::days_since_1958_to_gregorian(0), (1958, 1, 1));
    assert_eq!(Dt::gregorian_to_days_since_1958(1958, 1, 2), 1);
    assert_eq!(Dt::gregorian_to_days_since_1958(1957, 12, 31), -1);
    for n in [-100_000i64, -1, 0, 1, 15_340, 1_000_000] {
        let (y, m, d) = Dt::days_since_1958_to_gregorian(n);
        assert_eq!(Dt::gregorian_to_days_since_1958(y, m, d), n);
    }
}

#[test]
fn clamping_calendar_fields() {
    assert_eq!(Dt::clamp_mdhms(2023, 2, 31, 25, 61, 61), (2, 28, 23, 59, 60));
    assert_eq!(Dt::clamp_mdhms(2024, 0, 0, 0, 0, 0), (1, 1, 0, 0, 0));
    assert_eq!(Dt::clamp_u8(5, 10, 20), 10);
    assert_eq!(Dt::clamp_u64(25, 10, 20), 20);
    assert_eq!(Dt::clamp_u8(5, 10, 2), 5);
    assert_eq!(Dt::clamp_u8(20, 10, 2), 10);
    assert_eq!(Dt::clamp_u8(1, 10, 2), 2);
    assert_eq!(Dt::clamp_u64(1, 10, 2), 2);
}

#[test]
fn iso_week_dates() {
    assert_eq!(Dt::_to_iso_wk_date(2021, 1, 1), (2020, 53, Weekday::Friday));
    assert_eq!(Dt::_to_iso_wk_date(2024, 12, 30), (2025, 1, Weekday::Monday));
    assert_eq!(Dt::_to_iso_wk_date(2023, 6, 15), (2023, 24, Weekday::Thursday));
    assert_eq!(Dt::_to_iso_wk_date(2023, 1, 1), (2022, 52, Weekday::Sunday));
    assert_eq!(Dt::_day_of_yr(2024, 12, 31), 366);
    assert_eq!(Dt::_day_of_yr(2023, 3, 1), 60);
    assert_eq!(Dt::_wk_sun(2023, 1), 1);
    assert_eq!(Dt::_wk_mon(2023, 1), 0);
    assert_eq!(Dt::_wk_mon(2023, 2), 1);
}
