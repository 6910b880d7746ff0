use deep_time::dt::Dt;
use deep_time::scale::Scale;

const S: i128 = 1_000_000_000_000_000_000;

fn fields(d: &Dt) -> (i64, u8, u8, u8, u8, u8, u64) {
    let y = d.to_ymd();
    (y.yr(), y.mo(), y.day(), y.hr(), y.min(), y.sec(), y.attos())
}

#[test]
fn from_ymd_returns_tai_and_reads_back() {
    let dt = Dt::from_ymd(2024, 6, 15, Scale::UTC, 12, 30, 45, 0);
    assert_eq!(dt.scale, Scale::TAI);
    assert_eq!(dt.target, Scale::UTC);
    assert_eq!(fields(&dt), (2024, 6, 15, 12, 30, 45, 0));
    let ymd = dt.to_ymd();
    assert_eq!(ymd.scale, Scale::UTC);
    assert_eq!(ymd.old_scale, Scale::TAI);
}

#[test]
fn utc_noon_2000_is_32_seconds_into_tai() {
    let tai = Dt::from_ymd(2000, 1, 1, Scale::UTC, 12, 0, 0, 0);
    assert_eq!(tai.attos, 32 * S);
    let tt = tai.to(Scale::TT);
    assert_eq!(tt.scale, Scale::TT);
    let back = tt.to_tai();
    assert_eq!(back, tai);
    assert_eq!(Dt::from_ymd(2000, 1, 1, Scale::TAI, 12, 0, 0, 0).attos, 0);
}

#[test]
fn leap_second_reads_as_sixty() {
    let leap = Dt::from_ymd(2016, 12, 31, Scale::UTC, 23, 59, 60, 250);
    assert_eq!(fields(&leap), (2016, 12, 31, 23, 59, 60, 250));
    let before = Dt::from_ymd(2016, 12, 31, Scale::UTC, 23, 59, 59, 0);
    let after = Dt::from_ymd(2017, 1, 1, Scale::UTC, 0, 0, 0, 0);
    assert_eq!(leap.attos - before.attos, S + 250);
    assert_eq!(after.attos - before.attos, 2 * S);
    // no leap second at the end of this day: 60 reads as 59
    let no_leap = Dt::from_ymd(2015, 3, 1, Scale::UTC, 23, 59, 60, 0);
    assert_eq!(no_leap, Dt::from_ymd(2015, 3, 1, Scale::UTC, 23, 59, 59, 0));
    // on TAI the same instant has no second 60
    assert_eq!(fields(&leap.target(Scale::TAI)), (2017, 1, 1, 0, 0, 36, 250));
}

#[test]
fn fields_are_clamped() {
    assert_eq!(
        Dt::from_ymd(2023, 2, 31, Scale::TAI, 25, 61, 61, u64::MAX),
        Dt::from_ymd(2023, 2, 28, Scale::TAI, 23, 59, 59, 999_999_999_999_999_999)
    );
    assert_eq!(Dt::from_ymd(2023, 0, 0, Scale::TAI, 0, 0, 0, 0), Dt::from_ymd(2023, 1, 1, Scale::TAI, 0, 0, 0, 0));
}

#[test]
fn instants_before_1970_floor_to_their_second() {
    let dt = Dt::new(-946_728_000 * S - S / 2, Scale::TAI, Scale::TAI);
    assert_eq!(fields(&dt), (1969, 12, 31, 23, 59, 59, (S / 2) as u64));
}

#[test]
fn diff_and_scale_inverts_scale_and_diff() {
    let unix = Dt::unix_epoch();
    let diff = Dt::new(1_718_409_600 * S, Scale::TAI, Scale::TAI);
    let dt = Dt::from_diff_and_scale(diff, unix, true);
    assert_eq!(fields(&dt.target(Scale::TAI)), (2024, 6, 15, 0, 0, 0, 0));
    let utc_diff = Dt::new(1_718_409_600 * S, Scale::UTC, Scale::UTC);
    let dt = Dt::from_diff_and_scale(utc_diff, unix, true);
    assert_eq!(dt.attos, (1_718_409_600 - 946_728_000 + 37) * S);
    assert_eq!(fields(&dt), (2024, 6, 15, 0, 0, 0, 0));
    assert_eq!(dt.to_scale_and_diff(unix, true).attos, 1_718_409_600 * S);
}

#[test]
fn calendar_arithmetic_clamps_to_month_end() {
    let jan31 = Dt::from_ymd(2024, 1, 31, Scale::UTC, 10, 20, 30, 7);
    assert_eq!(fields(&jan31.add_months(1)), (2024, 2, 29, 10, 20, 30, 7));
    assert_eq!(fields(&jan31.add_months(13)), (2025, 2, 28, 10, 20, 30, 7));
    assert_eq!(fields(&jan31.add_months(-2)), (2023, 11, 30, 10, 20, 30, 7));
    let feb29 = Dt::from_ymd(2024, 2, 29, Scale::UTC, 0, 0, 0, 0);
    assert_eq!(fields(&feb29.add_years(1)), (2025, 2, 28, 0, 0, 0, 0));
    assert_eq!(fields(&feb29.add_years(4)), (2028, 2, 29, 0, 0, 0, 0));
    assert_eq!(fields(&feb29.add_years(-100)), (1924, 2, 29, 0, 0, 0, 0));
    assert_eq!(fields(&feb29.add_days(1)), (2024, 3, 1, 0, 0, 0, 0));
    assert_eq!(fields(&feb29.add_days(-60)), (2023, 12, 31, 0, 0, 0, 0));
    assert_eq!(fields(&feb29.add_weeks(2)), (2024, 3, 14, 0, 0, 0, 0));
    // across the leap second at the end of 2016 a UTC day is 86 401 s long
    let d = Dt::from_ymd(2016, 12, 31, Scale::UTC, 12, 0, 0, 0);
    assert_eq!(d.add_days(1).attos - d.attos, 86_401 * S);
}

#[test]
fn ymd_fields_value_moves_by_itself() {
    let y = Dt::from_ymd(2023, 12, 31, Scale::TAI, 1, 2, 3, 4).to_ymd();
    let m = y.add_months(2);
    assert_eq!((m.yr(), m.mo(), m.day(), m.hr()), (2024, 2, 29, 1));
    assert_eq!(y.add_years(1).yr(), 2024);
    assert_eq!(y.add_days(1).day(), 1);
    assert_eq!(y.add_weeks(-1).day(), 24);
    assert_eq!(y.to_dt(), Dt::from_ymd(2023, 12, 31, Scale::TAI, 1, 2, 3, 4));
}

#[test]
fn calendar_fields_on_corrected_scales() {
    // 2000-01-01 12:00:00 TAI read on TDB with a TDB - TT correction of 1 ms
    let tai = Dt::new(0, Scale::TAI, Scale::TDB);
    let p: i128 = 1_000_000_000_000_000;
    let y = tai.to_ymd_with(None, Some(p), Some(0));
    // the Unix epoch on TDB (correction 0) is 32.184 s after its TAI count
    assert_eq!((y.yr(), y.mo(), y.day(), y.hr(), y.min(), y.sec(), y.attos()), (2000, 1, 1, 12, 0, 0, p as u64));
    assert_eq!(y.scale, Scale::TDB);
    // on scales that need none, the corrections are ignored
    let dt = Dt::from_ymd(2016, 12, 31, Scale::UTC, 23, 59, 60, 5);
    let a = dt.to_ymd_with(Some(7), Some(7), Some(7));
    assert_eq!((a.yr(), a.mo(), a.day(), a.hr(), a.min(), a.sec(), a.attos()), (2016, 12, 31, 23, 59, 60, 5));
}
