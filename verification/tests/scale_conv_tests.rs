use deep_time::dt::scale_conv::{tai_offset, utc_offset};
use deep_time::dt::Dt;
use deep_time::scale::Scale;

const S: i128 = 1_000_000_000_000_000_000;
/// 2017-01-01 00:00:00 UTC as seconds from 2000-01-01 12:00.
const UTC_2017: i128 = (57_754 - 51_544) * 86_400 - 43_200;
/// 1972-01-01 00:00:00 UTC as seconds from 2000-01-01 12:00.
const UTC_1972: i128 = (41_317 - 51_544) * 86_400 - 43_200;

#[test]
fn utc_to_tai_uses_the_leap_second_table() {
    let utc = Dt::new(0, Scale::UTC, Scale::UTC);
    let tai = utc.to_tai();
    assert_eq!(tai.attos, 32 * S);
    assert_eq!(tai.scale, Scale::TAI);
    assert_eq!(tai.target, Scale::UTC);
    assert_eq!(utc_offset(UTC_2017 * S), 37);
    assert_eq!(utc_offset(UTC_2017 * S - 1), 36);
    assert_eq!(utc_offset(UTC_1972 * S), 10);
    assert_eq!(utc_offset(UTC_1972 * S - S), 0);
    assert_eq!(utc_offset(i128::MIN), 0);
    assert_eq!(tai_offset(UTC_1972 * S - 1), 0);
    assert_eq!(tai_offset(UTC_1972 * S), 10);
    // 1970-01-01 00:00:00 UTC and TAI coincide: no offset before 1972
    let unix = Dt::new(-946_728_000 * S, Scale::TAI, Scale::UTC).convert(Scale::UTC);
    assert_eq!(unix.attos, -946_728_000 * S);
    assert_eq!(Dt::new(UTC_1972 * S, Scale::UTC, Scale::UTC).to_tai().attos, (UTC_1972 + 10) * S);
    assert_eq!(utc_offset(i128::MAX), 37);
    assert_eq!(Dt::new(i128::MAX, Scale::UTC, Scale::TAI).to_tai().attos, i128::MAX);
}

#[test]
fn tai_to_utc_reads_the_leap_second_as_the_second_before() {
    let leap_start = (UTC_2017 + 36) * S;
    assert_eq!(tai_offset(leap_start), 37);
    assert_eq!(tai_offset(leap_start - 1), 36);
    let before = Dt::new(leap_start - S, Scale::TAI, Scale::TAI).convert(Scale::UTC);
    let during = Dt::new(leap_start, Scale::TAI, Scale::TAI).convert(Scale::UTC);
    let after = Dt::new(leap_start + S, Scale::TAI, Scale::TAI).convert(Scale::UTC);
    assert_eq!(before.attos, (UTC_2017 - 1) * S);
    assert_eq!(during.attos, (UTC_2017 - 1) * S);
    assert_eq!(after.attos, UTC_2017 * S);
    assert_eq!(after.scale, Scale::UTC);
    assert_eq!(after.to_tai().attos, leap_start + S);
}

#[test]
fn tt_round_trip_through_tai() {
    let tai = Dt::new(5 * S, Scale::TAI, Scale::TAI);
    let tt = tai.to(Scale::TT);
    assert_eq!(tt.scale, Scale::TT);
    assert_eq!(tt.attos, 5 * S + 32_184_000_000_000_000_000);
    let back = tt.to_tai();
    assert_eq!(back.scale, Scale::TAI);
    assert_eq!(back.attos, tai.attos);
    assert_eq!(tt.to(Scale::TAI).attos, tai.attos);
}

#[test]
fn navigation_scales_have_constant_offsets() {
    for s in [Scale::GPS, Scale::QZSS, Scale::GST] {
        assert_eq!(Dt::new(0, s, s).to_tai().attos, 19 * S);
        assert_eq!(Dt::new(0, Scale::TAI, s).convert(s).attos, -19 * S);
    }
    assert_eq!(Dt::new(0, Scale::BDT, Scale::BDT).to_tai().attos, 33 * S);
    assert_eq!(Dt::new(0, Scale::GPS, Scale::GPS).to(Scale::BDT).attos, -14 * S);
    assert_eq!(Dt::new(7, Scale::UT, Scale::UT).to_tai().attos, 7);
    let same = Dt::new(7, Scale::GPS, Scale::TT).to(Scale::GPS);
    assert_eq!((same.attos, same.scale, same.target), (7, Scale::GPS, Scale::TT));
    let custom = Dt::new(7, Scale::TAI, Scale::TAI).convert(Scale::Custom);
    assert_eq!(custom.scale, Scale::TAI);
    assert_eq!(Dt::new(i128::MIN, Scale::TT, Scale::TT).to_tai().attos, i128::MIN);
}

#[test]
fn julian_dates_on_the_target_scale() {
    const DAY: i128 = 86_400 * S;
    let dt = Dt::new((2_460_782 - 2_451_545) * DAY + DAY / 4, Scale::TAI, Scale::TAI);
    assert_eq!(dt.to_jd(), (2_460_782, DAY / 4));
    let dt = Dt::new(0, Scale::TAI, Scale::UTC);
    assert_eq!(dt.to_jd(), (2_451_544, DAY - 32 * S));
    assert_eq!(dt.to_jd_floor(), (2_451_544, (DAY - 32 * S) as u128));
    assert_eq!(dt.to_mjd(), (51_544, DAY / 2 - 32 * S));
    assert_eq!(dt.to_mjd_floor(), (51_544, (DAY / 2 - 32 * S) as u128));
}

#[test]
fn unix_timestamp_through_scale_and_diff() {
    let unix_epoch = Dt::new(-946_728_000 * S, Scale::TAI, Scale::UTC);
    let dt = Dt::new((UTC_2017 + 37) * S, Scale::TAI, Scale::UTC);
    let diff = dt.to_scale_and_diff(unix_epoch, true);
    assert_eq!(diff.attos, 1_483_228_800 * S);
    assert_eq!(diff.scale, Scale::UTC);
    let raw = dt.to_scale_and_diff(unix_epoch, false);
    assert_eq!(raw.attos, 1_483_228_800 * S);
    let e = dt.to_epoch(unix_epoch, Scale::TAI);
    assert_eq!(e.attos, (1_483_228_800 + 37) * S);
}

#[test]
fn spice_utc_uses_nine_seconds_before_1972() {
    let before = Dt::new(UTC_1972 * S - S, Scale::UTCSpice, Scale::UTCSpice);
    assert_eq!(before.to_tai().attos, (UTC_1972 - 1 + 9) * S);
    let after = Dt::new(UTC_2017 * S, Scale::UTCSpice, Scale::UTCSpice);
    assert_eq!(after.to_tai().attos, (UTC_2017 + 37) * S);
    let tai = Dt::new((UTC_1972 - 1 + 9) * S, Scale::TAI, Scale::TAI);
    assert_eq!(tai.convert(Scale::UTCSpice).attos, (UTC_1972 - 1) * S);
    assert_eq!(tai.convert(Scale::UTCSpice).scale, Scale::UTCSpice);
    assert_eq!(Dt::new((UTC_2017 + 37) * S, Scale::TAI, Scale::TAI).convert(Scale::UTCSpice).attos, UTC_2017 * S);
}

#[test]
fn tcg_runs_fast_by_l_g() {
    // at 1977-01-01 00:00:32.184 TT, TCG and TT agree
    let epoch_tt: i128 = -725_803_167_816_000_000_000_000_000;
    let tcg = Dt::new(epoch_tt, Scale::TCG, Scale::TCG);
    assert_eq!(tcg.to_tai().attos, -725_803_200 * S);
    // at J2000 TT, TCG - TT is about 0.5058 s
    let tai = Dt::new(-32_184_000_000_000_000_000, Scale::TAI, Scale::TAI);
    let at_j2000 = tai.convert(Scale::TCG);
    assert_eq!(at_j2000.attos, 505_833_285_668_599_512);
    assert_eq!(at_j2000.scale, Scale::TCG);
    assert_eq!(at_j2000.to_tai().attos, tai.attos);
    assert_eq!(tai.to(Scale::TCG).attos, 505_833_285_668_599_512);
}

#[test]
fn outside_corrections_for_the_other_scales() {
    let tt_off: i128 = 32_184_000_000_000_000_000;
    let p: i128 = 1_234_000_000_000_000; // a periodic TDB - TT of 1.234 ms
    let tdb = Dt::new(10 * S, Scale::TDB, Scale::TT);
    let tai = tdb.to_tai_with(Some(p));
    assert_eq!((tai.attos, tai.scale, tai.target), (10 * S - p - tt_off, Scale::TAI, Scale::TT));
    assert_eq!(tai.convert_with(Scale::TDB, Some(p)).attos, 10 * S);
    assert_eq!(Dt::new(10 * S, Scale::ET, Scale::ET).to_tai_with(None).attos, 10 * S - tt_off);
    assert_eq!(Dt::new(10 * S, Scale::TCL, Scale::TCL).to_tai_with(Some(p)).attos, 10 * S - p);
    assert_eq!(Dt::new(10 * S, Scale::LTC, Scale::LTC).to_tai_with(Some(p)).attos, 10 * S - p - tt_off);
    // TCB: the rate step first (TCB - TDB is about 11.25 s at J2000)
    let tcb = Dt::new(11_253_656_093_757_293_866, Scale::TCB, Scale::TCB);
    assert_eq!(tcb.to_tai_with(Some(0)).attos, 1_015_590 - tt_off);
    assert_eq!(Dt::new(-tt_off, Scale::TAI, Scale::TAI).convert_with(Scale::TCB, Some(0)).attos, 11_253_656_093_757_293_866);
    // SOFA's UTC: a historical offset when one is given, the table otherwise
    let sofa = Dt::new(UTC_2017 * S, Scale::UTCSofa, Scale::UTCSofa);
    assert_eq!(sofa.to_tai_with(None).attos, (UTC_2017 + 37) * S);
    assert_eq!(sofa.to_tai_with(Some(4_213_170_000_000_000_000)).attos, UTC_2017 * S + 4_213_170_000_000_000_000);
    assert_eq!(Dt::new((UTC_2017 + 37) * S, Scale::TAI, Scale::TAI).convert_with(Scale::UTCSofa, None).attos, UTC_2017 * S);
    // integer scales ignore the correction
    assert_eq!(Dt::new(0, Scale::GPS, Scale::GPS).to_tai_with(Some(p)).attos, 19 * S);
    assert_eq!(Dt::new(0, Scale::TAI, Scale::TAI).convert_with(Scale::TT, Some(p)).attos, tt_off);
}

#[test]
fn any_pair_of_scales_through_tai() {
    let p: i128 = 1_234_000_000_000_000;
    let tdb = Dt::new(10 * S, Scale::TDB, Scale::TDB);
    let tt = tdb.to_with(Scale::TT, Some(p), None);
    assert_eq!((tt.attos, tt.scale), (10 * S - p, Scale::TT));
    let back = tt.to_with(Scale::TDB, None, Some(p));
    assert_eq!((back.attos, back.scale), (10 * S, Scale::TDB));
    let same = tdb.to_with(Scale::TDB, Some(p), Some(p));
    assert_eq!(same.attos, 10 * S);
    let gps = Dt::new(0, Scale::GPS, Scale::GPS).to_with(Scale::TAI, Some(p), Some(p));
    assert_eq!((gps.attos, gps.scale), (19 * S, Scale::TAI));
}

#[test]
fn julian_dates_build_instants() {
    const DAY: i128 = 86_400 * S;
    let dt = Dt::from_jd(2_460_782, DAY / 4, Scale::TAI);
    assert_eq!(dt.to_jd(), (2_460_782, DAY / 4));
    let dt = Dt::from_jd(-1_000, -DAY / 4, Scale::TAI);
    assert_eq!(dt.to_jd(), (-1_000, -DAY / 4));
    let dt = Dt::from_jd_floor(2_460_782, (DAY / 4) as u128, Scale::TAI);
    assert_eq!(dt.to_jd_floor(), (2_460_782, (DAY / 4) as u128));
    let dt = Dt::from_jd_floor(-1_001, (3 * DAY / 4) as u128, Scale::TAI);
    assert_eq!(dt.to_jd_floor(), (-1_001, (3 * DAY / 4) as u128));
    let dt = Dt::from_mjd(60_961, DAY / 4, Scale::TAI);
    assert_eq!(dt.to_mjd(), (60_961, DAY / 4));
    let dt = Dt::from_mjd(-1_001, 3 * DAY / 4, Scale::TAI);
    assert_eq!(dt.to_mjd(), (-1_001, 3 * DAY / 4));
    let dt = Dt::from_mjd_floor(60_961, (DAY / 4) as u128, Scale::TAI);
    assert_eq!(dt.to_mjd_floor(), (60_961, (DAY / 4) as u128));
    let dt = Dt::from_mjd_floor(-1_001, (3 * DAY / 4) as u128, Scale::TAI);
    assert_eq!(dt.to_mjd_floor(), (-1_001, (3 * DAY / 4) as u128));
    // read on UTC, the leap seconds are added
    let utc = Dt::from_jd(2_451_545, 0, Scale::UTC);
    assert_eq!((utc.attos, utc.scale, utc.target), (32 * S, Scale::TAI, Scale::UTC));
    assert_eq!(utc.to_jd(), (2_451_545, 0));
}
