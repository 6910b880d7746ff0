use deep_time::dt::Dt;
use deep_time::scale::Scale;

const S: i128 = 1_000_000_000_000_000_000;

#[test]
fn unix_seconds_of_2000_noon() {
    let dt = Dt::from_ymd(2000, 1, 1, Scale::UTC, 12, 0, 0, 0);
    let unix = dt.to_unix();
    assert_eq!(unix.to_sec(), 946_728_000);
    let dt2 = Dt::from_unix(unix);
    assert_eq!(dt.to_attos(), dt2.to_attos());
    let y = dt2.to_ymd();
    assert_eq!((y.yr(), y.mo(), y.day(), y.hr(), y.min(), y.sec(), y.attos()), (2000, 1, 1, 12, 0, 0, 0));
}

#[test]
fn posix_seconds_read_as_utc() {
    let unix_dt = Dt::from_sec(1_344_439_800, Scale::UTC, Scale::UTC);
    let dt = Dt::from_unix(unix_dt);
    let y = dt.to_ymd();
    assert_eq!((y.yr(), y.mo(), y.day(), y.hr(), y.min(), y.sec(), y.attos()), (2012, 8, 8, 15, 30, 0, 0));
    assert_eq!(Dt::from_unix_ms(1_344_439_800_000), dt);
    assert_eq!(Dt::from_unix_ns(1_344_439_800_000_000_000), dt);
    let (days, frac) = dt.to_unix_days();
    assert_eq!(days, 15_560);
    assert_eq!(frac.attos, (15 * 3600 + 30 * 60) * S);
    assert_eq!(Dt::from_unix_days(days, frac), dt);
}

#[test]
fn gps_weeks_and_epochs() {
    let epoch = Dt::from_ymd(1980, 1, 6, Scale::UTC, 0, 0, 0, 0);
    assert_eq!(epoch.attos, -630_763_181 * S);
    let gps = Dt::new(epoch.attos, Scale::TAI, Scale::GPS);
    assert_eq!(gps.to_gps().attos, 0);
    let later = gps.add_sec(2 * 604_800 + 3 * 86_400 + 5);
    let (wk, tow) = later.to_gps_wk_and_tow();
    assert_eq!(wk, 2);
    assert_eq!(tow.attos, (3 * 86_400 + 5) * S);
    assert_eq!(tow.scale, Scale::GPS);
    assert_eq!(later.to_gps_day_of_wk(), 3);
    assert_eq!(Dt::from_gps_wk_and_tow(wk, tow), Dt::new(later.attos, Scale::TAI, Scale::GPS));
    let before = gps.add_sec(-1);
    assert_eq!(before.to_gps_wk_and_tow().0, -1);
    assert_eq!(before.to_gps_day_of_wk(), 6);
    assert_eq!(gps.to_galexsec().attos, 0);
    assert_eq!(Dt::from_galexsec(Dt::new(0, Scale::GPS, Scale::GPS)).attos, epoch.attos);
}

#[test]
fn ntp_and_cxc_counts() {
    let ntp = Dt::new(0, Scale::TAI, Scale::TAI).to_ntp();
    assert_eq!(ntp.attos, 3_155_716_800 * S);
    assert_eq!(Dt::from_ntp(ntp).attos, 0);
    let cxc = Dt::cxc_epoch();
    assert_eq!(cxc.to_cxcsec().attos, 0);
    assert_eq!(Dt::from_cxcsec(Dt::new(0, Scale::TT, Scale::TT)).attos, cxc.attos);
}
