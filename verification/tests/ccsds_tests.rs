use deep_time::dt::Dt;
use deep_time::error::DtErrKind;
use deep_time::scale::Scale;

#[test]
fn cds_at_its_epoch() {
    let (buf, len) = Dt::ccsds_cds_from_utc_fields(1958, 1, 1, 0, 0, 0, 0, 2, 0, false).unwrap();
    assert_eq!(&buf[..len], &[0x40, 0, 0, 0, 0, 0, 0]);
    assert!(buf[len..].iter().all(|&b| b == 0));
}

#[test]
fn cds_segments_truncate() {
    let attos = 1_002_003_000_000_000u64; // 1 ms, 2 us, 3 ns
    let (buf, len) = Dt::ccsds_cds_from_utc_fields(2000, 1, 1, 12, 0, 0, attos, 2, 0, false).unwrap();
    assert_eq!(&buf[..len], &[0x40, 0x3B, 0xEC, 0x02, 0x93, 0x2E, 0x01]);
    let (buf, len) = Dt::ccsds_cds_from_utc_fields(2000, 1, 1, 12, 0, 0, attos, 3, 1, true).unwrap();
    assert_eq!(&buf[..len], &[0xC5, 0x00, 0x00, 0x3B, 0xEC, 0x02, 0x93, 0x2E, 0x01, 0x00, 0x02]);
    let (buf, len) = Dt::ccsds_cds_from_utc_fields(2000, 1, 1, 12, 0, 0, attos, 2, 2, false).unwrap();
    assert_eq!(&buf[..len], &[0x42, 0x3B, 0xEC, 0x02, 0x93, 0x2E, 0x01, 0x00, 0x1E, 0x90, 0x38]);
    // a leap second reads as the 86 400th second of the day
    let (buf, len) = Dt::ccsds_cds_from_utc_fields(2016, 12, 31, 23, 59, 60, 0, 2, 0, false).unwrap();
    assert_eq!(len, 7);
    assert_eq!(&buf[3..7], &86_400_000u32.to_be_bytes());
}

#[test]
fn cds_errors() {
    let e = |r: Result<([u8; 32], usize), deep_time::error::DtErr>| r.unwrap_err().kind();
    assert_eq!(e(Dt::ccsds_cds_from_utc_fields(2000, 1, 1, 0, 0, 0, 0, 4, 0, false)), DtErrKind::InvalidNumber);
    assert_eq!(e(Dt::ccsds_cds_from_utc_fields(2000, 1, 1, 0, 0, 0, 0, 2, 3, false)), DtErrKind::InvalidSubmillisecond);
    assert_eq!(e(Dt::ccsds_cds_from_utc_fields(1957, 12, 31, 0, 0, 0, 0, 2, 0, false)), DtErrKind::YearOutOfRange);
    assert_eq!(e(Dt::ccsds_cds_from_utc_fields(2200, 1, 1, 0, 0, 0, 0, 2, 0, false)), DtErrKind::OutOfRange);
    assert!(Dt::ccsds_cds_from_utc_fields(2200, 1, 1, 0, 0, 0, 0, 3, 0, false).is_ok());
}

#[test]
fn ccs_month_day_and_day_of_year() {
    let attos = 123_456_789_000_000_000u64;
    let (buf, len) = Dt::ccsds_ccs_from_utc_fields(2024, 6, 15, 12, 30, 45, attos, false, 3).unwrap();
    assert_eq!(&buf[..len], &[0x53, 0x20, 0x24, 0x06, 0x15, 0x12, 0x30, 0x45, 0x12, 0x34, 0x56]);
    let (buf, len) = Dt::ccsds_ccs_from_utc_fields(2024, 6, 15, 12, 30, 45, attos, true, 3).unwrap();
    assert_eq!(&buf[..len], &[0x5B, 0x20, 0x24, 0x01, 0x67, 0x12, 0x30, 0x45, 0x12, 0x34, 0x56]);
    let (buf, len) = Dt::ccsds_ccs_from_utc_fields(2016, 12, 31, 23, 59, 60, 0, false, 0).unwrap();
    assert_eq!(&buf[..len], &[0x50, 0x20, 0x16, 0x12, 0x31, 0x23, 0x59, 0x60]);
    assert!(buf[len..].iter().all(|&b| b == 0));
    let (buf, len) = Dt::ccsds_ccs_from_utc_fields(1, 1, 1, 0, 0, 0, 999_999_999_999_999_999, false, 6).unwrap();
    assert_eq!(len, 14);
    assert_eq!(&buf[8..14], &[0x99; 6]);
}

#[test]
fn ccs_errors() {
    let e = |r: Result<([u8; 14], usize), deep_time::error::DtErr>| r.unwrap_err().kind();
    assert_eq!(e(Dt::ccsds_ccs_from_utc_fields(2024, 1, 1, 0, 0, 0, 0, false, 7)), DtErrKind::FracOutOfRange);
    assert_eq!(e(Dt::ccsds_ccs_from_utc_fields(0, 1, 1, 0, 0, 0, 0, false, 0)), DtErrKind::YearOutOfRange);
    assert_eq!(e(Dt::ccsds_ccs_from_utc_fields(10_000, 1, 1, 0, 0, 0, 0, false, 0)), DtErrKind::YearOutOfRange);
}

#[test]
fn cuc_of_the_ccsds_epoch() {
    let (buf, len) = Dt::ccsds_epoch().to_ccsds_cuc(1, 0, true).unwrap();
    assert_eq!(&buf[..len], &[0x90, 0x00, 0x00]);
    let before = Dt::ccsds_epoch().add_attos(-1);
    assert_eq!(before.to_ccsds_cuc(4, 0, false).unwrap_err().kind(), DtErrKind::YearOutOfRange);
    // a GPS count is taken to TAI first: GPS 0 is TAI +19 s
    let gps = Dt::new(-1_325_419_200_000_000_000_000_000_000 + 5_000_000_000_000_000_000, Scale::GPS, Scale::GPS);
    let (buf, len) = gps.to_ccsds_cuc(1, 0, false).unwrap();
    assert_eq!(&buf[..len], &[0x10, 24]);
}

#[test]
fn cds_and_ccs_of_an_instant_read_utc_fields() {
    let attos = 1_002_003_000_000_000u64;
    let dt = Dt::from_ymd(2000, 1, 1, Scale::UTC, 12, 0, 0, attos);
    let (buf, len) = dt.to_ccsds_cds(2, 0, false).unwrap();
    assert_eq!(&buf[..len], &[0x40, 0x3B, 0xEC, 0x02, 0x93, 0x2E, 0x01]);
    let (buf, len) = dt.to_ccsds_bin().unwrap();
    assert_eq!(&buf[..len], &[0x41, 0x3B, 0xEC, 0x02, 0x93, 0x2E, 0x01, 0x00, 0x02]);
    let leap = Dt::from_ymd(2016, 12, 31, Scale::UTC, 23, 59, 60, 0);
    let (buf, len) = leap.to_ccsds_ccs(false, 0).unwrap();
    assert_eq!(&buf[..len], &[0x50, 0x20, 0x16, 0x12, 0x31, 0x23, 0x59, 0x60]);
    let (buf, len) = leap.to_ccsds_cds(2, 0, false).unwrap();
    assert_eq!(len, 7);
    assert_eq!(&buf[3..7], &86_400_000u32.to_be_bytes());
    let tai = Dt::new(0, Scale::TAI, Scale::TAI);
    let (_, len) = tai.to_ccsds_bin().unwrap();
    assert_eq!(len, 10);
}
