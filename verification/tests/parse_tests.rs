use deep_time::dt::Dt;
use deep_time::error::DtErrKind;
use deep_time::scale::Scale;

const S: i128 = 1_000_000_000_000_000_000;

fn kind<T: core::fmt::Debug>(r: Result<T, deep_time::error::DtErr>) -> DtErrKind {
    r.unwrap_err().kind()
}

#[test]
fn media_durations() {
    assert_eq!(Dt::from_str_media_duration("1:23:45").unwrap().attos, 5025 * S);
    assert_eq!(Dt::from_str_media_duration("0:45").unwrap().attos, 45 * S);
    assert_eq!(Dt::from_str_media_duration("  9:41  ").unwrap().attos, 581 * S);
    assert_eq!(Dt::from_str_media_duration("-1:23:45").unwrap().attos, -5025 * S);
    assert_eq!(Dt::from_str_media_duration("1:07:54:30").unwrap().attos, 114_870 * S);
    assert_eq!(Dt::from_str_media_duration("0:45").unwrap().scale, Scale::TAI);
    assert_eq!(kind(Dt::from_str_media_duration("")), DtErrKind::Empty);
    assert_eq!(kind(Dt::from_str_media_duration("   ")), DtErrKind::Empty);
    assert_eq!(kind(Dt::from_str_media_duration("-")), DtErrKind::InvalidInput);
    assert_eq!(kind(Dt::from_str_media_duration("45")), DtErrKind::InvalidSyntax);
    assert_eq!(kind(Dt::from_str_media_duration("1:")), DtErrKind::ExpectedValue);
    assert_eq!(kind(Dt::from_str_media_duration("x1:00")), DtErrKind::ExpectedValue);
    assert_eq!(kind(Dt::from_str_media_duration("1:2:3:4:5")), DtErrKind::InvalidSyntax);
    assert_eq!(kind(Dt::from_str_media_duration("1:2:3:4:")), DtErrKind::InvalidSyntax);
    assert_eq!(kind(Dt::from_str_media_duration("1::30")), DtErrKind::ExpectedValue);
    assert_eq!(kind(Dt::from_str_media_duration("a:30")), DtErrKind::ExpectedValue);
    assert_eq!(kind(Dt::from_str_media_duration("1:2x")), DtErrKind::TrailingCharacters);
}

#[test]
fn h_mm_durations() {
    assert_eq!(Dt::from_str_h_mm_duration("1:30").unwrap().attos, 5400 * S);
    assert_eq!(Dt::from_str_h_mm_duration("2:05:07.25").unwrap().attos, 7507 * S + S / 4);
    assert_eq!(Dt::from_str_h_mm_duration(" -0:01 ").unwrap().attos, -60 * S);
    assert_eq!(Dt::from_str_h_mm_duration("100:00").unwrap().attos, 360_000 * S);
    assert_eq!(Dt::from_str_h_mm_duration("0:00:00.0000000000000000019").unwrap().attos, 1);
    assert_eq!(kind(Dt::from_str_h_mm_duration("1:60")), DtErrKind::InvalidInput);
    assert_eq!(kind(Dt::from_str_h_mm_duration("1:00:60")), DtErrKind::InvalidInput);
    assert_eq!(kind(Dt::from_str_h_mm_duration("1")), DtErrKind::InvalidSyntax);
    assert_eq!(kind(Dt::from_str_h_mm_duration("1:30.5")), DtErrKind::InvalidSyntax);
    assert_eq!(kind(Dt::from_str_h_mm_duration("1:30:00.")), DtErrKind::ExpectedValue);
    assert_eq!(kind(Dt::from_str_h_mm_duration("")), DtErrKind::Empty);
    assert_eq!(kind(Dt::from_str_h_mm_duration("-")), DtErrKind::InvalidInput);
    assert_eq!(kind(Dt::from_str_h_mm_duration("1:30 x")), DtErrKind::TrailingCharacters);
}

#[test]
fn iso_durations() {
    assert_eq!(Dt::from_iso_duration("P1Y2M3DT4H5M6.5S").unwrap().attos, 37_091_106 * S + S / 2);
    assert_eq!(Dt::from_iso_duration("-PT30M").unwrap().attos, -1800 * S);
    assert_eq!(Dt::from_iso_duration("P7W").unwrap().attos, 4_233_600 * S);
    assert_eq!(Dt::from_iso_duration("+P1DT12H").unwrap().attos, 129_600 * S);
    assert_eq!(Dt::from_iso_duration("pt0.000000001s").unwrap().attos, 1_000_000_000);
    assert_eq!(Dt::from_iso_duration("-PT1.5S").unwrap().attos, -3 * S / 2);
    assert_eq!(Dt::from_iso_duration("P").unwrap().attos, 0);
    assert_eq!(kind(Dt::from_iso_duration("")), DtErrKind::Empty);
    assert_eq!(kind(Dt::from_iso_duration("1D")), DtErrKind::MustStartWith);
    assert_eq!(kind(Dt::from_iso_duration("P1DT")), DtErrKind::InvalidSyntax);
    assert_eq!(kind(Dt::from_iso_duration("PT1HT2M")), DtErrKind::InvalidSyntax);
    assert_eq!(kind(Dt::from_iso_duration("PT1H2")), DtErrKind::ExpectedUnit);
    assert_eq!(kind(Dt::from_iso_duration("PT1.5H")), DtErrKind::InvalidItem);
    assert_eq!(kind(Dt::from_iso_duration("PT1.5S2M")), DtErrKind::TrailingCharacters);
    assert_eq!(kind(Dt::from_iso_duration("P1X")), DtErrKind::UnknownItem);
    assert_eq!(kind(Dt::from_iso_duration("P1H")), DtErrKind::UnknownItem);
    assert_eq!(kind(Dt::from_iso_duration("PT1.1234567891S")), DtErrKind::FracOutOfRange);
    assert_eq!(kind(Dt::from_iso_duration("PT1.S")), DtErrKind::ExpectedFractional);
    assert_eq!(kind(Dt::from_iso_duration("PTS")), DtErrKind::ExpectedValue);
    assert_eq!(kind(Dt::from_iso_duration("P99999999999999999999D")), DtErrKind::InvalidNumber);
    assert_eq!(kind(Dt::from_iso_duration("P9223372036854775807Y")), DtErrKind::OutOfRange);
}

#[test]
fn dt_iso_duration_text() {
    const S: i128 = 1_000_000_000_000_000_000;
    let d = |a: i128| Dt::new(a, Scale::TAI, Scale::TAI);
    assert_eq!(d(3600 * S + 23 * 60 * S + 45 * S + 678_900_000_000_000_000).to_iso_duration(), "PT1H23M45.6789S");
    assert_eq!(d(-S / 2).to_iso_duration(), "-PT0.5S");
    assert_eq!(d(1).to_iso_duration(), "PT0.000000000000000001S");
    assert_eq!(d(0).to_iso_duration(), "PT0S");
    assert_eq!(d(2 * 3600 * S).to_iso_duration(), "PT2H");
    assert_eq!(d(i128::MIN).to_iso_duration(), "-PT47261439850130342H8M51.687303715884105728S");
    let text = d(-(90 * 60 * S + S / 4)).to_iso_duration();
    assert_eq!(text, "-PT1H30M0.25S");
    assert_eq!(Dt::from_iso_duration(&text).unwrap().attos, -(90 * 60 * S + S / 4));
}
