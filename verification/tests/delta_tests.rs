use deep_time::delta::Delta;

const A: i128 = 1_000_000_000_000_000_000;

#[test]
fn construction_normalizes() {
    let d = Delta::new(1, 1_500_000_000_000_000_000);
    assert_eq!(d.sec(), 2);
    assert_eq!(d.subsec(), 500_000_000_000_000_000);
    let m = Delta::from_ms(-1500);
    assert_eq!(m.sec(), -2);
    assert_eq!(m.subsec(), 500_000_000_000_000_000);
    assert_eq!(Delta::from_ns(1).total_attos(), 1_000_000_000);
    assert_eq!(Delta::from_us(-1).total_attos(), -1_000_000_000_000);
    assert_eq!(Delta::from_ps(3).total_attos(), 3_000_000);
    assert_eq!(Delta::from_fs(3).total_attos(), 3_000);
    assert_eq!(Delta::from_as(-3).total_attos(), -3);
    assert_eq!(Delta::from_zs(2500).total_attos(), 2);
    assert_eq!(Delta::from_zs(-2500).total_attos(), -3);
    assert_eq!(Delta::from_ys(5_000_000).total_attos(), 5);
    assert_eq!(Delta::from_rs(7_000_000_000).total_attos(), 7);
    assert_eq!(Delta::from_qs(9_000_000_000_000).total_attos(), 9);
    assert_eq!(Delta::from_min(2).total_attos(), 120 * A);
    assert_eq!(Delta::from_hr(-1).total_attos(), -3600 * A);
    assert_eq!(Delta::from_hms(1, 2, 3, 4, 5, 6).total_attos(), 3723 * A + 4_005_006_000_000_000);
    assert_eq!(Delta::from_hms(0, 0, 0, -1, 0, 0).total_attos(), -1_000_000_000_000_000);
    assert_eq!(Delta::default(), Delta::zero());
}

#[test]
fn addition_subtraction_negation() {
    let a = Delta::from_ms(1700);
    let b = Delta::from_ms(800);
    assert_eq!(a.add(b), Delta::from_ms(2500));
    assert_eq!(a.sub(b), Delta::from_ms(900));
    assert_eq!(b.sub(a), Delta::from_ms(-900));
    assert_eq!(a + b - b, a);
    assert_eq!(-(-a), a);
    assert_eq!(a.neg().total_attos(), -1_700_000_000_000_000_000);
    assert_eq!(Delta::max_value().saturating_add(Delta::from_sec(1)), Delta::max_value());
    assert_eq!(Delta::min_value().saturating_sub(Delta::from_sec(1)), Delta::min_value());
    assert_eq!(a.saturating_add(b), Delta::from_ms(2500));
    assert_eq!(b.saturating_sub(a), Delta::from_ms(-900));
    assert!(Delta::zero().is_zero());
    assert!(!a.is_zero());
}

#[test]
fn totals_and_clamping() {
    assert_eq!(Delta::from_total_attos(-1).sec(), -1);
    assert_eq!(Delta::from_total_attos(-1).subsec(), 999_999_999_999_999_999);
    assert_eq!(Delta::from_total_attos(i128::MAX), Delta::max_value());
    assert_eq!(Delta::from_total_attos(i128::MIN), Delta::min_value());
    assert_eq!(Delta::from_total_attos(i64::MIN as i128 * A), Delta::min_value());
    let d = Delta::from_hms(5, 4, 3, 2, 1, 0);
    assert_eq!(Delta::from_total_attos(d.total_attos()), d);
}

#[test]
fn scaling_and_rounding() {
    let d = Delta::from_ms(1500);
    assert_eq!(d.mul(3), Delta::from_ms(4500));
    assert_eq!(d.mul(0), Delta::zero());
    assert_eq!(d.div(2), Delta::from_ms(750));
    assert_eq!(Delta::from_as(-7).div(2), Delta::from_as(-4));
    assert_eq!(Delta::from_as(7).div(-2), Delta::from_as(-4));
    assert_eq!(Delta::from_as(-7).div(-2), Delta::from_as(3));
    assert_eq!(d.div(0), Delta::zero());
    let one = Delta::from_sec(1);
    assert_eq!(Delta::from_ms(-1500).floor(one), Delta::from_sec(-2));
    assert_eq!(Delta::from_ms(-1500).ceil(one), Delta::from_sec(-1));
    assert_eq!(Delta::from_ms(1200).ceil(one), Delta::from_sec(2));
    assert_eq!(Delta::from_ms(1300).round(one), Delta::from_sec(1));
    assert_eq!(Delta::from_ms(1600).round(one), Delta::from_sec(2));
    assert_eq!(Delta::from_ms(-300).round(one), Delta::zero());
    assert_eq!(Delta::from_ms(-1300).round(one), Delta::from_sec(-1));
    assert_eq!(Delta::from_ms(500).round(one), one);
    assert_eq!(Delta::from_ms(-500).round(one), Delta::from_sec(-1));
    assert_eq!(Delta::from_ms(-1500).round(one), Delta::from_sec(-2));
    assert_eq!(d.round(Delta::zero()), d);
    assert_eq!(Delta::from_sec(10).abs_div_floor(Delta::from_sec(-3)), 3);
    assert_eq!(Delta::from_sec(10).abs_div_floor(Delta::zero()), 0);
}

#[test]
fn iso_duration_text() {
    assert_eq!(Delta::zero().to_iso_duration(), "PT0S");
    assert_eq!(Delta::from_hms(1, 23, 45, 678, 900, 0).to_iso_duration(), "PT1H23M45.6789S");
    assert_eq!(Delta::from_ms(-500).to_iso_duration(), "-PT0.5S");
    assert_eq!(Delta::from_as(1).to_iso_duration(), "PT0.000000000000000001S");
    assert_eq!(Delta::from_sec(3600).to_iso_duration(), "PT1H");
    assert_eq!(Delta::from_sec(61).to_iso_duration(), "PT1M1S");
    assert_eq!(Delta::from_sec(-7200).iso_duration_bytes(), b"-PT2H".to_vec());
}
