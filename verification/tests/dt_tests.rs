use deep_time::dt::Dt;
use deep_time::scale::Scale;

const S: i128 = 1_000_000_000_000_000_000;

fn sec(x: i128) -> Dt {
    Dt::new(x * S, Scale::TAI, Scale::TAI)
}

fn attos(a: i128) -> Dt {
    Dt::new(a, Scale::TAI, Scale::TAI)
}

#[test]
fn saturating_addition_and_subtraction() {
    let a = sec(5);
    assert_eq!(a.add(sec(2)).attos, 7 * S);
    assert_eq!(a.sub(sec(7)).attos, -2 * S);
    assert_eq!(Dt::max_value().add(sec(1)).attos, i128::MAX);
    assert_eq!(Dt::min_value().sub(sec(1)).attos, i128::MIN);
    assert_eq!(Dt::zero().add_attos(-5).to_attos(), -5);
    assert_eq!(Dt::zero().add_ns(-5).to_ns().0, -5);
    assert_eq!(Dt::zero().add_sec(-5).to_sec(), -5);
    assert_eq!(Dt::zero().add_mins(-5).to_mins_floor().0, -5);
    assert_eq!(Dt::zero().add_hours(-5).to_hours_floor().0, -5);
    assert_eq!(a.to_diff_raw(sec(8)).attos, -3 * S);
    let t = Dt::new(1, Scale::UTC, Scale::GPS).add(sec(1));
    assert_eq!(t.scale, Scale::UTC);
    assert_eq!(t.target, Scale::GPS);
}

#[test]
fn scalar_multiplication_and_division() {
    assert_eq!(sec(3).mul(4).attos, 12 * S);
    assert_eq!(sec(3).mul(0).attos, 0);
    assert_eq!(Dt::max_value().mul(2).attos, i128::MAX);
    assert_eq!(sec(-7).div(2).attos, -7 * S / 2);
    assert_eq!(attos(-7).div(2).attos, -3);
    assert_eq!(sec(7).div(0).attos, 0);
    assert_eq!((sec(3) * 2).attos, 6 * S);
    assert_eq!((sec(3) / 3).attos, S);
    assert_eq!((sec(3) + sec(4)).attos, 7 * S);
    assert_eq!((sec(3) - sec(4)).attos, -S);
    assert_eq!((-sec(3)).attos, -3 * S);
}

#[test]
fn rounding_to_units() {
    let one = sec(1);
    assert_eq!(attos(13 * S / 10).round(one), one);
    assert_eq!(attos(16 * S / 10).round(one), sec(2));
    assert_eq!(attos(-13 * S / 10).round(one), sec(-1));
    assert_eq!(attos(S / 2).round(one), sec(1));
    assert_eq!(attos(-S / 2).round(one), sec(-1));
    assert_eq!(attos(15 * S / 10).round(one), sec(2));
    assert_eq!(attos(-15 * S / 10).round(one), sec(-2));
    assert_eq!((sec(60) + sec(40)).round(sec(60)), sec(120));
    assert_eq!(attos(-15 * S / 10).floor(one), sec(-2));
    assert_eq!(attos(-15 * S / 10).ceil(one), sec(-1));
    assert_eq!(attos(12 * S / 10).ceil(one), sec(2));
    assert_eq!(attos(12 * S / 10).floor(one), sec(1));
    assert_eq!(sec(5).floor(Dt::zero()), sec(5));
    assert_eq!(attos(i128::MIN).floor(attos(-1)), attos(i128::MIN));
    assert_eq!(attos(i128::MIN).ceil(attos(-1)), attos(i128::MIN));
    assert_eq!(attos(7).floor(attos(-2)), attos(6));
    assert_eq!(attos(7).ceil(attos(-2)), attos(8));
    assert_eq!(attos(-7).floor(attos(-2)), attos(-8));
    assert_eq!(attos(-7).ceil(attos(-2)), attos(-6));
    assert_eq!(attos(25 * S / 10).to_sec_round(), 3);
    assert_eq!(attos(-25 * S / 10).to_sec64_round(), -3);
    assert_eq!(sec(10).abs_div_floor(sec(-3)), 3);
    assert_eq!(sec(10).abs_div_floor(Dt::zero()), 0);
}

#[test]
fn whole_unit_readings() {
    let x = attos(-15 * S / 10);
    assert_eq!(x.to_sec(), -1);
    assert_eq!(x.to_sec_floor(), -2);
    assert_eq!(x.to_sec64_floor(), -2);
    assert_eq!(x.to_sec_frac(), -500_000_000_000_000_000);
    assert_eq!(x.to_sec_ufrac(), 500_000_000_000_000_000);
    assert_eq!(x.to_ms(), (-1500, 0));
    assert_eq!(attos(-1_500_000_000).to_ns(), (-1, -500_000_000));
    assert_eq!(attos(-1_500_000_000).to_ns_floor(), (-2, 500_000_000));
    assert_eq!(sec(90).to_mins(), (1, 30 * S));
    assert_eq!(sec(-90).to_mins_floor(), (-2, 30 * S));
    assert_eq!(sec(86_400 * 8).to_weeks(), (1, 86_400 * S));
    assert_eq!(sec(86_400 * 3 + 5).to_days(), (3, 5 * S));
    assert_eq!(Dt::max_value().to_sec64(), i64::MAX);
    assert_eq!(Dt::attos_to_sec_i64(i128::MIN), i64::MIN);
}

#[test]
fn unit_helpers() {
    assert_eq!(Dt::to_i64(1 << 70), i64::MAX);
    assert_eq!(Dt::to_i64(-5), -5);
    assert_eq!(Dt::to_u64(-5), 0);
    assert_eq!(Dt::to_i128(u128::MAX), i128::MAX);
    assert_eq!(Dt::sec_to_attos(2), 2 * S);
    assert_eq!(Dt::sec_to_attos(i128::MAX), i128::MAX);
    assert_eq!(Dt::days_to_attos(1), 86_400 * S);
    assert_eq!(Dt::attos_to_ms(-1_999_999_999_999_999), -1);
    assert_eq!(Dt::attos_to_weeks(604_800 * S), 1);
    assert_eq!(Dt::unit_to_total_attos(2, 5, 1000), 2005);
}

#[test]
fn constructors() {
    assert_eq!(Dt::from_sec(3, Scale::UTC, Scale::TT).attos, 3 * S);
    assert_eq!(Dt::from_ms(1500, 7, Scale::TAI, Scale::TAI).attos, 1_500_000_000_000_000_007);
    assert_eq!(Dt::from_days(1, 0, Scale::TAI, Scale::TAI), Dt::one_day());
    assert_eq!(Dt::from_weeks(1, Scale::TAI, Scale::TAI).attos, 604_800 * S);
    assert_eq!(Dt::from_years(1, Scale::TAI, Scale::TAI).attos, 31_557_600 * S);
    assert_eq!(Dt::from_sec_and_frac(-1, 5, Scale::TAI, Scale::TAI).attos, -S + 5);
    assert_eq!(Dt::from_diff_raw(5, sec(1)).attos, S + 5);
    assert_eq!(sec(-4).abs().attos, 4 * S);
    assert_eq!(Dt::min_value().abs().attos, i128::MAX);
    assert_eq!(sec(4).neg().attos, -4 * S);
    assert_eq!(Dt::unix_epoch().attos, -946_728_000 * S);
}

#[test]
fn comparisons_use_attos_only() {
    let a = Dt::new(5, Scale::TAI, Scale::TAI);
    let b = Dt::new(5, Scale::TT, Scale::UTC);
    assert_eq!(a, b);
    assert!(a.eq(&b));
    assert_eq!(a.cmp(&b), core::cmp::Ordering::Equal);
    let c = Dt::new(6, Scale::TAI, Scale::TAI);
    assert!(a.lt(&c) && c.gt(&a) && a.le(&b) && a.ge(&b));
    assert_eq!(a.cmp(&c), core::cmp::Ordering::Less);
    assert_eq!(a.min(c).attos, 5);
    assert_eq!(a.max(c).attos, 6);
    assert_eq!(a.with(Scale::TT).scale, Scale::TT);
    assert_eq!(a.target(Scale::GPS).target, Scale::GPS);
}

#[test]
fn julian_day_parts() {
    assert_eq!(Dt::zero().to_jd_raw(), (2_451_545, 0));
    assert_eq!(Dt::zero().to_mjd_raw(), (51_544, 43_200 * S));
    assert_eq!(attos(-1).to_jd_floor_raw(), (2_451_544, (86_400 * S - 1) as u128));
    assert_eq!(sec(-43_200).to_mjd_floor_raw(), (51_544, 0));
    assert_eq!(sec(-43_201).to_mjd_raw(), (51_543, 86_399 * S));
    // JD 2451544.75: whole days and a remainder of the JD's own sign.
    assert_eq!(sec(-21_600).to_jd_raw(), (2_451_544, 64_800 * S));
    assert_eq!(sec(21_600).to_jd_raw(), (2_451_545, 21_600 * S));
    // JD -1000.25
    assert_eq!(sec(-(2_452_545 * 86_400 + 21_600)).to_jd_raw(), (-1_000, -21_600 * S));
    assert_eq!(sec(-2_451_545 * 86_400 - 21_600).to_jd_raw(), (0, -21_600 * S));
}

#[test]
fn wire_bytes_roundtrip() {
    for a in [0i128, 1, -1, i128::MAX, i128::MIN, 123_456_789_000_000_000_000_000, -S] {
        let d = Dt::new(a, Scale::UTC, Scale::GPS);
        let w = d.to_wire_bytes();
        assert_eq!(w[0], 1);
        assert_eq!(w.len(), 19);
        let back = Dt::from_wire_bytes(&w).unwrap();
        assert_eq!(back.attos, a);
        assert_eq!(back.scale, Scale::UTC);
        assert_eq!(back.target, Scale::GPS);
    }
    assert_eq!(&Dt::new(1, Scale::TAI, Scale::TAI).to_wire_bytes()[1..3], &[1u8, 0u8]);
    assert!(Dt::from_wire_bytes(&[1u8; 18]).is_none());
    let mut w = Dt::zero().to_wire_bytes();
    w[0] = 2;
    assert!(Dt::from_wire_bytes(&w).is_none());
    w[0] = 1;
    w[17] = 250;
    assert_eq!(Dt::from_wire_bytes(&w).unwrap().scale, Scale::Custom);
}

#[test]
fn float_bit_patterns_to_attos() {
    assert_eq!(Dt::bits_to_attos(1.0f64.to_bits()), S);
    assert_eq!(Dt::bits_to_attos(0.5f64.to_bits()), S / 2);
    assert_eq!(Dt::bits_to_attos((-1.5f64).to_bits()), -3 * S / 2);
    assert_eq!(Dt::bits_to_attos(0.0f64.to_bits()), 0);
    assert_eq!(Dt::bits_to_attos((-0.0f64).to_bits()), 0);
    assert_eq!(Dt::bits_to_attos(f64::INFINITY.to_bits()), i128::MAX);
    assert_eq!(Dt::bits_to_attos(f64::NEG_INFINITY.to_bits()), i128::MIN);
    assert_eq!(Dt::bits_to_attos(1e-18f64.to_bits()), 1);
    assert_eq!(Dt::bits_to_attos(0.1f64.to_bits()), 100_000_000_000_000_006);
    assert_eq!(Dt::bits_to_attos(86_400.0f64.to_bits()), 86_400 * S);
    assert_eq!(Dt::bits_to_attos(1e30f64.to_bits()), i128::MAX);
    assert_eq!(Dt::bits_to_attos(1e-300f64.to_bits()), 0);
    assert_eq!(Dt::to_tai_attos_since(sec(5), sec(2)), 3 * S);
}

#[test]
fn ccsds_unsegmented_codes() {
    let t = 3 * S / 2;
    let (buf, len) = Dt::ccsds_cuc_from_tai(t, 4, 2, false).unwrap();
    assert_eq!(&buf[..len], &[0x1E, 0, 0, 0, 1, 0x80, 0x00]);
    assert!(buf[len..].iter().all(|&b| b == 0));
    let (buf, len) = Dt::ccsds_cuc_from_tai(t, 5, 4, false).unwrap();
    assert_eq!(&buf[..len], &[0x9F, 0x24, 0, 0, 0, 0, 1, 0x80, 0, 0, 0]);
    let (buf, len) = Dt::ccsds_cuc_from_tai(258 * S, 2, 0, false).unwrap();
    assert_eq!(&buf[..len], &[0x14, 1, 2]);
    let (buf, len) = Dt::ccsds_cuc_from_tai(0, 1, 0, true).unwrap();
    assert_eq!(&buf[..len], &[0x90, 0x00, 0x00]);
    assert_eq!(len, 3);
    assert_eq!(Dt::ccsds_cuc_from_tai(t, 0, 2, false).unwrap_err().kind(), deep_time::error::DtErrKind::OutOfRange);
    assert_eq!(Dt::ccsds_cuc_from_tai(t, 4, 11, false).unwrap_err().kind(), deep_time::error::DtErrKind::FracOutOfRange);
    assert_eq!(Dt::ccsds_cuc_from_tai(-1, 4, 2, false).unwrap_err().kind(), deep_time::error::DtErrKind::YearOutOfRange);
    assert_eq!(Dt::ccsds_cuc_from_tai(256 * S, 1, 0, false).unwrap_err().kind(), deep_time::error::DtErrKind::OutOfRange);
}

#[test]
fn ordering_operators() {
    let a = Dt::new(5, Scale::TAI, Scale::TAI);
    let b = Dt::new(7, Scale::TT, Scale::TT);
    assert!(a < b);
    assert!(b > a);
    assert!(a <= Dt::new(5, Scale::UTC, Scale::UTC));
    assert_eq!(a.partial_cmp(&b), Some(core::cmp::Ordering::Less));
}

#[test]
fn scaled_fraction_of_attoseconds() {
    let half: i128 = 500_000_000_000_000;
    assert_eq!(sec(10).add_scaled_frac(0, half).attos, 5 * S);
    assert_eq!(sec(10).add_scaled_frac(20 * S, half).attos, 25 * S);
    assert_eq!(attos(3).add_scaled_frac(0, half).attos, 1);
    assert_eq!(attos(-3).add_scaled_frac(0, half).attos, -1);
    assert_eq!(attos(i128::MIN).add_scaled_frac(0, half).attos, i128::MIN / 2);
    assert_eq!(attos(i128::MIN).add_scaled_frac(0, 1_000_000_000_000_000).attos, i128::MIN);
    assert_eq!(attos(i128::MAX).add_scaled_frac(i128::MAX, half).attos, i128::MAX);
    assert_eq!(attos(7).add_scaled_frac(0, 0).attos, 0);
}

#[test]
fn float_seconds_round_to_nearest_attosecond() {
    let f = |x: f64| Dt::bits_to_attos(x.to_bits());
    // 0.1 s is 0.1000000000000000055511151231257827... s exactly
    assert_eq!(f(0.1), 100_000_000_000_000_006);
    assert_eq!(f(-0.1), -100_000_000_000_000_006);
    assert_eq!(f(1.5), 1_500_000_000_000_000_000);
    assert_eq!(f(-1.5), -f(1.5));
    // 2^-61 s is 0.4336808689942018 attoseconds: rounds to zero
    assert_eq!(f(2f64.powi(-61)), 0);
    // 2^-60 s is 0.867... attoseconds: rounds to one
    assert_eq!(f(2f64.powi(-60)), 1);
    // results never decrease as the value grows
    let xs = [-2.5, -1.0, -1e-18, 0.0, 1e-18, 0.3, 1.0, 1e15];
    for w in xs.windows(2) {
        assert!(f(w[0]) <= f(w[1]));
    }
    assert_eq!(f(1e-18), 1);
}
