use deep_time::dt_big::DtBig;

#[test]
fn constants_and_basics() {
    assert!(DtBig::zero().is_zero());
    assert!(DtBig::one().is_one());
    assert!(DtBig::neg_one().is_neg_one());
    assert!(DtBig::min_value().is_min());
    assert_eq!(DtBig::max_value().wrapping_add(DtBig::one()), DtBig::min_value());
}

#[test]
fn basic_arithmetic() {
    let a = DtBig::from(12345i64);
    let b = DtBig::from(6789i64);
    let c = DtBig::from(-100i64);
    assert_eq!(a + b, DtBig::from(19134));
    assert_eq!(a - b, DtBig::from(5556));
    assert_eq!(a * b, DtBig::from(12345 * 6789));
    assert_eq!(b / a, DtBig::zero());
    assert_eq!(b % a, b);
    assert_eq!(a + c, DtBig::from(12245));
    assert_eq!(c * DtBig::from(5), DtBig::from(-500));
    assert_eq!(DtBig::from(1000) / DtBig::from(7), DtBig::from(142));
}

#[test]
fn signed_edge_cases() {
    let min = DtBig::min_value();
    let max = DtBig::max_value();
    let neg_one = DtBig::neg_one();
    // Negation (wrapping_neg of MIN is MIN in two's-complement)
    assert_eq!(min.wrapping_neg(), min);
    assert_eq!(min.saturating_neg(), max);
    assert_eq!(min.checked_neg(), None);
    // Classic signed overflow: MIN / -1
    assert_eq!(min.wrapping_div(neg_one), min);
    assert_eq!(min.checked_div(neg_one), None);
    assert_eq!(min.overflowing_div(neg_one), (min, true));
    assert!(max.is_positive());
    assert!(min.is_negative());
    assert_eq!(DtBig::zero().signum(), DtBig::zero());
    assert_eq!(max.signum(), DtBig::one());
    assert_eq!(min.signum(), DtBig::neg_one());
}

#[test]
fn bitwise_and_shifts() {
    let x = DtBig::from(0b101010i64);
    assert_eq!(x & DtBig::from(0b111100), DtBig::from(0b101000));
    assert_eq!(x | DtBig::from(0b111100), DtBig::from(0b111110));
    assert_eq!(x ^ DtBig::from(0b111111), DtBig::from(0b010101));
    assert_eq!(DtBig::one().wrapping_shl(10), DtBig::from(1024));
    assert_eq!(DtBig::from(1024).wrapping_shr(5), DtBig::from(32));
}

#[test]
fn parsing() {
    let parsed: DtBig = "123456789012345".parse().unwrap();
    assert_eq!(parsed, DtBig::from(123456789012345i64));
    assert_eq!("-42".parse::<DtBig>().unwrap(), DtBig::from(-42));
    assert_eq!("0".parse::<DtBig>().unwrap(), DtBig::zero());
    assert_eq!("+100".parse::<DtBig>().unwrap(), DtBig::from(100));
}

#[test]
fn byte_roundtrips() {
    let values = [
        DtBig::zero(),
        DtBig::one(),
        DtBig::neg_one(),
        DtBig::min_value(),
        DtBig::max_value(),
        DtBig::from(0x123456789abcdef0_i128),
        DtBig::from(-0x111222333444_i128),
    ];
    for &val in &values {
        assert_eq!(DtBig::from_le_bytes(val.to_le_bytes()), val);
        assert_eq!(DtBig::from_be_bytes(val.to_be_bytes()), val);
    }
}

#[test]
fn long_inputs_with_leading_zeros_parse() {
    let mut s = vec![b'0'; 110];
    s.push(b'1');
    assert_eq!(DtBig::parse_bytes(&s), Ok(DtBig::one()));
    let mut s = vec![b'-'];
    s.extend(vec![b'0'; 200]);
    s.extend(b"12345");
    assert_eq!(DtBig::parse_bytes(&s), Ok(DtBig::from(-12345i64)));
    let zeros = vec![b'0'; 300];
    assert_eq!(DtBig::parse_bytes(&zeros), Ok(DtBig::zero()));
    let mut big = vec![b'9'; 120];
    assert_eq!(DtBig::parse_bytes(&big).unwrap_err().kind, deep_time::dt_big::ParseErrorKind::Overflow);
    big.push(b'x');
    assert_eq!(DtBig::parse_bytes(&big).unwrap_err().kind, deep_time::dt_big::ParseErrorKind::Overflow);
    let mut bad = vec![b'0'; 120];
    bad.push(b'x');
    assert_eq!(DtBig::parse_bytes(&bad).unwrap_err().kind, deep_time::dt_big::ParseErrorKind::InvalidDigit);
}

#[test]
fn checked_pow_only_fails_on_overflow() {
    let p200 = DtBig::one().wrapping_shl(200);
    assert_eq!(p200.checked_pow(1), Some(p200));
    let p100 = DtBig::one().wrapping_shl(100);
    assert_eq!(p100.checked_pow(3), Some(DtBig::one().wrapping_shl(300)));
    assert_eq!(p100.checked_pow(4), None);
    assert_eq!(p200.overflowing_pow(1), (p200, false));
    assert_eq!(p200.saturating_pow(1), p200);
    assert_eq!(DtBig::from(-2i64).checked_pow(319), Some(DtBig::min_value()));
    assert_eq!(DtBig::from(2i64).checked_pow(319), None);
}
