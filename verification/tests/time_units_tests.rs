use deep_time::delta::Delta;
use deep_time::time_units::TimeUnits;

const A: i128 = 1_000_000_000_000_000_000;

#[test]
fn integer_time_units_for_delta() {
    assert_eq!(5i32.sec(), Delta::from_sec(5));
    assert_eq!(250u16.ms().total_attos(), A / 4);
    assert_eq!(123_456i64.ns().total_attos(), 123_456_000_000_000);
    assert_eq!(7u8.us().total_attos(), 7_000_000_000_000);
    assert_eq!(TimeUnits::min(-2i8).total_attos(), -120 * A);
    assert_eq!(1u32.hr().total_attos(), 3600 * A);
    assert_eq!(2i64.days().total_attos(), 2 * 86_400 * A);
    assert_eq!(1u64.wk().total_attos(), 604_800 * A);
    assert_eq!(1i128.yr().total_attos(), 31_557_600 * A);
    assert_eq!(i64::MAX.days(), Delta::from_sec(i64::MAX));
    assert_eq!((1u128 << 64).sec(), Delta::zero());
    let span = 5i64.sec() + 250i64.ms() + 123_456i64.ns();
    assert_eq!(span.total_attos(), 5 * A + A / 4 + 123_456_000_000_000);
}
