use deep_time::dt::numbers_traits::TraitsTime;
use deep_time::scale::Scale;

const S: i128 = 1_000_000_000_000_000_000;

#[test]
fn integer_time_units_for_dt() {
    assert_eq!(5i64.sec().attos, 5 * S);
    assert_eq!(250u32.ms().attos, S / 4);
    assert_eq!((-3i8).ns().attos, -3_000_000_000);
    assert_eq!(2u8.us().attos, 2_000_000_000_000);
    assert_eq!(2i16.mins().attos, 120 * S);
    assert_eq!(1u16.hours().attos, 3600 * S);
    assert_eq!(3i32.days().attos, 3 * 86_400 * S);
    assert_eq!(1u64.weeks().attos, 604_800 * S);
    assert_eq!(1i128.years().attos, 31_557_600 * S);
    assert_eq!(u128::MAX.ns().attos, i128::MAX);
    assert_eq!(i128::MIN.sec().attos, i128::MIN);
    assert_eq!(5i64.sec().scale, Scale::TAI);
    let span = 5i64.sec() + 250i64.ms() + 123_456i64.ns();
    assert_eq!(span.attos, 5 * S + S / 4 + 123_456_000_000_000);
}
