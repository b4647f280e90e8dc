use grand::decimal::{Decimal, MAX_MANTISSA, MAX_SCALE};

fn dec(text: &str) -> Decimal {
    Decimal::parse(text).unwrap()
}

#[test]
fn new_takes_what_a_decimal_can_hold() {
    assert!(Decimal::new(0, 0).is_some());
    assert!(Decimal::new(MAX_MANTISSA, MAX_SCALE).is_some());
    assert!(Decimal::new(-MAX_MANTISSA, 0).is_some());
    assert!(Decimal::new(MAX_MANTISSA + 1, 0).is_none());
    assert!(Decimal::new(-MAX_MANTISSA - 1, 0).is_none());
    assert!(Decimal::new(1, MAX_SCALE + 1).is_none());
}

#[test]
fn parse_reads_sign_and_fraction() {
    assert_eq!(dec("0.25"), Decimal::new(25, 2).unwrap());
    assert_eq!(dec("-10.5"), Decimal::new(-105, 1).unwrap());
    assert_eq!(dec("+3"), Decimal::from_i64(3));
    assert_eq!(dec("0.25").mantissa(), 25);
    assert_eq!(dec("0.25").scale(), 2);
}

#[test]
fn parse_refuses_what_is_no_number() {
    assert!(Decimal::parse("-").is_none());
    assert!(Decimal::parse("").is_none());
    assert!(Decimal::parse("abc").is_none());
    assert!(Decimal::parse("0.00000000000000000000000000001").is_none());
    assert!(Decimal::parse("100000000000000000000000000000").is_none());
}

#[test]
fn equality_is_numeric() {
    assert_eq!(Decimal::new(10, 1).unwrap(), Decimal::from_i64(1));
    assert_ne!(Decimal::new(11, 1).unwrap(), Decimal::from_i64(1));
    assert_eq!(Decimal::new(0, 5).unwrap(), Decimal::from_i64(0));
}

#[test]
fn order_is_numeric() {
    assert!(dec("0.5") < Decimal::from_i64(1));
    assert!(dec("-0.5") > Decimal::from_i64(-1));
    assert!(dec("2.50") >= dec("2.5"));
    assert!(Decimal::from_i64(i64::MIN) < Decimal::from_i64(i64::MAX));
    assert!(Decimal::from_u64(u64::MAX) > Decimal::from_i64(i64::MAX));
}

#[test]
fn min_and_max() {
    assert_eq!(dec("1.5").min(dec("2")), dec("1.5"));
    assert_eq!(dec("1.5").max(dec("2")), dec("2"));
    assert_eq!(dec("3").min(dec("-3")), dec("-3"));
}

#[test]
fn floor_goes_down() {
    assert_eq!(dec("3.641").floor(), Decimal::from_i64(3));
    assert_eq!(dec("-3.2").floor(), Decimal::from_i64(-4));
    assert_eq!(dec("7").floor(), Decimal::from_i64(7));
    assert_eq!(dec("-0.5").floor(), Decimal::from_i64(-1));
}

#[test]
fn abs_and_zero() {
    assert_eq!(dec("-2.5").abs(), dec("2.5"));
    assert_eq!(dec("2.5").abs(), dec("2.5"));
    assert!(dec("0.000").is_zero());
    assert!(!dec("0.001").is_zero());
    assert_eq!(Decimal::thousandth(), dec("0.001"));
}

#[test]
fn floor_and_ceiling_as_integers() {
    assert_eq!(dec("3.641").floor_integer(), 3);
    assert_eq!(dec("3.641").ceil_integer(), 4);
    assert_eq!(dec("-3.2").floor_integer(), -4);
    assert_eq!(dec("-3.2").ceil_integer(), -3);
    assert_eq!(dec("7").floor_integer(), 7);
    assert_eq!(dec("7.000").ceil_integer(), 7);
    assert_eq!(dec("-0.5").floor_integer(), -1);
    assert_eq!(dec("-0.5").ceil_integer(), 0);
    assert_eq!(dec("0.0000000000000000000000000001").ceil_integer(), 1);
    assert_eq!(Decimal::new(MAX_MANTISSA, 0).unwrap().floor_integer(), MAX_MANTISSA);
    assert_eq!(Decimal::new(-MAX_MANTISSA, 28).unwrap().floor_integer(), -8);
    assert_eq!(Decimal::new(MAX_MANTISSA, 28).unwrap().ceil_integer(), 8);
}

#[test]
fn the_floor_has_no_digits_behind_the_point() {
    assert_eq!(dec("3.641").floor().scale(), 0);
    assert_eq!(dec("3.641").floor().mantissa(), 3);
    assert_eq!(dec("-0.5").floor().mantissa(), -1);
    assert_eq!(dec("-0.000").floor().mantissa(), 0);
    assert_eq!(dec("-0.000").floor().scale(), 0);
    assert_eq!(dec("12").floor().mantissa(), 12);
    assert_eq!(dec("12").floor().scale(), 0);
}
