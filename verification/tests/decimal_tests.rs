use currency_exchange::decimal::parse_decimal;
use currency_exchange::rational::Rational;

fn parts(s: &str) -> (i64, i64) {
    let q = parse_decimal(s).unwrap();
    (q.num, q.den)
}

#[test]
fn parses_integers() {
    assert_eq!((4, 1), parts("4"));
    assert_eq!((0, 1), parts("0"));
    assert_eq!((123456, 1), parts("123456"));
}

#[test]
fn parses_fractions() {
    assert_eq!((8, 10), parts("0.8"));
    assert_eq!((419, 100), parts("4.19"));
    assert_eq!((1250, 100), parts("12.50"));
}

#[test]
fn parses_negative_values() {
    assert_eq!((-1250, 100), parts("-12.50"));
    assert_eq!((-4, 1), parts("-4"));
}

#[test]
fn rejects_non_decimals() {
    assert!(parse_decimal("").is_none());
    assert!(parse_decimal("-").is_none());
    assert!(parse_decimal(".").is_none());
    assert!(parse_decimal(".5").is_none());
    assert!(parse_decimal("5.").is_none());
    assert!(parse_decimal("1.2.3").is_none());
    assert!(parse_decimal("12a").is_none());
    assert!(parse_decimal("1e3").is_none());
    assert!(parse_decimal("+4").is_none());
    assert!(parse_decimal("4 ").is_none());
}

#[test]
fn rejects_values_that_do_not_fit() {
    // more than eighteen fractional digits
    assert!(parse_decimal("0.0000000000000000001").is_none());
    // a mantissa beyond the machine representation
    assert!(parse_decimal("99999999999999999999").is_none());
    // the largest representable mantissa still parses
    assert_eq!((9223372036854775807, 1), parts("9223372036854775807"));
    assert_eq!((1, 1_000_000_000_000_000_000), parts("0.000000000000000001"));
}

#[test]
fn rational_equality_is_by_value() {
    assert_eq!(Rational::new(40, 8), Rational::from_int(5));
    assert_eq!(Rational::new(8, 10), Rational::new(4, 5));
    assert_ne!(Rational::new(8, 10), Rational::from_int(1));
}

#[test]
fn rational_multiplication_is_componentwise() {
    let a = Rational::new(25, 10);
    let b = Rational::from_int(4);
    assert!(a.mul_fits(&b));
    let p = a.mul(&b);
    assert_eq!(100, p.num);
    assert_eq!(10, p.den);
    assert_eq!(Rational::from_int(10), p);
}

#[test]
fn rational_overflow_is_detected() {
    let big = Rational::from_int(i64::MAX);
    assert!(!big.mul_fits(&Rational::from_int(2)));
    assert!(big.mul_fits(&Rational::from_int(1)));
}

#[test]
fn display_renders_integers() {
    assert_eq!("40", Rational::from_int(40).display());
    assert_eq!("0", Rational::from_int(0).display());
    assert_eq!("-4", Rational::from_int(-4).display());
}

#[test]
fn display_renders_terminating_decimals() {
    assert_eq!("0.8", Rational::new(8, 10).display());
    assert_eq!("-12.5", Rational::new(-1250, 100).display());
    assert_eq!("1.25", Rational::new(10, 8).display());
}

#[test]
fn display_trims_to_the_shortest_form() {
    // forty eighths are exactly five
    assert_eq!("5", Rational::new(40, 8).display());
    assert_eq!("2", Rational::new(20, 10).display());
}

#[test]
fn display_falls_back_to_a_fraction() {
    assert_eq!("1/3", Rational::new(1, 3).display());
    assert_eq!("-2/7", Rational::new(-2, 7).display());
}
