use dxf::decimal::parse_real;
use dxf::Real;

fn parse(s: &str) -> Option<Real> {
    let chars: Vec<char> = s.chars().collect();
    parse_real(&chars)
}

fn dec(negative: bool, digits: u64, exponent: i32) -> Real {
    Real::new(negative, digits, exponent)
}

const INF: Real = Real::Infinite { negative: false };

#[test]
fn parse_real_numerals() {
    assert_eq!(Some(dec(false, 35, -2)), parse("0.35"));
    assert_eq!(Some(dec(true, 105, -2)), parse("-1.05"));
    assert_eq!(Some(dec(false, 28, -1)), parse("2.8"));
    assert_eq!(Some(Real::zero()), parse("0"));
    assert_eq!(Some(Real::zero()), parse("-0"));
    assert_eq!(Some(dec(true, 75, -2)), parse("-.75"));
    assert_eq!(Some(Real::from_int(3)), parse("+3"));
    assert_eq!(Some(Real::from_int(1)), parse("1."));
    assert_eq!(Some(dec(false, 15, -1)), parse(" 1.5 "));
    assert_eq!(Some(dec(false, 10_000_000_000_009, -13)), parse("1.0000000000009"));
    assert_eq!(Some(dec(false, 1, -12)), parse("0.000000000001"));
    assert_eq!(Some(dec(false, 1, 20)), parse("100000000000000000000"));
    assert_eq!(Some(dec(false, 12_345_678_901_234_567, 4)), parse("123456789012345678901"));
    assert_eq!(Some(dec(false, 12_345_678_901_234_567, -16)), parse("1.23456789012345678999"));
}

#[test]
fn parse_real_canonical_form() {
    assert_eq!(Some(Real::Finite { negative: false, digits: 35, exponent: -2 }), parse("0.3500"));
    assert_eq!(Some(Real::Finite { negative: false, digits: 5, exponent: 1 }), parse("50"));
    assert_eq!(Some(Real::Finite { negative: false, digits: 0, exponent: 0 }), parse("-0.000"));
    assert_eq!(Real::new(false, 500, 0), Real::new(false, 5, 2));
}

#[test]
fn parse_real_exponents() {
    assert_eq!(Some(Real::from_int(100)), parse("1e2"));
    assert_eq!(Some(Real::from_int(100_000)), parse("1e5"));
    assert_eq!(Some(Real::from_int(100)), parse("1E2"));
    assert_eq!(Some(Real::from_int(100)), parse("1e+2"));
    assert_eq!(Some(dec(false, 25, -2)), parse("2.5e-1"));
    assert_eq!(Some(Real::from_int(-1_500)), parse("-1.5E3"));
    assert_eq!(Some(dec(false, 1, -13)), parse("1e-13"));
    assert_eq!(Some(dec(false, 1, 20)), parse("1e20"));
    assert_eq!(Some(dec(false, 1, 308)), parse("1e308"));
    assert_eq!(Some(dec(false, 1, -324)), parse("1e-324"));
    assert_eq!(Some(Real::zero()), parse("1e-325"));
    assert_eq!(Some(INF), parse("1e309"));
    assert_eq!(Some(Real::Infinite { negative: true }), parse("-1e400"));
    assert_eq!(Some(Real::zero()), parse("0e99999999999999999999999"));
    assert_eq!(Some(Real::zero()), parse("5e-99999999999999999999999"));
    assert_eq!(Some(INF), parse("1e99999999999999999999999"));
}

#[test]
fn parse_real_special_words() {
    assert_eq!(Some(INF), parse("inf"));
    assert_eq!(Some(INF), parse("INF"));
    assert_eq!(Some(INF), parse("+Infinity"));
    assert_eq!(Some(Real::Infinite { negative: true }), parse("-inf"));
    assert_eq!(Some(Real::NotANumber), parse("nan"));
    assert_eq!(Some(Real::NotANumber), parse("NaN"));
    assert_eq!(Some(Real::NotANumber), parse("-nan"));
}

#[test]
fn parse_real_refuses_other_texts() {
    assert_eq!(None, parse(""));
    assert_eq!(None, parse("."));
    assert_eq!(None, parse("-"));
    assert_eq!(None, parse("abc"));
    assert_eq!(None, parse("1e"));
    assert_eq!(None, parse("e5"));
    assert_eq!(None, parse("1e5e3"));
    assert_eq!(None, parse("1e+"));
    assert_eq!(None, parse("infinit"));
    assert_eq!(None, parse("nana"));
    assert_eq!(None, parse("1.2.3"));
}

#[test]
fn real_arithmetic() {
    assert_eq!(Real::from_int(1), Real::from_int(-1).abs());
    assert_eq!(INF, Real::Infinite { negative: true }.abs());
    assert_eq!(Real::from_int(3), Real::from_int(1).add_magnitudes(Real::from_int(2)));
    assert_eq!(dec(false, 42, -1), dec(false, 35, -2).add_magnitudes(dec(false, 385, -2)));
    assert_eq!(INF, INF.add_magnitudes(Real::from_int(1)));
    assert_eq!(Real::NotANumber, Real::NotANumber.add_magnitudes(INF));
    assert_eq!(INF, dec(false, 9, 308).add_magnitudes(dec(false, 2, 308)));
    // digits past the seventeenth are dropped
    assert_eq!(dec(false, 10_000_000_000_000_000, 4), dec(false, 1, 20).add_magnitudes(Real::from_int(1)));
    assert_eq!(
        dec(false, 10_000_000_000_000_001, -16),
        Real::from_int(1).add_magnitudes(dec(false, 1, -16))
    );
    assert_eq!(Real::from_int(1), Real::from_int(1).add_magnitudes(dec(false, 1, -40)));
    assert_eq!(Real::Finite { negative: false, digits: 5, exponent: 1 }, Real::from_int(50));
    assert!(Real::zero().at_most_zero());
    assert!(Real::from_int(-2).at_most_zero());
    assert!(!Real::NotANumber.at_most_zero());
    assert!(!dec(false, 1, -300).at_most_zero());
    assert!(Real::from_int(-2).below_zero());
}
