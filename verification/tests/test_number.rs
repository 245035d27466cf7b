use lox::number::Number;

fn number(value: f64) -> Number {
    Number::from_bits(value.to_bits())
}

#[test]
fn decimal_numerals_are_read_as_the_nearest_number() {
    assert_eq!(Number::parse("0"), Some(number(0.0)));
    assert_eq!(Number::parse("12"), Some(number(12.0)));
    assert_eq!(Number::parse("5.55"), Some(number(5.55)));
    assert_eq!(Number::parse("0.1"), Some(number(0.1)));
    assert_eq!(Number::parse("3.1415926536"), Some(number(3.1415926536)));
    assert_eq!(Number::parse("9007199254740993"), Some(number(9007199254740993.0)));
    assert_eq!(
        Number::parse("123456789012345678901234567890"),
        Some(number(123456789012345678901234567890.0))
    );
}

#[test]
fn anything_but_digits_and_dots_is_no_numeral() {
    assert_eq!(Number::parse("-1"), None);
    assert_eq!(Number::parse("1e5"), None);
    assert_eq!(Number::parse("0x10"), None);
    assert_eq!(Number::parse("inf"), None);
    assert_eq!(Number::parse("nan"), None);
    assert_eq!(Number::parse("1 2"), None);
    assert_eq!(Number::parse(""), None);
    assert_eq!(Number::parse("1.2.3"), None);
    assert_eq!(Number::parse("."), None);
}

#[test]
fn arithmetic_rounds_as_binary64_does() {
    let cases = [(0.1, 0.2), (1.0, 3.0), (-2.5, 4.0), (1e308, 1e308), (5e-324, 2.0), (0.0, -0.0)];
    for (a, b) in cases {
        assert_eq!(number(a).plus(number(b)), number(a + b));
        assert_eq!(number(a).minus(number(b)), number(a - b));
        assert_eq!(number(a).times(number(b)), number(a * b));
        if b != 0.0 {
            assert_eq!(number(a).divided_by(number(b)), number(a / b));
        }
    }
    assert_eq!(number(1.0).divided_by(number(0.0)), number(f64::INFINITY));
    assert!(number(0.0).divided_by(number(0.0)).is_nan());
}

#[test]
fn order_and_equality_follow_binary64() {
    let values = [
        f64::NEG_INFINITY,
        -1.5,
        -0.0,
        0.0,
        5e-324,
        1.0,
        2.0,
        f64::INFINITY,
        f64::NAN,
    ];
    for a in values {
        for b in values {
            assert_eq!(number(a).less_than(number(b)), a < b);
            assert_eq!(number(a).less_or_equal(number(b)), a <= b);
            assert_eq!(number(a).greater_than(number(b)), a > b);
            assert_eq!(number(a).greater_or_equal(number(b)), a >= b);
            assert_eq!(number(a).equals(number(b)), a == b);
        }
        assert_eq!(number(a).is_zero(), a == 0.0);
        assert_eq!(number(a).is_nan(), a.is_nan());
        assert_eq!(number(a).negate().bits, (-a).to_bits());
    }
}

#[test]
fn integers_become_the_nearest_number() {
    assert_eq!(Number::from_integer(0), number(0.0));
    assert_eq!(Number::from_integer(1700000000000), number(1700000000000.0));
    assert_eq!(Number::from_integer(9007199254740993), number(9007199254740993u128 as f64));
    assert_eq!(Number::from_integer(u128::MAX), number(u128::MAX as f64));
}
