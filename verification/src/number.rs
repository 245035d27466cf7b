//! Numbers of the language: IEEE 754 binary64 values, held as their 64 bits.
//!
//! Ordering, equality and negation are decided here on the bit pattern.
//! Rounding arithmetic and the reading of decimal numerals are done by
//! `rustc_apfloat`, a software implementation without global state.

use rustc_apfloat::ieee::Double;
use rustc_apfloat::Float;
use vstd::prelude::*;

verus! {

/// The bit that holds the sign.
pub const SIGN_MASK: u64 = 0x8000_0000_0000_0000;

/// The bits that hold exponent and fraction.
pub const MAGNITUDE_MASK: u64 = 0x7FFF_FFFF_FFFF_FFFF;

/// Exponent all ones, fraction zero: the magnitude of an infinity.
pub const INFINITY_BITS: u64 = 0x7FF0_0000_0000_0000;

/// A number of the language, as the bits of a binary64 value.
#[derive(PartialEq, Eq, Structural, Debug, Copy, Clone)]
pub struct Number {
    pub bits: u64,
}

/// Exponent and fraction of `bits`, without the sign.
pub open spec fn magnitude(bits: u64) -> u64 {
    bits & MAGNITUDE_MASK
}

/// Whether the sign bit of `bits` is set.
pub open spec fn is_negative(bits: u64) -> bool {
    bits & SIGN_MASK != 0
}

/// Whether `bits` is a NaN: exponent all ones and a fraction that is not zero.
pub open spec fn is_nan(bits: u64) -> bool {
    magnitude(bits) > INFINITY_BITS
}

/// Where `bits` stands on the number line among values that are not NaN:
/// binary64 orders by magnitude within a sign, and both zeros are 0.
pub open spec fn order_key(bits: u64) -> int {
    if is_negative(bits) {
        -(magnitude(bits) as int)
    } else {
        magnitude(bits) as int
    }
}

/// `a < b` as IEEE 754 has it: false if either is NaN.
pub open spec fn number_lt(a: u64, b: u64) -> bool {
    !is_nan(a) && !is_nan(b) && order_key(a) < order_key(b)
}

/// `a <= b` as IEEE 754 has it: false if either is NaN.
pub open spec fn number_le(a: u64, b: u64) -> bool {
    !is_nan(a) && !is_nan(b) && order_key(a) <= order_key(b)
}

/// `a == b` as IEEE 754 has it: false if either is NaN, true of the two zeros.
pub open spec fn number_eq(a: u64, b: u64) -> bool {
    !is_nan(a) && !is_nan(b) && order_key(a) == order_key(b)
}

/// `bits` with the sign flipped.
pub open spec fn negated(bits: u64) -> u64 {
    bits ^ SIGN_MASK
}

/// Whether `c` is one of the ten ASCII digits.
pub open spec fn is_digit(c: char) -> bool {
    '0' <= c <= '9'
}

/// The bits of the binary64 sum of `a` and `b`, rounded to nearest, ties to even.
pub uninterp spec fn sum_bits(a: u64, b: u64) -> u64;

/// The bits of the binary64 difference `a - b`, rounded to nearest, ties to even.
pub uninterp spec fn difference_bits(a: u64, b: u64) -> u64;

/// The bits of the binary64 product of `a` and `b`, rounded to nearest, ties to even.
pub uninterp spec fn product_bits(a: u64, b: u64) -> u64;

/// The bits of the binary64 quotient `a / b`, rounded to nearest, ties to even.
pub uninterp spec fn quotient_bits(a: u64, b: u64) -> u64;

/// The bits of the binary64 value nearest to the integer `n`.
pub uninterp spec fn integer_bits(n: u128) -> u64;

/// The bits of the binary64 value nearest to what `text` denotes, where
/// `text` can be read as a number at all.
pub uninterp spec fn numeral_bits(text: Seq<char>) -> Option<u64>;

/// Whether `text` is made of ASCII digits and dots alone.
pub open spec fn is_decimal_text(text: Seq<char>) -> bool {
    forall|i: int| 0 <= i < text.len() ==> is_digit(#[trigger] text[i]) || text[i] == '.'
}

/// The bits of the number that the decimal text `text` denotes; nothing
/// for a text that holds anything but digits and dots, or that cannot be
/// read as a number.
pub open spec fn decimal_bits(text: Seq<char>) -> Option<u64> {
    if is_decimal_text(text) {
        numeral_bits(text)
    } else {
        None
    }
}

/// `rustc_apfloat`'s `Double` addition (`Add::add`, that is `add_r` with
/// `Round::NearestTiesToEven`) on the values whose bits are `a` and `b`. The
/// operation reads nothing but its operands, so its result is named by them.
#[verifier::external_body]
fn add_bits(a: u64, b: u64) -> (r: u64)
    ensures
        r == sum_bits(a, b),
{
    (Double::from_bits(a as u128) + Double::from_bits(b as u128)).value.to_bits() as u64
}

/// `rustc_apfloat`'s `Double` subtraction (`Sub::sub`), named as `add_bits` is.
#[verifier::external_body]
fn subtract_bits(a: u64, b: u64) -> (r: u64)
    ensures
        r == difference_bits(a, b),
{
    (Double::from_bits(a as u128) - Double::from_bits(b as u128)).value.to_bits() as u64
}

/// `rustc_apfloat`'s `Double` multiplication (`Mul::mul`), named as `add_bits` is.
#[verifier::external_body]
fn multiply_bits(a: u64, b: u64) -> (r: u64)
    ensures
        r == product_bits(a, b),
{
    (Double::from_bits(a as u128) * Double::from_bits(b as u128)).value.to_bits() as u64
}

/// `rustc_apfloat`'s `Double` division (`Div::div`), named as `add_bits` is.
/// Division by zero is no failure there: it gives an infinity or a NaN.
#[verifier::external_body]
fn divide_bits(a: u64, b: u64) -> (r: u64)
    ensures
        r == quotient_bits(a, b),
{
    (Double::from_bits(a as u128) / Double::from_bits(b as u128)).value.to_bits() as u64
}

/// `rustc_apfloat`'s `Float::from_u128` for `Double`: the integer `n`
/// rounded to the nearest binary64 value.
#[verifier::external_body]
fn bits_of_integer(n: u128) -> (r: u64)
    ensures
        r == integer_bits(n),
{
    Double::from_u128(n).value.to_bits() as u64
}

/// `rustc_apfloat`'s `FromStr::from_str` for `Double`, that is `from_str_r`
/// with `Round::NearestTiesToEven`, on a text of digits and dots, which its
/// decimal reader takes: the value nearest to what the text denotes, or
/// nothing where the text is refused. The function reads nothing but the
/// text, so its result is named by it.
#[verifier::external_body]
fn bits_of_numeral(text: &str) -> (r: Option<u64>)
    requires
        is_decimal_text(text@),
    ensures
        r == numeral_bits(text@),
{
    match text.parse::<Double>() {
        Ok(value) => Some(value.to_bits() as u64),
        Err(_) => None,
    }
}

impl Number {
    /// The number whose binary64 bits are `bits`.
    pub fn from_bits(bits: u64) -> (r: Number)
        ensures
            r.bits == bits,
    {
        Number { bits }
    }

    /// The number nearest to the integer `n`.
    pub fn from_integer(n: u128) -> (r: Number)
        ensures
            r.bits == integer_bits(n),
    {
        Number { bits: bits_of_integer(n) }
    }

    /// Reads a decimal numeral: digits, with a dot among them or not.
    /// `None` where `text` holds anything else or cannot be read as a number.
    pub fn parse(text: &str) -> (r: Option<Number>)
        ensures
            match decimal_bits(text@) {
                Some(bits) => r == Some(Number { bits }),
                None => r is None,
            },
    {
        let chars = crate::text::to_chars(text);
        let mut i: usize = 0;
        while i < chars.len()
            invariant
                i <= chars.len(),
                chars@ == text@,
                forall|j: int| 0 <= j < i ==> is_digit(#[trigger] text@[j]) || text@[j] == '.',
            decreases chars.len() - i,
        {
            let c = chars[i];
            if !((c >= '0' && c <= '9') || c == '.') {
                return None;
            }
            i += 1;
        }
        match bits_of_numeral(text) {
            Some(bits) => Some(Number { bits }),
            None => None,
        }
    }

    /// Whether this is a NaN.
    pub fn is_nan(self) -> (r: bool)
        ensures
            r == is_nan(self.bits),
    {
        (self.bits & MAGNITUDE_MASK) > INFINITY_BITS
    }

    /// Whether this is one of the two zeros.
    pub fn is_zero(self) -> (r: bool)
        ensures
            r == (magnitude(self.bits) == 0),
            r == number_eq(self.bits, 0),
    {
        assert(0u64 & MAGNITUDE_MASK == 0 && 0u64 & SIGN_MASK == 0) by (bit_vector);
        assert(0u64 <= INFINITY_BITS);
        (self.bits & MAGNITUDE_MASK) == 0
    }

    /// The place of this number on the number line, for values that are not NaN.
    fn key(self) -> (r: i128)
        ensures
            r == order_key(self.bits),
    {
        let bits = self.bits;
        assert(bits & MAGNITUDE_MASK <= MAGNITUDE_MASK) by (bit_vector);
        let size: i128 = (bits & MAGNITUDE_MASK) as i128;
        if bits & SIGN_MASK != 0 {
            -size
        } else {
            size
        }
    }

    /// `self < other`, false if either is NaN.
    pub fn less_than(self, other: Number) -> (r: bool)
        ensures
            r == number_lt(self.bits, other.bits),
    {
        !self.is_nan() && !other.is_nan() && self.key() < other.key()
    }

    /// `self <= other`, false if either is NaN.
    pub fn less_or_equal(self, other: Number) -> (r: bool)
        ensures
            r == number_le(self.bits, other.bits),
    {
        !self.is_nan() && !other.is_nan() && self.key() <= other.key()
    }

    /// `self > other`, false if either is NaN.
    pub fn greater_than(self, other: Number) -> (r: bool)
        ensures
            r == number_lt(other.bits, self.bits),
    {
        other.less_than(self)
    }

    /// `self >= other`, false if either is NaN.
    pub fn greater_or_equal(self, other: Number) -> (r: bool)
        ensures
            r == number_le(other.bits, self.bits),
    {
        other.less_or_equal(self)
    }

    /// `self == other` as numbers: a NaN equals nothing, the zeros equal each other.
    pub fn equals(self, other: Number) -> (r: bool)
        ensures
            r == number_eq(self.bits, other.bits),
    {
        !self.is_nan() && !other.is_nan() && self.key() == other.key()
    }

    /// This number with the opposite sign.
    pub fn negate(self) -> (r: Number)
        ensures
            r.bits == negated(self.bits),
    {
        Number { bits: self.bits ^ SIGN_MASK }
    }

    /// The sum, rounded to nearest.
    pub fn plus(self, other: Number) -> (r: Number)
        ensures
            r.bits == sum_bits(self.bits, other.bits),
    {
        Number { bits: add_bits(self.bits, other.bits) }
    }

    /// The difference, rounded to nearest.
    pub fn minus(self, other: Number) -> (r: Number)
        ensures
            r.bits == difference_bits(self.bits, other.bits),
    {
        Number { bits: subtract_bits(self.bits, other.bits) }
    }

    /// The product, rounded to nearest.
    pub fn times(self, other: Number) -> (r: Number)
        ensures
            r.bits == product_bits(self.bits, other.bits),
    {
        Number { bits: multiply_bits(self.bits, other.bits) }
    }

    /// The quotient, rounded to nearest; dividing by zero gives an infinity or a NaN.
    pub fn divided_by(self, other: Number) -> (r: Number)
        ensures
            r.bits == quotient_bits(self.bits, other.bits),
    {
        Number { bits: divide_bits(self.bits, other.bits) }
    }
}

} // verus!
