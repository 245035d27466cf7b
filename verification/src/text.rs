//! Text as sequences of characters.

use vstd::prelude::*;

verus! {

/// `String::push` appends one character to the end of the string.
pub assume_specification[ std::string::String::push ](text: &mut std::string::String, ch: char)
    ensures
        final(text)@ == old(text)@.push(ch),
;

/// Whether `c` is alphabetic, as Unicode's derived property has it.
pub uninterp spec fn is_letter(c: char) -> bool;

/// Whether `c` is alphabetic or numeric, as Unicode's general categories
/// have it.
pub uninterp spec fn is_letter_or_number(c: char) -> bool;

/// `char::is_alphabetic` answers from tables that are part of the standard
/// library: the same character always gets the same answer.
pub assume_specification[ char::is_alphabetic ](c: char) -> (r: bool)
    ensures
        r == is_letter(c),
;

/// `char::is_alphanumeric` answers from tables that are part of the
/// standard library: the same character always gets the same answer.
pub assume_specification[ char::is_alphanumeric ](c: char) -> (r: bool)
    ensures
        r == is_letter_or_number(c),
;

/// `a - b`, or zero where `b` is the larger.
pub open spec fn distance(a: usize, b: usize) -> usize {
    if a >= b {
        (a - b) as usize
    } else {
        0
    }
}

/// `a - b`, or zero where `b` is the larger.
pub fn minus_or_zero(a: usize, b: usize) -> (r: usize)
    ensures
        r == distance(a, b),
{
    if a >= b {
        a - b
    } else {
        0
    }
}

/// The characters of `text`, in order.
pub fn to_chars(text: &str) -> (r: Vec<char>)
    ensures
        r@ == text@,
{
    let mut out: Vec<char> = Vec::new();
    for c in it: text.chars()
        invariant
            out@ == text@.take(it.index() as int),
            it.seq() == text@,
    {
        out.push(c);
    }
    out
}

/// The characters of `chars` from index `from` up to, not including, `to`.
pub fn substring(chars: &Vec<char>, from: usize, to: usize) -> (r: String)
    requires
        from <= to <= chars.len(),
    ensures
        r@ == chars@.subrange(from as int, to as int),
{
    let mut out = String::new();
    let mut i: usize = from;
    while i < to
        invariant
            from <= i <= to <= chars.len(),
            out@ == chars@.subrange(from as int, i as int),
        decreases to - i,
    {
        out.push(chars[i]);
        i += 1;
    }
    out
}

/// The character that stands for the digit `d`.
pub open spec fn digit_char(d: int) -> char {
    if d == 0 {
        '0'
    } else if d == 1 {
        '1'
    } else if d == 2 {
        '2'
    } else if d == 3 {
        '3'
    } else if d == 4 {
        '4'
    } else if d == 5 {
        '5'
    } else if d == 6 {
        '6'
    } else if d == 7 {
        '7'
    } else if d == 8 {
        '8'
    } else {
        '9'
    }
}

/// The decimal numeral of `n`, without leading zeros.
pub open spec fn decimal_digits(n: nat) -> Seq<char>
    decreases n,
{
    if n < 10 {
        seq![digit_char(n as int)]
    } else {
        decimal_digits(n / 10).push(digit_char((n % 10) as int))
    }
}

/// A decimal numeral of a number below 2<sup>64</sup> has at most twenty digits.
pub proof fn lemma_decimal_is_short(n: nat)
    requires
        n <= 0xFFFF_FFFF_FFFF_FFFF,
    ensures
        1 <= decimal_digits(n).len() <= 20,
{
    reveal_with_fuel(decimal_digits, 21);
}

/// The character that stands for the digit `d`.
fn digit(d: usize) -> (r: char)
    requires
        d < 10,
    ensures
        r == digit_char(d as int),
{
    if d == 0 {
        '0'
    } else if d == 1 {
        '1'
    } else if d == 2 {
        '2'
    } else if d == 3 {
        '3'
    } else if d == 4 {
        '4'
    } else if d == 5 {
        '5'
    } else if d == 6 {
        '6'
    } else if d == 7 {
        '7'
    } else if d == 8 {
        '8'
    } else {
        '9'
    }
}

/// The decimal numeral of `n`.
pub fn decimal(n: usize) -> (r: String)
    ensures
        r@ == decimal_digits(n as nat),
    decreases n,
{
    if n < 10 {
        let mut text = String::new();
        text.push(digit(n));
        assert(text@ =~= seq![digit_char(n as int)]);
        text
    } else {
        let mut text = decimal(n / 10);
        text.push(digit(n % 10));
        text
    }
}

/// `count` times the character `c`.
pub fn repeated(c: char, count: usize) -> (r: String)
    ensures
        r@ == Seq::new(count as nat, |i: int| c),
{
    let mut text = String::new();
    let mut i: usize = 0;
    while i < count
        invariant
            i <= count,
            text@ == Seq::new(i as nat, |j: int| c),
        decreases count - i,
    {
        text.push(c);
        i += 1;
        assert(text@ =~= Seq::new(i as nat, |j: int| c));
    }
    text
}

} // verus!
