//! The number literals of the language: which texts are integer and real
//! literals, and the value of an integer literal.

use vstd::prelude::*;

verus! {

/// Whether the character is a decimal digit.
pub open spec fn is_digit(c: char) -> bool {
    '0' <= c && c <= '9'
}

/// The value of a decimal digit.
pub open spec fn digit_value(c: char) -> nat
    recommends
        is_digit(c),
{
    (c as u32 - '0' as u32) as nat
}

/// Whether the text is made of decimal digits, and of one at least.
pub open spec fn is_decimal(text: Seq<char>) -> bool {
    text.len() > 0 && forall|i: int| 0 <= i < text.len() ==> is_digit(#[trigger] text[i])
}

/// The number that the decimal digits denote.
pub open spec fn decimal_value(digits: Seq<char>) -> nat
    decreases digits.len(),
{
    if digits.len() == 0 {
        0
    } else {
        10 * decimal_value(digits.drop_last()) + digit_value(digits.last())
    }
}

/// The value of an integer literal: the text is made of decimal digits, and
/// the number they denote fits the 128 bits in which integers are kept.
pub open spec fn integer_literal(text: Seq<char>) -> Option<i128> {
    if is_decimal(text) && decimal_value(text) <= i128::MAX {
        Some(decimal_value(text) as i128)
    } else {
        None
    }
}

/// The position of the first character from `start` on that is no digit.
pub open spec fn digits_end(text: Seq<char>, start: int) -> int
    decreases text.len() - start,
{
    if 0 <= start < text.len() && is_digit(text[start]) {
        digits_end(text, start + 1)
    } else {
        start
    }
}

/// Whether an exponent stands from `at` to the end of the text: the letter
/// `e` in either case, a sign or none, and one digit at least.
pub open spec fn is_exponent(text: Seq<char>, at: int) -> bool {
    let digits = if at + 1 < text.len() && (text[at + 1] == '+' || text[at + 1] == '-') {
        at + 2
    } else {
        at + 1
    };
    &&& 0 <= at < text.len()
    &&& (text[at] == 'e' || text[at] == 'E')
    &&& digits_end(text, digits) > digits
    &&& digits_end(text, digits) == text.len()
}

/// Whether the text is a real literal: digits, a point, digits, and an
/// exponent or none.
pub open spec fn is_real_literal(text: Seq<char>) -> bool {
    let point = digits_end(text, 0);
    let fraction_end = digits_end(text, point + 1);
    &&& 0 < point < text.len()
    &&& text[point] == '.'
    &&& point + 1 < fraction_end
    &&& (fraction_end == text.len() || is_exponent(text, fraction_end))
}

/// A text that starts with a given text denotes at least the number that the
/// start denotes.
pub proof fn lemma_decimal_value_of_prefix(digits: Seq<char>, n: int)
    requires
        0 <= n <= digits.len(),
    ensures
        decimal_value(digits.take(n)) <= decimal_value(digits),
    decreases digits.len() - n,
{
    if n == digits.len() {
        assert(digits.take(n) =~= digits);
    } else {
        lemma_decimal_value_of_prefix(digits, n + 1);
        assert(digits.take(n + 1).drop_last() =~= digits.take(n));
    }
}

/// Whether the character is a decimal digit.
pub fn is_digit_char(c: char) -> (result: bool)
    ensures
        result == is_digit(c),
{
    '0' <= c && c <= '9'
}

/// The value of an integer literal, where the text is one.
pub fn parse_integer_literal(text: &str) -> (result: Option<i128>)
    ensures
        result == integer_literal(text@),
{
    let n = text.unicode_len();
    if n == 0 {
        return None;
    }
    let mut value: i128 = 0;
    let mut i: usize = 0;
    while i < n
        invariant
            n == text@.len(),
            i <= n,
            forall|k: int| 0 <= k < i ==> is_digit(#[trigger] text@[k]),
            value == decimal_value(text@.take(i as int)),
            0 <= value,
        decreases n - i,
    {
        let c = text.get_char(i);
        if !is_digit_char(c) {
            return None;
        }
        let digit: i128 = (c as u32 - '0' as u32) as i128;
        proof {
            assert(text@.take(i + 1).drop_last() =~= text@.take(i as int));
            assert(text@.take(i + 1).last() == c);
            lemma_decimal_value_of_prefix(text@, i + 1);
        }
        if value > (i128::MAX - digit) / 10 {
            return None;
        }
        value = 10 * value + digit;
        i += 1;
    }
    assert(text@.take(n as int) =~= text@);
    Some(value)
}

/// The position of the first character from `start` on that is no digit.
fn scan_digits(text: &str, start: usize) -> (result: usize)
    requires
        start <= text@.len(),
    ensures
        result == digits_end(text@, start as int),
        start <= result <= text@.len(),
{
    let n = text.unicode_len();
    let mut i: usize = start;
    while i < n && is_digit_char(text.get_char(i))
        invariant
            n == text@.len(),
            start <= i <= n,
            digits_end(text@, start as int) == digits_end(text@, i as int),
        decreases n - i,
    {
        i += 1;
    }
    i
}

/// Whether the text is a real literal.
pub fn is_real_literal_text(text: &str) -> (result: bool)
    ensures
        result == is_real_literal(text@),
{
    let n = text.unicode_len();
    let point = scan_digits(text, 0);
    if point == 0 || point >= n || text.get_char(point) != '.' {
        return false;
    }
    let fraction_end = scan_digits(text, point + 1);
    if fraction_end <= point + 1 {
        return false;
    }
    if fraction_end == n {
        return true;
    }
    let letter = text.get_char(fraction_end);
    if letter != 'e' && letter != 'E' {
        return false;
    }
    let mut digits = fraction_end + 1;
    if digits < n {
        let sign = text.get_char(digits);
        if sign == '+' || sign == '-' {
            digits += 1;
        }
    }
    let end = scan_digits(text, digits);
    end > digits && end == n
}

} // verus!
