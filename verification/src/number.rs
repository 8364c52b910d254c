//! Decimal numbers as text.

use vstd::prelude::*;

use crate::text::chars_of;

verus! {

/// Whether `ch` is a decimal digit.
pub open spec fn is_digit(ch: char) -> bool {
    '0' <= ch <= '9'
}

/// The number that a row of decimal digits writes.
pub open spec fn digits_value(digits: Seq<char>) -> nat
    decreases digits.len(),
{
    if digits.len() == 0 {
        0
    } else {
        10 * digits_value(digits.drop_last()) + (digits.last() as nat - '0' as nat) as nat
    }
}

/// Whether all of `digits` are decimal digits.
pub open spec fn all_digits(digits: Seq<char>) -> bool {
    forall|i: int| 0 <= i < digits.len() ==> is_digit(#[trigger] digits[i])
}

/// `text` without the plus sign before it, if there is one.
pub open spec fn without_plus(text: Seq<char>) -> Seq<char> {
    if text.len() > 0 && text[0] == '+' {
        text.skip(1)
    } else {
        text
    }
}

/// The number that `text` writes: decimal digits, at least one, with at most one plus
/// sign before them, and no more than `limit`.
pub open spec fn decimal_value(text: Seq<char>, limit: nat) -> Option<nat> {
    let digits = without_plus(text);
    if digits.len() > 0 && all_digits(digits) && digits_value(digits) <= limit {
        Some(digits_value(digits))
    } else {
        None
    }
}

/// Why a text writes no number.
#[derive(Clone, Copy, Debug, PartialEq, Eq, Structural)]
pub enum NumberFault {
    /// It holds no digits, or something else among them.
    InvalidDigit,
    /// The number is greater than allowed.
    TooLarge,
}

/// The digits at the start of a text.
pub open spec fn leading_digits(text: Seq<char>) -> Seq<char>
    decreases text.len(),
{
    if text.len() == 0 || !is_digit(text[0]) {
        Seq::empty()
    } else {
        seq![text[0]] + leading_digits(text.skip(1))
    }
}

/// Why `text` writes no number up to `limit`, for one that is not empty: reading it from the
/// left, a number that is too great is seen before what is behind its digits.
pub open spec fn number_fault(text: Seq<char>, limit: nat) -> NumberFault {
    if digits_value(leading_digits(without_plus(text))) > limit {
        NumberFault::TooLarge
    } else {
        NumberFault::InvalidDigit
    }
}

impl NumberFault {
    /// What the user is told.
    pub open spec fn text(self) -> Seq<char> {
        match self {
            NumberFault::InvalidDigit => "invalid digit found in string"@,
            NumberFault::TooLarge => "number too large to fit in target type"@,
        }
    }

    /// What the user is told.
    pub fn message(self) -> (text: String)
        ensures
            text@ == self.text(),
    {
        match self {
            NumberFault::InvalidDigit => "invalid digit found in string".to_string(),
            NumberFault::TooLarge => "number too large to fit in target type".to_string(),
        }
    }
}

/// The decimal digits of `number`, without leading zeros.
pub open spec fn decimal_digits(number: nat) -> Seq<char>
    decreases number,
{
    let digit = ('0' as nat + number % 10) as char;
    if number < 10 {
        seq![digit]
    } else {
        decimal_digits(number / 10).push(digit)
    }
}

/// Reads a decimal number that is at most `limit`.
pub fn parse_decimal(text: &str, limit: u32) -> (result: Option<u32>)
    ensures
        match result {
            Some(number) => decimal_value(text@, limit as nat) == Some(number as nat),
            None => decimal_value(text@, limit as nat) is None,
        },
{
    let chars = chars_of(text);
    let start: usize = if chars.len() > 0 && chars[0] == '+' {
        1
    } else {
        0
    };
    let ghost digits = without_plus(text@);
    assert(digits =~= chars@.skip(start as int));
    if start == chars.len() {
        return None;
    }
    let mut value: u64 = 0;
    let mut i: usize = start;
    while i < chars.len()
        invariant
            start <= i <= chars@.len(),
            chars@ == text@,
            start < chars@.len(),
            digits == without_plus(text@),
            digits == chars@.skip(start as int),
            forall|k: int| 0 <= k < i - start ==> is_digit(#[trigger] digits[k]),
            value == digits_value(digits.take(i - start)),
            value <= limit,
        decreases chars@.len() - i,
    {
        let ch = chars[i];
        assert(digits[i - start] == ch);
        if !('0' <= ch && ch <= '9') {
            assert(!is_digit(digits[i - start]));
            return None;
        }
        value = value * 10 + (ch as u64 - '0' as u64);
        i += 1;
        assert(digits.take(i - start).drop_last() =~= digits.take(i - start - 1));
        if value > limit as u64 {
            proof {
                prefix_value_is_less(digits, i - start);
            }
            return None;
        }
    }
    assert(digits.take(i - start) =~= digits);
    Some(value as u32)
}

/// Finds out why a text writes no number that is at most `limit`.
pub fn find_fault(text: &str, limit: u32) -> (fault: NumberFault)
    ensures
        fault == number_fault(text@, limit as nat),
{
    let chars = chars_of(text);
    let start: usize = if chars.len() > 0 && chars[0] == '+' {
        1
    } else {
        0
    };
    let ghost digits = without_plus(text@);
    assert(digits =~= chars@.skip(start as int));
    let ghost leading = leading_digits(digits);
    let mut value: u64 = 0;
    let mut i: usize = start;
    assert(digits.skip(0) =~= digits);
    assert(leading.take(0) =~= Seq::empty());
    assert(leading =~= leading.take(0) + leading);
    while i < chars.len()
        invariant
            start <= i <= chars@.len(),
            digits == without_plus(text@),
            digits == chars@.skip(start as int),
            leading == leading_digits(digits),
            i - start <= leading.len(),
            leading.skip(i - start) == leading_digits(digits.skip(i - start)),
            value == digits_value(leading.take(i - start)),
            value <= limit,
        decreases chars@.len() - i,
    {
        let ch = chars[i];
        let ghost at = i - start;
        assert(digits.skip(at)[0] == ch);
        if !('0' <= ch && ch <= '9') {
            assert(leading.skip(at).len() == 0);
            assert(leading.take(at) =~= leading);
            return NumberFault::InvalidDigit;
        }
        assert(digits.skip(at).skip(1) =~= digits.skip(at + 1));
        assert(leading.skip(at)[0] == ch);
        assert(leading.skip(at + 1) =~= leading.skip(at).skip(1));
        assert(leading.skip(at).skip(1) =~= leading_digits(digits.skip(at + 1)));
        value = value * 10 + (ch as u64 - '0' as u64);
        i += 1;
        assert(leading.take(at + 1).drop_last() =~= leading.take(at));
        assert(leading.take(at + 1).last() == ch);
        if value > limit as u64 {
            proof {
                prefix_value_is_less(leading, at + 1);
            }
            return NumberFault::TooLarge;
        }
    }
    assert(digits.skip(i - start) =~= Seq::empty());
    assert(leading.skip(i - start).len() == 0);
    assert(leading.take(i - start) =~= leading);
    NumberFault::InvalidDigit
}

/// Writes a number in decimal digits.
pub fn write_decimal(number: u64) -> (text: String)
    ensures
        text@ == decimal_digits(number as nat),
    decreases number,
{
    let mut text = if number < 10 {
        String::new()
    } else {
        write_decimal(number / 10)
    };
    let digit: u8 = (number % 10) as u8;
    text.push((48 + digit) as char);
    assert(number < 10 ==> text@ =~= seq![('0' as nat + number as nat % 10) as char]);
    text
}

/// A beginning of a row of digits writes no greater number than the row.
pub proof fn prefix_value_is_less(digits: Seq<char>, count: int)
    requires
        0 <= count <= digits.len(),
    ensures
        digits_value(digits.take(count)) <= digits_value(digits),
    decreases digits.len() - count,
{
    if count < digits.len() {
        prefix_value_is_less(digits, count + 1);
        assert(digits.take(count + 1).drop_last() =~= digits.take(count));
    } else {
        assert(digits.take(count) =~= digits);
    }
}

/// What is written in decimal digits has at least one, and only digits.
pub proof fn digits_are_digits(number: nat)
    ensures
        decimal_digits(number).len() > 0,
        all_digits(decimal_digits(number)),
{
    lemma_decimal_digits(number);
}

proof fn lemma_decimal_digits(number: nat)
    ensures
        decimal_digits(number).len() > 0,
        all_digits(decimal_digits(number)),
        digits_value(decimal_digits(number)) == number,
    decreases number,
{
    let digit = ('0' as nat + number % 10) as char;
    if number >= 10 {
        lemma_decimal_digits(number / 10);
        assert(decimal_digits(number).drop_last() =~= decimal_digits(number / 10));
    } else {
        assert(decimal_digits(number).drop_last() =~= Seq::<char>::empty());
        assert(digits_value(Seq::<char>::empty()) == 0);
    }
    assert(decimal_digits(number).last() == digit);
    assert(digit as nat == '0' as nat + number % 10);
}

/// Reading what was written gives the number back.
pub proof fn decimal_round_trip(number: nat, limit: nat)
    requires
        number <= limit,
    ensures
        decimal_value(decimal_digits(number), limit) == Some(number),
{
    lemma_decimal_digits(number);
    assert(is_digit(decimal_digits(number)[0]));
}

} // verus!
