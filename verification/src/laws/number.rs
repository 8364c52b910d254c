//! Laws on decimal numbers.

use vstd::prelude::*;

use crate::number::{
    decimal_digits, decimal_value, digits_are_digits, digits_value, is_digit, leading_digits,
    number_fault, without_plus, NumberFault,
};

verus! {

/// Whether all of `text` is made of the digits 0 to 9.
pub open spec fn is_decimal(text: Seq<char>) -> bool {
    forall|i: int| 0 <= i < text.len() ==> '0' <= #[trigger] text[i] <= '9'
}

/// A digit more multiplies the number by ten and adds the digit; no digits write zero.
pub proof fn digit_more_shifts_the_number(digits: Seq<char>, ch: char)
    requires
        '0' <= ch <= '9',
    ensures
        digits_value(Seq::empty()) == 0,
        digits_value(digits.push(ch)) == 10 * digits_value(digits) + (ch as int - 48),
{
    assert(digits.push(ch).drop_last() =~= digits);
}

/// A row of digits is read as its number, with or without a plus sign, unless it is too great.
pub proof fn digits_are_read(digits: Seq<char>, limit: nat)
    requires
        digits.len() > 0,
        is_decimal(digits),
    ensures
        decimal_value(digits, limit) == (if digits_value(digits) <= limit {
            Some(digits_value(digits))
        } else {
            None
        }),
        decimal_value(seq!['+'] + digits, limit) == decimal_value(digits, limit),
{
    assert('0' <= digits[0]);
    assert forall|i: int| 0 <= i < digits.len() implies is_digit(#[trigger] digits[i]) by {
        assert('0' <= digits[i] <= '9');
    }
    assert((seq!['+'] + digits).skip(1) =~= digits);
    assert(without_plus(digits) =~= digits);
}

/// Nothing, a lone plus sign, and a text that holds anything but digits behind its first
/// character, or anything but a digit or a plus sign there, write no number.
pub proof fn other_texts_are_not_read(text: Seq<char>, at: int, limit: nat)
    requires
        0 <= at < text.len(),
        !('0' <= text[at] <= '9'),
        at > 0 || text[0] != '+' || text.len() == 1,
    ensures
        decimal_value(text, limit) is None,
        decimal_value(Seq::empty(), limit) is None,
{
    let digits = without_plus(text);
    if text[0] == '+' {
        if at > 0 {
            assert(digits[at - 1] == text[at]);
            assert(!is_digit(digits[at - 1]));
        }
    } else {
        assert(!is_digit(digits[at]));
    }
}

/// Behind what is no number stands a reason: the digits in front are too great, or something is
/// no digit.
pub proof fn reason_is_in_the_digits(digits: Seq<char>, rest: Seq<char>, limit: nat)
    requires
        is_decimal(digits),
        rest.len() > 0 ==> !('0' <= rest[0] <= '9'),
        digits.len() > 0,
    ensures
        number_fault(digits + rest, limit) == (if digits_value(digits) > limit {
            NumberFault::TooLarge
        } else {
            NumberFault::InvalidDigit
        }),
        number_fault(seq!['+'] + digits + rest, limit) == number_fault(digits + rest, limit),
{
    lemma_leading(digits, rest);
    assert('0' <= digits[0]);
    assert(without_plus(digits + rest) =~= digits + rest);
    assert((seq!['+'] + digits + rest).skip(1) =~= digits + rest);
}

/// A text that begins with neither a digit nor a plus sign has something that is no digit.
pub proof fn reason_without_digits(text: Seq<char>, limit: nat)
    requires
        text.len() > 0,
        !('0' <= text[0] <= '9'),
        text[0] != '+' || text.len() == 1 || !('0' <= text[1] <= '9'),
    ensures
        number_fault(text, limit) is InvalidDigit,
{
    assert(leading_digits(without_plus(text)) =~= Seq::empty());
    assert(digits_value(Seq::<char>::empty()) == 0);
}

proof fn lemma_leading(digits: Seq<char>, rest: Seq<char>)
    requires
        is_decimal(digits),
        rest.len() > 0 ==> !('0' <= rest[0] <= '9'),
    ensures
        leading_digits(digits + rest) == digits,
    decreases digits.len(),
{
    if digits.len() > 0 {
        assert('0' <= digits[0] <= '9');
        let tail = digits.skip(1);
        assert forall|i: int| 0 <= i < tail.len() implies '0' <= #[trigger] tail[i] <= '9' by {
            assert('0' <= digits[i + 1] <= '9');
        }
        assert((digits + rest).skip(1) =~= tail + rest);
        lemma_leading(tail, rest);
        assert(seq![digits[0]] + tail =~= digits);
    } else {
        assert(digits + rest =~= rest);
    }
}

/// A number is written without leading zeros.
pub proof fn no_leading_zeros(number: nat)
    ensures
        number < 10 <==> decimal_digits(number).len() == 1,
        number > 0 ==> decimal_digits(number)[0] != '0',
    decreases number,
{
    digits_are_digits(number);
    if number >= 10 {
        no_leading_zeros(number / 10);
        digits_are_digits(number / 10);
        assert(decimal_digits(number)[0] == decimal_digits(number / 10)[0]);
    } else {
        let digit = ('0' as nat + number % 10) as char;
        assert(digit as nat == '0' as nat + number);
    }
}

/// What is written is made of the digits 0 to 9.
pub proof fn written_numbers_are_decimal(number: nat)
    ensures
        is_decimal(decimal_digits(number)),
{
    digits_are_digits(number);
    assert forall|i: int| 0 <= i < decimal_digits(number).len() implies '0'
        <= #[trigger] decimal_digits(number)[i] <= '9' by {
        assert(is_digit(decimal_digits(number)[i]));
    }
}

} // verus!
