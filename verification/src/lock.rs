//! Whether a device is locked, as `devicectl` tells it.

use vstd::prelude::*;
use vstd::utf8::{decode_utf8, valid_utf8};

use crate::bytes::utf8_text;
use crate::number::{all_digits, digits_value, is_digit, prefix_value_is_less};
use crate::text::{chars_of, text_of};

verus! {

/// The error of the `json` crate.
#[verifier::external_type_specification]
#[verifier::external_body]
pub struct ExJsonError(json::Error);

/// How many digits of a fraction can be counted.
pub const LONGEST_FRACTION: usize = 32768;

/// Why it is not known whether a device is locked.
pub enum LockError {
    /// `devicectl` failed.
    QueryFailed,
    /// The answer is not valid UTF-8.
    NotText,
    /// The answer has a number with so many zeros behind the point that the digits cannot be
    /// counted.
    FractionTooLong,
    /// The answer is not JSON.
    NotJson(json::Error),
    /// The answer does not say whether the passcode is required.
    NoAnswer,
}

impl LockError {
    /// What the user is told where nothing else says why.
    pub fn message(&self) -> (text: Option<&'static str>)
        ensures
            match self {
                LockError::QueryFailed => text matches Some(text) && text@
                    == "Device lock query failed\n"@,
                LockError::FractionTooLong => text matches Some(text) && text@
                    == "Device lock answer has a number with too long a fraction"@,
                _ => text is None,
            },
    {
        match self {
            LockError::QueryFailed => Some("Device lock query failed\n"),
            LockError::FractionTooLong => {
                Some("Device lock answer has a number with too long a fraction")
            },
            _ => None,
        }
    }
}

/// What a member of a member of a JSON text says: `None` where there is no such member or it is
/// neither `true` nor `false`. Where the text is not JSON, the error says whether nothing but
/// its end was wrong.
pub uninterp spec fn json_flag(
    text: Seq<char>,
    outer: Seq<char>,
    inner: Seq<char>,
) -> Result<Option<bool>, bool>;

/// Where a place in a JSON text stands.
#[derive(Clone, Copy, Debug, PartialEq, Eq, Structural)]
pub enum Place {
    Outside,
    InString,
    /// In a string, behind a backslash.
    Escaped,
}

/// Where the place behind `text` stands.
pub open spec fn place_behind(text: Seq<char>) -> Place
    decreases text.len(),
{
    if text.len() == 0 {
        Place::Outside
    } else {
        let ch = text.last();
        match place_behind(text.drop_last()) {
            Place::Outside => if ch == '"' {
                Place::InString
            } else {
                Place::Outside
            },
            Place::InString => if ch == '"' {
                Place::Outside
            } else if ch == '\\' {
                Place::Escaped
            } else {
                Place::InString
            },
            Place::Escaped => Place::InString,
        }
    }
}

/// Whether the point at `at` stands behind a zero that is a whole number.
pub open spec fn is_point_behind_zero(text: Seq<char>, at: int) -> bool {
    &&& 0 < at < text.len()
    &&& text[at] == '.'
    &&& text[at - 1] == '0'
    &&& !(at > 1 && is_digit(text[at - 2]))
}

/// The number that a digit writes.
pub open spec fn digit_value(ch: char) -> int {
    ch as int - '0' as int
}

/// Whether the digits behind the character at `at` reach to `end`, and the last of them is one
/// more than can be counted. The first `LONGEST_FRACTION` of them are counted only if their
/// number fits into 64 bits, and so is the last one behind them.
pub open spec fn goes_too_far(text: Seq<char>, at: int, end: int) -> bool {
    &&& at + 1 + LONGEST_FRACTION <= end < text.len()
    &&& all_digits(text.subrange(at + 1, end + 1))
    &&& digits_value(text.subrange(at + 1, at + 1 + LONGEST_FRACTION)) * 10 + digit_value(text[end])
        <= u64::MAX
}

/// Whether more digits follow the character at `at` than can be counted.
pub open spec fn long_row_after(text: Seq<char>, at: int) -> bool {
    exists|end: int| goes_too_far(text, at, end)
}

/// Whether a number outside of strings has its point at `at` and more digits behind it than can
/// be counted.
pub open spec fn is_long_fraction(text: Seq<char>, at: int) -> bool {
    &&& is_point_behind_zero(text, at)
    &&& place_behind(text.take(at)) is Outside
    &&& long_row_after(text, at)
}

/// Where the first such point stands, from `from` on; the length of the text where there is
/// none.
pub open spec fn first_long_fraction(text: Seq<char>, from: int) -> int
    decreases text.len() - from,
{
    if from >= text.len() || is_long_fraction(text, from) {
        from
    } else {
        first_long_fraction(text, from + 1)
    }
}

/// Whether a text has a number with more digits behind its point than can be counted.
pub open spec fn has_long_fraction(text: Seq<char>) -> bool {
    first_long_fraction(text, 0) < text.len()
}

/// The text up to the first digit that cannot be counted.
pub open spec fn countable(text: Seq<char>) -> Seq<char> {
    text.take(first_long_fraction(text, 0) + 1 + LONGEST_FRACTION)
}

/// Whether reading a text comes to a digit that cannot be counted: there is one, and nothing
/// before it is wrong.
pub open spec fn comes_to_overflow(text: Seq<char>, outer: Seq<char>, inner: Seq<char>) -> bool {
    has_long_fraction(text) && json_flag(countable(text), outer, inner) != Err::<
        Option<bool>,
        bool,
    >(false)
}

/// `json::parse`, then the members `outer` and, in it, `inner`, and `JsonValue::as_bool`; with
/// an error, whether it is `UnexpectedEndOfJson`, the one that is given where the text ends too
/// early. What is JSON is left to the crate; the contract says only that the answer is
/// determined by the text and the two names. The parser reads from the left and counts the
/// digits of a fraction in 16 bits, for as long as the number without its point fits into 64
/// bits. Texts on which that count goes past `LONGEST_FRACTION` are left out.
#[verifier::external_body]
fn read_flag(text: &str, outer: &str, inner: &str) -> (result: Result<
    Option<bool>,
    (json::Error, bool),
>)
    requires
        !comes_to_overflow(text@, outer@, inner@),
    ensures
        match result {
            Ok(flag) => json_flag(text@, outer@, inner@) == Ok::<Option<bool>, bool>(flag),
            Err((_, ran_out)) => json_flag(text@, outer@, inner@) == Err::<Option<bool>, bool>(
                ran_out,
            ),
        },
{
    match json::parse(text) {
        Ok(value) => Ok(value[outer][inner].as_bool()),
        Err(error) => {
            let ran_out = matches!(error, json::Error::UnexpectedEndOfJson);
            Err((error, ran_out))
        },
    }
}

proof fn lemma_great_row(text: Seq<char>, at: int)
    requires
        0 <= at,
        digits_value(text.subrange(at + 1, at + 1 + LONGEST_FRACTION)) * 10 > u64::MAX,
    ensures
        !long_row_after(text, at),
{
    assert forall|end: int| !goes_too_far(text, at, end) by {
        if goes_too_far(text, at, end) {
            assert(is_digit(text.subrange(at + 1, end + 1)[end - at - 1]));
        }
    }
}

/// Finds out whether more digits follow the character at `at` than can be counted.
fn finds_long_row(chars: &Vec<char>, at: usize) -> (found: bool)
    requires
        at < chars@.len(),
    ensures
        found == long_row_after(chars@, at as int),
{
    let total: usize = chars.len();
    if total - at <= LONGEST_FRACTION + 1 {
        return false;
    }
    let ghost row = chars@.subrange(at + 1, at + 1 + LONGEST_FRACTION);
    let mut value: u64 = 0;
    let mut count: usize = 0;
    assert(row.take(0) =~= Seq::empty());
    while count < LONGEST_FRACTION
        invariant
            total == chars@.len(),
            at < total,
            total - at > LONGEST_FRACTION + 1,
            count <= LONGEST_FRACTION,
            row == chars@.subrange(at + 1, at + 1 + LONGEST_FRACTION),
            forall|k: int| at < k <= at + count ==> is_digit(#[trigger] chars@[k]),
            value == digits_value(row.take(count as int)),
        decreases LONGEST_FRACTION - count,
    {
        let ch = chars[at + 1 + count];
        assert(row[count as int] == ch);
        if !('0' <= ch && ch <= '9') {
            assert forall|end: int| !goes_too_far(chars@, at as int, end) by {
                if goes_too_far(chars@, at as int, end) {
                    assert(is_digit(chars@.subrange(at + 1, end + 1)[count as int]));
                }
            }
            return false;
        }
        proof {
            prefix_value_is_less(row, count + 1);
        }
        assert(row.take(count + 1).drop_last() =~= row.take(count as int));
        if value > 1844674407370955161 || (value == 1844674407370955161 && ch > '5') {
            // With this digit the number no longer fits.
            proof {
                lemma_great_row(chars@, at as int);
            }
            return false;
        }
        value = value * 10 + (ch as u64 - '0' as u64);
        count += 1;
    }
    assert(row.take(count as int) =~= row);
    if value > 1844674407370955161 {
        proof {
            lemma_great_row(chars@, at as int);
        }
        return false;
    }
    let mut end: usize = at + 1 + LONGEST_FRACTION;
    while end < total && '0' <= chars[end] && chars[end] <= '9'
        invariant
            total == chars@.len(),
            at + 1 + LONGEST_FRACTION <= end <= total,
            row == chars@.subrange(at + 1, at + 1 + LONGEST_FRACTION),
            value == digits_value(row),
            value <= 1844674407370955161,
            forall|k: int| at < k < end ==> is_digit(#[trigger] chars@[k]),
            forall|k: int| k < end ==> !#[trigger] goes_too_far(chars@, at as int, k),
        decreases total - end,
    {
        if value < 1844674407370955161 || chars[end] <= '5' {
            assert(all_digits(chars@.subrange(at + 1, end + 1)));
            assert(goes_too_far(chars@, at as int, end as int));
            return true;
        }
        assert(!goes_too_far(chars@, at as int, end as int));
        end += 1;
    }
    assert forall|k: int| !goes_too_far(chars@, at as int, k) by {
        if goes_too_far(chars@, at as int, k) && k >= end {
            assert(is_digit(chars@.subrange(at + 1, k + 1)[end - at - 1]));
        }
    }
    false
}

/// Finds the first number outside of strings with more digits behind its point than can be
/// counted.
fn find_long_fraction(chars: &Vec<char>) -> (at: usize)
    ensures
        at == first_long_fraction(chars@, 0),
        at <= chars@.len(),
{
    let total: usize = chars.len();
    let mut place = Place::Outside;
    let mut at: usize = 0;
    assert(chars@.take(0) =~= Seq::empty());
    while at < total
        invariant
            at <= total,
            total == chars@.len(),
            place == place_behind(chars@.take(at as int)),
            first_long_fraction(chars@, 0) == first_long_fraction(chars@, at as int),
        decreases total - at,
    {
        let ch = chars[at];
        if ch == '.' && at > 0 && chars[at - 1] == '0' && !(at > 1 && '0' <= chars[at - 2]
            && chars[at - 2] <= '9') && place == Place::Outside && finds_long_row(chars, at) {
            assert(is_long_fraction(chars@, at as int));
            return at;
        }
        assert(!is_long_fraction(chars@, at as int));
        place =
        match place {
            Place::Outside => if ch == '"' {
                Place::InString
            } else {
                Place::Outside
            },
            Place::InString => if ch == '"' {
                Place::Outside
            } else if ch == '\\' {
                Place::Escaped
            } else {
                Place::InString
            },
            Place::Escaped => Place::InString,
        };
        at += 1;
        assert(chars@.take(at as int).drop_last() =~= chars@.take(at - 1));
    }
    at
}

/// The first long fraction is one, and none stands before it.
pub proof fn long_fraction_is_the_first(text: Seq<char>)
    ensures
        0 <= first_long_fraction(text, 0) <= text.len(),
        first_long_fraction(text, 0) < text.len() ==> is_long_fraction(
            text,
            first_long_fraction(text, 0),
        ),
        forall|k: int|
            0 <= k < first_long_fraction(text, 0) ==> !#[trigger] is_long_fraction(text, k),
{
    lemma_first_long_fraction(text, 0);
}

proof fn lemma_first_long_fraction(text: Seq<char>, from: int)
    requires
        0 <= from <= text.len(),
    ensures
        from <= first_long_fraction(text, from) <= text.len(),
        first_long_fraction(text, from) < text.len() ==> is_long_fraction(
            text,
            first_long_fraction(text, from),
        ),
        forall|k: int|
            from <= k < first_long_fraction(text, from) ==> !#[trigger] is_long_fraction(text, k),
    decreases text.len() - from,
{
    if from < text.len() && !is_long_fraction(text, from) {
        lemma_first_long_fraction(text, from + 1);
    }
}

/// What is left of a text up to the first digit that cannot be counted has no such digit.
pub proof fn countable_text_is_counted(text: Seq<char>)
    requires
        has_long_fraction(text),
    ensures
        !has_long_fraction(countable(text)),
{
    lemma_first_long_fraction(text, 0);
    let at = first_long_fraction(text, 0);
    let far = choose|end: int| goes_too_far(text, at, end);
    let short = countable(text);
    let digits = text.subrange(at + 1, far + 1);
    lemma_first_long_fraction(short, 0);
    let other = first_long_fraction(short, 0);
    if other < short.len() {
        let end = choose|end: int| goes_too_far(short, other, end);
        if other > at {
            assert(is_digit(digits[other - at - 1]));
        } else if other < at {
            assert(short.subrange(other + 1, end + 1) =~= text.subrange(other + 1, end + 1));
            assert(short.subrange(other + 1, other + 1 + LONGEST_FRACTION) =~= text.subrange(
                other + 1,
                other + 1 + LONGEST_FRACTION,
            ));
            assert(goes_too_far(text, other, end));
            assert(short.take(other) =~= text.take(other));
            assert(is_long_fraction(text, other));
        }
    }
}

/// The lock of a device, from what the answer says of the passcode.
pub fn judge_answer(answer: Result<Option<bool>, json::Error>) -> (result: Result<bool, LockError>)
    ensures
        match answer {
            Ok(Some(locked)) => result == Ok::<bool, LockError>(locked),
            Ok(None) => result == Err::<bool, LockError>(LockError::NoAnswer),
            Err(error) => result == Err::<bool, LockError>(LockError::NotJson(error)),
        },
{
    match answer {
        Ok(Some(locked)) => Ok(locked),
        Ok(None) => Err(LockError::NoAnswer),
        Err(error) => Err(LockError::NotJson(error)),
    }
}

/// What a text says of the passcode; `None` where reading it comes to a digit that cannot be
/// counted.
pub open spec fn reading(text: Seq<char>) -> Option<Result<Option<bool>, bool>> {
    if comes_to_overflow(text, "result"@, "passcodeRequired"@) {
        None
    } else {
        Some(json_flag(text, "result"@, "passcodeRequired"@))
    }
}

/// Reads what a text says of the passcode.
fn read_passcode(text: &str) -> (answer: Option<Result<Option<bool>, json::Error>>)
    ensures
        match answer {
            None => reading(text@) is None,
            Some(Ok(flag)) => reading(text@) == Some(Ok::<Option<bool>, bool>(flag)),
            Some(Err(_)) => reading(text@) matches Some(Err(_)),
        },
{
    let chars = chars_of(text);
    let at: usize = find_long_fraction(&chars);
    if at < chars.len() {
        proof {
            lemma_first_long_fraction(text@, 0);
            countable_text_is_counted(text@);
            let far = choose|end: int| goes_too_far(text@, at as int, end);
            assert(goes_too_far(text@, at as int, far));
        }
        let front = text_of(&chars, 0, at + 1 + LONGEST_FRACTION);
        assert(front@ =~= countable(text@));
        match read_flag(front.as_str(), "result", "passcodeRequired") {
            Err((_, false)) => {},
            _ => {
                return None;
            },
        }
    }
    match read_flag(text, "result", "passcodeRequired") {
        Ok(flag) => Some(Ok(flag)),
        Err((error, _)) => Some(Err(error)),
    }
}

/// The lock of a device, from how `devicectl` ended and what it wrote.
pub fn is_locked(success: bool, stdout: &[u8]) -> (result: Result<bool, LockError>)
    ensures
        ({
            let said = reading(decode_utf8(stdout@));
            match result {
                Ok(locked) => success && valid_utf8(stdout@) && said == Some(
                    Ok::<Option<bool>, bool>(Some(locked)),
                ),
                Err(LockError::QueryFailed) => !success,
                Err(LockError::NotText) => success && !valid_utf8(stdout@),
                Err(LockError::FractionTooLong) => success && valid_utf8(stdout@) && said is None,
                Err(LockError::NotJson(_)) => success && valid_utf8(stdout@) && said matches Some(
                    Err(_),
                ),
                Err(LockError::NoAnswer) => success && valid_utf8(stdout@) && said == Some(
                    Ok::<Option<bool>, bool>(None),
                ),
            }
        }),
{
    if !success {
        return Err(LockError::QueryFailed);
    }
    match utf8_text(stdout) {
        Some(text) => match read_passcode(text) {
            Some(answer) => judge_answer(answer),
            None => Err(LockError::FractionTooLong),
        },
        None => Err(LockError::NotText),
    }
}

} // verus!
