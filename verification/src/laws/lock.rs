//! Laws on the lock of a device.

use vstd::prelude::*;

use crate::lock::{
    countable, first_long_fraction, goes_too_far, has_long_fraction, is_long_fraction, json_flag,
    long_fraction_is_the_first, place_behind, reading,
};
use crate::number::{digits_value, is_digit};

verus! {

/// A string reaches from its quote to the next quote that no backslash stands before; the
/// character behind a backslash belongs to the string whatever it is.
pub proof fn strings_reach_from_quote_to_quote(front: Seq<char>, inner: Seq<char>, any: char)
    requires
        place_behind(front) is Outside,
        !inner.contains('"'),
        !inner.contains('\\'),
    ensures
        place_behind(Seq::empty()) is Outside,
        any != '"' ==> place_behind(front.push(any)) is Outside,
        place_behind(front.push('"') + inner) is InString,
        place_behind((front.push('"') + inner).push('\\').push(any)) is InString,
        place_behind((front.push('"') + inner).push('"')) is Outside,
    decreases inner.len(),
{
    assert(front.push(any).drop_last() =~= front);
    assert(front.push('"').drop_last() =~= front);
    let text = front.push('"') + inner;
    if inner.len() == 0 {
        assert(text =~= front.push('"'));
    } else {
        let rest = inner.drop_last();
        assert(inner.contains(inner[inner.len() - 1]));
        assert(!rest.contains('"')) by {
            if rest.contains('"') {
                let i = choose|i: int| 0 <= i < rest.len() && rest[i] == '"';
                assert(inner[i] == '"');
            }
        }
        assert(!rest.contains('\\')) by {
            if rest.contains('\\') {
                let i = choose|i: int| 0 <= i < rest.len() && rest[i] == '\\';
                assert(inner[i] == '\\');
            }
        }
        strings_reach_from_quote_to_quote(front, rest, any);
        assert(text.drop_last() =~= front.push('"') + rest);
        assert(text.last() == inner.last());
    }
    assert(text.push('"').drop_last() =~= text);
    assert(text.push('\\').drop_last() =~= text);
    assert(place_behind(text.push('\\')) is Escaped);
    assert(text.push('\\').push(any).drop_last() =~= text.push('\\'));
    assert(place_behind(text.push('\\').push(any)) is InString);
}

/// An answer without a point, and every short one, is read as it is.
pub proof fn plain_answers_are_read(text: Seq<char>)
    requires
        text.len() <= 32770 || !text.contains('.'),
    ensures
        reading(text) == Some(json_flag(text, "result"@, "passcodeRequired"@)),
{
    long_fraction_is_the_first(text);
    let at = first_long_fraction(text, 0);
    if at < text.len() {
        assert(text.contains(text[at]));
        let end = choose|end: int| goes_too_far(text, at, end);
        assert(goes_too_far(text, at, end));
    }
}

/// A number is left out only if it is a lone zero outside of strings, with a point and more
/// digits behind it than can be counted, which fit into 64 bits when the last of them stands
/// behind the first that can be counted.
pub proof fn long_fractions_stand_behind_a_zero(text: Seq<char>) -> (places: (int, int))
    requires
        has_long_fraction(text),
    ensures
        ({
            let (at, end) = places;
            &&& 0 < at < text.len()
            &&& text[at - 1] == '0' && text[at] == '.'
            &&& at > 1 ==> !is_digit(text[at - 2])
            &&& place_behind(text.take(at)) is Outside
            &&& at + 32768 < end < text.len()
            &&& forall|k: int| at < k <= end ==> is_digit(#[trigger] text[k])
            &&& digits_value(text.subrange(at + 1, at + 32769)) * 10 + (text[end] as int
                - '0' as int) <= u64::MAX
        }),
{
    long_fraction_is_the_first(text);
    let at = first_long_fraction(text, 0);
    let end = choose|end: int| goes_too_far(text, at, end);
    assert(goes_too_far(text, at, end));
    assert forall|k: int| at < k <= end implies is_digit(#[trigger] text[k]) by {
        assert(is_digit(text.subrange(at + 1, end + 1)[k - at - 1]));
    }
    (at, end)
}

/// A lone zero outside of strings with a point and more digits behind it than can be counted is
/// not read past the last that can, unless something before that is wrong: where the digits fit
/// into 64 bits when the last of them stands behind the first that can be counted.
pub proof fn long_fractions_are_not_read(
    front: Seq<char>,
    row: Seq<char>,
    more: Seq<char>,
    last: char,
    back: Seq<char>,
)
    requires
        place_behind(front) is Outside,
        front.len() > 0 ==> !is_digit(front.last()),
        row.len() == 32768,
        forall|i: int| 0 <= i < row.len() ==> is_digit(#[trigger] row[i]),
        forall|i: int| 0 <= i < more.len() ==> is_digit(#[trigger] more[i]),
        is_digit(last),
        digits_value(row) * 10 + (last as int - '0' as int) <= u64::MAX,
        !has_long_fraction(front + seq!['0', '.'] + row),
    ensures
        ({
            let short = front + seq!['0', '.'] + row;
            let text = short + more + seq![last] + back;
            if json_flag(short, "result"@, "passcodeRequired"@) == Err::<Option<bool>, bool>(false) {
                reading(text) == Some(json_flag(text, "result"@, "passcodeRequired"@))
            } else {
                reading(text) is None
            }
        }),
{
    let short = front + seq!['0', '.'] + row;
    let text = short + more + seq![last] + back;
    let point: int = front.len() as int + 1;
    let end: int = point + 1 + 32768 + more.len();
    assert(text[point] == '.');
    assert(text[point - 1] == '0');
    assert(text.take(point) =~= front.push('0'));
    strings_reach_from_quote_to_quote(front, Seq::empty(), '0');
    assert(text.subrange(point + 1, point + 1 + 32768) =~= row);
    assert(text[end] == last);
    assert forall|i: int| 0 <= i < text.subrange(point + 1, end + 1).len() implies is_digit(
        #[trigger] text.subrange(point + 1, end + 1)[i],
    ) by {
        if i < row.len() {
            assert(text[point + 1 + i] == row[i]);
        } else if i < row.len() + more.len() {
            assert(text[point + 1 + i] == more[i - row.len()]);
        }
    }
    assert(goes_too_far(text, point, end));
    assert(point > 1 ==> text[point - 2] == front.last());
    assert(is_long_fraction(text, point));
    long_fraction_is_the_first(text);
    let at = first_long_fraction(text, 0);
    if at < point {
        let far = choose|far: int| goes_too_far(text, at, far);
        assert(goes_too_far(text, at, far));
        let digits = text.subrange(at + 1, far + 1);
        if far >= point {
            assert(is_digit(digits[point - at - 1]));
        }
        assert(short.subrange(at + 1, far + 1) =~= digits);
        assert(short.subrange(at + 1, at + 1 + 32768) =~= text.subrange(at + 1, at + 1 + 32768));
        assert(goes_too_far(short, at, far));
        assert(short.take(at) =~= text.take(at));
        assert(is_long_fraction(short, at));
        long_fraction_is_the_first(short);
    }
    assert(countable(text) =~= short);
}

} // verus!
