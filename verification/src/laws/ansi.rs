//! Laws on terminal output.

use vstd::prelude::*;

use crate::ansi::{
    escape_len, escape_params, flushed, letter_index, segments_from, starts_escape, style_after,
    visible, Rgb, Style,
};
use crate::laws::number::written_numbers_are_decimal;
use crate::number::{decimal_digits, decimal_round_trip, decimal_value, digits_are_digits};
use crate::text::{split_of_one, split_of_two, split_on};

verus! {

/// The beginning of an escape sequence.
pub open spec fn escape() -> Seq<char> {
    seq!['\u{1b}', '[']
}

/// Whether `text` holds no letter.
pub open spec fn has_no_letter(text: Seq<char>) -> bool {
    forall|i: int|
        0 <= i < text.len() ==> !('A' <= #[trigger] text[i] <= 'Z') && !('a' <= text[i] <= 'z')
}

/// What text that is waiting makes: nothing, or one segment in its colour.
pub open spec fn waiting(style: Style, pending: Seq<char>) -> Seq<(Seq<char>, Rgb)> {
    if pending.len() == 0 {
        Seq::empty()
    } else {
        seq![(pending, style.rgb())]
    }
}

/// The parameters of a style sequence take effect one after the other, as if each had a
/// sequence of its own.
pub proof fn parameters_take_effect_in_turn(style: Style, first: Seq<char>, second: Seq<char>)
    requires
        first.len() > 0,
        second.len() > 0,
    ensures
        style.after_params(first + seq![';'] + second) == style.after_params(first).after_params(
            second,
        ),
{
    split_of_two(first, second, ';');
    lemma_after_all(style, split_on(first, ';'), split_on(second, ';'));
}

proof fn lemma_after_all(style: Style, first: Seq<Seq<char>>, second: Seq<Seq<char>>)
    ensures
        style.after_all(first + second) == style.after_all(first).after_all(second),
    decreases second.len(),
{
    if second.len() == 0 {
        assert(first + second =~= first);
    } else {
        assert((first + second).drop_last() =~= first + second.drop_last());
        assert((first + second).last() == second.last());
        lemma_after_all(style, first, second.drop_last());
    }
}

/// A style sequence without parameters resets the style.
pub proof fn no_parameters_reset(style: Style)
    ensures
        style.after_params(Seq::empty()) == (Style { foreground: 0, bold: false }),
{
}

/// A parameter that writes a code does what the code says: 0 resets the style, 1 and 22 turn
/// bold on and off, 39 and the colours set the foreground, and no other code does anything. A
/// parameter that writes no code does nothing.
pub proof fn parameter_does_what_its_code_says(style: Style, param: Seq<char>)
    requires
        param.len() > 0,
        !param.contains(';'),
    ensures
        ({
            let next = style.after_params(param);
            let code = decimal_value(param, 255);
            &&& code == Some(0nat) ==> next.foreground == 0 && !next.bold
            &&& code == Some(1nat) ==> next.foreground == style.foreground && next.bold
            &&& code == Some(22nat) ==> next.foreground == style.foreground && !next.bold
            &&& code == Some(39nat) ==> next.foreground == 0 && next.bold == style.bold
            &&& forall|colour: nat|
                code == Some(colour) && (30 <= colour <= 37 || 90 <= colour <= 97) ==> {
                    &&& next.foreground == colour
                    &&& next.bold == style.bold
                }
            &&& forall|other: nat|
                code == Some(other) && other > 1 && other != 22 && other != 39 && !(30 <= other
                    <= 37) && !(90 <= other <= 97) ==> next == style
            &&& code is None ==> next == style
        }),
{
    split_of_one(param, ';');
    assert(seq![param].drop_last() =~= Seq::empty());
    assert(style.after_all(Seq::empty()) == style);
    assert(style.after_all(seq![param]) == style.after_param(param));
}

/// Nothing between separators does nothing, unless there is nothing else.
pub proof fn empty_parameter_does_nothing(style: Style, others: Seq<char>)
    requires
        others.len() > 0,
    ensures
        style.after_params(seq![';'] + others) == style.after_params(others),
        style.after_params(others + seq![';']) == style.after_params(others),
        style.after_params(seq![';']) == style,
{
    let empty = Seq::<char>::empty();
    let all = split_on(others, ';');
    split_of_one(empty, ';');
    split_of_two(empty, others, ';');
    split_of_two(others, empty, ';');
    split_of_two(empty, empty, ';');
    assert(empty + seq![';'] + others =~= seq![';'] + others);
    assert(others + seq![';'] + empty =~= others + seq![';']);
    assert(empty + seq![';'] + empty =~= seq![';']);
    assert((all + seq![empty]).drop_last() =~= all);
    lemma_after_empty(style, all);
    lemma_after_empty(style, seq![empty]);
    assert(seq![empty].drop_last() =~= Seq::empty());
    assert(style.after_all(Seq::empty()) == style);
    assert(style.after_all(seq![empty]) == style);
}

proof fn lemma_after_empty(style: Style, all: Seq<Seq<char>>)
    ensures
        style.after_all(seq![Seq::<char>::empty()] + all) == style.after_all(all),
    decreases all.len(),
{
    let empty = Seq::<char>::empty();
    let more = seq![empty] + all;
    if all.len() == 0 {
        assert(more.drop_last() =~= Seq::empty());
        assert(more.last() == empty);
        assert(style.after_all(Seq::empty()) == style);
    } else {
        assert(more.drop_last() =~= seq![empty] + all.drop_last());
        lemma_after_empty(style, all.drop_last());
    }
}

/// The codes are written in decimal digits.
pub proof fn written_code_is_its_code(code: nat)
    requires
        code <= 255,
    ensures
        decimal_value(decimal_digits(code), 255) == Some(code),
        decimal_digits(code).len() > 0,
        !decimal_digits(code).contains(';'),
{
    decimal_round_trip(code, 255);
    digits_are_digits(code);
    written_numbers_are_decimal(code);
    let digits = decimal_digits(code);
    assert forall|i: int| 0 <= i < digits.len() implies digits[i] != ';' by {
        assert('0' <= digits[i] <= '9');
    }
}

/// Behind a reset and a colour in one sequence, text has that colour and is not bold; behind a
/// colour and a reset it has the default.
pub proof fn colour_behind_a_reset_is_set(style: Style, code: nat)
    requires
        30 <= code <= 37 || 90 <= code <= 97,
    ensures
        style.after_params(decimal_digits(0) + seq![';'] + decimal_digits(code)) == (Style {
            foreground: code as int,
            bold: false,
        }),
        style.after_params(decimal_digits(code) + seq![';'] + decimal_digits(0)) == (Style {
            foreground: 0,
            bold: false,
        }),
{
    written_code_is_its_code(0);
    written_code_is_its_code(code);
    let zero = decimal_digits(0);
    let colour = decimal_digits(code);
    parameters_take_effect_in_turn(style, zero, colour);
    parameters_take_effect_in_turn(style, colour, zero);
    parameter_does_what_its_code_says(style, zero);
    parameter_does_what_its_code_says(style, colour);
    parameter_does_what_its_code_says(style.after_params(zero), colour);
    parameter_does_what_its_code_says(style.after_params(colour), zero);
}

/// A sequence with the letter `m` sets the style by its parameters, one with another letter
/// leaves it. Either way it cuts the text before it off and shows nothing itself.
pub proof fn sequence_cuts_the_text(
    style: Style,
    pending: Seq<char>,
    params: Seq<char>,
    letter: char,
    rest: Seq<char>,
)
    requires
        has_no_letter(params),
        'A' <= letter <= 'Z' || 'a' <= letter <= 'z',
    ensures
        ({
            let text = escape() + params + seq![letter] + rest;
            let next = if letter == 'm' {
                style.after_params(params)
            } else {
                style
            };
            &&& segments_from(style, pending, text) == waiting(style, pending) + segments_from(
                next,
                Seq::empty(),
                rest,
            )
            &&& style_after(style, text) == style_after(next, rest)
            &&& visible(text) == visible(rest)
        }),
{
    let text = escape() + params + seq![letter] + rest;
    let body = params + seq![letter] + rest;
    assert(text.skip(2) =~= body);
    lemma_letter_place(params, letter, rest);
    assert(starts_escape(text));
    assert(escape_params(text) =~= params);
    assert(text[2 + params.len() as int] == letter);
    assert(escape_len(text) == 3 + params.len());
    assert(text.skip(escape_len(text)) =~= rest);
    assert(flushed(style, pending) =~= waiting(style, pending));
}

proof fn lemma_letter_place(params: Seq<char>, letter: char, rest: Seq<char>)
    requires
        has_no_letter(params),
        'A' <= letter <= 'Z' || 'a' <= letter <= 'z',
    ensures
        letter_index(params + seq![letter] + rest) == params.len(),
    decreases params.len(),
{
    let body = params + seq![letter] + rest;
    if params.len() > 0 {
        assert(body[0] == params[0]);
        assert(!('A' <= params[0] <= 'Z') && !('a' <= params[0] <= 'z'));
        let tail = params.skip(1);
        assert forall|i: int| 0 <= i < tail.len() implies !('A' <= #[trigger] tail[i] <= 'Z') && !(
        'a' <= tail[i] <= 'z') by {
            assert(!('A' <= params[i + 1] <= 'Z'));
        }
        assert(body.skip(1) =~= tail + seq![letter] + rest);
        lemma_letter_place(tail, letter, rest);
    } else {
        assert(body[0] == letter);
    }
}

/// A sequence without its letter takes up the rest of the text and leaves the style.
pub proof fn open_sequence_takes_the_rest(style: Style, pending: Seq<char>, params: Seq<char>)
    requires
        has_no_letter(params),
    ensures
        segments_from(style, pending, escape() + params) == waiting(style, pending),
        style_after(style, escape() + params) == style,
        visible(escape() + params) == Seq::<char>::empty(),
{
    let text = escape() + params;
    assert(text.skip(2) =~= params);
    lemma_no_letter(params);
    assert(starts_escape(text));
    assert(text.skip(escape_len(text)) =~= Seq::empty());
    assert(flushed(style, pending) =~= waiting(style, pending));
    assert(segments_from(style, Seq::empty(), Seq::empty()) =~= Seq::empty());
    assert(style_after(style, Seq::empty()) == style);
    assert(visible(Seq::empty()) =~= Seq::empty());
    assert(waiting(style, pending) + Seq::empty() =~= waiting(style, pending));
}

proof fn lemma_no_letter(params: Seq<char>)
    requires
        has_no_letter(params),
    ensures
        letter_index(params) == params.len(),
    decreases params.len(),
{
    if params.len() > 0 {
        assert(!('A' <= params[0] <= 'Z') && !('a' <= params[0] <= 'z'));
        let tail = params.skip(1);
        assert forall|i: int| 0 <= i < tail.len() implies !('A' <= #[trigger] tail[i] <= 'Z') && !(
        'a' <= tail[i] <= 'z') by {
            assert(!('A' <= params[i + 1] <= 'Z'));
        }
        lemma_no_letter(tail);
    }
}

/// A character that begins no sequence is text: one that is no escape character, or an escape
/// character without a bracket behind it.
pub proof fn other_characters_are_text(
    style: Style,
    pending: Seq<char>,
    ch: char,
    rest: Seq<char>,
)
    requires
        ch != '\u{1b}' || rest.len() == 0 || rest[0] != '[',
    ensures
        segments_from(style, pending, seq![ch] + rest) == segments_from(
            style,
            pending.push(ch),
            rest,
        ),
        style_after(style, seq![ch] + rest) == style_after(style, rest),
        visible(seq![ch] + rest) == seq![ch] + visible(rest),
        segments_from(style, pending, Seq::empty()) == waiting(style, pending),
        style_after(style, Seq::empty()) == style,
{
    let text = seq![ch] + rest;
    assert(text.skip(1) =~= rest);
    assert(!starts_escape(text)) by {
        if rest.len() > 0 {
            assert(text[1] == rest[0]);
        }
    }
    assert(flushed(style, pending) =~= waiting(style, pending));
}

/// Bold text takes the bright colour of its foreground, and the default colour is green, lighter
/// where it is bold.
pub proof fn bold_colours_are_bright(code: int, bold: bool)
    requires
        30 <= code <= 37,
    ensures
        (Style { foreground: code, bold: true }).rgb() == (Style {
            foreground: code + 60,
            bold,
        }).rgb(),
        (Style { foreground: 0, bold: false }).rgb() == (0u8, 100u8, 0u8),
        (Style { foreground: 0, bold: true }).rgb() == (33u8, 100u8, 33u8),
{
}

/// A part of a colour: the greater value if it is on.
pub open spec fn part(on: bool, more: u8, less: u8) -> u8 {
    if on {
        more
    } else {
        less
    }
}

/// The codes count red, green and blue as bits, darker from 30 on and brighter from 90 on. Black
/// and white are grey in both rows, and the dark blue is lighter than the other dark colours.
pub proof fn codes_count_the_colours(number: int, bold: bool)
    requires
        0 <= number <= 7,
    ensures
        ({
            let red = number % 2 == 1;
            let green = (number / 2) % 2 == 1;
            let blue = number / 4 == 1;
            let dark = (Style { foreground: 30 + number, bold: false }).rgb();
            let bright = (Style { foreground: 90 + number, bold }).rgb();
            &&& number == 0 ==> dark == (25u8, 25u8, 25u8) && bright == (50u8, 50u8, 50u8)
            &&& number == 7 ==> dark == (75u8, 75u8, 75u8)
            &&& number == 4 ==> dark == (40u8, 40u8, 100u8)
            &&& number != 0 && number != 4 && number != 7 ==> dark == (
                part(red, 80, 0),
                part(green, 80, 0),
                part(blue, 80, 0),
            )
            &&& number != 0 ==> bright == (
                part(red, 100, 33),
                part(green, 100, 33),
                part(blue, 100, 33),
            )
        }),
{
}

} // verus!
