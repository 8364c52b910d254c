//! Terminal output with ANSI escape sequences, as pieces of text in one colour each.

use vstd::prelude::*;

use crate::number::{decimal_value, parse_decimal};
use crate::text::{chars_of, concatenated, lemma_concatenated_add, split, split_on, text_of, texts};

verus! {

/// Red, green and blue, each in hundredths of full brightness.
pub type Rgb = (u8, u8, u8);

/// The colour and the weight in which text appears.
#[derive(Clone, Copy, Debug, PartialEq, Eq, Structural)]
pub struct State {
    foreground: u8,
    bold: bool,
}

/// A piece of text in one colour.
pub struct Segment {
    pub text: String,
    pub rgb: Rgb,
}

/// What a state stands for: the code of the foreground colour, 0 for the default one,
/// and the weight.
pub struct Style {
    pub foreground: int,
    pub bold: bool,
}

/// The state before any output.
pub open spec fn plain() -> Style {
    Style { foreground: 0, bold: false }
}

/// The colour of a foreground code.
pub open spec fn code_rgb(code: int, bold: bool) -> Rgb {
    if code == 0 && bold {
        (33, 100, 33)
    } else if code == 30 {
        (25, 25, 25)
    } else if code == 31 {
        (80, 0, 0)
    } else if code == 32 {
        (0, 80, 0)
    } else if code == 33 {
        (80, 80, 0)
    } else if code == 34 {
        (40, 40, 100)
    } else if code == 35 {
        (80, 0, 80)
    } else if code == 36 {
        (0, 80, 80)
    } else if code == 37 {
        (75, 75, 75)
    } else if code == 90 {
        (50, 50, 50)
    } else if code == 91 {
        (100, 33, 33)
    } else if code == 92 {
        (33, 100, 33)
    } else if code == 93 {
        (100, 100, 33)
    } else if code == 94 {
        (33, 33, 100)
    } else if code == 95 {
        (100, 33, 100)
    } else if code == 96 {
        (33, 100, 100)
    } else if code == 97 {
        (100, 100, 100)
    } else {
        (0, 100, 0)
    }
}

impl Style {
    /// The codes that a foreground can have.
    pub open spec fn valid(self) -> bool {
        self.foreground == 0 || 30 <= self.foreground <= 37 || 90 <= self.foreground <= 97
    }

    /// The colour in which text appears; bold text takes the bright colours.
    pub open spec fn rgb(self) -> Rgb {
        if self.bold && 30 <= self.foreground <= 37 {
            code_rgb(self.foreground + 60, self.bold)
        } else {
            code_rgb(self.foreground, self.bold)
        }
    }

    /// The style after one parameter of a style sequence.
    pub open spec fn after_param(self, param: Seq<char>) -> Style {
        match decimal_value(param, 255) {
            Some(code) => if code == 0 {
                plain()
            } else if code == 1 {
                Style { bold: true, ..self }
            } else if code == 22 {
                Style { bold: false, ..self }
            } else if code == 39 {
                Style { foreground: 0, ..self }
            } else if 30 <= code <= 37 || 90 <= code <= 97 {
                Style { foreground: code as int, ..self }
            } else {
                self
            },
            None => self,
        }
    }

    /// The style after several parameters, one after the other.
    pub open spec fn after_all(self, params: Seq<Seq<char>>) -> Style
        decreases params.len(),
    {
        if params.len() == 0 {
            self
        } else {
            self.after_all(params.drop_last()).after_param(params.last())
        }
    }

    /// The style after a style sequence with these parameters; none reset it.
    pub open spec fn after_params(self, params: Seq<char>) -> Style {
        if params.len() == 0 {
            plain()
        } else {
            self.after_all(split_on(params, ';'))
        }
    }
}

/// Whether `ch` is an ASCII letter, the last character of an escape sequence.
pub open spec fn is_letter(ch: char) -> bool {
    'A' <= ch <= 'Z' || 'a' <= ch <= 'z'
}

/// Whether an escape sequence begins at the start of `text`.
pub open spec fn starts_escape(text: Seq<char>) -> bool {
    text.len() >= 2 && text[0] == '\u{1b}' && text[1] == '['
}

/// The index of the first letter of `text`, or the length where there is none.
pub open spec fn letter_index(text: Seq<char>) -> int
    decreases text.len(),
{
    if text.len() == 0 || is_letter(text[0]) {
        0
    } else {
        1 + letter_index(text.skip(1))
    }
}

/// What stands between the opening of an escape sequence and its letter.
pub open spec fn escape_params(text: Seq<char>) -> Seq<char> {
    text.skip(2).take(letter_index(text.skip(2)))
}

/// Whether the escape sequence at the start of `text` has its letter.
pub open spec fn escape_ends(text: Seq<char>) -> bool {
    letter_index(text.skip(2)) < text.skip(2).len()
}

/// The number of characters of the escape sequence at the start of `text`.
pub open spec fn escape_len(text: Seq<char>) -> int {
    if escape_ends(text) {
        3 + letter_index(text.skip(2))
    } else {
        text.len() as int
    }
}

/// The style after the escape sequence at the start of `text`: the letter `m` sets it,
/// every other sequence is passed over.
pub open spec fn after_escape(style: Style, text: Seq<char>) -> Style {
    if escape_ends(text) && text[2 + letter_index(text.skip(2))] == 'm' {
        style.after_params(escape_params(text))
    } else {
        style
    }
}

/// The segment that the text read so far makes, if there is any.
pub open spec fn flushed(style: Style, pending: Seq<char>) -> Seq<(Seq<char>, Rgb)> {
    if pending.len() == 0 {
        Seq::empty()
    } else {
        seq![(pending, style.rgb())]
    }
}

/// The segments of `pending`, which was read already, and of `text` behind it.
pub open spec fn segments_from(style: Style, pending: Seq<char>, text: Seq<char>) -> Seq<
    (Seq<char>, Rgb),
>
    decreases text.len(),
{
    proof {
        lemma_letter_index(text.skip(2));
    }
    if text.len() == 0 {
        flushed(style, pending)
    } else if starts_escape(text) {
        flushed(style, pending) + segments_from(
            after_escape(style, text),
            Seq::empty(),
            text.skip(escape_len(text)),
        )
    } else {
        segments_from(style, pending.push(text[0]), text.skip(1))
    }
}

/// The style behind `text`.
pub open spec fn style_after(style: Style, text: Seq<char>) -> Style
    decreases text.len(),
{
    proof {
        lemma_letter_index(text.skip(2));
    }
    if text.len() == 0 {
        style
    } else if starts_escape(text) {
        style_after(after_escape(style, text), text.skip(escape_len(text)))
    } else {
        style_after(style, text.skip(1))
    }
}

/// `text` without its escape sequences.
pub open spec fn visible(text: Seq<char>) -> Seq<char>
    decreases text.len(),
{
    proof {
        lemma_letter_index(text.skip(2));
    }
    if text.len() == 0 {
        text
    } else if starts_escape(text) {
        visible(text.skip(escape_len(text)))
    } else {
        seq![text[0]] + visible(text.skip(1))
    }
}

/// What a list of segments stands for.
pub open spec fn contents(segments: Seq<Segment>) -> Seq<(Seq<char>, Rgb)> {
    segments.map_values(|segment: Segment| (segment.text@, segment.rgb))
}

impl View for State {
    type V = Style;

    closed spec fn view(&self) -> Style {
        Style { foreground: self.foreground as int, bold: self.bold }
    }
}

impl State {
    #[verifier::type_invariant]
    spec fn inv(self) -> bool {
        self@.valid()
    }

    /// The default colour, not bold.
    pub fn new() -> (state: State)
        ensures
            state@ == plain(),
    {
        State { foreground: 0, bold: false }
    }

    /// The colour in which text appears.
    pub fn rgb(&self) -> (rgb: Rgb)
        ensures
            rgb == self@.rgb(),
            self@.valid(),
    {
        proof {
            use_type_invariant(self);
        }
        let code: u8 = if self.bold && 30 <= self.foreground && self.foreground <= 37 {
            self.foreground + 60
        } else {
            self.foreground
        };
        match code {
            0 => if self.bold {
                (33, 100, 33)
            } else {
                (0, 100, 0)
            },
            30 => (25, 25, 25),
            31 => (80, 0, 0),
            32 => (0, 80, 0),
            33 => (80, 80, 0),
            34 => (40, 40, 100),
            35 => (80, 0, 80),
            36 => (0, 80, 80),
            37 => (75, 75, 75),
            90 => (50, 50, 50),
            91 => (100, 33, 33),
            92 => (33, 100, 33),
            93 => (100, 100, 33),
            94 => (33, 33, 100),
            95 => (100, 33, 100),
            96 => (33, 100, 100),
            97 => (100, 100, 100),
            _ => (0, 100, 0),
        }
    }

    /// Applies one parameter of a style sequence; what is no known code changes nothing.
    fn apply_param(&mut self, param: &str)
        ensures
            final(self)@ == old(self)@.after_param(param@),
    {
        let foreground: u8 = self.foreground;
        let bold: bool = self.bold;
        proof {
            use_type_invariant(&*self);
        }
        let next: State = match parse_decimal(param, 255) {
            Some(code) => {
                if code == 0 {
                    State { foreground: 0, bold: false }
                } else if code == 1 {
                    State { foreground, bold: true }
                } else if code == 22 {
                    State { foreground, bold: false }
                } else if code == 39 {
                    State { foreground: 0, bold }
                } else if (30 <= code && code <= 37) || (90 <= code && code <= 97) {
                    State { foreground: code as u8, bold }
                } else {
                    State { foreground, bold }
                }
            },
            None => State { foreground, bold },
        };
        *self = next;
    }

    /// Applies the parameters of a style sequence; none reset the style.
    fn apply_params(&mut self, params: &str)
        ensures
            final(self)@ == old(self)@.after_params(params@),
    {
        if params.is_empty() {
            *self = State::new();
            return;
        }
        let list = split(params, ';');
        let ghost all = texts(list@);
        let mut i: usize = 0;
        while i < list.len()
            invariant
                i <= list@.len(),
                all == texts(list@),
                self@ == old(self)@.after_all(all.take(i as int)),
            decreases list@.len() - i,
        {
            self.apply_param(list[i].as_str());
            i += 1;
            assert(all.take(i as int).drop_last() =~= all.take(i - 1));
            assert(all[i - 1] == list@[i - 1]@);
        }
        assert(all.take(i as int) =~= all);
    }
}

impl Segment {
    fn push_onto(segments: &mut Vec<Segment>, text: String, rgb: Rgb)
        ensures
            contents(final(segments)@) == contents(old(segments)@).push((text@, rgb)),
    {
        segments.push(Segment { text, rgb });
        assert(contents(segments@) =~= contents(old(segments)@).push((text@, rgb)));
    }
}

fn letter(ch: char) -> (result: bool)
    ensures
        result == is_letter(ch),
{
    ('A' <= ch && ch <= 'Z') || ('a' <= ch && ch <= 'z')
}

/// Cuts `input` into pieces of one colour each. The escape sequences are taken out; the
/// state carries the style over to the next input.
pub fn parse(state: &mut State, input: &str) -> (segments: Vec<Segment>)
    ensures
        contents(segments@) == segments_from(old(state)@, Seq::empty(), input@),
        final(state)@ == style_after(old(state)@, input@),
        final(state)@.valid(),
{
    let chars = chars_of(input);
    let mut segments: Vec<Segment> = Vec::new();
    let mut current_text = String::new();
    let mut i: usize = 0;
    let ghost all = segments_from(old(state)@, Seq::empty(), input@);
    let ghost last = style_after(old(state)@, input@);
    assert(chars@.skip(0) =~= input@);
    assert(contents(segments@) =~= Seq::empty());
    assert(all =~= contents(segments@) + all);
    while i < chars.len()
        invariant
            i <= chars@.len(),
            chars@ == input@,
            all == contents(segments@) + segments_from(state@, current_text@, chars@.skip(i as int)),
            last == style_after(state@, chars@.skip(i as int)),
        decreases chars@.len() - i,
    {
        let ghost rest = chars@.skip(i as int);
        if chars[i] == '\u{1b}' && chars.len() - i >= 2 && chars[i + 1] == '[' {
            let ghost done = contents(segments@);
            let ghost pending = current_text@;
            let ghost style = state@;
            if !current_text.as_str().is_empty() {
                let rgb = state.rgb();
                Segment::push_onto(&mut segments, current_text, rgb);
                current_text = String::new();
            }
            assert(contents(segments@) =~= done + flushed(style, pending));
            i += 2;
            let start: usize = i;
            let ghost body = rest.skip(2);
            assert(body =~= chars@.skip(start as int));
            while i < chars.len() && !letter(chars[i])
                invariant
                    start <= i <= chars@.len(),
                    body == chars@.skip(start as int),
                    letter_index(body) == i - start + letter_index(chars@.skip(i as int)),
                decreases chars@.len() - i,
            {
                assert(chars@.skip(i as int).skip(1) =~= chars@.skip(i + 1));
                i += 1;
            }
            if i < chars.len() {
                assert(letter_index(body) == i - start);
                assert(escape_params(rest) =~= chars@.subrange(start as int, i as int));
                if chars[i] == 'm' {
                    let params = text_of(&chars, start, i);
                    state.apply_params(params.as_str());
                }
                i += 1;
            } else {
                assert(letter_index(body) == body.len());
            }
            assert(state@ == after_escape(style, rest));
            assert(rest.skip(escape_len(rest)) =~= chars@.skip(i as int));
            assert(current_text@ =~= Seq::empty());
            let ghost tail = segments_from(state@, current_text@, chars@.skip(i as int));
            assert(done + (flushed(style, pending) + tail) =~= contents(segments@) + tail);
        } else {
            current_text.push(chars[i]);
            i += 1;
            assert(rest.skip(1) =~= chars@.skip(i as int));
        }
    }
    assert(chars@.skip(i as int) =~= Seq::<char>::empty());
    let rgb = state.rgb();
    if !current_text.as_str().is_empty() {
        Segment::push_onto(&mut segments, current_text, rgb);
    }
    segments
}

/// The texts of segments.
pub open spec fn segment_texts(segments: Seq<(Seq<char>, Rgb)>) -> Seq<Seq<char>> {
    segments.map_values(|segment: (Seq<char>, Rgb)| segment.0)
}

/// Every character of `text` in the same colour.
pub open spec fn painted(text: Seq<char>, rgb: Rgb) -> Seq<(char, Rgb)> {
    text.map_values(|ch: char| (ch, rgb))
}

/// The characters of segments, each with its colour.
pub open spec fn spread(segments: Seq<(Seq<char>, Rgb)>) -> Seq<(char, Rgb)>
    decreases segments.len(),
{
    if segments.len() == 0 {
        Seq::empty()
    } else {
        spread(segments.drop_last()) + painted(segments.last().0, segments.last().1)
    }
}

/// The visible characters of `text`, each with the colour that the sequences before it set.
pub open spec fn coloured(style: Style, text: Seq<char>) -> Seq<(char, Rgb)>
    decreases text.len(),
{
    proof {
        lemma_letter_index(text.skip(2));
    }
    if text.len() == 0 {
        Seq::empty()
    } else if starts_escape(text) {
        coloured(after_escape(style, text), text.skip(escape_len(text)))
    } else {
        seq![(text[0], style.rgb())] + coloured(style, text.skip(1))
    }
}

/// Whether every segment holds text.
pub open spec fn none_empty(segments: Seq<(Seq<char>, Rgb)>) -> bool {
    forall|i: int| 0 <= i < segments.len() ==> (#[trigger] segments[i]).0.len() > 0
}

/// Whether an escape sequence that begins in `text` lacks its letter.
pub open spec fn ends_in_escape(text: Seq<char>) -> bool
    decreases text.len(),
{
    proof {
        lemma_letter_index(text.skip(2));
    }
    if text.len() == 0 {
        false
    } else if starts_escape(text) {
        !escape_ends(text) || ends_in_escape(text.skip(escape_len(text)))
    } else {
        ends_in_escape(text.skip(1))
    }
}

/// Whether the border between `first` and `second` cuts no escape sequence in two.
pub open spec fn cuts_no_escape(first: Seq<char>, second: Seq<char>) -> bool {
    second.len() == 0 || {
        &&& !ends_in_escape(first)
        &&& !(first.len() > 0 && first.last() == '\u{1b}' && second[0] == '[')
    }
}

/// The segments hold the text without its escape sequences, and nothing else.
pub proof fn segments_hold_visible_text(style: Style, text: Seq<char>)
    ensures
        concatenated(segment_texts(segments_from(style, Seq::empty(), text))) == visible(text),
{
    lemma_segments_text(style, Seq::empty(), text);
    assert(Seq::<char>::empty() + visible(text) =~= visible(text));
}

/// Every visible character has the colour that the sequences before it set.
pub proof fn segments_have_the_set_colours(style: Style, text: Seq<char>)
    ensures
        spread(segments_from(style, Seq::empty(), text)) == coloured(style, text),
{
    lemma_segments_spread(style, Seq::empty(), text);
    assert(painted(Seq::empty(), style.rgb()) + coloured(style, text) =~= coloured(style, text));
}

/// No segment is empty.
pub proof fn segments_are_not_empty(style: Style, pending: Seq<char>, text: Seq<char>)
    ensures
        none_empty(segments_from(style, pending, text)),
    decreases text.len(),
{
    lemma_letter_index(text.skip(2));
    if text.len() == 0 {
    } else if starts_escape(text) {
        let tail = segments_from(
            after_escape(style, text),
            Seq::empty(),
            text.skip(escape_len(text)),
        );
        segments_are_not_empty(
            after_escape(style, text),
            Seq::empty(),
            text.skip(escape_len(text)),
        );
        assert(none_empty(flushed(style, pending) + tail));
    } else {
        segments_are_not_empty(style, pending.push(text[0]), text.skip(1));
    }
}

/// Text without escape sequences keeps the style and makes one segment.
pub proof fn plain_text_is_one_segment(style: Style, text: Seq<char>)
    requires
        forall|i: int| 0 <= i <= text.len() ==> !starts_escape(#[trigger] text.skip(i)),
    ensures
        segments_from(style, Seq::empty(), text) == flushed(style, text),
        style_after(style, text) == style,
        visible(text) == text,
{
    lemma_plain(style, Seq::empty(), text);
    assert(Seq::<char>::empty() + text =~= text);
}

/// Output that arrives in two parts has the style, the visible text and the colours that it
/// has in one, where no escape sequence lies across the border.
pub proof fn style_carries_over(style: Style, first: Seq<char>, second: Seq<char>)
    requires
        cuts_no_escape(first, second),
    ensures
        style_after(style, first + second) == style_after(style_after(style, first), second),
        visible(first + second) == visible(first) + visible(second),
        coloured(style, first + second) == coloured(style, first) + coloured(
            style_after(style, first),
            second,
        ),
    decreases first.len(),
{
    let both = first + second;
    lemma_letter_index(first.skip(2));
    let behind = style_after(style, first);
    if second.len() == 0 {
        assert(both =~= first);
        assert(coloured(style, first) + coloured(behind, second) =~= coloured(style, first));
        assert(visible(first) + visible(second) =~= visible(first));
    } else if first.len() == 0 {
        assert(both =~= second);
        assert(coloured(style, first) + coloured(behind, second) =~= coloured(style, second));
        assert(visible(first) + visible(second) =~= visible(second));
    } else if starts_escape(first) {
        lemma_letter_index_extends(first.skip(2), second);
        assert(both.skip(2) =~= first.skip(2) + second);
        assert(escape_params(both) =~= escape_params(first));
        let len = escape_len(first);
        assert(both.skip(len) =~= first.skip(len) + second);
        style_carries_over(after_escape(style, first), first.skip(len), second);
    } else {
        assert(!starts_escape(both)) by {
            if first.len() == 1 {
                assert(both[1] == second[0]);
            }
        }
        assert(both.skip(1) =~= first.skip(1) + second);
        style_carries_over(style, first.skip(1), second);
        assert(seq![first[0]] + (visible(first.skip(1)) + visible(second)) =~= (seq![first[0]]
            + visible(first.skip(1))) + visible(second));
        assert(seq![(first[0], style.rgb())] + (coloured(style, first.skip(1)) + coloured(
            behind,
            second,
        )) =~= (seq![(first[0], style.rgb())] + coloured(style, first.skip(1))) + coloured(
            behind,
            second,
        ));
    }
}

/// A style that starts out with a known code keeps to the known codes.
pub proof fn styles_stay_valid(style: Style, text: Seq<char>)
    requires
        style.valid(),
    ensures
        style_after(style, text).valid(),
    decreases text.len(),
{
    lemma_letter_index(text.skip(2));
    if text.len() == 0 {
    } else if starts_escape(text) {
        lemma_params_valid(style, split_on(escape_params(text), ';'));
        styles_stay_valid(after_escape(style, text), text.skip(escape_len(text)));
    } else {
        styles_stay_valid(style, text.skip(1));
    }
}

proof fn lemma_params_valid(style: Style, params: Seq<Seq<char>>)
    requires
        style.valid(),
    ensures
        style.after_all(params).valid(),
    decreases params.len(),
{
    if params.len() > 0 {
        lemma_params_valid(style, params.drop_last());
    }
}

proof fn lemma_letter_index_extends(text: Seq<char>, more: Seq<char>)
    requires
        letter_index(text) < text.len(),
    ensures
        letter_index(text + more) == letter_index(text),
    decreases text.len(),
{
    if text.len() > 0 && !is_letter(text[0]) {
        assert((text + more).skip(1) =~= text.skip(1) + more);
        lemma_letter_index_extends(text.skip(1), more);
    }
}

proof fn lemma_plain(style: Style, pending: Seq<char>, text: Seq<char>)
    requires
        forall|i: int| 0 <= i <= text.len() ==> !starts_escape(#[trigger] text.skip(i)),
    ensures
        segments_from(style, pending, text) == flushed(style, pending + text),
        style_after(style, text) == style,
        visible(text) == text,
    decreases text.len(),
{
    if text.len() == 0 {
        assert(pending + text =~= pending);
    } else {
        assert(text.skip(0) =~= text);
        let rest = text.skip(1);
        assert forall|i: int| 0 <= i <= rest.len() implies !starts_escape(#[trigger] rest.skip(i)) by {
            assert(rest.skip(i) =~= text.skip(i + 1));
        }
        lemma_plain(style, pending.push(text[0]), rest);
        assert(pending.push(text[0]) + rest =~= pending + text);
        assert(seq![text[0]] + rest =~= text);
    }
}

proof fn lemma_spread_add(first: Seq<(Seq<char>, Rgb)>, second: Seq<(Seq<char>, Rgb)>)
    ensures
        spread(first + second) == spread(first) + spread(second),
    decreases second.len(),
{
    if second.len() == 0 {
        assert(first + second =~= first);
        assert(spread(first) + spread(second) =~= spread(first));
    } else {
        assert((first + second).drop_last() =~= first + second.drop_last());
        lemma_spread_add(first, second.drop_last());
        assert(spread(first) + spread(second) =~= spread(first) + spread(second.drop_last())
            + painted(second.last().0, second.last().1));
    }
}

proof fn lemma_segments_spread(style: Style, pending: Seq<char>, text: Seq<char>)
    ensures
        spread(segments_from(style, pending, text)) == painted(pending, style.rgb()) + coloured(
            style,
            text,
        ),
    decreases text.len(),
{
    lemma_letter_index(text.skip(2));
    let rgb = style.rgb();
    let front = flushed(style, pending);
    if text.len() == 0 || starts_escape(text) {
        assert(spread(front) =~= painted(pending, rgb)) by {
            if pending.len() > 0 {
                assert(front.drop_last() =~= Seq::empty());
                assert(spread(Seq::empty()) =~= Seq::empty());
            }
        }
    }
    if text.len() == 0 {
        assert(painted(pending, rgb) + coloured(style, text) =~= painted(pending, rgb));
    } else if starts_escape(text) {
        let next = after_escape(style, text);
        let rest = text.skip(escape_len(text));
        lemma_segments_spread(next, Seq::empty(), rest);
        lemma_spread_add(front, segments_from(next, Seq::empty(), rest));
        assert(painted(Seq::empty(), next.rgb()) + coloured(next, rest) =~= coloured(next, rest));
    } else {
        lemma_segments_spread(style, pending.push(text[0]), text.skip(1));
        assert(painted(pending.push(text[0]), rgb) + coloured(style, text.skip(1)) =~= painted(
            pending,
            rgb,
        ) + coloured(style, text));
    }
}

proof fn lemma_segments_text(style: Style, pending: Seq<char>, text: Seq<char>)
    ensures
        concatenated(segment_texts(segments_from(style, pending, text))) == pending + visible(text),
    decreases text.len(),
{
    lemma_letter_index(text.skip(2));
    let front = flushed(style, pending);
    if text.len() == 0 || starts_escape(text) {
        assert(concatenated(segment_texts(front)) =~= pending) by {
            if pending.len() > 0 {
                assert(segment_texts(front).drop_last() =~= Seq::empty());
                assert(concatenated(Seq::<Seq<char>>::empty()) =~= Seq::empty());
            }
        }
    }
    if text.len() == 0 {
        assert(pending + visible(text) =~= pending);
    } else if starts_escape(text) {
        let next = after_escape(style, text);
        let rest = text.skip(escape_len(text));
        let tail = segments_from(next, Seq::empty(), rest);
        lemma_segments_text(next, Seq::empty(), rest);
        lemma_concatenated_add(segment_texts(front), segment_texts(tail));
        assert(segment_texts(front + tail) =~= segment_texts(front) + segment_texts(tail));
        assert(Seq::<char>::empty() + visible(rest) =~= visible(rest));
    } else {
        lemma_segments_text(style, pending.push(text[0]), text.skip(1));
        assert(pending.push(text[0]) + visible(text.skip(1)) =~= pending + visible(text));
    }
}

/// The first letter stands in the text or, where there is none, at its end.
pub proof fn lemma_letter_index(text: Seq<char>)
    ensures
        0 <= letter_index(text) <= text.len(),
    decreases text.len(),
{
    if text.len() > 0 && !is_letter(text[0]) {
        lemma_letter_index(text.skip(1));
    }
}

} // verus!
