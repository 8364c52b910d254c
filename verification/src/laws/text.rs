//! Laws on text.

use vstd::prelude::*;

use crate::rewrite::replacing_nothing_changes_nothing;
use crate::text::{
    before_last, concatenated, first_index, is_white_space, joined, lines, occurs, occurs_at,
    precedes, replaced, split_of_one, split_of_two, split_on, texts, trimmed, without_return, words,
};

verus! {

/// Whether all of `text` is white space.
pub open spec fn is_blank(text: Seq<char>) -> bool {
    forall|i: int| 0 <= i < text.len() ==> is_white_space(#[trigger] text[i])
}

/// Whether none of `text` is white space.
pub open spec fn has_no_blank(text: Seq<char>) -> bool {
    forall|i: int| 0 <= i < text.len() ==> !is_white_space(#[trigger] text[i])
}

/// A pattern occurs wherever something stands before it and something behind it.
pub proof fn pattern_between_texts_occurs(front: Seq<char>, pattern: Seq<char>, back: Seq<char>)
    ensures
        occurs(front + pattern + back, pattern),
{
    let text = front + pattern + back;
    assert(text.subrange(front.len() as int, (front.len() + pattern.len()) as int) =~= pattern);
    assert(occurs_at(text, pattern, front.len() as int));
}

/// The texts of a list are those of its items, in order.
pub proof fn texts_are_those_of_the_items(list: Seq<String>, i: int)
    requires
        0 <= i < list.len(),
    ensures
        texts(list).len() == list.len(),
        texts(list)[i] == list[i]@,
{
}

/// A pattern that occurs has something before it and something behind it.
pub proof fn occurrence_parts_the_text(text: Seq<char>, pattern: Seq<char>) -> (parts: (
    Seq<char>,
    Seq<char>,
))
    requires
        occurs(text, pattern),
    ensures
        text == parts.0 + pattern + parts.1,
{
    let at = choose|at: int| occurs_at(text, pattern, at);
    let front = text.take(at);
    let back = text.skip(at + pattern.len());
    assert(text.subrange(at, at + pattern.len()) == pattern);
    assert(text =~= front + pattern + back);
    (front, back)
}

/// The first occurrence of a pattern is replaced, and what stands behind it is replaced on its
/// own. What stands before it stays.
pub proof fn first_occurrence_is_replaced(
    front: Seq<char>,
    from: Seq<char>,
    back: Seq<char>,
    to: Seq<char>,
)
    requires
        from.len() > 0,
        forall|k: int|
            0 <= k < front.len() ==> !#[trigger] occurs_at(front + from + back, from, k),
    ensures
        replaced(front + from + back, from, to) == front + to + replaced(back, from, to),
    decreases front.len(),
{
    let text = front + from + back;
    if front.len() == 0 {
        assert(text.subrange(0, from.len() as int) =~= from);
        assert(occurs_at(text, from, 0));
        assert(text.skip(from.len() as int) =~= back);
        assert(front + to + replaced(back, from, to) =~= to + replaced(back, from, to));
    } else {
        assert(!occurs_at(text, from, 0));
        let rest = front.skip(1);
        assert(text.skip(1) =~= rest + from + back);
        assert forall|k: int| 0 <= k < rest.len() implies !#[trigger] occurs_at(
            rest + from + back,
            from,
            k,
        ) by {
            assert((rest + from + back).subrange(k, k + from.len()) =~= text.subrange(
                k + 1,
                k + 1 + from.len(),
            ));
            assert(!occurs_at(text, from, k + 1));
        }
        first_occurrence_is_replaced(rest, from, back, to);
        assert(seq![text[0]] + (rest + to + replaced(back, from, to)) =~= front + to + replaced(
            back,
            from,
            to,
        ));
    }
}

/// A pattern that occurs once is replaced once, and the rest stays.
pub proof fn single_occurrence_is_replaced(
    front: Seq<char>,
    from: Seq<char>,
    back: Seq<char>,
    to: Seq<char>,
)
    requires
        from.len() > 0,
        forall|k: int|
            0 <= k < front.len() ==> !#[trigger] occurs_at(front + from + back, from, k),
        !occurs(back, from),
    ensures
        replaced(front + from + back, from, to) == front + to + back,
{
    first_occurrence_is_replaced(front, from, back, to);
    replacing_nothing_changes_nothing(back, from, to);
}

/// Nothing makes an empty text, and one item is itself.
pub proof fn joined_of_few(item: Seq<char>, separator: Seq<char>)
    ensures
        joined(Seq::empty(), separator) == Seq::<char>::empty(),
        joined(seq![item], separator) == item,
        concatenated(Seq::empty()) == Seq::<char>::empty(),
        concatenated(seq![item]) == item,
{
    assert(seq![item].drop_last() =~= Seq::empty());
    assert(concatenated(Seq::<Seq<char>>::empty()) =~= Seq::empty());
    assert(concatenated(seq![item]) =~= item);
}

/// Two lists one behind the other are joined with the separator between them.
pub proof fn joined_of_two(first: Seq<Seq<char>>, second: Seq<Seq<char>>, separator: Seq<char>)
    requires
        first.len() > 0,
        second.len() > 0,
    ensures
        joined(first + second, separator) == joined(first, separator) + separator + joined(
            second,
            separator,
        ),
    decreases second.len(),
{
    let all = first + second;
    assert(all.drop_last() =~= first + second.drop_last());
    assert(all.last() == second.last());
    if second.len() == 1 {
        assert(first + second.drop_last() =~= first);
    } else {
        joined_of_two(first, second.drop_last(), separator);
        assert(joined(all, separator) =~= joined(first, separator) + separator + joined(
            second,
            separator,
        ));
    }
}

/// The first place of a character is behind all that holds none; without one it is the end.
pub proof fn first_place_of_a_character(front: Seq<char>, ch: char, back: Seq<char>)
    requires
        !front.contains(ch),
    ensures
        first_index(front + seq![ch] + back, ch) == front.len(),
        first_index(front, ch) == front.len(),
    decreases front.len(),
{
    let text = front + seq![ch] + back;
    if front.len() > 0 {
        let rest = front.skip(1);
        assert(front.contains(front[0]));
        assert(!rest.contains(ch)) by {
            if rest.contains(ch) {
                let i = choose|i: int| 0 <= i < rest.len() && rest[i] == ch;
                assert(front[i + 1] == ch);
            }
        }
        assert(text.skip(1) =~= rest + seq![ch] + back);
        first_place_of_a_character(rest, ch, back);
    }
}

/// What stands before the last of a character is all but the rest that holds none; a text
/// without the character has no such part.
pub proof fn part_before_the_last_character(front: Seq<char>, ch: char, back: Seq<char>)
    requires
        !back.contains(ch),
    ensures
        before_last(front + seq![ch] + back, ch) == Some(front),
        before_last(back, ch) is None,
    decreases back.len(),
{
    let text = front + seq![ch] + back;
    if back.len() == 0 {
        assert(text.drop_last() =~= front);
    } else {
        let rest = back.drop_last();
        assert(back.contains(back[back.len() - 1]));
        assert(!rest.contains(ch)) by {
            if rest.contains(ch) {
                let i = choose|i: int| 0 <= i < rest.len() && rest[i] == ch;
                assert(back[i] == ch);
            }
        }
        assert(text.drop_last() =~= front + seq![ch] + rest);
        part_before_the_last_character(front, ch, rest);
    }
}

/// Trimming takes away the white space at both ends, and no more than that.
pub proof fn trimming_takes_the_ends(left: Seq<char>, core: Seq<char>, right: Seq<char>)
    requires
        is_blank(left),
        is_blank(right),
        core.len() > 0 ==> !is_white_space(core[0]) && !is_white_space(core.last()),
    ensures
        trimmed(left + core + right) == core,
    decreases left.len() + right.len(),
{
    let text = left + core + right;
    if right.len() > 0 {
        let rest = right.drop_last();
        assert(is_white_space(right[right.len() - 1]));
        assert forall|i: int| 0 <= i < rest.len() implies is_white_space(#[trigger] rest[i]) by {
            assert(rest[i] == right[i]);
        }
        assert(text.drop_last() =~= left + core + rest);
        trimming_takes_the_ends(left, core, rest);
    } else if left.len() > 0 {
        let rest = left.skip(1);
        assert forall|i: int| 0 <= i < rest.len() implies is_white_space(#[trigger] rest[i]) by {
            assert(rest[i] == left[i + 1]);
        }
        if core.len() == 0 {
            let short = left.drop_last();
            assert(is_white_space(left[left.len() - 1]));
            assert forall|i: int| 0 <= i < short.len() implies is_white_space(
                #[trigger] short[i],
            ) by {
                assert(short[i] == left[i]);
            }
            assert(text.last() == left.last());
            assert(text.drop_last() =~= short + core + right);
            trimming_takes_the_ends(short, core, right);
        } else {
            assert(text.last() == core.last());
            assert(is_white_space(left[0]));
            assert(text.skip(1) =~= rest + core + right);
            trimming_takes_the_ends(rest, core, right);
        }
    } else {
        assert(text =~= core);
    }
}

/// White space alone has no words, and text without white space is one word.
pub proof fn words_of_one(blank: Seq<char>, word: Seq<char>)
    requires
        is_blank(blank),
        word.len() > 0,
        has_no_blank(word),
    ensures
        words(blank) == Seq::<Seq<char>>::empty(),
        words(word) == seq![word],
    decreases blank.len() + word.len(),
{
    if blank.len() > 0 {
        let rest = blank.drop_last();
        assert(is_white_space(blank[blank.len() - 1]));
        assert forall|i: int| 0 <= i < rest.len() implies is_white_space(#[trigger] rest[i]) by {
            assert(rest[i] == blank[i]);
        }
        words_of_one(rest, word);
    } else if word.len() > 1 {
        let rest = word.drop_last();
        assert(!is_white_space(word[word.len() - 1]));
        assert(!is_white_space(word[word.len() - 2]));
        assert forall|i: int| 0 <= i < rest.len() implies !is_white_space(#[trigger] rest[i]) by {
            assert(rest[i] == word[i]);
        }
        words_of_one(blank, rest);
        assert(words(word) =~= seq![rest.push(word.last())]);
        assert(rest.push(word.last()) =~= word);
    } else {
        assert(!is_white_space(word[0]));
        assert(word.drop_last() =~= Seq::empty());
        assert(words(Seq::<char>::empty()) =~= Seq::empty());
        assert(words(word) =~= seq![seq![word[0]]]);
        assert(word =~= seq![word[0]]);
    }
}

/// The words of two texts with white space between them are those of both.
pub proof fn words_of_two(first: Seq<char>, blank: char, second: Seq<char>)
    requires
        is_white_space(blank),
    ensures
        words(first + seq![blank] + second) == words(first) + words(second),
    decreases second.len(),
{
    let text = first + seq![blank] + second;
    if second.len() == 0 {
        assert(text.drop_last() =~= first);
        assert(words(first) + words(second) =~= words(first));
    } else {
        let rest = second.drop_last();
        let last = second.last();
        assert(text.drop_last() =~= first + seq![blank] + rest);
        words_of_two(first, blank, rest);
        let before = words(rest);
        if is_white_space(last) {
        } else if second.len() == 1 || is_white_space(second[second.len() - 2]) {
            assert(is_white_space(text[text.len() - 2]));
            assert((words(first) + before).push(seq![last]) =~= words(first) + before.push(
                seq![last],
            ));
        } else {
            assert(text[text.len() - 2] == second[second.len() - 2]);
            lemma_some_word(rest);
            assert((words(first) + before).drop_last() =~= words(first) + before.drop_last());
            assert((words(first) + before).last() == before.last());
            assert((words(first) + before.drop_last()).push(before.last().push(last)) =~= words(first)
                + before.drop_last().push(before.last().push(last)));
        }
    }
}

proof fn lemma_some_word(text: Seq<char>)
    requires
        text.len() > 0,
        !is_white_space(text.last()),
    ensures
        words(text).len() > 0,
    decreases text.len(),
{
    if text.len() > 1 && !is_white_space(text[text.len() - 2]) {
        assert(text.drop_last().last() == text[text.len() - 2]);
        lemma_some_word(text.drop_last());
    }
}

/// The first line is what stands before the first line feed, without a carriage return at its
/// end, and the others are the lines of the rest.
pub proof fn first_line_and_the_others(line: Seq<char>, rest: Seq<char>)
    requires
        !line.contains('\n'),
    ensures
        lines(line + seq!['\n'] + rest) == seq![
            if line.len() > 0 && line.last() == '\r' {
                line.drop_last()
            } else {
                line
            },
        ] + lines(rest),
{
    split_of_two(line, rest, '\n');
    split_of_one(line, '\n');
    crate::text::lemma_split_on_not_empty(rest, '\n');
    let tail = split_on(rest, '\n');
    let pieces = split_on(line + seq!['\n'] + rest, '\n');
    assert(pieces =~= seq![line] + tail);
    assert(pieces.last() == tail.last());
    assert(pieces.drop_last() =~= seq![line] + tail.drop_last());
    let ended = pieces.drop_last().map_values(|line: Seq<char>| without_return(line));
    let others = tail.drop_last().map_values(|line: Seq<char>| without_return(line));
    assert(ended =~= seq![without_return(line)] + others);
    assert((seq![without_return(line)] + others).push(tail.last()) =~= seq![without_return(line)]
        + others.push(tail.last()));
}

/// A text without a line feed is one line as it is, and an empty text has none.
pub proof fn lines_without_feed(line: Seq<char>)
    requires
        !line.contains('\n'),
    ensures
        line.len() == 0 ==> lines(line) == Seq::<Seq<char>>::empty(),
        line.len() > 0 ==> lines(line) == seq![line],
{
    split_of_one(line, '\n');
    let pieces = seq![line];
    let ended = pieces.drop_last().map_values(|line: Seq<char>| without_return(line));
    assert(ended =~= Seq::empty());
    assert(ended.push(line) =~= seq![line]);
}

/// Of two texts that begin alike, the first difference decides, and the shorter comes first.
pub proof fn first_difference_orders(
    start: Seq<char>,
    a: char,
    b: char,
    front: Seq<char>,
    back: Seq<char>,
)
    requires
        a < b,
    ensures
        precedes(start + seq![a] + front, start + seq![b] + back),
        !precedes(start + seq![b] + back, start + seq![a] + front),
        precedes(start, start + seq![a] + front),
        !precedes(start + seq![a] + front, start),
        !precedes(start, start),
    decreases start.len(),
{
    let first = start + seq![a] + front;
    let second = start + seq![b] + back;
    if start.len() > 0 {
        let rest = start.skip(1);
        assert(first.skip(1) =~= rest + seq![a] + front);
        assert(second.skip(1) =~= rest + seq![b] + back);
        first_difference_orders(rest, a, b, front, back);
    }
}

/// Behind the last white space of Unicode there is none.
pub proof fn white_space_is_rare(ch: char)
    ensures
        is_white_space(ch) ==> ch <= '\u{3000}',
        is_white_space(' ') && is_white_space('\t') && is_white_space('\n') && is_white_space('\r'),
        '!' <= ch <= '~' ==> !is_white_space(ch),
{
}

/// White space is what has the property of that name in Unicode: these 25 characters.
pub proof fn white_space_is_that_of_unicode(ch: char)
    ensures
        is_white_space(ch) <==> seq![
            '\t',
            '\n',
            '\u{b}',
            '\u{c}',
            '\r',
            ' ',
            '\u{85}',
            '\u{a0}',
            '\u{1680}',
            '\u{2000}',
            '\u{2001}',
            '\u{2002}',
            '\u{2003}',
            '\u{2004}',
            '\u{2005}',
            '\u{2006}',
            '\u{2007}',
            '\u{2008}',
            '\u{2009}',
            '\u{200a}',
            '\u{2028}',
            '\u{2029}',
            '\u{202f}',
            '\u{205f}',
            '\u{3000}',
        ].contains(ch),
{
    let all = seq![
        '\t',
        '\n',
        '\u{b}',
        '\u{c}',
        '\r',
        ' ',
        '\u{85}',
        '\u{a0}',
        '\u{1680}',
        '\u{2000}',
        '\u{2001}',
        '\u{2002}',
        '\u{2003}',
        '\u{2004}',
        '\u{2005}',
        '\u{2006}',
        '\u{2007}',
        '\u{2008}',
        '\u{2009}',
        '\u{200a}',
        '\u{2028}',
        '\u{2029}',
        '\u{202f}',
        '\u{205f}',
        '\u{3000}',
    ];
    if is_white_space(ch) {
        let value = ch as int;
        if value <= 0xd {
            assert(all[value - 9] == ch);
        } else if value == 0x20 {
            assert(all[5] == ch);
        } else if value == 0x85 {
            assert(all[6] == ch);
        } else if value == 0xa0 {
            assert(all[7] == ch);
        } else if value == 0x1680 {
            assert(all[8] == ch);
        } else if value <= 0x200a {
            assert(all[9 + value - 0x2000] == ch);
        } else if value == 0x2028 {
            assert(all[20] == ch);
        } else if value == 0x2029 {
            assert(all[21] == ch);
        } else if value == 0x202f {
            assert(all[22] == ch);
        } else if value == 0x205f {
            assert(all[23] == ch);
        } else {
            assert(all[24] == ch);
        }
    }
}

} // verus!
