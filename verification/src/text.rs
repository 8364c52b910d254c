//! Text as sequences of characters: searching, replacing, cutting and joining.

use vstd::prelude::*;

verus! {

/// `String::push` puts one character behind the text.
pub assume_specification[ String::push ](text: &mut String, ch: char)
    ensures
        final(text)@ == old(text)@.push(ch),
;

/// The texts of a list of strings.
pub open spec fn texts(list: Seq<String>) -> Seq<Seq<char>> {
    list.map_values(|item: String| item@)
}

/// Whether `pattern` stands in `text` at index `at`.
pub open spec fn occurs_at(text: Seq<char>, pattern: Seq<char>, at: int) -> bool {
    &&& 0 <= at
    &&& at + pattern.len() <= text.len()
    &&& text.subrange(at, at + pattern.len()) == pattern
}

/// Whether `pattern` stands anywhere in `text`.
pub open spec fn occurs(text: Seq<char>, pattern: Seq<char>) -> bool {
    exists|at: int| occurs_at(text, pattern, at)
}

/// `text` with every occurrence of `from`, taken from the left and without
/// overlap, replaced by `to`.
pub open spec fn replaced(text: Seq<char>, from: Seq<char>, to: Seq<char>) -> Seq<char>
    decreases text.len(),
{
    if from.len() == 0 || text.len() < from.len() {
        text
    } else if occurs_at(text, from, 0) {
        to + replaced(text.skip(from.len() as int), from, to)
    } else {
        seq![text[0]] + replaced(text.skip(1), from, to)
    }
}

/// The pieces of `text` between the separators; one piece more than there are separators.
pub open spec fn split_on(text: Seq<char>, separator: char) -> Seq<Seq<char>>
    decreases text.len(),
{
    if text.len() == 0 {
        seq![Seq::<char>::empty()]
    } else {
        let pieces = split_on(text.drop_last(), separator);
        if text.last() == separator {
            pieces.push(Seq::<char>::empty())
        } else {
            pieces.drop_last().push(pieces.last().push(text.last()))
        }
    }
}

/// The items with `separator` between each two of them.
pub open spec fn joined(items: Seq<Seq<char>>, separator: Seq<char>) -> Seq<char>
    decreases items.len(),
{
    if items.len() == 0 {
        Seq::<char>::empty()
    } else if items.len() == 1 {
        items[0]
    } else {
        joined(items.drop_last(), separator) + separator + items.last()
    }
}

/// The items one behind the other.
pub open spec fn concatenated(items: Seq<Seq<char>>) -> Seq<char>
    decreases items.len(),
{
    if items.len() == 0 {
        Seq::<char>::empty()
    } else {
        concatenated(items.drop_last()) + items.last()
    }
}

/// The index of the first `wanted` in `text`, or the length where there is none.
pub open spec fn first_index(text: Seq<char>, wanted: char) -> int
    decreases text.len(),
{
    if text.len() == 0 || text[0] == wanted {
        0
    } else {
        1 + first_index(text.skip(1), wanted)
    }
}

/// What stands before the last `wanted` in `text`.
pub open spec fn before_last(text: Seq<char>, wanted: char) -> Option<Seq<char>>
    decreases text.len(),
{
    if text.len() == 0 {
        None
    } else if text.last() == wanted {
        Some(text.drop_last())
    } else {
        before_last(text.drop_last(), wanted)
    }
}

/// The characters with the Unicode property `White_Space`.
pub open spec fn is_white_space(ch: char) -> bool {
    ||| '\u{9}' <= ch <= '\u{d}'
    ||| ch == '\u{20}'
    ||| ch == '\u{85}'
    ||| ch == '\u{a0}'
    ||| ch == '\u{1680}'
    ||| '\u{2000}' <= ch <= '\u{200a}'
    ||| ch == '\u{2028}'
    ||| ch == '\u{2029}'
    ||| ch == '\u{202f}'
    ||| ch == '\u{205f}'
    ||| ch == '\u{3000}'
}

/// `text` without the white space at its two ends.
pub open spec fn trimmed(text: Seq<char>) -> Seq<char>
    decreases text.len(),
{
    if text.len() == 0 {
        text
    } else if is_white_space(text.last()) {
        trimmed(text.drop_last())
    } else if is_white_space(text[0]) {
        trimmed(text.skip(1))
    } else {
        text
    }
}

/// The longest runs of `text` that hold no white space.
pub open spec fn words(text: Seq<char>) -> Seq<Seq<char>>
    decreases text.len(),
{
    if text.len() == 0 {
        Seq::<Seq<char>>::empty()
    } else {
        let before = words(text.drop_last());
        if is_white_space(text.last()) {
            before
        } else if text.len() == 1 || is_white_space(text[text.len() - 2]) {
            before.push(seq![text.last()])
        } else {
            before.drop_last().push(before.last().push(text.last()))
        }
    }
}

/// A line that a line feed ended, without the carriage return before the line feed.
pub open spec fn without_return(line: Seq<char>) -> Seq<char> {
    if line.len() > 0 && line.last() == '\r' {
        line.drop_last()
    } else {
        line
    }
}

/// The lines of `text`; the line feed behind the last one may be left out.
pub open spec fn lines(text: Seq<char>) -> Seq<Seq<char>> {
    let pieces = split_on(text, '\n');
    let ended = pieces.drop_last().map_values(|line: Seq<char>| without_return(line));
    if pieces.last().len() == 0 {
        ended
    } else {
        ended.push(pieces.last())
    }
}

/// The lexicographic order of texts by code points.
pub open spec fn precedes(a: Seq<char>, b: Seq<char>) -> bool
    decreases a.len(),
{
    if b.len() == 0 {
        false
    } else if a.len() == 0 {
        true
    } else if a[0] != b[0] {
        a[0] < b[0]
    } else {
        precedes(a.skip(1), b.skip(1))
    }
}

/// Whether the texts stand in ascending order, none of them twice.
pub open spec fn ascending(list: Seq<Seq<char>>) -> bool {
    forall|i: int, j: int| 0 <= i < j < list.len() ==> precedes(#[trigger] list[i], #[trigger] list[j])
}

/// The characters of `text`.
pub fn chars_of(text: &str) -> (chars: Vec<char>)
    ensures
        chars@ == text@,
{
    let mut chars: Vec<char> = Vec::new();
    for ch in it: text.chars()
        invariant
            it.seq() == text@,
            chars@ == text@.take(it.index() as int),
    {
        chars.push(ch);
    }
    chars
}

/// The text that the characters from index `start` up to index `end` make.
pub fn text_of(chars: &Vec<char>, start: usize, end: usize) -> (text: String)
    requires
        start <= end <= chars@.len(),
    ensures
        text@ == chars@.subrange(start as int, end as int),
{
    let mut text = String::new();
    let mut i: usize = start;
    while i < end
        invariant
            start <= i <= end <= chars@.len(),
            text@ == chars@.subrange(start as int, i as int),
        decreases end - i,
    {
        text.push(chars[i]);
        i += 1;
    }
    text
}

/// Whether two texts hold the same characters.
pub fn same_text(a: &str, b: &str) -> (same: bool)
    ensures
        same == (a@ == b@),
{
    a.to_string() == b.to_string()
}

/// Whether `pattern` stands in `chars` at index `at`.
pub fn stands_at(chars: &Vec<char>, pattern: &Vec<char>, at: usize) -> (found: bool)
    ensures
        found == occurs_at(chars@, pattern@, at as int),
{
    if at > chars.len() || pattern.len() > chars.len() - at {
        return false;
    }
    let len: usize = chars.len();
    let mut i: usize = 0;
    while i < pattern.len()
        invariant
            i <= pattern@.len(),
            at + pattern@.len() <= chars@.len() == len,
            forall|k: int| 0 <= k < i ==> chars@[at + k] == pattern@[k],
        decreases pattern@.len() - i,
    {
        if chars[at + i] != pattern[i] {
            assert(chars@.subrange(at as int, at + pattern@.len())[i as int] != pattern@[i as int]);
            return false;
        }
        i += 1;
    }
    assert(chars@.subrange(at as int, at + pattern@.len()) =~= pattern@);
    true
}

/// Whether `pattern` stands anywhere in `text`.
pub fn contains(text: &str, pattern: &str) -> (found: bool)
    ensures
        found == occurs(text@, pattern@),
{
    let chars = chars_of(text);
    let wanted = chars_of(pattern);
    let mut i: usize = 0;
    while i < chars.len()
        invariant
            i <= chars@.len(),
            chars@ == text@,
            wanted@ == pattern@,
            forall|k: int| 0 <= k < i ==> !occurs_at(text@, pattern@, k),
        decreases chars@.len() - i,
    {
        if stands_at(&chars, &wanted, i) {
            return true;
        }
        i += 1;
    }
    stands_at(&chars, &wanted, i)
}

/// Replaces every occurrence of `from`, taken from the left and without overlap, by `to`.
pub fn replace(text: &str, from: &str, to: &str) -> (result: String)
    requires
        from@.len() > 0,
    ensures
        result@ == replaced(text@, from@, to@),
{
    let chars = chars_of(text);
    let pattern = chars_of(from);
    let mut result = String::new();
    let mut i: usize = 0;
    assert(chars@.skip(0) =~= chars@);
    while i < chars.len()
        invariant
            i <= chars@.len(),
            pattern@ == from@,
            from@.len() > 0,
            result@ + replaced(chars@.skip(i as int), from@, to@) == replaced(chars@, from@, to@),
        decreases chars@.len() - i,
    {
        let ghost rest = chars@.skip(i as int);
        let found = stands_at(&chars, &pattern, i);
        assert(found == occurs_at(rest, from@, 0)) by {
            if i + from@.len() <= chars@.len() {
                assert(rest.subrange(0, from@.len() as int) =~= chars@.subrange(
                    i as int,
                    i + from@.len(),
                ));
            }
        }
        if found {
            result.append(to);
            i += pattern.len();
            assert(rest.skip(from@.len() as int) =~= chars@.skip(i as int));
        } else {
            result.push(chars[i]);
            i += 1;
            assert(rest.skip(1) =~= chars@.skip(i as int));
            assert(rest =~= seq![rest[0]] + rest.skip(1));
        }
    }
    assert(chars@.skip(i as int) =~= Seq::<char>::empty());
    result
}

/// Puts one text behind the others of a list.
pub fn push_text(list: &mut Vec<String>, item: String)
    ensures
        texts(final(list)@) == texts(old(list)@).push(item@),
{
    list.push(item);
    assert(texts(list@) =~= texts(old(list)@).push(item@));
}

/// Whether `wanted` is one of the texts of a list.
pub fn lists(list: &Vec<String>, wanted: &str) -> (found: bool)
    ensures
        found == texts(list@).contains(wanted@),
{
    let mut i: usize = 0;
    while i < list.len()
        invariant
            i <= list@.len(),
            forall|k: int| 0 <= k < i ==> texts(list@)[k] != wanted@,
        decreases list@.len() - i,
    {
        assert(texts(list@)[i as int] == list@[i as int]@);
        if same_text(list[i].as_str(), wanted) {
            return true;
        }
        i += 1;
    }
    false
}

/// Puts the items behind those of a list.
pub fn extend_texts(list: &mut Vec<String>, items: &Vec<String>)
    ensures
        texts(final(list)@) == texts(old(list)@) + texts(items@),
{
    let ghost all = texts(items@);
    let mut i: usize = 0;
    assert(texts(list@) =~= texts(old(list)@) + all.take(0));
    while i < items.len()
        invariant
            i <= items@.len(),
            all == texts(items@),
            texts(list@) == texts(old(list)@) + all.take(i as int),
        decreases items@.len() - i,
    {
        push_text(list, items[i].clone());
        i += 1;
        assert(all.take(i as int) =~= all.take(i - 1).push(items@[i - 1]@));
        assert(texts(list@) =~= texts(old(list)@) + all.take(i as int));
    }
    assert(all.take(i as int) =~= all);
}

/// Cuts `text` at every separator.
pub fn split(text: &str, separator: char) -> (pieces: Vec<String>)
    ensures
        texts(pieces@) == split_on(text@, separator),
{
    let chars = chars_of(text);
    let mut pieces: Vec<String> = Vec::new();
    let mut piece = String::new();
    let mut i: usize = 0;
    assert(chars@.take(0) =~= Seq::<char>::empty());
    assert(texts(pieces@).push(piece@) =~= split_on(chars@.take(0), separator));
    while i < chars.len()
        invariant
            i <= chars@.len(),
            texts(pieces@).push(piece@) == split_on(chars@.take(i as int), separator),
        decreases chars@.len() - i,
    {
        let ch = chars[i];
        let ghost before = texts(pieces@).push(piece@);
        let ghost parts = texts(pieces@);
        i += 1;
        assert(chars@.take(i as int).drop_last() =~= chars@.take(i - 1));
        assert(before.drop_last() =~= parts);
        if ch == separator {
            push_text(&mut pieces, piece);
            piece = String::new();
        } else {
            piece.push(ch);
        }
    }
    assert(chars@.take(i as int) =~= chars@);
    push_text(&mut pieces, piece);
    pieces
}

/// Puts `separator` between each two of the items.
pub fn join(items: &Vec<String>, separator: &str) -> (text: String)
    ensures
        text@ == joined(texts(items@), separator@),
{
    let mut text = String::new();
    let mut i: usize = 0;
    let ghost all = texts(items@);
    while i < items.len()
        invariant
            i <= items@.len(),
            all == texts(items@),
            text@ == joined(all.take(i as int), separator@),
        decreases items@.len() - i,
    {
        if i > 0 {
            text.append(separator);
        }
        text.append(items[i].as_str());
        i += 1;
        assert(all.take(i as int).drop_last() =~= all.take(i - 1));
        assert(all[i - 1] == items@[i - 1]@);
    }
    assert(all.take(i as int) =~= all);
    text
}

/// The piece behind the last separator, or all of `text` where there is none.
pub fn last_piece(text: &str, separator: char) -> (piece: String)
    ensures
        piece@ == split_on(text@, separator).last(),
{
    let mut pieces = split(text, separator);
    proof {
        lemma_split_on_not_empty(text@, separator);
        assert(texts(pieces@).last() == pieces@.last()@);
    }
    match pieces.pop() {
        Some(piece) => piece,
        None => String::new(),
    }
}

/// What stands before the last `wanted`.
pub fn cut_before_last(text: &str, wanted: char) -> (result: Option<String>)
    ensures
        match result {
            Some(before) => before_last(text@, wanted) == Some(before@),
            None => before_last(text@, wanted) is None,
        },
{
    let chars = chars_of(text);
    let mut i: usize = chars.len();
    assert(chars@.take(i as int) =~= chars@);
    while i > 0
        invariant
            i <= chars@.len(),
            chars@ == text@,
            before_last(chars@.take(i as int), wanted) == before_last(text@, wanted),
        decreases i,
    {
        i -= 1;
        assert(chars@.take(i + 1).drop_last() =~= chars@.take(i as int));
        if chars[i] == wanted {
            return Some(text_of(&chars, 0, i));
        }
    }
    None
}

/// Whether `ch` has the Unicode property `White_Space`.
pub fn white_space(ch: char) -> (result: bool)
    ensures
        result == is_white_space(ch),
{
    ('\u{9}' <= ch && ch <= '\u{d}') || ch == '\u{20}' || ch == '\u{85}' || ch == '\u{a0}' || ch
        == '\u{1680}' || ('\u{2000}' <= ch && ch <= '\u{200a}') || ch == '\u{2028}' || ch
        == '\u{2029}' || ch == '\u{202f}' || ch == '\u{205f}' || ch == '\u{3000}'
}

/// Takes the white space off both ends.
pub fn trim(text: &str) -> (result: String)
    ensures
        result@ == trimmed(text@),
{
    let chars = chars_of(text);
    let mut end: usize = chars.len();
    let mut start: usize = 0;
    assert(chars@.subrange(0, end as int) =~= chars@);
    while end > start && white_space(chars[end - 1])
        invariant
            start == 0,
            end <= chars@.len(),
            chars@ == text@,
            trimmed(chars@.subrange(start as int, end as int)) == trimmed(text@),
        decreases end,
    {
        assert(chars@.subrange(start as int, end as int).drop_last() =~= chars@.subrange(
            start as int,
            end - 1,
        ));
        end -= 1;
    }
    while start < end && white_space(chars[start])
        invariant
            start <= end <= chars@.len(),
            chars@ == text@,
            end > 0 && start < end ==> !is_white_space(chars@[end - 1]),
            trimmed(chars@.subrange(start as int, end as int)) == trimmed(text@),
        decreases end - start,
    {
        assert(chars@.subrange(start as int, end as int).skip(1) =~= chars@.subrange(
            start + 1,
            end as int,
        ));
        start += 1;
    }
    text_of(&chars, start, end)
}

/// Cuts `text` at its white space.
pub fn split_words(text: &str) -> (list: Vec<String>)
    ensures
        texts(list@) == words(text@),
{
    let chars = chars_of(text);
    let mut list: Vec<String> = Vec::new();
    let mut word = String::new();
    let mut i: usize = 0;
    assert(texts(list@) =~= words(chars@.take(0)));
    while i < chars.len()
        invariant
            i <= chars@.len(),
            word@.len() == 0 <==> (i == 0 || is_white_space(chars@[i - 1])),
            words(chars@.take(i as int)) == (if word@.len() == 0 {
                texts(list@)
            } else {
                texts(list@).push(word@)
            }),
        decreases chars@.len() - i,
    {
        let ch = chars[i];
        let ghost parts = texts(list@);
        i += 1;
        assert(chars@.take(i as int).drop_last() =~= chars@.take(i - 1));
        assert(parts.push(word@).drop_last() =~= parts);
        if white_space(ch) {
            if !word.as_str().is_empty() {
                push_text(&mut list, word);
                word = String::new();
            }
        } else {
            word.push(ch);
            assert(word@.len() == 1 ==> word@ =~= seq![ch]);
        }
    }
    assert(chars@.take(i as int) =~= chars@);
    if !word.as_str().is_empty() {
        push_text(&mut list, word);
    }
    list
}

/// Cuts `text` into its lines.
pub fn split_lines(text: &str) -> (list: Vec<String>)
    ensures
        texts(list@) == lines(text@),
{
    let pieces = split(text, '\n');
    proof {
        lemma_split_on_not_empty(text@, '\n');
    }
    let mut list: Vec<String> = Vec::new();
    let ghost all = texts(pieces@);
    let ghost ended = all.drop_last().map_values(|line: Seq<char>| without_return(line));
    let last: usize = pieces.len() - 1;
    let mut i: usize = 0;
    while i < last
        invariant
            i <= last,
            last + 1 == pieces@.len() == all.len(),
            all == texts(pieces@),
            ended == all.drop_last().map_values(|line: Seq<char>| without_return(line)),
            texts(list@) == ended.take(i as int),
        decreases pieces@.len() - i,
    {
        let line = chars_of(pieces[i].as_str());
        assert(all[i as int] == line@);
        let end: usize = if line.len() > 0 && line[line.len() - 1] == '\r' {
            line.len() - 1
        } else {
            line.len()
        };
        assert(line@.subrange(0, end as int) =~= without_return(line@));
        push_text(&mut list, text_of(&line, 0, end));
        i += 1;
        assert(ended.take(i as int) =~= ended.take(i - 1).push(ended[i - 1]));
    }
    assert(ended.take(i as int) =~= ended);
    assert(all.last() == pieces@[i as int]@);
    if !pieces[i].as_str().is_empty() {
        push_text(&mut list, pieces[i].clone());
    }
    list
}

/// Whether `a` stands before `b` in the lexicographic order by code points.
pub fn comes_before(a: &str, b: &str) -> (result: bool)
    ensures
        result == precedes(a@, b@),
{
    let left = chars_of(a);
    let right = chars_of(b);
    let mut i: usize = 0;
    assert(left@.skip(0) =~= left@);
    assert(right@.skip(0) =~= right@);
    while i < left.len() && i < right.len()
        invariant
            i <= left@.len(),
            i <= right@.len(),
            left@ == a@,
            right@ == b@,
            precedes(left@.skip(i as int), right@.skip(i as int)) == precedes(a@, b@),
        decreases left@.len() - i,
    {
        if left[i] != right[i] {
            return left[i] < right[i];
        }
        assert(left@.skip(i as int).skip(1) =~= left@.skip(i + 1));
        assert(right@.skip(i as int).skip(1) =~= right@.skip(i + 1));
        i += 1;
    }
    i < right.len()
}

/// Of two texts, one stands before the other, or they are the same.
pub proof fn precedes_is_total(a: Seq<char>, b: Seq<char>)
    ensures
        precedes(a, b) || precedes(b, a) || a == b,
        !(precedes(a, b) && precedes(b, a)),
        !precedes(a, a),
    decreases a.len(),
{
    if a.len() == 0 {
        assert(b.len() == 0 ==> a =~= b);
    } else if b.len() > 0 && a[0] == b[0] {
        precedes_is_total(a.skip(1), b.skip(1));
        if a.skip(1) == b.skip(1) {
            assert(a =~= seq![a[0]] + a.skip(1));
            assert(b =~= seq![b[0]] + b.skip(1));
        }
    } else {
        precedes_is_total(a.skip(1), a.skip(1));
    }
}

/// What stands before a text stands before all that stand behind it.
pub proof fn precedes_is_transitive(a: Seq<char>, b: Seq<char>, c: Seq<char>)
    requires
        precedes(a, b),
        precedes(b, c),
    ensures
        precedes(a, c),
    decreases a.len(),
{
    if a.len() > 0 && a[0] == b[0] && b[0] == c[0] {
        precedes_is_transitive(a.skip(1), b.skip(1), c.skip(1));
    }
}

/// Two lists one behind the other make the text of the first and that of the second.
pub proof fn lemma_concatenated_add(first: Seq<Seq<char>>, second: Seq<Seq<char>>)
    ensures
        concatenated(first + second) == concatenated(first) + concatenated(second),
    decreases second.len(),
{
    if second.len() == 0 {
        assert(first + second =~= first);
        assert(concatenated(first) + concatenated(second) =~= concatenated(first));
    } else {
        assert((first + second).drop_last() =~= first + second.drop_last());
        lemma_concatenated_add(first, second.drop_last());
        assert(concatenated(first) + concatenated(second) =~= concatenated(first) + concatenated(
            second.drop_last(),
        ) + second.last());
    }
}

/// Cutting two texts with a separator between them gives the pieces of both.
pub proof fn split_of_two(first: Seq<char>, second: Seq<char>, separator: char)
    ensures
        split_on(first + seq![separator] + second, separator) == split_on(first, separator) + split_on(
            second,
            separator,
        ),
    decreases second.len(),
{
    let both = first + seq![separator] + second;
    let front = split_on(first, separator);
    lemma_split_on_not_empty(second, separator);
    if second.len() == 0 {
        assert(both.drop_last() =~= first);
        assert(both.last() == separator);
        assert(front + split_on(second, separator) =~= front.push(Seq::empty()));
    } else {
        assert(both.drop_last() =~= first + seq![separator] + second.drop_last());
        assert(both.last() == second.last());
        split_of_two(first, second.drop_last(), separator);
        lemma_split_on_not_empty(second.drop_last(), separator);
        let before = split_on(second.drop_last(), separator);
        assert((front + before).last() == before.last());
        assert((front + before).drop_last() =~= front + before.drop_last());
        if second.last() == separator {
            assert((front + before).push(Seq::empty()) =~= front + before.push(Seq::empty()));
        } else {
            let piece = before.last().push(second.last());
            assert((front + before.drop_last()).push(piece) =~= front + before.drop_last().push(piece));
        }
    }
}

/// Text without the separator is one piece.
pub proof fn split_of_one(text: Seq<char>, separator: char)
    requires
        !text.contains(separator),
    ensures
        split_on(text, separator) == seq![text],
    decreases text.len(),
{
    if text.len() > 0 {
        let front = text.drop_last();
        assert(text[text.len() - 1] == text.last());
        assert(text.contains(text.last()));
        assert forall|i: int| 0 <= i < front.len() implies front[i] != separator by {
            assert(text.contains(text[i]));
        }
        split_of_one(front, separator);
        assert(front.push(text.last()) =~= text);
        assert(split_on(text, separator) =~= seq![text]);
    } else {
        assert(text =~= Seq::empty());
    }
}

/// Cutting joined items gives the items back, where none of them holds the separator.
pub proof fn split_of_joined(items: Seq<Seq<char>>, separator: char)
    requires
        items.len() > 0,
        forall|i: int| 0 <= i < items.len() ==> !(#[trigger] items[i]).contains(separator),
    ensures
        split_on(joined(items, seq![separator]), separator) == items,
    decreases items.len(),
{
    split_of_one(items.last(), separator);
    if items.len() == 1 {
        assert(items =~= seq![items[0]]);
    } else {
        split_of_joined(items.drop_last(), separator);
        split_of_two(joined(items.drop_last(), seq![separator]), items.last(), separator);
        assert(items.drop_last() + seq![items.last()] =~= items);
    }
}

/// Joining the pieces of a text gives the text back.
pub proof fn joined_of_split(text: Seq<char>, separator: char)
    ensures
        joined(split_on(text, separator), seq![separator]) == text,
    decreases text.len(),
{
    if text.len() == 0 {
        assert(joined(split_on(text, separator), seq![separator]) =~= text);
    } else {
        let before = split_on(text.drop_last(), separator);
        let pieces = split_on(text, separator);
        lemma_split_on_not_empty(text.drop_last(), separator);
        joined_of_split(text.drop_last(), separator);
        if text.last() == separator {
            assert(pieces.drop_last() =~= before);
            assert(joined(pieces, seq![separator]) =~= text);
        } else {
            assert(pieces.drop_last() =~= before.drop_last());
            assert(text.drop_last().push(text.last()) =~= text);
            if before.len() == 1 {
                assert(pieces[0] =~= text);
            } else {
                let front = joined(before.drop_last(), seq![separator]) + seq![separator];
                assert(front + before.last().push(text.last()) =~= (front + before.last()).push(
                    text.last(),
                ));
            }
        }
    }
}

/// Cutting a text gives at least one piece.
pub proof fn lemma_split_on_not_empty(text: Seq<char>, separator: char)
    ensures
        split_on(text, separator).len() > 0,
    decreases text.len(),
{
    if text.len() > 0 {
        lemma_split_on_not_empty(text.drop_last(), separator);
    }
}

} // verus!
