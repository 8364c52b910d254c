//! Texts in ascending order, none of them twice.

use vstd::prelude::*;

use crate::text::{ascending, comes_before, precedes, precedes_is_total, precedes_is_transitive, texts};

verus! {

/// The list with one more text at its place, if it is not there.
pub open spec fn with_text(list: Seq<Seq<char>>, item: Seq<char>) -> Seq<Seq<char>>
    decreases list.len(),
{
    if list.len() == 0 {
        seq![item]
    } else if list[0] == item {
        list
    } else if precedes(item, list[0]) {
        seq![item] + list
    } else {
        seq![list[0]] + with_text(list.skip(1), item)
    }
}

/// All the items in ascending order, none of them twice.
pub open spec fn collected(items: Seq<Seq<char>>) -> Seq<Seq<char>>
    decreases items.len(),
{
    if items.len() == 0 {
        items
    } else {
        with_text(collected(items.drop_last()), items.last())
    }
}

/// Puts a text at its place, if it is not there.
pub fn insert_text(list: &mut Vec<String>, item: String)
    ensures
        texts(final(list)@) == with_text(texts(old(list)@), item@),
{
    let ghost all = texts(list@);
    let ghost wanted = with_text(all, item@);
    let mut i: usize = 0;
    assert(all.skip(0) =~= all);
    assert(all.take(0) + wanted =~= wanted);
    while i < list.len()
        invariant
            i <= list@.len(),
            list@ == old(list)@,
            all == texts(list@),
            all == texts(old(list)@),
            wanted == with_text(all, item@),
            wanted == all.take(i as int) + with_text(all.skip(i as int), item@),
        decreases list@.len() - i,
    {
        assert(all[i as int] == list@[i as int]@);
        assert(all.skip(i as int)[0] == all[i as int]);
        let ghost rest = all.skip(i as int).skip(1);
        assert(rest =~= all.skip(i + 1));
        if list[i] == item {
            assert(all.take(i as int) + all.skip(i as int) =~= all);
            return;
        }
        if comes_before(item.as_str(), list[i].as_str()) {
            list.insert(i, item);
            assert(texts(list@) =~= all.take(i as int) + (seq![item@] + all.skip(i as int)));
            return;
        }
        assert(all.take(i as int) + (seq![all[i as int]] + with_text(rest, item@)) =~= all.take(i + 1)
            + with_text(rest, item@));
        i += 1;
    }
    assert(all.skip(i as int) =~= Seq::empty());
    list.push(item);
    assert(texts(list@) =~= all.take(i as int) + seq![item@]);
}

proof fn lemma_with_text(list: Seq<Seq<char>>, item: Seq<char>)
    requires
        ascending(list),
    ensures
        ascending(with_text(list, item)),
        forall|text: Seq<char>|
            #[trigger] with_text(list, item).contains(text) <==> text == item || list.contains(text),
    decreases list.len(),
{
    let result = with_text(list, item);
    if list.len() == 0 {
        assert forall|text: Seq<char>| #[trigger] result.contains(text) <==> text == item
            || list.contains(text) by {
            assert(result[0] == item);
        }
    } else if list[0] == item {
        assert forall|text: Seq<char>| #[trigger] result.contains(text) <==> text == item
            || list.contains(text) by {
            assert(list.contains(list[0]));
        }
    } else if precedes(item, list[0]) {
        assert forall|i: int, j: int| 0 <= i < j < result.len() implies precedes(
            #[trigger] result[i],
            #[trigger] result[j],
        ) by {
            assert(result[j] == list[j - 1]);
            if i == 0 {
                if j > 1 {
                    precedes_is_transitive(item, list[0], list[j - 1]);
                }
            } else {
                assert(result[i] == list[i - 1]);
            }
        }
        assert forall|text: Seq<char>| #[trigger] result.contains(text) <==> text == item
            || list.contains(text) by {
            assert(result[0] == item);
            if list.contains(text) {
                let k = list.index_of(text);
                assert(result[k + 1] == text);
            }
            if result.contains(text) {
                let k = result.index_of(text);
                if k > 0 {
                    assert(list[k - 1] == text);
                }
            }
        }
    } else {
        precedes_is_total(item, list[0]);
        let rest = list.skip(1);
        assert forall|i: int, j: int| 0 <= i < j < rest.len() implies precedes(
            #[trigger] rest[i],
            #[trigger] rest[j],
        ) by {
            assert(rest[i] == list[i + 1]);
            assert(rest[j] == list[j + 1]);
        }
        lemma_with_text(rest, item);
        let tail = with_text(rest, item);
        assert forall|i: int, j: int| 0 <= i < j < result.len() implies precedes(
            #[trigger] result[i],
            #[trigger] result[j],
        ) by {
            assert(result[j] == tail[j - 1]);
            if i == 0 {
                assert(tail.contains(tail[j - 1]));
                if tail[j - 1] != item {
                    let k = rest.index_of(tail[j - 1]);
                    assert(rest[k] == list[k + 1]);
                }
            } else {
                assert(result[i] == tail[i - 1]);
            }
        }
        assert forall|text: Seq<char>| #[trigger] result.contains(text) <==> text == item
            || list.contains(text) by {
            if result.contains(text) {
                let k = result.index_of(text);
                if k == 0 {
                    assert(list[0] == text);
                } else {
                    assert(tail[k - 1] == text);
                    assert(tail.contains(text));
                    if text != item {
                        let n = rest.index_of(text);
                        assert(list[n + 1] == text);
                    }
                }
            }
            if text == item || list.contains(text) {
                if text != item && list[0] != text {
                    let n = list.index_of(text);
                    assert(rest[n - 1] == text);
                }
                if text == item || list[0] != text {
                    assert(tail.contains(text));
                    let k = tail.index_of(text);
                    assert(result[k + 1] == text);
                } else {
                    assert(result[0] == text);
                }
            }
        }
    }
}

/// Collecting items keeps each of them, adds none, and puts them in ascending order.
pub proof fn collected_is_the_ordered_set(items: Seq<Seq<char>>)
    ensures
        ascending(collected(items)),
        forall|text: Seq<char>| #[trigger] collected(items).contains(text) <==> items.contains(text),
    decreases items.len(),
{
    if items.len() > 0 {
        let before = items.drop_last();
        collected_is_the_ordered_set(before);
        lemma_with_text(collected(before), items.last());
        assert forall|text: Seq<char>| #[trigger] collected(items).contains(text)
            <==> items.contains(text) by {
            if items.contains(text) {
                let k = items.index_of(text);
                if k < before.len() {
                    assert(before[k] == text);
                }
            }
            if before.contains(text) {
                let k = before.index_of(text);
                assert(items[k] == text);
            }
            assert(items[items.len() - 1] == items.last());
        }
    }
}

/// Two ascending lists of the same texts are the same list.
pub proof fn ascending_lists_are_determined(a: Seq<Seq<char>>, b: Seq<Seq<char>>)
    requires
        ascending(a),
        ascending(b),
        forall|text: Seq<char>| #[trigger] a.contains(text) <==> b.contains(text),
    ensures
        a == b,
    decreases a.len(),
{
    if a.len() == 0 {
        if b.len() > 0 {
            assert(b.contains(b[0]));
            assert(a.contains(b[0]));
        }
        assert(a =~= b);
    } else {
        assert(a.contains(a.last()));
        assert(b.contains(a.last()));
        assert(b.contains(b.last()));
        assert(a.contains(b.last()));
        let i = a.index_of(b.last());
        let j = b.index_of(a.last());
        precedes_is_total(a.last(), b.last());
        assert(a.last() == b.last());
        let front = a.drop_last();
        let other = b.drop_last();
        assert forall|text: Seq<char>| #[trigger] front.contains(text) <==> other.contains(text) by {
            if front.contains(text) {
                let k = front.index_of(text);
                assert(a[k] == text);
                assert(a.contains(text));
                assert(precedes(a[k], a[a.len() - 1]));
                precedes_is_total(text, a.last());
                let n = b.index_of(text);
                assert(other[n] == text);
            }
            if other.contains(text) {
                let k = other.index_of(text);
                assert(b[k] == text);
                assert(b.contains(text));
                assert(a.contains(text));
                assert(precedes(b[k], b[b.len() - 1]));
                precedes_is_total(text, b.last());
                let n = a.index_of(text);
                assert(front[n] == text);
            }
        }
        ascending_lists_are_determined(front, other);
        assert(a =~= front.push(a.last()));
        assert(b =~= other.push(b.last()));
    }
}

} // verus!
