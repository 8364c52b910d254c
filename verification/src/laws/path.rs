//! Laws on paths.

use vstd::prelude::*;

use crate::path::{
    beginning, components, components_around_a_slash, components_before_slash, counting, ending,
    inner, last_name, lemma_inner_add, parent_has_the_other_components, parent_parts, parent_text,
    parts_below, path_below, rest_has_the_other_components, text_below, without_end,
};
use crate::text::{joined, split_of_joined, split_of_one, split_of_two, split_on};

verus! {

/// Whether a name can stand between the slashes of a path: it is not empty, holds no slash and
/// is not a lone dot.
pub open spec fn is_part(name: Seq<char>) -> bool {
    name.len() > 0 && !name.contains('/') && name != seq!['.']
}

/// The components of a path are the names between its slashes; a slash in front is the root.
pub proof fn components_are_the_names(names: Seq<Seq<char>>)
    requires
        names.len() > 0,
        forall|i: int| 0 <= i < names.len() ==> is_part(#[trigger] names[i]),
    ensures
        components(joined(names, seq!['/'])) == names,
        components(seq!['/'] + joined(names, seq!['/'])) == seq![seq!['/']] + names,
{
    let path = joined(names, seq!['/']);
    assert forall|i: int| 0 <= i < names.len() implies !(#[trigger] names[i]).contains('/') by {
        assert(is_part(names[i]));
    }
    split_of_joined(names, '/');
    lemma_names_count(names);
    lemma_first_character(names);
    components_around_a_slash(Seq::empty(), path);
    assert(Seq::<char>::empty() + seq!['/'] + path =~= seq!['/'] + path);
}

proof fn lemma_names_count(names: Seq<Seq<char>>)
    requires
        forall|i: int| 0 <= i < names.len() ==> is_part(#[trigger] names[i]),
    ensures
        counting(names) == names,
        inner(names) == names,
    decreases names.len(),
{
    if names.len() > 0 {
        let front = names.drop_last();
        assert forall|i: int| 0 <= i < front.len() implies is_part(#[trigger] front[i]) by {
            assert(front[i] == names[i]);
        }
        lemma_names_count(front);
        assert(is_part(names[names.len() - 1]));
        assert(front.push(names.last()) =~= names);
    }
}

proof fn lemma_first_character(names: Seq<Seq<char>>)
    requires
        names.len() > 0,
        is_part(names[0]),
    ensures
        joined(names, seq!['/']).len() > 0,
        joined(names, seq!['/'])[0] != '/',
    decreases names.len(),
{
    if names.len() > 1 {
        assert(names.drop_last()[0] == names[0]);
        lemma_first_character(names.drop_last());
    } else {
        assert(names[0].contains(names[0][0]));
    }
}

/// A lone dot counts only at the start of a relative path.
pub proof fn first_dot_is_a_component(names: Seq<Seq<char>>)
    requires
        names.len() > 0,
        forall|i: int| 0 <= i < names.len() ==> is_part(#[trigger] names[i]),
    ensures
        components(seq!['.', '/'] + joined(names, seq!['/'])) == seq![seq!['.']] + names,
        components(seq!['.']) == seq![seq!['.']],
        components(seq!['/', '.', '/'] + joined(names, seq!['/'])) == seq![seq!['/']] + names,
        components(Seq::empty()) == Seq::<Seq<char>>::empty(),
        components(seq!['/']) == seq![seq!['/']],
{
    let path = joined(names, seq!['/']);
    let empty = Seq::<char>::empty();
    let dot = seq!['.'];
    components_are_the_names(names);
    assert forall|i: int| 0 <= i < names.len() implies !(#[trigger] names[i]).contains('/') by {
        assert(is_part(names[i]));
    }
    split_of_joined(names, '/');
    lemma_names_count(names);
    split_of_one(empty, '/');
    split_of_one(dot, '/');
    assert(seq![dot].drop_last() =~= Seq::empty());
    assert(seq![empty].drop_last() =~= Seq::empty());
    assert(counting(Seq::<Seq<char>>::empty()) =~= Seq::empty());
    assert(counting(seq![empty]) =~= Seq::empty());
    assert(components(dot) =~= seq![dot]);
    components_around_a_slash(dot, path);
    assert(dot + seq!['/'] + path =~= seq!['.', '/'] + path);
    extra_slashes_and_dots_change_nothing(empty, path);
    assert(empty + seq!['/', '.', '/'] + path =~= seq!['/', '.', '/'] + path);
    assert(empty + seq!['/'] + path =~= seq!['/'] + path);
    split_of_two(empty, empty, '/');
    assert(empty + seq!['/'] + empty =~= seq!['/']);
    assert(split_on(seq!['/'], '/') =~= seq![empty, empty]);
    assert(seq![empty, empty].drop_last() =~= seq![empty]);
    assert(components(seq!['/']) =~= seq![seq!['/']]);
}

/// A slash more, or a lone dot between slashes, changes nothing.
pub proof fn extra_slashes_and_dots_change_nothing(front: Seq<char>, back: Seq<char>)
    ensures
        components(front + seq!['/', '/'] + back) == components(front + seq!['/'] + back),
        components(front + seq!['/', '.', '/'] + back) == components(front + seq!['/'] + back),
        front.len() > 0 ==> components(front + seq!['/']) == components(front),
        front.len() > 0 ==> components(front + seq!['/', '.']) == components(front),
{
    let empty = Seq::<char>::empty();
    let dot = seq!['.'];
    split_of_one(empty, '/');
    split_of_one(dot, '/');
    let tail = split_on(back, '/');
    components_around_a_slash(front, back);
    components_around_a_slash(front, seq!['/'] + back);
    components_around_a_slash(front, seq!['.', '/'] + back);
    components_around_a_slash(front, empty);
    components_around_a_slash(front, dot);
    split_of_two(empty, back, '/');
    split_of_two(dot, back, '/');
    assert(empty + seq!['/'] + back =~= seq!['/'] + back);
    assert(dot + seq!['/'] + back =~= seq!['.', '/'] + back);
    assert(front + seq!['/'] + (seq!['/'] + back) =~= front + seq!['/', '/'] + back);
    assert(front + seq!['/'] + (seq!['.', '/'] + back) =~= front + seq!['/', '.', '/'] + back);
    assert(front + seq!['/'] + empty =~= front + seq!['/']);
    assert(front + seq!['/'] + dot =~= front + seq!['/', '.']);
    lemma_inner_add(seq![empty], tail);
    lemma_inner_add(seq![dot], tail);
    assert(seq![empty].drop_last() =~= Seq::empty());
    assert(seq![dot].drop_last() =~= Seq::empty());
    assert(inner(Seq::<Seq<char>>::empty()) =~= Seq::empty());
    assert(inner(seq![empty]) =~= Seq::empty());
    assert(inner(seq![dot]) =~= Seq::empty());
    assert(inner(seq![empty]) + inner(tail) =~= inner(tail));
    assert(inner(seq![dot]) + inner(tail) =~= inner(tail));
    let before = components_before_slash(front);
    assert(before + Seq::<Seq<char>>::empty() =~= before);
}

/// The last component is the file's name, unless it is the root, a lone dot or two dots.
pub proof fn file_name_is_the_last_component(parts: Seq<Seq<char>>, name: Seq<char>)
    ensures
        last_name(Seq::empty()) is None,
        last_name(parts.push(name)) == (if name == seq!['/'] || name == seq!['.'] || name
            == seq!['.', '.'] {
            None
        } else {
            Some(name)
        }),
{
}

/// The parent has all components but the last; the root and the empty path have none.
pub proof fn parent_lacks_the_last_component(parts: Seq<Seq<char>>, name: Seq<char>)
    ensures
        parent_parts(Seq::empty()) is None,
        parent_parts(parts.push(name)) == (if name == seq!['/'] {
            None
        } else {
            Some(parts)
        }),
{
    assert(parts.push(name).drop_last() =~= parts);
}

/// What is left behind a base is what was put behind it, and nothing is left behind another.
pub proof fn rest_is_behind_the_base(base: Seq<Seq<char>>, rest: Seq<Seq<char>>, other: Seq<Seq<char>>)
    ensures
        parts_below(base + rest, base) == Some(rest),
        parts_below(base + rest, other) is Some ==> other == (base + rest).take(
            other.len() as int,
        ),
        other.len() > base.len() + rest.len() ==> parts_below(base + rest, other) is None,
{
    assert((base + rest).take(base.len() as int) =~= base);
    assert((base + rest).skip(base.len() as int) =~= rest);
}

/// A relative name stands behind its base, with one slash between them; an absolute one stands
/// for itself.
pub proof fn name_stands_behind_its_base(base: Seq<char>, name: Seq<char>)
    ensures
        name.len() > 0 && name[0] == '/' ==> path_below(base, name) == name,
        base.len() == 0 ==> path_below(base, name) == name,
        base.len() > 0 && base.last() != '/' && (name.len() == 0 || name[0] != '/') ==> path_below(
            base,
            name,
        ) == base + seq!['/'] + name,
        base.len() > 0 && base.last() == '/' && (name.len() == 0 || name[0] != '/') ==> path_below(
            base,
            name,
        ) == base + name,
{
}

/// The parent is the shortest beginning of the path with all components but the last.
pub proof fn parent_is_the_shortest_beginning(path: Seq<char>, k: int)
    ensures
        match parent_text(path) {
            Some(parent) => {
                &&& components(path).len() > 0
                &&& parent.len() <= path.len()
                &&& path.take(parent.len() as int) == parent
                &&& components(parent) == components(path).drop_last()
                &&& 0 <= k < parent.len() ==> components(path.take(k)) != components(
                    path,
                ).drop_last()
            },
            None => components(path).len() == 0 || components(path).last() == seq!['/'],
        },
{
    parent_has_the_other_components(path);
    if let Some(parts) = parent_parts(components(path)) {
        lemma_beginning(path, parts, 0, k);
    }
}

proof fn lemma_beginning(path: Seq<char>, parts: Seq<Seq<char>>, length: int, k: int)
    requires
        0 <= length <= path.len(),
    ensures
        length <= beginning(path, parts, length) <= path.len(),
        length <= k < beginning(path, parts, length) ==> components(path.take(k)) != parts,
    decreases path.len() - length,
{
    if length < path.len() && components(path.take(length)) != parts {
        lemma_beginning(path, parts, length + 1, k);
    }
}

proof fn lemma_ending(path: Seq<char>, parts: Seq<Seq<char>>, length: int, k: int)
    requires
        0 <= length <= path.len(),
    ensures
        length <= ending(path, parts, length) <= path.len(),
        length <= k < ending(path, parts, length) ==> components(path.skip(path.len() - k))
            != parts,
    decreases path.len() - length,
{
    if length < path.len() && components(path.skip(path.len() - length)) != parts {
        lemma_ending(path, parts, length + 1, k);
    }
}

/// What is left behind a base is an end of the path without the slashes behind it, and the
/// shortest that has the other components. Nothing is left behind a base that the path does not
/// begin with.
pub proof fn rest_is_the_shortest_end(path: Seq<char>, base: Seq<Seq<char>>, k: int)
    requires
        base.len() > 0,
    ensures
        match text_below(path, base) {
            Some(rest) => {
                let whole = without_end(path);
                &&& base + components(rest) == components(path)
                &&& rest.len() <= whole.len()
                &&& whole.skip(whole.len() - rest.len()) == rest
                &&& 0 <= k < rest.len() ==> components(whole.skip(whole.len() - k)) != components(
                    rest,
                )
            },
            None => base.len() > components(path).len() || components(path).take(base.len() as int)
                != base,
        },
{
    rest_has_the_other_components(path, base);
    if let Some(rest) = parts_below(components(path), base) {
        let whole = without_end(path);
        lemma_ending(whole, rest, 0, k);
        assert(components(path) =~= base + rest);
    }
}

/// A path without its end is its shortest beginning with all its components, and that is all
/// that is left behind no base.
pub proof fn end_is_cut_off(path: Seq<char>, k: int)
    ensures
        without_end(path).len() <= path.len(),
        path.take(without_end(path).len() as int) == without_end(path),
        0 <= k < without_end(path).len() ==> components(path.take(k)) != components(path),
        text_below(path, Seq::empty()) == Some(without_end(path)),
{
    lemma_beginning(path, components(path), 0, k);
    assert(components(path).take(0) =~= Seq::empty());
}

} // verus!
