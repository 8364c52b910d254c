//! Unix paths as text.

use vstd::prelude::*;

use crate::text::{
    chars_of, lemma_split_on_not_empty, push_text, same_text, split, split_of_one, split_of_two,
    split_on, text_of, texts,
};

verus! {

/// The component that the slash at the start of an absolute path makes.
pub open spec fn root_name() -> Seq<char> {
    seq!['/']
}

/// Whether a component names a file or a directory, not the root, the current directory or
/// the parent directory.
pub open spec fn is_normal(name: Seq<char>) -> bool {
    name != root_name() && name != seq!['.'] && name != seq!['.', '.']
}

/// The pieces between slashes that count: not the empty ones, and `.` only at the start.
pub open spec fn counting(pieces: Seq<Seq<char>>) -> Seq<Seq<char>>
    decreases pieces.len(),
{
    if pieces.len() == 0 {
        pieces
    } else {
        let before = counting(pieces.drop_last());
        if pieces.last().len() == 0 || (pieces.last() == seq!['.'] && pieces.len() > 1) {
            before
        } else {
            before.push(pieces.last())
        }
    }
}

/// The components of a path. Two paths with the same components are the same path.
pub open spec fn components(path: Seq<char>) -> Seq<Seq<char>> {
    let names = counting(split_on(path, '/'));
    if path.len() > 0 && path[0] == '/' {
        seq![root_name()] + names
    } else {
        names
    }
}

/// The last component, where it is a name.
pub open spec fn last_name(parts: Seq<Seq<char>>) -> Option<Seq<char>> {
    if parts.len() > 0 && is_normal(parts.last()) {
        Some(parts.last())
    } else {
        None
    }
}

/// The components of the parent; the root and the empty path have none.
pub open spec fn parent_parts(parts: Seq<Seq<char>>) -> Option<Seq<Seq<char>>> {
    if parts.len() > 0 && parts.last() != root_name() {
        Some(parts.drop_last())
    } else {
        None
    }
}

/// What is left of `parts` behind `base`.
pub open spec fn parts_below(parts: Seq<Seq<char>>, base: Seq<Seq<char>>) -> Option<Seq<Seq<char>>> {
    if base.len() <= parts.len() && parts.take(base.len() as int) == base {
        Some(parts.skip(base.len() as int))
    } else {
        None
    }
}

/// The length of the shortest beginning of a path, from `length` characters on, that has these
/// components; that of the whole path where none has.
pub open spec fn beginning(path: Seq<char>, parts: Seq<Seq<char>>, length: int) -> int
    decreases path.len() - length,
{
    if length >= path.len() || components(path.take(length)) == parts {
        length
    } else {
        beginning(path, parts, length + 1)
    }
}

/// The length of the shortest end of a path, from `length` characters on, that has these
/// components; that of the whole path where none has.
pub open spec fn ending(path: Seq<char>, parts: Seq<Seq<char>>, length: int) -> int
    decreases path.len() - length,
{
    if length >= path.len() || components(path.skip(path.len() - length)) == parts {
        length
    } else {
        ending(path, parts, length + 1)
    }
}

/// The beginning of a path that has all its components: the path without the slashes behind
/// its last component.
pub open spec fn without_end(path: Seq<char>) -> Seq<char> {
    path.take(beginning(path, components(path), 0))
}

/// The parent of a path: the beginning that has all components but the last.
pub open spec fn parent_text(path: Seq<char>) -> Option<Seq<char>> {
    match parent_parts(components(path)) {
        Some(parts) => Some(path.take(beginning(path, parts, 0))),
        None => None,
    }
}

/// What is left of a path behind these components: the end that has all the others.
pub open spec fn text_below(path: Seq<char>, base: Seq<Seq<char>>) -> Option<Seq<char>> {
    match parts_below(components(path), base) {
        Some(rest) => {
            let whole = without_end(path);
            if base.len() == 0 {
                Some(whole)
            } else {
                Some(whole.skip(whole.len() - ending(whole, rest, 0)))
            }
        },
        None => None,
    }
}

/// `name` below `base`; an absolute `name` stands for itself.
pub open spec fn path_below(base: Seq<char>, name: Seq<char>) -> Seq<char> {
    if base.len() == 0 || (name.len() > 0 && name[0] == '/') {
        name
    } else if base.last() == '/' {
        base + name
    } else {
        base + root_name() + name
    }
}

fn is_name(name: &str) -> (result: bool)
    ensures
        result == is_normal(name@),
{
    proof {
        reveal_strlit("/");
        reveal_strlit(".");
        reveal_strlit("..");
        assert("/"@ =~= root_name());
        assert("."@ =~= seq!['.']);
        assert(".."@ =~= seq!['.', '.']);
    }
    !same_text(name, "/") && !same_text(name, ".") && !same_text(name, "..")
}

/// Takes a path apart.
pub fn take_apart(path: &str) -> (parts: Vec<String>)
    ensures
        texts(parts@) == components(path@),
{
    proof {
        reveal_strlit("/");
        reveal_strlit(".");
        assert("/"@ =~= root_name());
        assert("."@ =~= seq!['.']);
    }
    let chars = chars_of(path);
    let pieces = split(path, '/');
    let ghost all = texts(pieces@);
    let mut parts: Vec<String> = Vec::new();
    let mut i: usize = 0;
    let ghost root = Seq::<Seq<char>>::empty();
    if chars.len() > 0 && chars[0] == '/' {
        push_text(&mut parts, "/".to_string());
        proof {
            root = seq![root_name()];
        }
    }
    assert(texts(parts@) =~= root + counting(all.take(0)));
    while i < pieces.len()
        invariant
            i <= pieces@.len(),
            all == texts(pieces@),
            "."@ == seq!['.'],
            texts(parts@) == root + counting(all.take(i as int)),
        decreases pieces@.len() - i,
    {
        let piece = pieces[i].as_str();
        i += 1;
        assert(all[i - 1] == piece@);
        assert(all.take(i as int).drop_last() =~= all.take(i - 1));
        if !(piece.is_empty() || (same_text(piece, ".") && i > 1)) {
            push_text(&mut parts, piece.to_string());
            assert(texts(parts@) =~= root + counting(all.take(i as int)));
        }
    }
    assert(all.take(i as int) =~= all);
    assert(root.len() == 0 ==> root + counting(all) =~= counting(all));
    parts
}

/// The last component, where it is a name.
pub fn file_name(parts: &Vec<String>) -> (name: Option<String>)
    ensures
        match name {
            Some(name) => last_name(texts(parts@)) == Some(name@),
            None => last_name(texts(parts@)) is None,
        },
{
    if parts.len() == 0 {
        return None;
    }
    let last = &parts[parts.len() - 1];
    assert(texts(parts@).last() == last@);
    if is_name(last.as_str()) {
        Some(last.clone())
    } else {
        None
    }
}

/// The components of the parent.
pub fn parent(parts: &Vec<String>) -> (result: Option<Vec<String>>)
    ensures
        match result {
            Some(above) => parent_parts(texts(parts@)) == Some(texts(above@)),
            None => parent_parts(texts(parts@)) is None,
        },
{
    proof {
        reveal_strlit("/");
        assert("/"@ =~= root_name());
    }
    if parts.len() == 0 {
        return None;
    }
    let end: usize = parts.len() - 1;
    assert(texts(parts@).last() == parts@[end as int]@);
    if same_text(parts[end].as_str(), "/") {
        return None;
    }
    let above = part_range(parts, 0, end);
    assert(texts(above@) =~= texts(parts@).drop_last());
    Some(above)
}

/// Copies the components from index `start` up to index `end`.
fn part_range(parts: &Vec<String>, start: usize, end: usize) -> (range: Vec<String>)
    requires
        start <= end <= parts@.len(),
    ensures
        texts(range@) == texts(parts@).subrange(start as int, end as int),
{
    let mut range: Vec<String> = Vec::new();
    let mut i: usize = start;
    assert(texts(range@) =~= texts(parts@).subrange(start as int, i as int));
    while i < end
        invariant
            start <= i <= end <= parts@.len(),
            texts(range@) == texts(parts@).subrange(start as int, i as int),
        decreases end - i,
    {
        push_text(&mut range, parts[i].clone());
        i += 1;
        assert(texts(parts@).subrange(start as int, i as int) =~= texts(parts@).subrange(
            start as int,
            i - 1,
        ).push(parts@[i - 1]@));
    }
    range
}

/// Whether two lists hold the same texts.
pub fn same_parts(a: &Vec<String>, b: &Vec<String>) -> (same: bool)
    ensures
        same == (texts(a@) == texts(b@)),
{
    if a.len() != b.len() {
        assert(texts(a@).len() != texts(b@).len());
        return false;
    }
    let mut i: usize = 0;
    while i < a.len()
        invariant
            i <= a@.len(),
            a@.len() == b@.len(),
            forall|k: int| 0 <= k < i ==> texts(a@)[k] == texts(b@)[k],
        decreases a@.len() - i,
    {
        if a[i] != b[i] {
            assert(texts(a@)[i as int] != texts(b@)[i as int]);
            return false;
        }
        i += 1;
    }
    assert(texts(a@) =~= texts(b@));
    true
}

/// What is left of `parts` behind `base`.
pub fn strip_base(parts: &Vec<String>, base: &Vec<String>) -> (rest: Option<Vec<String>>)
    ensures
        match rest {
            Some(rest) => parts_below(texts(parts@), texts(base@)) == Some(texts(rest@)),
            None => parts_below(texts(parts@), texts(base@)) is None,
        },
{
    if base.len() > parts.len() {
        return None;
    }
    let front = part_range(parts, 0, base.len());
    assert(texts(parts@).subrange(0, base@.len() as int) =~= texts(parts@).take(base@.len() as int));
    if !same_parts(&front, base) {
        return None;
    }
    let rest = part_range(parts, base.len(), parts.len());
    assert(texts(rest@) =~= texts(parts@).skip(base@.len() as int));
    Some(rest)
}

fn cut_beginning(path: &str, parts: &Vec<String>) -> (text: String)
    ensures
        text@ == path@.take(beginning(path@, texts(parts@), 0)),
{
    let chars = chars_of(path);
    let mut length: usize = 0;
    while length < chars.len()
        invariant
            length <= chars@.len(),
            chars@ == path@,
            beginning(path@, texts(parts@), 0) == beginning(path@, texts(parts@), length as int),
        decreases chars@.len() - length,
    {
        let text = text_of(&chars, 0, length);
        assert(text@ =~= path@.take(length as int));
        if same_parts(&take_apart(text.as_str()), parts) {
            return text;
        }
        length += 1;
    }
    let text = text_of(&chars, 0, length);
    assert(text@ =~= path@.take(length as int));
    text
}

fn cut_ending(path: &str, parts: &Vec<String>) -> (text: String)
    ensures
        text@ == path@.skip(path@.len() - ending(path@, texts(parts@), 0)),
{
    let chars = chars_of(path);
    let mut length: usize = 0;
    while length < chars.len()
        invariant
            length <= chars@.len(),
            chars@ == path@,
            ending(path@, texts(parts@), 0) == ending(path@, texts(parts@), length as int),
        decreases chars@.len() - length,
    {
        let text = text_of(&chars, chars.len() - length, chars.len());
        assert(text@ =~= path@.skip(path@.len() - length));
        if same_parts(&take_apart(text.as_str()), parts) {
            return text;
        }
        length += 1;
    }
    let text = text_of(&chars, chars.len() - length, chars.len());
    assert(text@ =~= path@.skip(path@.len() - length));
    text
}

/// The parent of a path.
pub fn parent_path(path: &str) -> (result: Option<String>)
    ensures
        match result {
            Some(text) => parent_text(path@) == Some(text@),
            None => parent_text(path@) is None,
        },
{
    match parent(&take_apart(path)) {
        Some(parts) => Some(cut_beginning(path, &parts)),
        None => None,
    }
}

/// What is left of a path behind the components `base`.
pub fn path_behind(path: &str, base: &Vec<String>) -> (result: Option<String>)
    ensures
        match result {
            Some(text) => text_below(path@, texts(base@)) == Some(text@),
            None => text_below(path@, texts(base@)) is None,
        },
{
    let parts = take_apart(path);
    match strip_base(&parts, base) {
        Some(rest) => {
            let whole = cut_beginning(path, &parts);
            assert(texts(base@).len() == base@.len());
            if base.len() == 0 {
                Some(whole)
            } else {
                Some(cut_ending(whole.as_str(), &rest))
            }
        },
        None => None,
    }
}

/// `name` below `base`.
pub fn join(base: &str, name: &str) -> (path: String)
    ensures
        path@ == path_below(base@, name@),
{
    proof {
        reveal_strlit("/");
        assert("/"@ =~= root_name());
    }
    let chars = chars_of(base);
    let tail = chars_of(name);
    let mut path = base.to_string();
    if chars.len() == 0 || (tail.len() > 0 && tail[0] == '/') {
        path = String::new();
    } else if chars[chars.len() - 1] != '/' {
        path.append("/");
    }
    path.append(name);
    assert(chars@.len() == 0 || (tail@.len() > 0 && tail@[0] == '/') ==> path@ =~= name@);
    path
}

/// The pieces between slashes that count behind the first one.
pub open spec fn inner(pieces: Seq<Seq<char>>) -> Seq<Seq<char>>
    decreases pieces.len(),
{
    if pieces.len() == 0 {
        pieces
    } else {
        let before = inner(pieces.drop_last());
        if pieces.last().len() == 0 || pieces.last() == seq!['.'] {
            before
        } else {
            before.push(pieces.last())
        }
    }
}

proof fn lemma_counting_add(first: Seq<Seq<char>>, second: Seq<Seq<char>>)
    requires
        first.len() > 0,
    ensures
        counting(first + second) == counting(first) + inner(second),
    decreases second.len(),
{
    if second.len() == 0 {
        assert(first + second =~= first);
        assert(counting(first) + inner(second) =~= counting(first));
    } else {
        assert((first + second).drop_last() =~= first + second.drop_last());
        assert((first + second).last() == second.last());
        lemma_counting_add(first, second.drop_last());
        assert(counting(first) + inner(second.drop_last()).push(second.last()) =~= (counting(first)
            + inner(second.drop_last())).push(second.last()));
    }
}

/// The components of what stands before a slash; before the first slash of an absolute path
/// stands the root.
pub open spec fn components_before_slash(front: Seq<char>) -> Seq<Seq<char>> {
    if front.len() == 0 {
        seq![root_name()]
    } else {
        components(front)
    }
}

/// The components of a path are those before a slash and those behind it.
pub proof fn components_around_a_slash(front: Seq<char>, back: Seq<char>)
    ensures
        components(front + root_name() + back) == components_before_slash(front) + inner(
            split_on(back, '/'),
        ),
{
    let path = front + root_name() + back;
    split_of_two(front, back, '/');
    lemma_split_on_not_empty(front, '/');
    lemma_counting_add(split_on(front, '/'), split_on(back, '/'));
    assert(path[0] == (if front.len() == 0 {
        '/'
    } else {
        front[0]
    }));
    let names = inner(split_on(back, '/'));
    if front.len() == 0 {
        assert(split_on(front, '/').drop_last() =~= Seq::empty());
        assert(counting(Seq::<Seq<char>>::empty()) =~= Seq::empty());
        assert(counting(split_on(front, '/')) =~= Seq::empty());
        assert(counting(split_on(front, '/')) + names =~= names);
    } else {
        assert(seq![root_name()] + (counting(split_on(front, '/')) + names) =~= (seq![root_name()]
            + counting(split_on(front, '/'))) + names);
    }
}

proof fn lemma_piece(piece: Seq<char>)
    requires
        !piece.contains('/'),
    ensures
        split_on(piece, '/') == seq![piece],
        inner(seq![piece]) == (if piece.len() == 0 || piece == seq!['.'] {
            Seq::<Seq<char>>::empty()
        } else {
            seq![piece]
        }),
        components(piece) == (if piece.len() == 0 {
            Seq::<Seq<char>>::empty()
        } else {
            seq![piece]
        }),
{
    split_of_one(piece, '/');
    assert(seq![piece].drop_last() =~= Seq::empty());
    assert(inner(Seq::<Seq<char>>::empty()) =~= Seq::empty());
    assert(counting(Seq::<Seq<char>>::empty()) =~= Seq::empty());
    assert(inner(seq![piece]) =~= (if piece.len() == 0 || piece == seq!['.'] {
        Seq::<Seq<char>>::empty()
    } else {
        seq![piece]
    }));
    if piece.len() > 0 {
        assert(piece.contains(piece[0]));
    }
    assert(components(piece) =~= (if piece.len() == 0 {
        Seq::<Seq<char>>::empty()
    } else {
        seq![piece]
    }));
}

/// Where the last slash of a path stands; -1 where there is none.
spec fn last_slash(path: Seq<char>) -> int
    decreases path.len(),
{
    if path.len() == 0 {
        -1
    } else if path.last() == '/' {
        path.len() - 1
    } else {
        last_slash(path.drop_last())
    }
}

proof fn lemma_last_slash(path: Seq<char>)
    ensures
        -1 <= last_slash(path) < path.len(),
        last_slash(path) >= 0 ==> path[last_slash(path)] == '/' && path == path.take(
            last_slash(path),
        ) + root_name() + path.skip(last_slash(path) + 1),
        !path.skip(last_slash(path) + 1).contains('/'),
    decreases path.len(),
{
    let at = last_slash(path);
    if path.len() > 0 && path.last() != '/' {
        let front = path.drop_last();
        lemma_last_slash(front);
        let shorter = front.skip(at + 1);
        let piece = path.skip(at + 1);
        assert forall|i: int| 0 <= i < piece.len() implies piece[i] != '/' by {
            if i < shorter.len() {
                assert(shorter.contains(shorter[i]));
            }
        }
    }
    if at >= 0 {
        assert(path =~= path.take(at) + root_name() + path.skip(at + 1));
    }
}

proof fn lemma_beginning(path: Seq<char>, parts: Seq<Seq<char>>, length: int, found: int)
    requires
        0 <= length <= found <= path.len(),
        components(path.take(found)) == parts,
    ensures
        length <= beginning(path, parts, length) <= found,
        components(path.take(beginning(path, parts, length))) == parts,
    decreases found - length,
{
    if length < found && components(path.take(length)) != parts {
        lemma_beginning(path, parts, length + 1, found);
    }
}

proof fn lemma_ending(path: Seq<char>, parts: Seq<Seq<char>>, length: int, found: int)
    requires
        0 <= length <= found <= path.len(),
        components(path.skip(path.len() - found)) == parts,
    ensures
        length <= ending(path, parts, length) <= found,
        components(path.skip(path.len() - ending(path, parts, length))) == parts,
    decreases found - length,
{
    if length < found && components(path.skip(path.len() - length)) != parts {
        lemma_ending(path, parts, length + 1, found);
    }
}

proof fn lemma_parent_length(path: Seq<char>) -> (length: int)
    requires
        parent_parts(components(path)) is Some,
    ensures
        0 <= length <= path.len(),
        components(path.take(length)) == components(path).drop_last(),
    decreases path.len(),
{
    lemma_last_slash(path);
    let at = last_slash(path);
    let piece = path.skip(at + 1);
    lemma_piece(piece);
    lemma_piece(Seq::empty());
    if at < 0 {
        assert(piece =~= path);
        assert(path.take(0) =~= Seq::empty());
        assert(components(path).drop_last() =~= Seq::empty());
        0
    } else {
        let front = path.take(at);
        components_around_a_slash(front, piece);
        if piece.len() == 0 || piece == seq!['.'] {
            assert(components(path) =~= components_before_slash(front));
            assert(front.len() > 0);
            let length = lemma_parent_length(front);
            assert(path.take(length) =~= front.take(length));
            length
        } else {
            assert(components(path).drop_last() =~= components_before_slash(front));
            if at == 0 {
                assert(path.take(1) =~= Seq::empty() + root_name() + Seq::empty());
                components_around_a_slash(Seq::empty(), Seq::empty());
                assert(components(path.take(1)) =~= seq![root_name()]);
                1
            } else {
                at
            }
        }
    }
}

proof fn lemma_rest_length(path: Seq<char>, count: int) -> (length: int)
    requires
        0 < count <= components(path).len(),
    ensures
        0 <= length <= path.len(),
        components(path.skip(path.len() - length)) == components(path).skip(count),
    decreases path.len(),
{
    lemma_last_slash(path);
    let at = last_slash(path);
    let piece = path.skip(at + 1);
    lemma_piece(piece);
    lemma_piece(Seq::empty());
    assert(path.skip(path.len() as int) =~= Seq::empty());
    if count == components(path).len() {
        assert(components(path).skip(count) =~= Seq::empty());
        0
    } else if at < 0 {
        assert(piece =~= path);
        0
    } else {
        let front = path.take(at);
        components_around_a_slash(front, piece);
        let before = components_before_slash(front);
        if at == 0 {
            assert(components(path).skip(count) =~= seq![piece]);
            piece.len() as int
        } else {
            let length = lemma_rest_length(front, count);
            let rest = front.skip(front.len() - length);
            if rest.len() == 0 {
                assert(rest =~= Seq::empty());
                assert(before.skip(count).len() == 0);
                assert(components(path).skip(count) =~= inner(split_on(piece, '/')));
                piece.len() as int
            } else {
                components_around_a_slash(rest, piece);
                let result = length + 1 + piece.len();
                assert(path.skip(path.len() - result) =~= rest + root_name() + piece);
                assert(components(path).skip(count) =~= before.skip(count) + inner(
                    split_on(piece, '/'),
                ));
                result
            }
        }
    }
}

/// The parent of a path has all components but the last, and it is a beginning of the path.
pub proof fn parent_has_the_other_components(path: Seq<char>)
    ensures
        match parent_text(path) {
            Some(text) => {
                &&& parent_parts(components(path)) == Some(components(text))
                &&& text.len() <= path.len()
                &&& text == path.take(text.len() as int)
            },
            None => parent_parts(components(path)) is None,
        },
{
    if parent_parts(components(path)) is Some {
        let length = lemma_parent_length(path);
        lemma_beginning(path, components(path).drop_last(), 0, length);
    }
}

/// What is left of a path behind some components has the others.
pub proof fn rest_has_the_other_components(path: Seq<char>, base: Seq<Seq<char>>)
    ensures
        match text_below(path, base) {
            Some(text) => parts_below(components(path), base) == Some(components(text)),
            None => parts_below(components(path), base) is None,
        },
{
    if let Some(rest) = parts_below(components(path), base) {
        assert(path.take(path.len() as int) =~= path);
        lemma_beginning(path, components(path), 0, path.len() as int);
        let whole = without_end(path);
        if base.len() == 0 {
            assert(rest =~= components(path));
        } else {
            let length = lemma_rest_length(whole, base.len() as int);
            lemma_ending(whole, rest, 0, length);
        }
    }
}

proof fn lemma_plain_pieces(pieces: Seq<Seq<char>>)
    requires
        forall|i: int| 0 <= i < pieces.len() ==> !(#[trigger] pieces[i]).contains('/'),
    ensures
        forall|i: int| 0 <= i < counting(pieces).len() ==> #[trigger] counting(pieces)[i].len() > 0,
        forall|i: int| 0 <= i < counting(pieces).len() ==> !(#[trigger] counting(pieces)[i]).contains('/'),
        forall|i: int| 0 < i < counting(pieces).len() ==> #[trigger] counting(pieces)[i] != seq!['.'],
        pieces.len() > 0 && pieces[0].len() == 0 && counting(pieces).len() > 0 ==> counting(
            pieces,
        )[0] != seq!['.'],
        pieces.len() > 0 && pieces[0].len() > 0 ==> counting(pieces).len() > 0,
    decreases pieces.len(),
{
    if pieces.len() > 0 {
        let front = pieces.drop_last();
        assert forall|i: int| 0 <= i < front.len() implies !(#[trigger] front[i]).contains('/') by {
            assert(front[i] == pieces[i]);
        }
        lemma_plain_pieces(front);
        assert(pieces[pieces.len() - 1] == pieces.last());
        if front.len() == 0 {
            assert(counting(front) =~= Seq::empty());
        } else {
            assert(front[0] == pieces[0]);
        }
    }
}

proof fn lemma_split_pieces(text: Seq<char>)
    ensures
        forall|i: int|
            0 <= i < split_on(text, '/').len() ==> !(#[trigger] split_on(text, '/')[i]).contains('/'),
        split_on(text, '/').len() > 0,
        text.len() > 0 && text[0] == '/' ==> split_on(text, '/')[0].len() == 0,
        text.len() > 0 && text[0] != '/' ==> split_on(text, '/')[0].len() > 0,
    decreases text.len(),
{
    lemma_last_slash(text);
    let at = last_slash(text);
    let piece = text.skip(at + 1);
    split_of_one(piece, '/');
    if at < 0 {
        assert(piece =~= text);
    } else {
        let front = text.take(at);
        split_of_two(front, piece, '/');
        lemma_split_pieces(front);
        let pieces = split_on(front, '/');
        assert forall|i: int| 0 <= i < split_on(text, '/').len() implies !(
        #[trigger] split_on(text, '/')[i]).contains('/') by {
            if i < pieces.len() {
                assert(split_on(text, '/')[i] == pieces[i]);
            }
        }
        assert(split_on(text, '/')[0] == pieces[0]);
        if at > 0 {
            assert(front[0] == text[0]);
        }
    }
}

proof fn lemma_components(path: Seq<char>)
    ensures
        forall|i: int|
            0 < i < components(path).len() ==> #[trigger] components(path)[i] != root_name()
                && components(path)[i] != seq!['.'],
        path.len() > 0 && path[0] == '/' ==> components(path).len() > 0 && components(path)[0]
            == root_name(),
        path.len() > 0 ==> components(path).len() > 0,
{
    lemma_split_pieces(path);
    let pieces = split_on(path, '/');
    lemma_plain_pieces(pieces);
    let names = counting(pieces);
    assert(root_name()[0] == '/');
    if path.len() == 0 {
        assert(path =~= Seq::empty());
        lemma_piece(Seq::empty());
    }
    assert forall|i: int| 0 < i < components(path).len() implies #[trigger] components(path)[i]
        != root_name() && components(path)[i] != seq!['.'] by {
        let at = if path[0] == '/' {
            i - 1
        } else {
            i
        };
        assert(components(path)[i] == names[at]);
        if names[at] == root_name() {
            assert(names[at].contains(names[at][0]));
        }
    }
}

proof fn lemma_inner(pieces: Seq<Seq<char>>)
    requires
        counting(pieces).len() > 0 ==> counting(pieces)[0] != seq!['.'],
        pieces.len() > 0,
    ensures
        inner(pieces) == counting(pieces),
{
    let first = seq![pieces[0]];
    let rest = pieces.skip(1);
    assert(pieces =~= first + rest);
    lemma_counting_add(first, rest);
    assert(first.drop_last() =~= Seq::empty());
    assert(counting(Seq::<Seq<char>>::empty()) =~= Seq::empty());
    assert(inner(Seq::<Seq<char>>::empty()) =~= Seq::empty());
    if pieces[0] == seq!['.'] {
        assert(counting(first) =~= seq![pieces[0]]);
        assert(counting(pieces)[0] == seq!['.']);
    }
    assert(counting(first) =~= inner(first));
    lemma_inner_add(first, rest);
}

/// The pieces that count of two lists, one behind the other, are those of both.
pub proof fn lemma_inner_add(first: Seq<Seq<char>>, second: Seq<Seq<char>>)
    ensures
        inner(first + second) == inner(first) + inner(second),
    decreases second.len(),
{
    if second.len() == 0 {
        assert(first + second =~= first);
        assert(inner(first) + inner(second) =~= inner(first));
    } else {
        assert((first + second).drop_last() =~= first + second.drop_last());
        assert((first + second).last() == second.last());
        lemma_inner_add(first, second.drop_last());
        assert(inner(first) + inner(second.drop_last()).push(second.last()) =~= (inner(first)
            + inner(second.drop_last())).push(second.last()));
    }
}

/// What is left of a path behind a directory names, below that directory, the path itself.
pub proof fn rest_below_the_base_is_the_path(path: Seq<char>, base: Seq<char>)
    ensures
        match text_below(path, components(base)) {
            Some(rest) => components(path_below(base, rest)) == components(path),
            None => true,
        },
{
    if let Some(rest) = text_below(path, components(base)) {
        rest_has_the_other_components(path, components(base));
        lemma_components(base);
        lemma_components(path);
        lemma_components(rest);
        lemma_piece(Seq::empty());
        let whole = components(path);
        let count = components(base).len() as int;
        assert(whole =~= components(base) + components(rest));
        if base.len() == 0 {
            assert(base =~= Seq::empty());
            assert(components(base) + components(rest) =~= components(rest));
        } else {
            if components(rest).len() > 0 {
                assert(components(rest)[0] == whole[count]);
            }
            lemma_split_pieces(rest);
            lemma_inner(split_on(rest, '/'));
            if base.last() == '/' {
                let front = base.drop_last();
                assert(path_below(base, rest) =~= front + root_name() + rest);
                components_around_a_slash(front, rest);
                assert(base =~= front + root_name() + Seq::empty());
                components_around_a_slash(front, Seq::empty());
                assert(components(base) =~= components_before_slash(front));
            } else {
                components_around_a_slash(base, rest);
            }
        }
    }
}

/// A name below a path is one component more.
pub proof fn join_adds_one_component(base: Seq<char>, name: Seq<char>)
    requires
        name.len() > 0,
        !name.contains('/'),
        name != seq!['.'],
    ensures
        components(path_below(base, name)) == components(base).push(name),
{
    let path = path_below(base, name);
    assert(name.contains(name[0]));
    split_of_one(name, '/');
    if base.len() == 0 {
        assert(split_on(base, '/') =~= seq![Seq::empty()]);
        assert(counting(split_on(base, '/')) =~= Seq::empty()) by {
            assert(seq![Seq::<char>::empty()].drop_last() =~= Seq::empty());
            assert(counting(Seq::<Seq<char>>::empty()) =~= Seq::empty());
        }
        assert(counting(seq![name]) =~= seq![name]) by {
            assert(seq![name].drop_last() =~= Seq::empty());
            assert(counting(Seq::<Seq<char>>::empty()) =~= Seq::empty());
        }
        assert(components(base).push(name) =~= seq![name]);
    } else {
        let front = if base.last() == '/' {
            base.drop_last()
        } else {
            base
        };
        assert(path =~= front + seq!['/'] + name);
        split_of_two(front, name, '/');
        lemma_split_on_not_empty(front, '/');
        let pieces = split_on(front, '/');
        assert((pieces + seq![name]).drop_last() =~= pieces);
        assert(counting(split_on(path, '/')) == counting(pieces).push(name));
        if base.last() == '/' {
            assert(split_on(base, '/') == pieces.push(Seq::empty()));
            assert(pieces.push(Seq::empty()).drop_last() =~= pieces);
        }
        assert(counting(split_on(base, '/')) == counting(pieces));
        assert(path[0] == base[0]);
        let names = counting(pieces);
        assert(seq![root_name()] + names.push(name) =~= (seq![root_name()] + names).push(name));
    }
}

/// What stands below a directory is found below it.
pub proof fn joined_path_is_below(base: Seq<char>, name: Seq<char>)
    requires
        name.len() > 0,
        !name.contains('/'),
        name != seq!['.'],
    ensures
        parts_below(components(path_below(base, name)), components(base)) == Some(seq![name]),
        parent_parts(components(path_below(base, name))) == Some(components(base)),
{
    join_adds_one_component(base, name);
    let parts = components(base);
    assert(parts.push(name).take(parts.len() as int) =~= parts);
    assert(parts.push(name).skip(parts.len() as int) =~= seq![name]);
    assert(parts.push(name).drop_last() =~= parts);
    assert(name.contains(name[0]));
    assert(root_name()[0] == '/');
}

} // verus!
