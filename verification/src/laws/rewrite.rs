//! Laws on rewritten sources.

use vstd::prelude::*;

use crate::laws::path::file_name_is_the_last_component;
use crate::laws::text::{part_before_the_last_character, single_occurrence_is_replaced};
use crate::path::components;
use crate::rewrite::{
    attribute, extension, has_nothing_to_replace, is_rust_file, other_sources_stay,
    replacing_nothing_changes_nothing, rewritten, with_aliases, with_forced_tests,
    with_registered_cases, without_custom_runner,
};
use crate::text::{occurs, occurs_at, replaced, split_of_one, split_of_two};

verus! {

/// Whether `by` is what is written for a marker.
pub open spec fn stands_for(by: Seq<char>, marker: Seq<char>) -> bool {
    ||| marker == "#![feature(custom_test_frameworks)]"@ && by == ""@
    ||| marker == "#![test_runner(crate::bench_runner)]"@ && by == ""@
    ||| marker == "#![reexport_test_harness_main = \"test_main\"]"@ && by == ""@
    ||| marker == "cfg(test)"@ && by == "cfg(any(test, dinghy_force_test))"@
    ||| marker == "#[test]"@ && by == "#[dinghy_apple_runner_macros::test_case]"@
    ||| marker == "#[ignore]"@ && by == "#[dinghy_apple_runner_macros::ignored]"@
    ||| marker == "#[::criterion_macro::criterion]"@ && by
        == "#[dinghy_apple_runner_macros::bench_case]"@
    ||| marker == "#[criterion_macro::criterion]"@ && by
        == "#[dinghy_apple_runner_macros::bench_case]"@
    ||| marker == "#[criterion]"@ && by == "#[dinghy_apple_runner_macros::bench_case]"@
}

/// Whether no marker but this one occurs in a source.
pub open spec fn has_no_other(source: Seq<char>, marker: Seq<char>) -> bool {
    &&& marker != "#![feature(custom_test_frameworks)]"@ ==> !occurs(
        source,
        "#![feature(custom_test_frameworks)]"@,
    )
    &&& marker != "#![test_runner(crate::bench_runner)]"@ ==> !occurs(
        source,
        "#![test_runner(crate::bench_runner)]"@,
    )
    &&& marker != "#![reexport_test_harness_main = \"test_main\"]"@ ==> !occurs(
        source,
        "#![reexport_test_harness_main = \"test_main\"]"@,
    )
    &&& marker != "cfg(test)"@ ==> !occurs(source, "cfg(test)"@)
    &&& marker != "#[test]"@ ==> !occurs(source, "#[test]"@)
    &&& marker != "#[ignore]"@ ==> !occurs(source, "#[ignore]"@)
    &&& marker != "#[::criterion_macro::criterion]"@ ==> !occurs(
        source,
        "#[::criterion_macro::criterion]"@,
    )
    &&& marker != "#[criterion_macro::criterion]"@ ==> !occurs(
        source,
        "#[criterion_macro::criterion]"@,
    )
    &&& marker != "#[criterion]"@ ==> !occurs(source, "#[criterion]"@)
}

/// A marker is replaced by what stands for it, and nothing else changes: where a source holds
/// one marker, and there is nothing more to replace behind that.
pub proof fn marker_is_replaced(
    front: Seq<char>,
    marker: Seq<char>,
    back: Seq<char>,
    by: Seq<char>,
    aliases: Seq<(Seq<char>, Seq<char>)>,
)
    requires
        stands_for(by, marker),
        forall|k: int|
            0 <= k < front.len() ==> !#[trigger] occurs_at(front + marker + back, marker, k),
        !occurs(back, marker),
        has_no_other(front + marker + back, marker),
        has_nothing_to_replace(front + by + back, aliases),
    ensures
        rewritten(front + marker + back, aliases) == front + by + back,
{
    let source = front + marker + back;
    let result = front + by + back;
    lemma_markers_differ();
    single_occurrence_is_replaced(front, marker, back, by);
    lemma_untouched(source, marker);
    assert(has_no_other(result, Seq::empty()));
    lemma_untouched(result, Seq::empty());
    assert(with_registered_cases(with_forced_tests(without_custom_runner(source))) == result);
    aliases_come_last(result, aliases);
    other_sources_stay(result, aliases);
    assert(with_registered_cases(with_forced_tests(without_custom_runner(result))) == result);
}

proof fn lemma_markers_differ()
    ensures
        "#![feature(custom_test_frameworks)]"@.len() == 35,
        "#![test_runner(crate::bench_runner)]"@.len() == 36,
        "#![reexport_test_harness_main = \"test_main\"]"@.len() == 44,
        "cfg(test)"@.len() == 9,
        "#[test]"@.len() == 7,
        "#[ignore]"@.len() == 9,
        "#[::criterion_macro::criterion]"@.len() == 31,
        "#[criterion_macro::criterion]"@.len() == 29,
        "#[criterion]"@.len() == 12,
        "cfg(test)"@ != "#[ignore]"@,
{
    reveal_strlit("#![feature(custom_test_frameworks)]");
    reveal_strlit("#![test_runner(crate::bench_runner)]");
    reveal_strlit("#![reexport_test_harness_main = \"test_main\"]");
    reveal_strlit("cfg(test)");
    reveal_strlit("#[test]");
    reveal_strlit("#[ignore]");
    reveal_strlit("#[::criterion_macro::criterion]");
    reveal_strlit("#[criterion_macro::criterion]");
    reveal_strlit("#[criterion]");
    assert("cfg(test)"@[0] != "#[ignore]"@[0]);
}

proof fn lemma_untouched(source: Seq<char>, marker: Seq<char>)
    requires
        has_no_other(source, marker),
    ensures
        forall|from: Seq<char>, to: Seq<char>|
            from != marker && stands_for(to, from) ==> #[trigger] replaced(source, from, to)
                == source,
{
    assert forall|from: Seq<char>, to: Seq<char>|
        from != marker && stands_for(to, from) implies #[trigger] replaced(source, from, to)
        == source by {
        assert(!occurs(source, from));
        replacing_nothing_changes_nothing(source, from, to);
    }
}

/// Aliases are replaced once everything else is, each in turn on what the one before it left.
pub proof fn aliases_come_last(source: Seq<char>, aliases: Seq<(Seq<char>, Seq<char>)>)
    ensures
        rewritten(source, aliases) == with_aliases(rewritten(source, Seq::empty()), aliases),
        with_aliases(source, Seq::empty()) == source,
{
    let plain = with_registered_cases(with_forced_tests(without_custom_runner(source)));
    assert(with_aliases(plain, Seq::empty()) == plain);
    assert(with_aliases(source, Seq::empty()) == source);
}

/// An alias more replaces every attribute of its name by that of the other.
pub proof fn alias_replaces_its_attribute(
    source: Seq<char>,
    aliases: Seq<(Seq<char>, Seq<char>)>,
    name: Seq<char>,
    to: Seq<char>,
)
    ensures
        with_aliases(source, aliases.push((name, to))) == replaced(
            with_aliases(source, aliases),
            "#["@ + name + "]"@,
            "#["@ + to + "]"@,
        ),
{
    assert(aliases.push((name, to)).drop_last() =~= aliases);
}

/// The extension stands behind the last dot, unless that is the first character.
pub proof fn extension_stands_behind_the_last_dot(stem: Seq<char>, end: Seq<char>)
    requires
        !end.contains('.'),
    ensures
        stem.len() > 0 ==> extension(stem + seq!['.'] + end) == Some(end),
        extension(seq!['.'] + end) is None,
        extension(end) is None,
{
    part_before_the_last_character(stem, '.', end);
    part_before_the_last_character(Seq::empty(), '.', end);
    assert(Seq::<char>::empty() + seq!['.'] + end =~= seq!['.'] + end);
    split_of_one(end, '.');
    split_of_two(stem, end, '.');
}

/// A source file of Rust is one whose name ends with the extension `rs`.
pub proof fn rust_files_end_with_rs(
    path: Seq<char>,
    parts: Seq<Seq<char>>,
    stem: Seq<char>,
    end: Seq<char>,
)
    requires
        components(path) == parts.push(stem + seq!['.'] + end),
        stem.len() > 0,
        stem != seq!['.'] || end.len() > 0,
        !end.contains('.'),
    ensures
        is_rust_file(path) <==> end == "rs"@,
{
    let name = stem + seq!['.'] + end;
    file_name_is_the_last_component(parts, name);
    extension_stands_behind_the_last_dot(stem, end);
    assert(name.len() >= 2);
    assert(name[stem.len() as int] == '.');
    if name == seq!['.', '.'] {
        assert(stem =~= seq![name[0]]);
        assert(end.len() == 0);
    }
}

/// A path whose name has no dot, or none but the first character, is not one of Rust.
pub proof fn other_names_are_no_rust_files(path: Seq<char>, parts: Seq<Seq<char>>, end: Seq<char>)
    requires
        !end.contains('.'),
        components(path) == parts.push(end) || components(path) == parts.push(seq!['.'] + end),
    ensures
        !is_rust_file(path),
{
    file_name_is_the_last_component(parts, end);
    file_name_is_the_last_component(parts, seq!['.'] + end);
    extension_stands_behind_the_last_dot(Seq::empty(), end);
}

} // verus!
