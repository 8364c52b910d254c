//! Rewriting the sources of a package so that the generated runner finds its tests.

use vstd::prelude::*;

use crate::config::{pair_texts, DinghyWorkspaceConfig};
use crate::path::{components, file_name, last_name, take_apart};
use crate::text::{before_last, cut_before_last, last_piece, occurs, occurs_at, replace, replaced, same_text, split_on};

verus! {

/// What is to be done with an entry of a directory of sources.
#[derive(Clone, Copy, Debug, PartialEq, Eq, Structural)]
pub enum EntryAction {
    Descend,
    Skip,
    Rewrite,
}

/// What stands behind the last dot of a file name, if it is not the first character.
pub open spec fn extension(name: Seq<char>) -> Option<Seq<char>> {
    match before_last(name, '.') {
        Some(stem) => if stem.len() > 0 {
            Some(split_on(name, '.').last())
        } else {
            None
        },
        None => None,
    }
}

/// Whether a path names a Rust source file.
pub open spec fn is_rust_file(path: Seq<char>) -> bool {
    match last_name(components(path)) {
        Some(name) => extension(name) == Some("rs"@),
        None => false,
    }
}

/// The source without the crate attributes of a test runner of its own.
pub open spec fn without_custom_runner(source: Seq<char>) -> Seq<char> {
    let source = replaced(source, "#![feature(custom_test_frameworks)]"@, ""@);
    let source = replaced(source, "#![test_runner(crate::bench_runner)]"@, ""@);
    replaced(source, "#![reexport_test_harness_main = \"test_main\"]"@, ""@)
}

/// The source with what is built for tests built always.
pub open spec fn with_forced_tests(source: Seq<char>) -> Seq<char> {
    replaced(source, "cfg(test)"@, "cfg(any(test, dinghy_force_test))"@)
}

/// The source with its tests and benchmarks registered with the runner.
pub open spec fn with_registered_cases(source: Seq<char>) -> Seq<char> {
    let source = replaced(source, "#[test]"@, "#[dinghy_apple_runner_macros::test_case]"@);
    let source = replaced(source, "#[ignore]"@, "#[dinghy_apple_runner_macros::ignored]"@);
    let source = replaced(
        source,
        "#[::criterion_macro::criterion]"@,
        "#[dinghy_apple_runner_macros::bench_case]"@,
    );
    let source = replaced(
        source,
        "#[criterion_macro::criterion]"@,
        "#[dinghy_apple_runner_macros::bench_case]"@,
    );
    replaced(source, "#[criterion]"@, "#[dinghy_apple_runner_macros::bench_case]"@)
}

/// An attribute with its brackets.
pub open spec fn attribute(name: Seq<char>) -> Seq<char> {
    "#["@ + name + "]"@
}

/// The source with attributes replaced by what stands for them, one alias after the other.
pub open spec fn with_aliases(source: Seq<char>, aliases: Seq<(Seq<char>, Seq<char>)>) -> Seq<char>
    decreases aliases.len(),
{
    if aliases.len() == 0 {
        source
    } else {
        replaced(
            with_aliases(source, aliases.drop_last()),
            attribute(aliases.last().0),
            attribute(aliases.last().1),
        )
    }
}

/// The source as the generated runner takes it.
pub open spec fn rewritten(source: Seq<char>, aliases: Seq<(Seq<char>, Seq<char>)>) -> Seq<char> {
    with_aliases(
        with_registered_cases(with_forced_tests(without_custom_runner(source))),
        aliases,
    )
}

/// Decides what is to be done with an entry of a directory of sources.
pub fn entry_action(path: &str, is_dir: bool) -> (action: EntryAction)
    ensures
        action == (if is_dir {
            EntryAction::Descend
        } else if is_rust_file(path@) {
            EntryAction::Rewrite
        } else {
            EntryAction::Skip
        }),
{
    if is_dir {
        return EntryAction::Descend;
    }
    match file_name(&take_apart(path)) {
        Some(name) => match cut_before_last(name.as_str(), '.') {
            Some(stem) => if !stem.as_str().is_empty() && same_text(
                last_piece(name.as_str(), '.').as_str(),
                "rs",
            ) {
                EntryAction::Rewrite
            } else {
                EntryAction::Skip
            },
            None => EntryAction::Skip,
        },
        None => EntryAction::Skip,
    }
}

fn attribute_text(name: &str) -> (text: String)
    ensures
        text@ == attribute(name@),
{
    "#[".to_string().concat(name).concat("]")
}

/// Rewrites one source file.
pub fn rewrite_rust_source(source: &str, config: &DinghyWorkspaceConfig) -> (result: String)
    ensures
        result@ == rewritten(source@, config@.aliases),
{
    proof {
        reveal_strlit("#![feature(custom_test_frameworks)]");
        reveal_strlit("#![test_runner(crate::bench_runner)]");
        reveal_strlit("#![reexport_test_harness_main = \"test_main\"]");
        reveal_strlit("cfg(test)");
        reveal_strlit("#[test]");
        reveal_strlit("#[ignore]");
        reveal_strlit("#[::criterion_macro::criterion]");
        reveal_strlit("#[criterion_macro::criterion]");
        reveal_strlit("#[criterion]");
        reveal_strlit("#[");
    }
    let result = replace(source, "#![feature(custom_test_frameworks)]", "");
    let result = replace(result.as_str(), "#![test_runner(crate::bench_runner)]", "");
    let result = replace(
        result.as_str(),
        "#![reexport_test_harness_main = \"test_main\"]",
        "",
    );
    let result = replace(result.as_str(), "cfg(test)", "cfg(any(test, dinghy_force_test))");
    let result = replace(
        result.as_str(),
        "#[test]",
        "#[dinghy_apple_runner_macros::test_case]",
    );
    let result = replace(
        result.as_str(),
        "#[ignore]",
        "#[dinghy_apple_runner_macros::ignored]",
    );
    let result = replace(
        result.as_str(),
        "#[::criterion_macro::criterion]",
        "#[dinghy_apple_runner_macros::bench_case]",
    );
    let result = replace(
        result.as_str(),
        "#[criterion_macro::criterion]",
        "#[dinghy_apple_runner_macros::bench_case]",
    );
    let mut result = replace(
        result.as_str(),
        "#[criterion]",
        "#[dinghy_apple_runner_macros::bench_case]",
    );
    let ghost registered = result@;
    let aliases = &config.test_attribute_aliases;
    let ghost all = pair_texts(aliases@);
    let mut i: usize = 0;
    while i < aliases.len()
        invariant
            i <= aliases@.len(),
            all == pair_texts(aliases@),
            "#["@.len() == 2,
            result@ == with_aliases(registered, all.take(i as int)),
        decreases aliases@.len() - i,
    {
        let pattern = attribute_text(aliases[i].0.as_str());
        let replacement = attribute_text(aliases[i].1.as_str());
        result = replace(result.as_str(), pattern.as_str(), replacement.as_str());
        i += 1;
        assert(all.take(i as int).drop_last() =~= all.take(i - 1));
        assert(all.take(i as int).last() == (aliases@[i - 1].0@, aliases@[i - 1].1@));
    }
    assert(all.take(i as int) =~= all);
    result
}

/// Replacing a pattern that is nowhere changes nothing.
pub proof fn replacing_nothing_changes_nothing(text: Seq<char>, from: Seq<char>, to: Seq<char>)
    requires
        !occurs(text, from),
    ensures
        replaced(text, from, to) == text,
    decreases text.len(),
{
    if from.len() == 0 || text.len() < from.len() {
    } else {
        assert(!occurs_at(text, from, 0));
        let rest = text.skip(1);
        assert forall|at: int| !occurs_at(rest, from, at) by {
            if occurs_at(rest, from, at) {
                assert(text.subrange(at + 1, at + 1 + from.len()) =~= rest.subrange(
                    at,
                    at + from.len(),
                ));
                assert(occurs_at(text, from, at + 1));
            }
        }
        replacing_nothing_changes_nothing(rest, from, to);
        assert(seq![text[0]] + rest =~= text);
    }
}

/// Whether nothing in a source is to be replaced.
pub open spec fn has_nothing_to_replace(
    source: Seq<char>,
    aliases: Seq<(Seq<char>, Seq<char>)>,
) -> bool {
    &&& !occurs(source, "#![feature(custom_test_frameworks)]"@)
    &&& !occurs(source, "#![test_runner(crate::bench_runner)]"@)
    &&& !occurs(source, "#![reexport_test_harness_main = \"test_main\"]"@)
    &&& !occurs(source, "cfg(test)"@)
    &&& !occurs(source, "#[test]"@)
    &&& !occurs(source, "#[ignore]"@)
    &&& !occurs(source, "#[::criterion_macro::criterion]"@)
    &&& !occurs(source, "#[criterion_macro::criterion]"@)
    &&& !occurs(source, "#[criterion]"@)
    &&& forall|i: int|
        0 <= i < aliases.len() ==> !occurs(source, attribute((#[trigger] aliases[i]).0))
}

/// A source in which nothing is to be replaced stays as it is.
pub proof fn other_sources_stay(source: Seq<char>, aliases: Seq<(Seq<char>, Seq<char>)>)
    requires
        has_nothing_to_replace(source, aliases),
    ensures
        rewritten(source, aliases) == source,
    decreases aliases.len(),
{
    if aliases.len() == 0 {
        let case = "#[dinghy_apple_runner_macros::bench_case]"@;
        replacing_nothing_changes_nothing(source, "#![feature(custom_test_frameworks)]"@, ""@);
        replacing_nothing_changes_nothing(source, "#![test_runner(crate::bench_runner)]"@, ""@);
        replacing_nothing_changes_nothing(
            source,
            "#![reexport_test_harness_main = \"test_main\"]"@,
            ""@,
        );
        replacing_nothing_changes_nothing(
            source,
            "cfg(test)"@,
            "cfg(any(test, dinghy_force_test))"@,
        );
        replacing_nothing_changes_nothing(
            source,
            "#[test]"@,
            "#[dinghy_apple_runner_macros::test_case]"@,
        );
        replacing_nothing_changes_nothing(
            source,
            "#[ignore]"@,
            "#[dinghy_apple_runner_macros::ignored]"@,
        );
        replacing_nothing_changes_nothing(source, "#[::criterion_macro::criterion]"@, case);
        replacing_nothing_changes_nothing(source, "#[criterion_macro::criterion]"@, case);
        replacing_nothing_changes_nothing(source, "#[criterion]"@, case);
    } else {
        let earlier = aliases.drop_last();
        assert forall|i: int| 0 <= i < earlier.len() implies !occurs(
            source,
            attribute((#[trigger] earlier[i]).0),
        ) by {
            assert(earlier[i] == aliases[i]);
        }
        other_sources_stay(source, earlier);
        assert(aliases[aliases.len() - 1] == aliases.last());
        replacing_nothing_changes_nothing(
            source,
            attribute(aliases.last().0),
            attribute(aliases.last().1),
        );
    }
}

/// Whether `pattern` cannot begin inside `to`, wherever `to` stands.
pub open spec fn cannot_begin_in(pattern: Seq<char>, to: Seq<char>) -> bool {
    forall|k: int| 0 <= k < to.len() ==> #[trigger] differs_from(pattern, to, k)
}

/// Whether `pattern`, laid on `to` at index `k`, differs from it.
pub open spec fn differs_from(pattern: Seq<char>, to: Seq<char>, k: int) -> bool {
    exists|j: int| 0 <= j < pattern.len() && k + j < to.len() && #[trigger] pattern[j] != to[k + j]
}

/// Whether no occurrence of `pattern` can hold a part of a replacement `to`.
pub open spec fn keeps_clear_of(pattern: Seq<char>, to: Seq<char>) -> bool {
    &&& pattern.len() > 0
    &&& to.len() > 0
    &&& cannot_begin_in(pattern, to)
    &&& forall|j: int| 1 <= j < pattern.len() ==> #[trigger] pattern[j] != to[0]
}

/// Replacing brings in no occurrence of a pattern that keeps clear of the replacement, and
/// leaves none of the replaced pattern.
pub proof fn replacing_brings_in_no_pattern(
    text: Seq<char>,
    from: Seq<char>,
    to: Seq<char>,
    pattern: Seq<char>,
)
    requires
        from.len() > 0,
        keeps_clear_of(pattern, to),
        pattern == from || !occurs(text, pattern),
    ensures
        !occurs(replaced(text, from, to), pattern),
    decreases text.len(),
{
    let result = replaced(text, from, to);
    assert forall|at: int| !occurs_at(result, pattern, at) by {
        if occurs_at(result, pattern, at) {
            lemma_occurrence(result, pattern, at);
            if text.len() < from.len() {
                assert(occurs_at(text, pattern, at));
            } else if occurs_at(text, from, 0) {
                let rest = text.skip(from.len() as int);
                let tail = replaced(rest, from, to);
                lemma_rest_has_no(text, from.len() as int, pattern, from);
                replacing_brings_in_no_pattern(rest, from, to, pattern);
                if at < to.len() {
                    assert(differs_from(pattern, to, at));
                    let j = choose|j: int|
                        0 <= j < pattern.len() && at + j < to.len() && #[trigger] pattern[j] != to[at
                            + j];
                    assert(result[at + j] == to[at + j]);
                } else {
                    assert(tail.subrange(at - to.len(), at - to.len() + pattern.len())
                        =~= result.subrange(at, at + pattern.len()));
                    assert(occurs_at(tail, pattern, at - to.len()));
                }
            } else {
                let rest = text.skip(1);
                let tail = replaced(rest, from, to);
                lemma_rest_has_no(text, 1, pattern, from);
                replacing_brings_in_no_pattern(rest, from, to, pattern);
                if at >= 1 {
                    assert(tail.subrange(at - 1, at - 1 + pattern.len()) =~= result.subrange(
                        at,
                        at + pattern.len(),
                    ));
                    assert(occurs_at(tail, pattern, at - 1));
                } else {
                    let end = pattern.skip(1);
                    assert forall|j: int| 0 <= j < end.len() implies tail[j] == end[j] && end[j]
                        != to[0] by {
                        assert(result[j + 1] == pattern[j + 1]);
                    }
                    lemma_untouched_start(rest, from, to, end);
                    assert(text.subrange(0, pattern.len() as int) =~= pattern);
                    assert(occurs_at(text, pattern, 0));
                }
            }
        }
    }
}

proof fn lemma_occurrence(text: Seq<char>, pattern: Seq<char>, at: int)
    requires
        occurs_at(text, pattern, at),
    ensures
        forall|j: int| 0 <= j < pattern.len() ==> text[at + j] == #[trigger] pattern[j],
{
    assert forall|j: int| 0 <= j < pattern.len() implies text[at + j] == #[trigger] pattern[j] by {
        assert(text.subrange(at, at + pattern.len())[j] == text[at + j]);
    }
}

proof fn lemma_rest_has_no(text: Seq<char>, count: int, pattern: Seq<char>, from: Seq<char>)
    requires
        0 <= count <= text.len(),
        pattern == from || !occurs(text, pattern),
    ensures
        pattern == from || !occurs(text.skip(count), pattern),
{
    let rest = text.skip(count);
    if pattern != from {
        assert forall|at: int| !occurs_at(rest, pattern, at) by {
            if occurs_at(rest, pattern, at) {
                assert(text.subrange(at + count, at + count + pattern.len()) =~= rest.subrange(
                    at,
                    at + pattern.len(),
                ));
                assert(occurs_at(text, pattern, at + count));
            }
        }
    }
}

/// A start of the result without the first character of the replacement was there before.
proof fn lemma_untouched_start(text: Seq<char>, from: Seq<char>, to: Seq<char>, start: Seq<char>)
    requires
        from.len() > 0,
        to.len() > 0,
        start.len() <= replaced(text, from, to).len(),
        forall|j: int|
            0 <= j < start.len() ==> replaced(text, from, to)[j] == #[trigger] start[j] && start[j]
                != to[0],
    ensures
        start.len() <= text.len(),
        forall|j: int| 0 <= j < start.len() ==> text[j] == #[trigger] start[j],
    decreases start.len(),
{
    if start.len() > 0 && text.len() >= from.len() {
        let result = replaced(text, from, to);
        assert(result[0] == start[0]);
        if occurs_at(text, from, 0) {
            assert(result[0] == to[0]);
        } else {
            let tail = replaced(text.skip(1), from, to);
            let end = start.skip(1);
            assert forall|j: int| 0 <= j < end.len() implies tail[j] == #[trigger] end[j] && end[j]
                != to[0] by {
                assert(result[j + 1] == start[j + 1]);
            }
            lemma_untouched_start(text.skip(1), from, to, end);
            assert forall|j: int| 0 <= j < start.len() implies text[j] == #[trigger] start[j] by {
                if j > 0 {
                    assert(text.skip(1)[j - 1] == end[j - 1]);
                }
            }
        }
    }
}

/// Whether a name can stand in an attribute without ending it or beginning another.
pub open spec fn is_plain_name(name: Seq<char>) -> bool {
    !name.contains('#') && !name.contains(']')
}

/// Whether a replacement for an attribute is none of those that are to be replaced.
pub open spec fn is_neutral(name: Seq<char>) -> bool {
    &&& is_plain_name(name)
    &&& name != "test"@
    &&& name != "ignore"@
    &&& name != "::criterion_macro::criterion"@
    &&& name != "criterion_macro::criterion"@
    &&& name != "criterion"@
    &&& !occurs(name, "cfg(test)"@)
}

/// Whether all that the compiler's own test runner would take up is gone from a source.
pub open spec fn is_registered(source: Seq<char>) -> bool {
    &&& !occurs(source, "cfg(test)"@)
    &&& !occurs(source, attribute("test"@))
    &&& !occurs(source, attribute("ignore"@))
    &&& !occurs(source, attribute("::criterion_macro::criterion"@))
    &&& !occurs(source, attribute("criterion_macro::criterion"@))
    &&& !occurs(source, attribute("criterion"@))
}

/// A rewritten source leaves no test, benchmark or test configuration to the compiler's own
/// test runner, where the aliases bring none in.
pub proof fn rewritten_source_is_registered(
    source: Seq<char>,
    aliases: Seq<(Seq<char>, Seq<char>)>,
)
    requires
        forall|i: int| 0 <= i < aliases.len() ==> is_neutral((#[trigger] aliases[i]).1),
    ensures
        is_registered(rewritten(source, aliases)),
    decreases aliases.len(),
{
    if aliases.len() == 0 {
        lemma_registered(with_forced_tests(without_custom_runner(source)), without_custom_runner(source));
    } else {
        let before = rewritten(source, aliases.drop_last());
        let (from, to) = aliases.last();
        assert(is_neutral(aliases[aliases.len() - 1].1));
        rewritten_source_is_registered(source, aliases.drop_last());
        lemma_names();
        reveal_strlit("#[");
        lemma_all_keep_clear_of(to);
        replacing_brings_in_no_pattern(before, attribute(from), attribute(to), "cfg(test)"@);
        replacing_brings_in_no_pattern(before, attribute(from), attribute(to), attribute("test"@));
        replacing_brings_in_no_pattern(before, attribute(from), attribute(to), attribute("ignore"@));
        replacing_brings_in_no_pattern(
            before,
            attribute(from),
            attribute(to),
            attribute("::criterion_macro::criterion"@),
        );
        replacing_brings_in_no_pattern(
            before,
            attribute(from),
            attribute(to),
            attribute("criterion_macro::criterion"@),
        );
        replacing_brings_in_no_pattern(
            before,
            attribute(from),
            attribute(to),
            attribute("criterion"@),
        );
    }
}

proof fn lemma_names()
    ensures
        is_plain_name("test"@),
        is_plain_name("ignore"@),
        is_plain_name("::criterion_macro::criterion"@),
        is_plain_name("criterion_macro::criterion"@),
        is_plain_name("criterion"@),
{
    reveal_strlit("test");
    reveal_strlit("ignore");
    reveal_strlit("::criterion_macro::criterion");
    reveal_strlit("criterion_macro::criterion");
    reveal_strlit("criterion");
}

proof fn lemma_all_keep_clear_of(to: Seq<char>)
    requires
        is_neutral(to),
    ensures
        keeps_clear_of("cfg(test)"@, attribute(to)),
        keeps_clear_of(attribute("test"@), attribute(to)),
        keeps_clear_of(attribute("ignore"@), attribute(to)),
        keeps_clear_of(attribute("::criterion_macro::criterion"@), attribute(to)),
        keeps_clear_of(attribute("criterion_macro::criterion"@), attribute(to)),
        keeps_clear_of(attribute("criterion"@), attribute(to)),
{
    lemma_names();
    lemma_cfg_keeps_clear(to);
    lemma_attributes_keep_clear("test"@, to);
    lemma_attributes_keep_clear("ignore"@, to);
    lemma_attributes_keep_clear("::criterion_macro::criterion"@, to);
    lemma_attributes_keep_clear("criterion_macro::criterion"@, to);
    lemma_attributes_keep_clear("criterion"@, to);
}

proof fn lemma_attributes_keep_clear(name: Seq<char>, other: Seq<char>)
    requires
        is_plain_name(name),
        is_plain_name(other),
        name != other,
    ensures
        keeps_clear_of(attribute(name), attribute(other)),
{
    reveal_strlit("#[");
    reveal_strlit("]");
    let pattern = attribute(name);
    let to = attribute(other);
    assert forall|j: int| 1 <= j < pattern.len() implies #[trigger] pattern[j] != '#' by {
        if 2 <= j < 2 + name.len() {
            assert(name.contains(name[j - 2]));
        }
    }
    assert forall|k: int| 0 <= k < to.len() implies #[trigger] differs_from(pattern, to, k) by {
        if k > 0 {
            if 2 <= k < 2 + other.len() {
                assert(other.contains(other[k - 2]));
            }
            assert(pattern[0] != to[k + 0]);
        } else if name.len() < other.len() {
            let j = name.len() + 2;
            assert(other.contains(other[name.len() as int]));
            assert(pattern[j as int] != to[k + j]);
        } else if name.len() > other.len() {
            let j = other.len() + 2;
            assert(name.contains(name[other.len() as int]));
            assert(pattern[j as int] != to[k + j]);
        } else {
            assert(!(name =~= other));
            let i = choose|i: int| 0 <= i < name.len() && name[i] != other[i];
            assert(pattern[i + 2] != to[k + (i + 2)]);
        }
    }
}

proof fn lemma_cfg_keeps_clear(other: Seq<char>)
    requires
        is_plain_name(other),
        !occurs(other, "cfg(test)"@),
    ensures
        keeps_clear_of("cfg(test)"@, attribute(other)),
{
    reveal_strlit("cfg(test)");
    reveal_strlit("#[");
    reveal_strlit("]");
    let pattern = "cfg(test)"@;
    let to = attribute(other);
    assert forall|k: int| 0 <= k < to.len() implies #[trigger] differs_from(pattern, to, k) by {
        if k < 2 {
            assert(pattern[0] != to[k + 0]);
        } else if k + pattern.len() >= to.len() {
            let j = to.len() - 1 - k;
            assert(to[k + j] == ']');
            assert(pattern[j] != to[k + j]);
        } else if !differs_from(pattern, to, k) {
            let at = k - 2;
            assert forall|j: int| 0 <= j < pattern.len() implies other[at + j] == #[trigger] pattern[j] by {
                assert(pattern[j] == to[k + j]);
            }
            assert(other.subrange(at, at + pattern.len()) =~= pattern);
            assert(occurs_at(other, pattern, at));
        }
    }
}

proof fn lemma_no_bracket(name: Seq<char>)
    requires
        !name.contains('('),
    ensures
        !occurs(name, "cfg(test)"@),
{
    reveal_strlit("cfg(test)");
    let pattern = "cfg(test)"@;
    assert forall|at: int| !occurs_at(name, pattern, at) by {
        if occurs_at(name, pattern, at) {
            lemma_occurrence(name, pattern, at);
            assert(name[at + 3] == pattern[3]);
            assert(name.contains(name[at + 3]));
        }
    }
}

proof fn lemma_registrations_are_neutral()
    ensures
        is_neutral("dinghy_apple_runner_macros::test_case"@),
        is_neutral("dinghy_apple_runner_macros::ignored"@),
        is_neutral("dinghy_apple_runner_macros::bench_case"@),
{
    reveal_strlit("dinghy_apple_runner_macros::test_case");
    reveal_strlit("dinghy_apple_runner_macros::ignored");
    reveal_strlit("dinghy_apple_runner_macros::bench_case");
    reveal_strlit("test");
    reveal_strlit("ignore");
    reveal_strlit("::criterion_macro::criterion");
    reveal_strlit("criterion_macro::criterion");
    reveal_strlit("criterion");
    assert("test"@.len() == 4);
    assert("ignore"@.len() == 6);
    assert("::criterion_macro::criterion"@.len() == 28);
    assert("criterion_macro::criterion"@.len() == 26);
    assert("criterion"@.len() == 9);
    assert("dinghy_apple_runner_macros::test_case"@.len() == 37);
    assert("dinghy_apple_runner_macros::ignored"@.len() == 35);
    assert("dinghy_apple_runner_macros::bench_case"@.len() == 38);
    lemma_no_bracket("dinghy_apple_runner_macros::test_case"@);
    lemma_no_bracket("dinghy_apple_runner_macros::ignored"@);
    lemma_no_bracket("dinghy_apple_runner_macros::bench_case"@);
}

proof fn lemma_written_attributes()
    ensures
        attribute("test"@) == "#[test]"@,
        attribute("ignore"@) == "#[ignore]"@,
        attribute("::criterion_macro::criterion"@) == "#[::criterion_macro::criterion]"@,
        attribute("criterion_macro::criterion"@) == "#[criterion_macro::criterion]"@,
        attribute("criterion"@) == "#[criterion]"@,
        attribute("dinghy_apple_runner_macros::test_case"@) == "#[dinghy_apple_runner_macros::test_case]"@,
        attribute("dinghy_apple_runner_macros::ignored"@) == "#[dinghy_apple_runner_macros::ignored]"@,
        attribute("dinghy_apple_runner_macros::bench_case"@) == "#[dinghy_apple_runner_macros::bench_case]"@,
{
    reveal_strlit("#[");
    reveal_strlit("]");
    reveal_strlit("test");
    reveal_strlit("#[test]");
    assert(attribute("test"@) =~= "#[test]"@);
    reveal_strlit("ignore");
    reveal_strlit("#[ignore]");
    assert(attribute("ignore"@) =~= "#[ignore]"@);
    reveal_strlit("::criterion_macro::criterion");
    reveal_strlit("#[::criterion_macro::criterion]");
    assert(attribute("::criterion_macro::criterion"@) =~= "#[::criterion_macro::criterion]"@);
    reveal_strlit("criterion_macro::criterion");
    reveal_strlit("#[criterion_macro::criterion]");
    assert(attribute("criterion_macro::criterion"@) =~= "#[criterion_macro::criterion]"@);
    reveal_strlit("criterion");
    reveal_strlit("#[criterion]");
    assert(attribute("criterion"@) =~= "#[criterion]"@);
    reveal_strlit("dinghy_apple_runner_macros::test_case");
    reveal_strlit("#[dinghy_apple_runner_macros::test_case]");
    assert(attribute("dinghy_apple_runner_macros::test_case"@) =~= "#[dinghy_apple_runner_macros::test_case]"@);
    reveal_strlit("dinghy_apple_runner_macros::ignored");
    reveal_strlit("#[dinghy_apple_runner_macros::ignored]");
    assert(attribute("dinghy_apple_runner_macros::ignored"@) =~= "#[dinghy_apple_runner_macros::ignored]"@);
    reveal_strlit("dinghy_apple_runner_macros::bench_case");
    reveal_strlit("#[dinghy_apple_runner_macros::bench_case]");
    assert(attribute("dinghy_apple_runner_macros::bench_case"@) =~= "#[dinghy_apple_runner_macros::bench_case]"@);
}

proof fn lemma_forced_tests(source: Seq<char>)
    ensures
        !occurs(with_forced_tests(source), "cfg(test)"@),
{
    reveal_strlit("cfg(test)");
    reveal_strlit("cfg(any(test, dinghy_force_test))");
    let pattern = "cfg(test)"@;
    let to = "cfg(any(test, dinghy_force_test))"@;
    assert forall|k: int| 0 <= k < to.len() implies #[trigger] differs_from(pattern, to, k) by {
        if k == 0 {
            assert(pattern[4] != to[k + 4]);
        } else if to[k] == 'c' {
            assert(pattern[1] != to[k + 1]);
        } else {
            assert(pattern[0] != to[k + 0]);
        }
    }
    replacing_brings_in_no_pattern(source, pattern, to, pattern);
}

/// One registration: the attribute `name` goes, and none of the others comes in.
proof fn lemma_registration(source: Seq<char>, name: Seq<char>, to: Seq<char>)
    requires
        is_plain_name(name),
        is_neutral(to),
        name != to,
    ensures
        !occurs(replaced(source, attribute(name), attribute(to)), attribute(name)),
        !occurs(source, "cfg(test)"@) ==> !occurs(
            replaced(source, attribute(name), attribute(to)),
            "cfg(test)"@,
        ),
        forall|other: Seq<char>|
            #![trigger occurs(source, attribute(other))]
            is_plain_name(other) && other != to && !occurs(source, attribute(other)) ==> !occurs(
                replaced(source, attribute(name), attribute(to)),
                attribute(other),
            ),
{
    reveal_strlit("#[");
    lemma_attributes_keep_clear(name, to);
    replacing_brings_in_no_pattern(source, attribute(name), attribute(to), attribute(name));
    if !occurs(source, "cfg(test)"@) {
        lemma_cfg_keeps_clear(to);
        replacing_brings_in_no_pattern(source, attribute(name), attribute(to), "cfg(test)"@);
    }
    assert forall|other: Seq<char>|
        #![trigger occurs(source, attribute(other))]
        is_plain_name(other) && other != to && !occurs(source, attribute(other)) implies !occurs(
        replaced(source, attribute(name), attribute(to)),
        attribute(other),
    ) by {
        lemma_attributes_keep_clear(other, to);
        replacing_brings_in_no_pattern(source, attribute(name), attribute(to), attribute(other));
    }
}

proof fn lemma_registered(source: Seq<char>, earlier: Seq<char>)
    requires
        source == with_forced_tests(earlier),
    ensures
        is_registered(with_registered_cases(source)),
{
    lemma_names();
    lemma_registrations_are_neutral();
    lemma_written_attributes();
    lemma_forced_tests(earlier);
    let test = "dinghy_apple_runner_macros::test_case"@;
    let ignored = "dinghy_apple_runner_macros::ignored"@;
    let bench = "dinghy_apple_runner_macros::bench_case"@;
    lemma_registration(source, "test"@, test);
    let s1 = replaced(source, attribute("test"@), attribute(test));
    lemma_registration(s1, "ignore"@, ignored);
    let s2 = replaced(s1, attribute("ignore"@), attribute(ignored));
    assert(!occurs(s1, attribute("test"@)));
    lemma_registration(s2, "::criterion_macro::criterion"@, bench);
    let s3 = replaced(s2, attribute("::criterion_macro::criterion"@), attribute(bench));
    assert(!occurs(s2, attribute("test"@)));
    assert(!occurs(s2, attribute("ignore"@)));
    lemma_registration(s3, "criterion_macro::criterion"@, bench);
    let s4 = replaced(s3, attribute("criterion_macro::criterion"@), attribute(bench));
    assert(!occurs(s3, attribute("test"@)));
    assert(!occurs(s3, attribute("ignore"@)));
    assert(!occurs(s3, attribute("::criterion_macro::criterion"@)));
    lemma_registration(s4, "criterion"@, bench);
    let s5 = replaced(s4, attribute("criterion"@), attribute(bench));
    assert(!occurs(s4, attribute("test"@)));
    assert(!occurs(s4, attribute("ignore"@)));
    assert(!occurs(s4, attribute("::criterion_macro::criterion"@)));
    assert(!occurs(s4, attribute("criterion_macro::criterion"@)));
    assert(s5 == with_registered_cases(source));
}

} // verus!
