//! Laws on the target that an executable was built from.

use vstd::prelude::*;

use crate::cargo::{Package, Target};
use crate::laws::path::{is_part, parent_is_the_shortest_beginning};
use crate::laws::text::part_before_the_last_character;
use crate::path::{
    components, components_around_a_slash, components_before_slash, inner, join_adds_one_component,
    lemma_inner_add, path_below, text_below,
};
use crate::quote::{debug_path, debug_text};
use crate::target::{
    found_package_fits, found_target_fits, inferred_kind, is_package_of, logical_name, names_match,
    package_directory, package_index, resolution, runs_as, target_index, RunnerKind, TargetFault,
};
use crate::text::{split_of_one, split_of_two, split_on, texts};

verus! {

/// Whether a target lists this kind.
pub open spec fn lists_kind(target: Target, kind: Seq<char>) -> bool {
    exists|i: int| 0 <= i < target.kind@.len() && (#[trigger] target.kind@[i])@ == kind
}

/// Whether a target lists one of the kinds of libraries.
pub open spec fn lists_library(target: Target) -> bool {
    ||| lists_kind(target, "lib"@)
    ||| lists_kind(target, "rlib"@)
    ||| lists_kind(target, "dylib"@)
    ||| lists_kind(target, "staticlib"@)
    ||| lists_kind(target, "cdylib"@)
}

/// Whether one of the targets has the name and lists the kind.
pub open spec fn there_is(targets: Seq<Target>, name: Seq<char>, kind: Seq<char>) -> bool {
    exists|i: int|
        0 <= i < targets.len() && names_match((#[trigger] targets[i]).name@, name) && lists_kind(
            targets[i],
            kind,
        )
}

/// Whether one of the targets has the name and is a library.
pub open spec fn there_is_library(targets: Seq<Target>, name: Seq<char>) -> bool {
    exists|i: int|
        0 <= i < targets.len() && names_match((#[trigger] targets[i]).name@, name) && lists_library(
            targets[i],
        )
}

/// Whether neither the arguments nor the place of the executable decide how it is run.
pub open spec fn package_decides(executable: Seq<char>, runner_args: Seq<Seq<char>>) -> bool {
    &&& forall|i: int| 0 <= i < runner_args.len() ==> #[trigger] runner_args[i] != "--bench"@
    &&& forall|i: int|
        0 <= i < components(executable).len() ==> #[trigger] components(executable)[i]
            != "examples"@
}

/// Two names match if and only if they are the same but for dashes and underscores.
pub proof fn names_match_but_for_dashes(a: Seq<char>, b: Seq<char>)
    ensures
        names_match(a, b) <==> a.len() == b.len() && forall|i: int|
            0 <= i < a.len() ==> (#[trigger] a[i] == b[i] || ((a[i] == '-' || a[i] == '_') && (b[i]
                == '-' || b[i] == '_'))),
{
    let left = a.map_values(|ch: char| if ch == '-' { '_' } else { ch });
    let right = b.map_values(|ch: char| if ch == '-' { '_' } else { ch });
    if names_match(a, b) {
        assert(left.len() == right.len());
        assert forall|i: int| 0 <= i < a.len() implies (#[trigger] a[i] == b[i] || ((a[i] == '-'
            || a[i] == '_') && (b[i] == '-' || b[i] == '_'))) by {
            assert(left[i] == right[i]);
        }
    }
    if a.len() == b.len() && forall|i: int|
        0 <= i < a.len() ==> (#[trigger] a[i] == b[i] || ((a[i] == '-' || a[i] == '_') && (b[i]
            == '-' || b[i] == '_'))) {
        assert(left =~= right);
    }
}

proof fn lemma_kinds(target: Target)
    ensures
        forall|kind: Seq<char>| #[trigger] target.has_kind(kind) <==> lists_kind(target, kind),
{
    assert forall|kind: Seq<char>| #[trigger] target.has_kind(kind) <==> lists_kind(
        target,
        kind,
    ) by {
        let all = texts(target.kind@);
        if target.has_kind(kind) {
            let i = choose|i: int| 0 <= i < all.len() && all[i] == kind;
            assert(target.kind@[i]@ == kind);
        }
        if lists_kind(target, kind) {
            let i = choose|i: int| 0 <= i < target.kind@.len() && (#[trigger] target.kind@[i])@
                == kind;
            assert(all[i] == kind);
        }
    }
}

proof fn lemma_there_is(targets: Seq<Target>, name: Seq<char>)
    ensures
        forall|kind: Seq<char>| #[trigger]
            crate::target::some_has_kind(targets, name, kind) <==> there_is(targets, name, kind),
        crate::target::some_is_library(targets, name) <==> there_is_library(targets, name),
{
    assert forall|i: int| 0 <= i < targets.len() implies (#[trigger] targets[i]).is_library()
        == lists_library(targets[i]) && forall|kind: Seq<char>| #[trigger]
        targets[i].has_kind(kind) <==> lists_kind(targets[i], kind) by {
        lemma_kinds(targets[i]);
    }
}

/// A target runs as a benchmark, a binary or an example if it lists that kind, and as a test if
/// it lists tests or is a library.
pub proof fn target_runs_as_its_kinds(target: Target)
    ensures
        runs_as(target, RunnerKind::Bench) <==> lists_kind(target, "bench"@),
        runs_as(target, RunnerKind::Binary) <==> lists_kind(target, "bin"@),
        runs_as(target, RunnerKind::Example) <==> lists_kind(target, "example"@),
        runs_as(target, RunnerKind::Test) <==> lists_kind(target, "test"@) || lists_library(target),
{
    lemma_kinds(target);
}

/// A target is a library if and only if it lists one of the kinds of libraries.
pub proof fn libraries_list_their_kinds(target: Target)
    ensures
        target.is_library() <==> lists_library(target),
{
    lemma_kinds(target);
}

/// The argument `--bench` makes any executable a benchmark.
pub proof fn bench_argument_decides(
    executable: Seq<char>,
    runner_args: Seq<Seq<char>>,
    targets: Seq<Target>,
    name: Seq<char>,
    at: int,
)
    requires
        0 <= at < runner_args.len(),
        runner_args[at] == "--bench"@,
    ensures
        inferred_kind(executable, runner_args, targets, name) == Some(RunnerKind::Bench),
{
}

/// An executable below a directory `examples` is an example, unless `--bench` is given.
pub proof fn examples_directory_decides(
    front: Seq<char>,
    back: Seq<char>,
    runner_args: Seq<Seq<char>>,
    targets: Seq<Target>,
    name: Seq<char>,
)
    requires
        forall|i: int| 0 <= i < runner_args.len() ==> #[trigger] runner_args[i] != "--bench"@,
    ensures
        inferred_kind(front + "/examples/"@ + back, runner_args, targets, name) == Some(
            RunnerKind::Example,
        ),
        inferred_kind("examples/"@ + back, runner_args, targets, name) == Some(
            RunnerKind::Example,
        ),
{
    reveal_strlit("/examples/");
    reveal_strlit("examples/");
    reveal_strlit("examples");
    let word = "examples"@;
    let tail = word + seq!['/'] + back;
    assert(front + "/examples/"@ + back =~= front + seq!['/'] + tail);
    assert("examples/"@ + back =~= tail);
    assert(word.len() == 8);
    assert forall|i: int| 0 <= i < word.len() implies word[i] != '/' by {}
    lemma_part_counts(word);
    components_around_a_slash(front, tail);
    split_of_two(word, back, '/');
    lemma_inner_add(seq![word], split_on(back, '/'));
    let names = inner(split_on(tail, '/'));
    assert(names[0] == word);
    let before = components_before_slash(front);
    assert((before + names)[before.len() as int] == word);
    assert(components(front + "/examples/"@ + back).contains(word));
    components_around_a_slash(word, back);
    assert(components("examples/"@ + back)[0] == word);
    assert(components("examples/"@ + back).contains(word));
}

proof fn lemma_part_counts(word: Seq<char>)
    requires
        is_part(word),
    ensures
        split_on(word, '/') == seq![word],
        inner(seq![word]) == seq![word],
        components(word) == seq![word],
{
    split_of_one(word, '/');
    assert(seq![word].drop_last() =~= Seq::empty());
    assert(inner(Seq::<Seq<char>>::empty()) =~= Seq::empty());
    assert(crate::path::counting(Seq::<Seq<char>>::empty()) =~= Seq::empty());
    assert(inner(seq![word]) =~= seq![word]);
    assert(word.contains(word[0]));
    assert(components(word) =~= seq![word]);
}

/// Otherwise the package decides: a test of that name comes first, then an example, then a
/// binary, and a library is tested only where there is none of them. Without any of them there
/// is no kind.
pub proof fn package_decides_in_order(
    executable: Seq<char>,
    runner_args: Seq<Seq<char>>,
    targets: Seq<Target>,
    name: Seq<char>,
)
    requires
        package_decides(executable, runner_args),
    ensures
        ({
            let kind = inferred_kind(executable, runner_args, targets, name);
            let test = there_is(targets, name, "test"@);
            let example = there_is(targets, name, "example"@);
            let binary = there_is(targets, name, "bin"@);
            let library = there_is_library(targets, name);
            &&& test ==> kind == Some(RunnerKind::Test)
            &&& !test && example ==> kind == Some(RunnerKind::Example)
            &&& !test && !example && binary ==> kind == Some(RunnerKind::Binary)
            &&& !test && !example && !binary && library ==> kind == Some(RunnerKind::Test)
            &&& !test && !example && !binary && !library ==> kind is None
        }),
{
    lemma_there_is(targets, name);
    assert(!runner_args.contains("--bench"@));
    assert(!components(executable).contains("examples"@));
}

/// Below `deps` the name of the target is what stands before the last dash of the file's name.
pub proof fn hash_is_cut_off_below_deps(front: Seq<char>, stem: Seq<char>, hash: Seq<char>)
    requires
        !stem.contains('/'),
        !hash.contains('/'),
        !hash.contains('-'),
    ensures
        logical_name(front + "/deps/"@ + stem + seq!['-'] + hash) == Some(stem),
{
    let file = stem + seq!['-'] + hash;
    assert forall|i: int| 0 <= i < file.len() implies file[i] != '/' by {
        if i < stem.len() {
            assert(stem.contains(stem[i]));
        } else if i > stem.len() {
            assert(hash.contains(hash[i - stem.len() - 1]));
        }
    }
    assert(file[stem.len() as int] == '-');
    assert(file.len() == 1 ==> file[0] == '-');
    assert(file != seq!['.'] && file != seq!['.', '.'] && file != seq!['/']) by {
        assert(file.len() == 2 ==> file[0] == '-' || file[1] == '-');
    }
    reveal_strlit("/deps/");
    reveal_strlit("deps");
    assert(is_part("deps"@));
    lemma_two_parts(front, "deps"@, file);
    assert(front + "/deps/"@ + stem + seq!['-'] + hash =~= front + seq!['/'] + "deps"@ + seq!['/']
        + file);
    part_before_the_last_character(stem, '-', hash);
}

/// A file's name without a dash, and the name of a file elsewhere, is the name of the target.
pub proof fn other_names_are_kept(front: Seq<char>, directory: Seq<char>, file: Seq<char>)
    requires
        is_part(directory),
        is_part(file),
        file != seq!['.', '.'],
        directory != "deps"@ || !file.contains('-'),
    ensures
        logical_name(front + seq!['/'] + directory + seq!['/'] + file) == Some(file),
{
    lemma_two_parts(front, directory, file);
    assert(file.contains(file[0]));
    if !file.contains('-') {
        part_before_the_last_character(Seq::empty(), '-', file);
    }
}

proof fn lemma_two_parts(front: Seq<char>, directory: Seq<char>, file: Seq<char>)
    requires
        is_part(directory),
        is_part(file),
    ensures
        ({
            let parts = components(front + seq!['/'] + directory + seq!['/'] + file);
            &&& parts.len() >= 2
            &&& parts.last() == file
            &&& parts.drop_last().last() == directory
        }),
{
    let tail = directory + seq!['/'] + file;
    assert(front + seq!['/'] + directory + seq!['/'] + file =~= front + seq!['/'] + tail);
    components_around_a_slash(front, tail);
    split_of_two(directory, file, '/');
    lemma_part_counts(directory);
    lemma_part_counts(file);
    lemma_inner_add(seq![directory], seq![file]);
    let before = components_before_slash(front);
    let parts = before + (seq![directory] + seq![file]);
    assert(parts.last() == file);
    assert(parts.drop_last().last() == directory);
}

/// A manifest in a directory makes its package the package of that directory.
pub proof fn manifest_in_a_directory(package: Package, root: Seq<char>, name: Seq<char>)
    requires
        is_part(name),
        package.manifest_path@ == path_below(root, name),
    ensures
        is_package_of(package, root),
{
    join_adds_one_component(root, name);
    let parts = components(root);
    assert(parts.push(name).drop_last() =~= parts);
    assert(name.contains(name[0]));
    assert(seq!['/'][0] == '/');
}

/// A package stands in a directory if and only if its manifest has one component more, and the
/// directory of a package is the shortest beginning of its manifest's path with the others.
pub proof fn package_stands_where_its_manifest_stands(package: Package, root: Seq<char>, k: int)
    ensures
        ({
            let path = package.manifest_path@;
            let parts = components(path);
            let directory = package_directory(package);
            let has_parent = parts.len() > 0 && parts.last() != seq!['/'];
            &&& is_package_of(package, root) <==> has_parent && parts.drop_last() == components(root)
            &&& has_parent ==> {
                &&& directory.len() <= path.len()
                &&& directory == path.take(directory.len() as int)
                &&& components(directory) == parts.drop_last()
                &&& 0 <= k < directory.len() ==> components(path.take(k)) != parts.drop_last()
            }
            &&& !has_parent ==> directory.len() == 0
        }),
{
    parent_is_the_shortest_beginning(package.manifest_path@, k);
}

/// Each fault is told with what it is about.
pub proof fn faults_are_told(path: Seq<char>, root: Seq<char>, name: Seq<char>, package: Seq<char>)
    ensures
        (TargetFault::PackageNotFound { package_root: root }).message()
            == "Could not resolve the current Cargo package for "@ + debug_path(root),
        (TargetFault::InvalidExecutableName { executable: path }).message()
            == "invalid executable name "@ + debug_path(path),
        (TargetFault::KindNotInferred { target_name: name }).message()
            == "Could not infer runner kind for target '"@ + name + "'"@,
        (TargetFault::TargetNotFound { target_name: name, kind: RunnerKind::Test, package }).message()
            == "Could not resolve target '"@ + name + "' of kind "@ + "Test"@ + " in package "@
            + package,
        (TargetFault::TargetNotFound {
            target_name: name,
            kind: RunnerKind::Bench,
            package,
        }).message() == "Could not resolve target '"@ + name + "' of kind "@ + "Bench"@
            + " in package "@ + package,
        (TargetFault::TargetNotFound {
            target_name: name,
            kind: RunnerKind::Binary,
            package,
        }).message() == "Could not resolve target '"@ + name + "' of kind "@ + "Binary"@
            + " in package "@ + package,
        (TargetFault::TargetNotFound {
            target_name: name,
            kind: RunnerKind::Example,
            package,
        }).message() == "Could not resolve target '"@ + name + "' of kind "@ + "Example"@
            + " in package "@ + package,
        (TargetFault::SourceOutsidePackage { src_path: path, package_root: root }).message()
            == "Target source "@ + debug_text(path) + " is not under package root "@ + debug_path(
            root,
        ),
{
}

/// The resolved target is in the first package of the directory, and there the first with the
/// executable's name that runs as the inferred kind.
pub proof fn first_fitting_target_is_resolved(
    packages: Seq<Package>,
    root: Seq<char>,
    executable: Seq<char>,
    runner_args: Seq<Seq<char>>,
    package: int,
    target: int,
    name: Seq<char>,
    kind: RunnerKind,
)
    requires
        0 <= package < packages.len(),
        is_package_of(packages[package], root),
        forall|i: int| 0 <= i < package ==> !is_package_of(#[trigger] packages[i], root),
        logical_name(executable) == Some(name),
        inferred_kind(executable, runner_args, packages[package].targets@, name) == Some(kind),
        0 <= target < packages[package].targets@.len(),
        names_match(packages[package].targets@[target].name@, name),
        runs_as(packages[package].targets@[target], kind),
        forall|i: int|
            0 <= i < target ==> !(names_match(
                (#[trigger] packages[package].targets@[i]).name@,
                name,
            ) && runs_as(packages[package].targets@[i], kind)),
    ensures
        match resolution(packages, root, executable, runner_args) {
            Ok((found, from, source)) => {
                &&& found == kind
                &&& from == packages[package]
                &&& text_below(
                    packages[package].targets@[target].src_path@,
                    components(package_directory(packages[package])),
                ) == Some(source)
            },
            Err(fault) => {
                &&& fault == (TargetFault::SourceOutsidePackage {
                    src_path: packages[package].targets@[target].src_path@,
                    package_root: package_directory(packages[package]),
                })
                &&& text_below(
                    packages[package].targets@[target].src_path@,
                    components(package_directory(packages[package])),
                ) is None
            },
        },
{
    found_package_fits(packages, root);
    let at = package_index(packages, root);
    assert(at == package) by {
        if at < package {
            assert(!is_package_of(packages[at], root));
        }
    }
    let targets = packages[package].targets@;
    found_target_fits(targets, name, kind);
    let place = target_index(targets, name, kind);
    assert(place == target) by {
        if place < target {
            assert(!(names_match(targets[place].name@, name) && runs_as(targets[place], kind)));
        } else if place > target {
            assert(!(names_match(targets[target].name@, name) && runs_as(targets[target], kind)));
        }
    }
}

/// Each fault of a resolution has its reason.
pub proof fn faults_have_their_reasons(
    packages: Seq<Package>,
    root: Seq<char>,
    executable: Seq<char>,
    runner_args: Seq<Seq<char>>,
)
    ensures
        ({
            let result = resolution(packages, root, executable, runner_args);
            let missing = forall|i: int|
                0 <= i < packages.len() ==> !is_package_of(#[trigger] packages[i], root);
            &&& missing <==> result == Err::<(RunnerKind, Package, Seq<char>), TargetFault>(
                (TargetFault::PackageNotFound { package_root: root }),
            )
            &&& !missing && logical_name(executable) is None ==> result == Err::<
                (RunnerKind, Package, Seq<char>),
                TargetFault,
            >((TargetFault::InvalidExecutableName { executable }))
        }),
{
    found_package_fits(packages, root);
    let at = package_index(packages, root);
    if at < packages.len() {
        assert(is_package_of(packages[at], root));
    }
}

/// Without a kind, and without a target that runs as the inferred kind, the fault says for which
/// name.
pub proof fn missing_targets_are_named(
    packages: Seq<Package>,
    root: Seq<char>,
    executable: Seq<char>,
    runner_args: Seq<Seq<char>>,
    package: int,
    name: Seq<char>,
)
    requires
        0 <= package < packages.len(),
        is_package_of(packages[package], root),
        forall|i: int| 0 <= i < package ==> !is_package_of(#[trigger] packages[i], root),
        logical_name(executable) == Some(name),
    ensures
        ({
            let result = resolution(packages, root, executable, runner_args);
            let targets = packages[package].targets@;
            match inferred_kind(executable, runner_args, targets, name) {
                None => result == Err::<(RunnerKind, Package, Seq<char>), TargetFault>(
                    (TargetFault::KindNotInferred { target_name: name }),
                ),
                Some(kind) => (forall|i: int|
                    0 <= i < targets.len() ==> !(names_match((#[trigger] targets[i]).name@, name)
                        && runs_as(targets[i], kind))) ==> result == Err::<
                    (RunnerKind, Package, Seq<char>),
                    TargetFault,
                >(
                    (TargetFault::TargetNotFound {
                        target_name: name,
                        kind,
                        package: packages[package].name@,
                    }),
                ),
            }
        }),
{
    found_package_fits(packages, root);
    let at = package_index(packages, root);
    assert(at == package) by {
        if at < package {
            assert(!is_package_of(packages[at], root));
        }
    }
    let targets = packages[package].targets@;
    if let Some(kind) = inferred_kind(executable, runner_args, targets, name) {
        found_target_fits(targets, name, kind);
    }
}

} // verus!
