//! Laws on the manifests of the generated crates.

use vstd::prelude::*;

use crate::cargo::{optional_text, Dependency, DependencyKind, Package};
use crate::cfgs::{cfg_names, check_cfg_line};
use crate::laws::target::lists_library;
use crate::laws::text::joined_of_few;
use crate::manifest::{
    dependency_fields, dependency_key, dependency_text, field_line, host_text, is_kept, kept_for,
    line_block, lines_of, mentioned_platforms, platform_blocks, platform_sections, platforms,
    runner_manifest_text, slot,
};
use crate::ordered::collected_is_the_ordered_set;
use crate::quote::{debug_path, debug_text};
use crate::target::package_directory;
use crate::text::{joined, lemma_concatenated_add, precedes, texts};

verus! {

/// A line with features is the line without them, with the list of all of them put in as the
/// last field, whatever the other fields are; one without features has no such field.
pub proof fn features_are_the_last_field(
    key: Seq<char>,
    source: Seq<char>,
    package: Option<Seq<char>>,
    uses_default_features: bool,
    features: Seq<Seq<char>>,
) -> (front: Seq<char>)
    ensures
        field_line(key, dependency_fields(source, package, uses_default_features, Seq::empty()))
            == front + " }"@,
        features.len() > 0 ==> field_line(
            key,
            dependency_fields(source, package, uses_default_features, features),
        ) == front + ", features = ["@ + joined(features, ", "@) + "] }"@,
{
    let fields = dependency_fields(source, package, uses_default_features, Seq::empty());
    let front = key + " = { "@ + joined(fields, ", "@);
    if features.len() > 0 {
        let list = "features = ["@ + joined(features, ", "@) + "]"@;
        assert(dependency_fields(source, package, uses_default_features, features) =~= fields.push(
            list,
        ));
        lemma_joined_push(fields, list, ", "@);
        reveal_strlit(", ");
        reveal_strlit("features = [");
        reveal_strlit(", features = [");
        reveal_strlit("]");
        reveal_strlit(" }");
        reveal_strlit("] }");
        assert(", features = ["@ =~= ", "@ + "features = ["@);
        assert("] }"@ =~= "]"@ + " }"@);
        assert(field_line(
            key,
            dependency_fields(source, package, uses_default_features, features),
        ) =~= front + ", features = ["@ + joined(features, ", "@) + "] }"@);
    }
    front
}

/// A line without features says where the dependency comes from, then its package, if that is
/// given, and that the default features are off, if they are.
pub proof fn line_says_the_other_fields(
    key: Seq<char>,
    source: Seq<char>,
    package: Seq<char>,
)
    ensures
        field_line(key, dependency_fields(source, None, true, Seq::empty())) == key + " = { "@
            + source + " }"@,
        field_line(key, dependency_fields(source, None, false, Seq::empty())) == key + " = { "@
            + source + ", default-features = false }"@,
        field_line(key, dependency_fields(source, Some(package), true, Seq::empty())) == key
            + " = { "@ + source + ", package = "@ + package + " }"@,
        field_line(key, dependency_fields(source, Some(package), false, Seq::empty())) == key
            + " = { "@ + source + ", package = "@ + package + ", default-features = false }"@,
{
    reveal_strlit(", ");
    reveal_strlit(" }");
    reveal_strlit("default-features = false");
    reveal_strlit(", default-features = false }");
    reveal_strlit("package = ");
    reveal_strlit(", package = ");
    assert(", default-features = false }"@ =~= ", "@ + "default-features = false"@ + " }"@);
    assert(", package = "@ =~= ", "@ + "package = "@);
    let named = "package = "@ + package;
    let off = "default-features = false"@;
    joined_of_few(source, ", "@);
    lemma_joined_push(seq![source], named, ", "@);
    lemma_joined_push(seq![source], off, ", "@);
    lemma_joined_push(seq![source].push(named), off, ", "@);
    assert(field_line(key, dependency_fields(source, None, false, Seq::empty())) =~= key
        + " = { "@ + source + ", default-features = false }"@);
    assert(field_line(key, dependency_fields(source, Some(package), true, Seq::empty())) =~= key
        + " = { "@ + source + ", package = "@ + package + " }"@);
    assert(field_line(key, dependency_fields(source, Some(package), false, Seq::empty())) =~= key
        + " = { "@ + source + ", package = "@ + package + ", default-features = false }"@);
}

/// The line of a dependency names its path, or else its version, its package only where the
/// dependency goes by another name, and each of its features in quotes.
pub proof fn line_is_that_of_the_dependency(
    key: Seq<char>,
    dependency: Dependency,
    quoted: Seq<Seq<char>>,
)
    requires
        quoted.len() == dependency.features@.len(),
        forall|i: int|
            0 <= i < quoted.len() ==> #[trigger] quoted[i] == debug_text(
                dependency.features@[i]@,
            ),
    ensures
        ({
            let source = match dependency.path {
                Some(path) => "path = "@ + debug_path(path@),
                None => "version = "@ + debug_text(dependency.req@),
            };
            let package = if dependency.rename is Some && dependency.rename->0@
                != dependency.name@ {
                Some(debug_text(dependency.name@))
            } else {
                None
            };
            dependency_text(key, dependency) == field_line(
                key,
                dependency_fields(source, package, dependency.uses_default_features, quoted),
            )
        }),
{
    let features = texts(dependency.features@).map_values(|feature: Seq<char>| debug_text(feature));
    assert(features =~= quoted);
}

proof fn lemma_joined_push(items: Seq<Seq<char>>, item: Seq<char>, separator: Seq<char>)
    requires
        items.len() > 0,
    ensures
        joined(items.push(item), separator) == joined(items, separator) + (separator + item),
{
    assert(items.push(item).drop_last() =~= items);
    assert(joined(items.push(item), separator) =~= joined(items, separator) + (separator + item));
}

/// A dependency goes by its new name, where it has one.
pub proof fn new_name_comes_first(dependency: Dependency)
    ensures
        dependency.rename matches Some(rename) ==> dependency_key(dependency) == rename@,
        dependency.rename is None ==> dependency_key(dependency) == dependency.name@,
{
}

/// A dependency is taken over if and only if it is not for build scripts and no earlier one of
/// those has its platform and name.
pub proof fn first_of_platform_and_name_is_kept(dependencies: Seq<Dependency>, at: int)
    requires
        0 <= at < dependencies.len(),
    ensures
        is_kept(dependencies, at) <==> dependencies[at].kind != DependencyKind::Build && forall|j: int|
            0 <= j < at && (#[trigger] dependencies[j]).kind != DependencyKind::Build ==> !(
            optional_text(dependencies[j].target) == optional_text(dependencies[at].target)
                && dependency_key(dependencies[j]) == dependency_key(dependencies[at])),
{
    if is_kept(dependencies, at) {
        assert forall|j: int|
            0 <= j < at && (#[trigger] dependencies[j]).kind != DependencyKind::Build implies !(
        optional_text(dependencies[j].target) == optional_text(dependencies[at].target)
            && dependency_key(dependencies[j]) == dependency_key(dependencies[at])) by {
            assert(slot(dependencies[j]) != slot(dependencies[at]));
        }
    }
}

/// The kept dependencies of a platform are listed in their order, and all of them.
pub proof fn kept_dependencies_are_listed_in_order(
    dependencies: Seq<Dependency>,
    platform: Option<Seq<char>>,
    count: int,
    at: int,
)
    requires
        0 <= count <= dependencies.len(),
    ensures
        kept_for(dependencies, platform, count).contains(at) <==> 0 <= at < count && is_kept(
            dependencies,
            at,
        ) && optional_text(dependencies[at].target) == platform,
        forall|i: int, j: int|
            0 <= i < j < kept_for(dependencies, platform, count).len() ==> (#[trigger] kept_for(
                dependencies,
                platform,
                count,
            )[i]) < (#[trigger] kept_for(dependencies, platform, count)[j]),
        forall|i: int|
            0 <= i < kept_for(dependencies, platform, count).len() ==> 0 <= (#[trigger] kept_for(
                dependencies,
                platform,
                count,
            )[i]) < count,
    decreases count,
{
    if count > 0 {
        kept_dependencies_are_listed_in_order(dependencies, platform, count - 1, at);
        let before = kept_for(dependencies, platform, count - 1);
        let list = kept_for(dependencies, platform, count);
        if is_kept(dependencies, count - 1) && optional_text(dependencies[count - 1].target)
            == platform {
            assert(list =~= before.push(count - 1));
            assert(list[before.len() as int] == count - 1);
            if before.contains(at) {
                let i = choose|i: int| 0 <= i < before.len() && before[i] == at;
                assert(list[i] == at);
            }
            if list.contains(at) && at != count - 1 {
                let i = choose|i: int| 0 <= i < list.len() && list[i] == at;
                assert(before[i] == at);
            }
        }
    }
}

/// A platform has a section if and only if a dependency that is not for build scripts is for
/// it, and the sections ascend.
pub proof fn platforms_with_dependencies_have_sections(
    dependencies: Seq<Dependency>,
    platform: Seq<char>,
    i: int,
    j: int,
)
    ensures
        platforms(dependencies).contains(platform) <==> exists|at: int|
            0 <= at < dependencies.len() && (#[trigger] dependencies[at]).kind
                != DependencyKind::Build && optional_text(dependencies[at].target) == Some(
                platform,
            ),
        0 <= i < j < platforms(dependencies).len() ==> precedes(
            platforms(dependencies)[i],
            platforms(dependencies)[j],
        ),
{
    lemma_mentioned(dependencies, platform, dependencies.len() as int);
    collected_is_the_ordered_set(mentioned_platforms(dependencies, dependencies.len() as int));
}

proof fn lemma_mentioned(dependencies: Seq<Dependency>, platform: Seq<char>, count: int)
    requires
        0 <= count <= dependencies.len(),
    ensures
        mentioned_platforms(dependencies, count).contains(platform) <==> exists|at: int|
            0 <= at < count && (#[trigger] dependencies[at]).kind != DependencyKind::Build
                && optional_text(dependencies[at].target) == Some(platform),
    decreases count,
{
    if count > 0 {
        lemma_mentioned(dependencies, platform, count - 1);
        let before = mentioned_platforms(dependencies, count - 1);
        let list = mentioned_platforms(dependencies, count);
        let last = dependencies[count - 1];
        if last.target is Some && last.kind != DependencyKind::Build {
            assert(list =~= before.push(last.target->0@));
            assert(list[before.len() as int] == last.target->0@);
            if before.contains(platform) {
                let i = choose|i: int| 0 <= i < before.len() && before[i] == platform;
                assert(list[i] == platform);
            }
            if list.contains(platform) && last.target->0@ != platform {
                let i = choose|i: int| 0 <= i < list.len() && list[i] == platform;
                assert(before[i] == platform);
            }
        }
    }
}

/// Lines stand one below the other, each with its line feed.
pub proof fn lines_stand_one_below_the_other(
    first: Seq<Seq<char>>,
    second: Seq<Seq<char>>,
    line: Seq<char>,
)
    ensures
        line_block(Seq::empty()) == Seq::<char>::empty(),
        line_block(seq![line]) == line + "\n"@,
        line_block(first + second) == line_block(first) + line_block(second),
{
    let ended = |list: Seq<Seq<char>>| list.map_values(|line: Seq<char>| line + "\n"@);
    assert(ended(Seq::empty()) =~= Seq::empty());
    assert(ended(seq![line]) =~= seq![line + "\n"@]);
    joined_of_few(line + "\n"@, Seq::empty());
    assert(ended(first + second) =~= ended(first) + ended(second));
    lemma_concatenated_add(ended(first), ended(second));
}

/// Every platform has its section, with its name and its lines, behind those before it.
pub proof fn every_platform_has_its_section(
    sections: Seq<(Seq<char>, Seq<Seq<char>>)>,
    name: Seq<char>,
    lines: Seq<Seq<char>>,
)
    ensures
        platform_blocks(Seq::empty()) == Seq::<char>::empty(),
        platform_blocks(sections.push((name, lines))) == platform_blocks(sections) + ("\n[target."@
            + name + ".dependencies]\n"@ + line_block(lines)),
{
    let all = sections.push((name, lines));
    assert(all.drop_last() =~= sections);
    assert(platform_blocks(all) =~= platform_blocks(sections) + ("\n[target."@ + name
        + ".dependencies]\n"@ + line_block(lines)));
}

/// The manifest of a runner names its crates, the package itself if that has a library, the
/// dependencies for all platforms and those for each platform.
pub proof fn manifest_holds_all_parts(
    support: Seq<char>,
    macros: Seq<char>,
    package: Package,
    forward_cfgs: Seq<Seq<char>>,
)
    ensures
        ({
            let dependencies = package.dependencies@;
            let everywhere = kept_for(dependencies, None, dependencies.len() as int);
            let own = if exists|i: int|
                0 <= i < package.targets@.len() && lists_library(#[trigger] package.targets@[i]) {
                package.name@ + " = { path = "@ + debug_path(package_directory(package)) + " }\n"@
            } else {
                Seq::empty()
            };
            runner_manifest_text(support, macros, package, forward_cfgs)
                == "[package]\nname = \"dinghy-generated-apple-runner\"\nversion = \"0.1.0\"\nedition = \"2021\"\n\n[lib]\npath = \"src/lib.rs\"\n\n[lints.rust]\n"@
                + check_cfg_line(cfg_names(forward_cfgs))
                + "\n\n[dependencies]\ndinghy-apple-runner-support = { path = "@ + debug_path(support)
                + " }\ndinghy-apple-runner-macros = { path = "@ + debug_path(macros)
                + " }\ninventory = \"0.3\"\n"@ + own + line_block(
                everywhere.map_values(
                    |at: int| dependency_text(dependency_key(dependencies[at]), dependencies[at]),
                ),
            ) + platform_blocks(platform_sections(dependencies))
        }),
{
    let dependencies = package.dependencies@;
    let everywhere = kept_for(dependencies, None, dependencies.len() as int);
    assert(lines_of(dependencies, everywhere) =~= everywhere.map_values(
        |at: int| dependency_text(dependency_key(dependencies[at]), dependencies[at]),
    ));
    assert forall|i: int| 0 <= i < package.targets@.len() implies lists_library(
        #[trigger] package.targets@[i],
    ) == package.targets@[i].is_library() by {
        crate::laws::target::libraries_list_their_kinds(package.targets@[i]);
    }
}

/// The section of a platform has its name in quotes and the lines of its kept dependencies.
pub proof fn section_has_the_lines_of_its_platform(dependencies: Seq<Dependency>, i: int, j: int)
    requires
        0 <= i < platforms(dependencies).len(),
        0 <= j < kept_for(
            dependencies,
            Some(platforms(dependencies)[i]),
            dependencies.len() as int,
        ).len(),
    ensures
        ({
            let section = platform_sections(dependencies)[i];
            let kept = kept_for(
                dependencies,
                Some(platforms(dependencies)[i]),
                dependencies.len() as int,
            );
            &&& platform_sections(dependencies).len() == platforms(dependencies).len()
            &&& section.0 == debug_text(platforms(dependencies)[i])
            &&& section.1.len() == kept.len()
            &&& section.1[j] == dependency_text(
                dependency_key(dependencies[kept[j]]),
                dependencies[kept[j]],
            )
        }),
{
}

/// The manifest of the host names the crate that runs it and makes the flags known.
pub proof fn host_manifest_names_its_crate(runtime: Seq<char>, cfg_line: Seq<char>)
    ensures
        host_text(runtime, cfg_line)
            == "[package]\nname = \"dinghy-generated-apple-host\"\nversion = \"0.1.0\"\nedition = \"2021\"\n\n[[bin]]\nname = \"dinghy-generated-apple-host\"\npath = \"src/main.rs\"\n\n[dependencies]\ndinghy-apple-host-runtime = { path = "@
            + runtime
            + " }\ndinghy-generated-apple-runner = { path = \"../runner\" }\n\n[lints.rust]\n"@
            + cfg_line + "\n"@,
{
}

} // verus!
