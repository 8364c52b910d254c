//! The manifests of the generated crates.

use vstd::prelude::*;

use crate::cargo::{optional_text, Dependency, DependencyKind, Package, Target};
use crate::cfgs::{cfg_names, check_cfg_line, render_check_cfg_line};
use crate::config::DinghyWorkspaceConfig;
use crate::ordered::{collected, collected_is_the_ordered_set, insert_text};
use crate::path::{components, parent_parts};
use crate::quote::{debug_path, debug_text, quote_path, quote_text};
use crate::target::{is_library_target, package_directory, package_root_of};
use crate::text::{concatenated, join, joined, push_text, same_text, texts};

verus! {

/// A dependency whose texts are in quotes already.
pub struct QuotedDependency {
    /// The `path` or the `version` field.
    pub source: String,
    /// The name of the package, where the dependency has another.
    pub package: Option<String>,
    pub uses_default_features: bool,
    pub features: Vec<String>,
}

/// The dependencies for one platform, by their indices.
pub struct PlatformGroup {
    pub platform: String,
    pub dependencies: Vec<usize>,
}

/// The dependencies that the runner takes over, by their indices.
pub struct DependencyGroups {
    pub everywhere: Vec<usize>,
    /// In ascending order of the platforms.
    pub platforms: Vec<PlatformGroup>,
}

/// The lines of the dependencies for one platform.
pub struct PlatformLines {
    /// The platform, in quotes.
    pub platform: String,
    pub lines: Vec<String>,
}

/// The fields of a dependency.
pub open spec fn dependency_fields(
    source: Seq<char>,
    package: Option<Seq<char>>,
    uses_default_features: bool,
    features: Seq<Seq<char>>,
) -> Seq<Seq<char>> {
    let fields = seq![source];
    let fields = match package {
        Some(name) => fields.push("package = "@ + name),
        None => fields,
    };
    let fields = if uses_default_features {
        fields
    } else {
        fields.push("default-features = false"@)
    };
    if features.len() == 0 {
        fields
    } else {
        fields.push("features = ["@ + joined(features, ", "@) + "]"@)
    }
}

/// The line of a dependency with these fields.
pub open spec fn field_line(key: Seq<char>, fields: Seq<Seq<char>>) -> Seq<char> {
    key + " = { "@ + joined(fields, ", "@) + " }"@
}

/// The name under which the package knows a dependency.
pub open spec fn dependency_key(dependency: Dependency) -> Seq<char> {
    match dependency.rename {
        Some(rename) => rename@,
        None => dependency.name@,
    }
}

/// Where the sources of a dependency come from.
pub open spec fn source_field(dependency: Dependency) -> Seq<char> {
    match dependency.path {
        Some(path) => "path = "@ + debug_path(path@),
        None => "version = "@ + debug_text(dependency.req@),
    }
}

/// The name of the package in quotes, where the dependency has another.
pub open spec fn package_field(dependency: Dependency) -> Option<Seq<char>> {
    match dependency.rename {
        Some(rename) => if rename@ != dependency.name@ {
            Some(debug_text(dependency.name@))
        } else {
            None
        },
        None => None,
    }
}

/// The line of a dependency in a manifest.
pub open spec fn dependency_text(key: Seq<char>, dependency: Dependency) -> Seq<char> {
    field_line(
        key,
        dependency_fields(
            source_field(dependency),
            package_field(dependency),
            dependency.uses_default_features,
            texts(dependency.features@).map_values(|feature: Seq<char>| debug_text(feature)),
        ),
    )
}

/// The platform and the name of a dependency; a manifest has room for one of each.
pub open spec fn slot(dependency: Dependency) -> (Option<Seq<char>>, Seq<char>) {
    (optional_text(dependency.target), dependency_key(dependency))
}

/// Whether the runner takes the dependency over: it is not for build scripts, and it is the
/// first of its platform and name.
pub open spec fn is_kept(dependencies: Seq<Dependency>, at: int) -> bool {
    &&& dependencies[at].kind != DependencyKind::Build
    &&& forall|j: int|
        0 <= j < at && (#[trigger] dependencies[j]).kind != DependencyKind::Build ==> slot(
            dependencies[j],
        ) != slot(dependencies[at])
}

/// The indices below `count` of the kept dependencies for a platform, or for all of them.
pub open spec fn kept_for(
    dependencies: Seq<Dependency>,
    platform: Option<Seq<char>>,
    count: int,
) -> Seq<int>
    decreases count,
{
    if count <= 0 {
        Seq::empty()
    } else {
        let before = kept_for(dependencies, platform, count - 1);
        if is_kept(dependencies, count - 1) && optional_text(dependencies[count - 1].target)
            == platform {
            before.push(count - 1)
        } else {
            before
        }
    }
}

/// The platforms of the first `count` dependencies that are not for build scripts.
pub open spec fn mentioned_platforms(dependencies: Seq<Dependency>, count: int) -> Seq<Seq<char>>
    decreases count,
{
    if count <= 0 {
        Seq::empty()
    } else {
        let before = mentioned_platforms(dependencies, count - 1);
        match dependencies[count - 1].target {
            Some(platform) => if dependencies[count - 1].kind != DependencyKind::Build {
                before.push(platform@)
            } else {
                before
            },
            None => before,
        }
    }
}

/// The platforms that have dependencies of their own, in ascending order.
pub open spec fn platforms(dependencies: Seq<Dependency>) -> Seq<Seq<char>> {
    collected(mentioned_platforms(dependencies, dependencies.len() as int))
}

/// The lines one below the other.
pub open spec fn line_block(lines: Seq<Seq<char>>) -> Seq<char> {
    concatenated(lines.map_values(|line: Seq<char>| line + "\n"@))
}

/// The sections of the platforms, each given by its name in quotes and its lines.
pub open spec fn platform_blocks(sections: Seq<(Seq<char>, Seq<Seq<char>>)>) -> Seq<char>
    decreases sections.len(),
{
    if sections.len() == 0 {
        Seq::empty()
    } else {
        platform_blocks(sections.drop_last()) + "\n[target."@ + sections.last().0
            + ".dependencies]\n"@ + line_block(sections.last().1)
    }
}

/// The line for the package itself, given by its name and its directory in quotes.
pub open spec fn own_line(own: Option<(Seq<char>, Seq<char>)>) -> Seq<char> {
    match own {
        Some((name, directory)) => name + " = { path = "@ + directory + " }\n"@,
        None => Seq::empty(),
    }
}

/// The manifest of the runner, put together from its parts.
pub open spec fn runner_text(
    cfg_line: Seq<char>,
    support: Seq<char>,
    macros: Seq<char>,
    own: Option<(Seq<char>, Seq<char>)>,
    everywhere: Seq<Seq<char>>,
    sections: Seq<(Seq<char>, Seq<Seq<char>>)>,
) -> Seq<char> {
    "[package]\nname = \"dinghy-generated-apple-runner\"\nversion = \"0.1.0\"\nedition = \"2021\"\n\n[lib]\npath = \"src/lib.rs\"\n\n[lints.rust]\n"@
        + cfg_line + "\n\n[dependencies]\ndinghy-apple-runner-support = { path = "@ + support
        + " }\ndinghy-apple-runner-macros = { path = "@ + macros + " }\ninventory = \"0.3\"\n"@
        + own_line(own) + line_block(everywhere) + platform_blocks(sections)
}

/// The lines of some of the dependencies.
pub open spec fn lines_of(dependencies: Seq<Dependency>, indices: Seq<int>) -> Seq<Seq<char>> {
    indices.map_values(
        |at: int| dependency_text(dependency_key(dependencies[at]), dependencies[at]),
    )
}

/// Whether one of the targets is a library.
pub open spec fn has_library(targets: Seq<Target>) -> bool {
    exists|i: int| 0 <= i < targets.len() && (#[trigger] targets[i]).is_library()
}

/// The line for the package itself, which is there if it has a library.
pub open spec fn own_entry(package: Package) -> Option<(Seq<char>, Seq<char>)> {
    if has_library(package.targets@) {
        Some((package.name@, debug_path(package_directory(package))))
    } else {
        None
    }
}

/// The sections of the platforms of a package.
pub open spec fn platform_sections(dependencies: Seq<Dependency>) -> Seq<
    (Seq<char>, Seq<Seq<char>>),
> {
    platforms(dependencies).map_values(
        |platform: Seq<char>|
            (
                debug_text(platform),
                lines_of(
                    dependencies,
                    kept_for(dependencies, Some(platform), dependencies.len() as int),
                ),
            ),
    )
}

/// The manifest of the runner of a package.
pub open spec fn runner_manifest_text(
    support: Seq<char>,
    macros: Seq<char>,
    package: Package,
    forward_cfgs: Seq<Seq<char>>,
) -> Seq<char> {
    runner_text(
        check_cfg_line(cfg_names(forward_cfgs)),
        debug_path(support),
        debug_path(macros),
        own_entry(package),
        lines_of(
            package.dependencies@,
            kept_for(package.dependencies@, None, package.dependencies@.len() as int),
        ),
        platform_sections(package.dependencies@),
    )
}

/// The manifest of the workspace of the generated crates.
pub open spec fn workspace_text() -> Seq<char> {
    "[workspace]\nresolver = \"2\"\nmembers = [\"runner\", \"host\"]\n"@
}

/// The root source file of the host application.
pub open spec fn host_main_text() -> Seq<char> {
    "fn main() {\n    dinghy_apple_host_runtime::run_application(dinghy_generated_apple_runner::run)\n}\n"@
}

/// Writes the manifest of the workspace of the generated crates.
pub fn workspace_manifest() -> (text: String)
    ensures
        text@ == workspace_text(),
{
    "[workspace]\nresolver = \"2\"\nmembers = [\"runner\", \"host\"]\n".to_string()
}

/// The text of a `QuotedDependency`.
pub fn dependency_line(key: &str, quoted: &QuotedDependency) -> (line: String)
    ensures
        line@ == field_line(
            key@,
            dependency_fields(
                quoted.source@,
                optional_text(quoted.package),
                quoted.uses_default_features,
                texts(quoted.features@),
            ),
        ),
{
    let mut fields: Vec<String> = Vec::new();
    push_text(&mut fields, quoted.source.clone());
    assert(texts(fields@) =~= seq![quoted.source@]);
    if let Some(name) = &quoted.package {
        push_text(&mut fields, "package = ".to_string().concat(name.as_str()));
    }
    if !quoted.uses_default_features {
        push_text(&mut fields, "default-features = false".to_string());
    }
    if quoted.features.len() != 0 {
        push_text(
            &mut fields,
            "features = [".to_string().concat(join(&quoted.features, ", ").as_str()).concat("]"),
        );
    }
    key.to_string().concat(" = { ").concat(join(&fields, ", ").as_str()).concat(" }")
}

/// The line of a dependency in a manifest.
pub fn render_dependency(key: &str, dependency: &Dependency) -> (line: String)
    ensures
        line@ == dependency_text(key@, *dependency),
{
    let source = match &dependency.path {
        Some(path) => "path = ".to_string().concat(quote_path(path.as_str()).as_str()),
        None => "version = ".to_string().concat(quote_text(dependency.req.as_str()).as_str()),
    };
    let package = match &dependency.rename {
        Some(rename) => if *rename != dependency.name {
            Some(quote_text(dependency.name.as_str()))
        } else {
            None
        },
        None => None,
    };
    let names = &dependency.features;
    let ghost wanted = texts(names@).map_values(|feature: Seq<char>| debug_text(feature));
    let mut features: Vec<String> = Vec::new();
    let mut i: usize = 0;
    assert(texts(features@) =~= wanted.take(0));
    while i < names.len()
        invariant
            i <= names@.len(),
            wanted == texts(names@).map_values(|feature: Seq<char>| debug_text(feature)),
            texts(features@) == wanted.take(i as int),
        decreases names@.len() - i,
    {
        push_text(&mut features, quote_text(names[i].as_str()));
        i += 1;
        assert(wanted[i - 1] == debug_text(names@[i - 1]@));
        assert(wanted.take(i as int) =~= wanted.take(i - 1).push(wanted[i - 1]));
    }
    assert(wanted.take(i as int) =~= wanted);
    dependency_line(
        key,
        &QuotedDependency {
            source,
            package,
            uses_default_features: dependency.uses_default_features,
            features,
        },
    )
}

/// A list of indices as numbers.
pub open spec fn indices(list: Seq<usize>) -> Seq<int> {
    list.map_values(|at: usize| at as int)
}

/// The platforms of a list of groups.
pub open spec fn group_platforms(groups: Seq<PlatformGroup>) -> Seq<Seq<char>> {
    groups.map_values(|group: PlatformGroup| group.platform@)
}

fn key_of(dependency: &Dependency) -> (key: String)
    ensures
        key@ == dependency_key(*dependency),
{
    match &dependency.rename {
        Some(rename) => rename.clone(),
        None => dependency.name.clone(),
    }
}

fn same_platform(a: &Option<String>, b: &Option<String>) -> (same: bool)
    ensures
        same == (optional_text(*a) == optional_text(*b)),
{
    match (a, b) {
        (Some(left), Some(right)) => *left == *right,
        (None, None) => true,
        _ => false,
    }
}

fn kept(dependencies: &Vec<Dependency>, at: usize) -> (result: bool)
    requires
        at < dependencies@.len(),
    ensures
        result == is_kept(dependencies@, at as int),
{
    if dependencies[at].kind == DependencyKind::Build {
        return false;
    }
    let key = key_of(&dependencies[at]);
    let mut j: usize = 0;
    while j < at
        invariant
            j <= at < dependencies@.len(),
            key@ == dependency_key(dependencies@[at as int]),
            forall|k: int|
                0 <= k < j && (#[trigger] dependencies@[k]).kind != DependencyKind::Build ==> slot(
                    dependencies@[k],
                ) != slot(dependencies@[at as int]),
        decreases at - j,
    {
        let other = &dependencies[j];
        if other.kind != DependencyKind::Build && same_platform(
            &other.target,
            &dependencies[at].target,
        ) && same_text(key_of(other).as_str(), key.as_str()) {
            assert(slot(dependencies@[j as int]) == slot(dependencies@[at as int]));
            return false;
        }
        j += 1;
    }
    true
}

fn kept_indices(dependencies: &Vec<Dependency>, platform: &Option<String>) -> (list: Vec<usize>)
    ensures
        indices(list@) == kept_for(
            dependencies@,
            optional_text(*platform),
            dependencies@.len() as int,
        ),
        forall|i: int| 0 <= i < list@.len() ==> (#[trigger] list@[i]) < dependencies@.len(),
{
    let mut list: Vec<usize> = Vec::new();
    let mut i: usize = 0;
    assert(indices(list@) =~= Seq::empty());
    while i < dependencies.len()
        invariant
            i <= dependencies@.len(),
            indices(list@) == kept_for(dependencies@, optional_text(*platform), i as int),
            forall|k: int| 0 <= k < list@.len() ==> (#[trigger] list@[k]) < dependencies@.len(),
        decreases dependencies@.len() - i,
    {
        if kept(dependencies, i) && same_platform(&dependencies[i].target, platform) {
            let ghost before = indices(list@);
            list.push(i);
            assert(indices(list@) =~= before.push(i as int));
        }
        i += 1;
    }
    list
}

/// Chooses the dependencies that the runner takes over, and groups them by platform.
pub fn group_dependencies(dependencies: &Vec<Dependency>) -> (groups: DependencyGroups)
    ensures
        indices(groups.everywhere@) == kept_for(
            dependencies@,
            None,
            dependencies@.len() as int,
        ),
        group_platforms(groups.platforms@) == platforms(dependencies@),
        forall|i: int|
            0 <= i < groups.platforms@.len() ==> indices(
                (#[trigger] groups.platforms@[i]).dependencies@,
            ) == kept_for(
                dependencies@,
                Some(groups.platforms@[i].platform@),
                dependencies@.len() as int,
            ),
        forall|i: int|
            0 <= i < groups.everywhere@.len() ==> (#[trigger] groups.everywhere@[i])
                < dependencies@.len(),
        forall|i: int, j: int|
            0 <= i < groups.platforms@.len() && 0 <= j < groups.platforms@[i].dependencies@.len()
                ==> (#[trigger] groups.platforms@[i].dependencies@[j]) < dependencies@.len(),
{
    let mut names: Vec<String> = Vec::new();
    let mut i: usize = 0;
    assert(texts(names@) =~= collected(mentioned_platforms(dependencies@, 0)));
    while i < dependencies.len()
        invariant
            i <= dependencies@.len(),
            texts(names@) == collected(mentioned_platforms(dependencies@, i as int)),
        decreases dependencies@.len() - i,
    {
        let ghost before = mentioned_platforms(dependencies@, i as int);
        if let Some(platform) = &dependencies[i].target {
            if dependencies[i].kind != DependencyKind::Build {
                insert_text(&mut names, platform.clone());
                assert(before.push(platform@).drop_last() =~= before);
            }
        }
        i += 1;
    }
    let everywhere = kept_indices(dependencies, &None);
    let mut list: Vec<PlatformGroup> = Vec::new();
    let mut k: usize = 0;
    assert(group_platforms(list@) =~= texts(names@).take(0));
    while k < names.len()
        invariant
            k <= names@.len(),
            group_platforms(list@) == texts(names@).take(k as int),
            forall|i: int|
                0 <= i < list@.len() ==> indices((#[trigger] list@[i]).dependencies@) == kept_for(
                    dependencies@,
                    Some(list@[i].platform@),
                    dependencies@.len() as int,
                ),
            forall|i: int, j: int|
                0 <= i < list@.len() && 0 <= j < list@[i].dependencies@.len() ==> (
                #[trigger] list@[i].dependencies@[j]) < dependencies@.len(),
        decreases names@.len() - k,
    {
        let platform = Some(names[k].clone());
        let chosen = kept_indices(dependencies, &platform);
        let ghost before = list@;
        list.push(PlatformGroup { platform: names[k].clone(), dependencies: chosen });
        k += 1;
        assert(group_platforms(list@) =~= group_platforms(before).push(names@[k - 1]@));
        assert(texts(names@).take(k as int) =~= texts(names@).take(k - 1).push(names@[k - 1]@));
    }
    assert(texts(names@).take(k as int) =~= texts(names@));
    DependencyGroups { everywhere, platforms: list }
}

/// Puts the lines one below the other.
fn push_lines(text: &mut String, lines: &Vec<String>)
    ensures
        final(text)@ == old(text)@ + line_block(texts(lines@)),
{
    let ghost blocks = texts(lines@).map_values(|line: Seq<char>| line + "\n"@);
    let mut i: usize = 0;
    assert(text@ =~= old(text)@ + concatenated(blocks.take(0)));
    while i < lines.len()
        invariant
            i <= lines@.len(),
            blocks == texts(lines@).map_values(|line: Seq<char>| line + "\n"@),
            text@ == old(text)@ + concatenated(blocks.take(i as int)),
        decreases lines@.len() - i,
    {
        text.append(lines[i].as_str());
        text.append("\n");
        i += 1;
        assert(blocks.take(i as int).drop_last() =~= blocks.take(i - 1));
        assert(blocks[i - 1] == lines@[i - 1]@ + "\n"@);
        assert(text@ =~= old(text)@ + concatenated(blocks.take(i as int)));
    }
    assert(blocks.take(i as int) =~= blocks);
}

/// What a list of sections stands for.
pub open spec fn section_texts(sections: Seq<PlatformLines>) -> Seq<(Seq<char>, Seq<Seq<char>>)> {
    sections.map_values(|section: PlatformLines| (section.platform@, texts(section.lines@)))
}

/// Puts the manifest of the runner together. `support`, `macros` and the directory of `own`
/// are in quotes.
pub fn assemble_runner_manifest(
    cfg_line: &str,
    support: &str,
    macros: &str,
    own: Option<(String, String)>,
    everywhere: &Vec<String>,
    sections: &Vec<PlatformLines>,
) -> (text: String)
    ensures
        text@ == runner_text(
            cfg_line@,
            support@,
            macros@,
            match own {
                Some((name, directory)) => Some((name@, directory@)),
                None => None,
            },
            texts(everywhere@),
            section_texts(sections@),
        ),
{
    let mut text =
        "[package]\nname = \"dinghy-generated-apple-runner\"\nversion = \"0.1.0\"\nedition = \"2021\"\n\n[lib]\npath = \"src/lib.rs\"\n\n[lints.rust]\n".to_string().concat(
    cfg_line).concat("\n\n[dependencies]\ndinghy-apple-runner-support = { path = ").concat(
        support,
    ).concat(" }\ndinghy-apple-runner-macros = { path = ").concat(macros).concat(
        " }\ninventory = \"0.3\"\n",
    );
    let ghost head = text@;
    if let Some((name, directory)) = &own {
        text.append(name.as_str());
        text.append(" = { path = ");
        text.append(directory.as_str());
        text.append(" }\n");
    }
    let ghost own_text = own_line(
        match own {
            Some((name, directory)) => Some((name@, directory@)),
            None => None,
        },
    );
    assert(text@ =~= head + own_text);
    push_lines(&mut text, everywhere);
    let ghost front = text@;
    let ghost all = section_texts(sections@);
    let mut i: usize = 0;
    assert(text@ =~= front + platform_blocks(all.take(0)));
    while i < sections.len()
        invariant
            i <= sections@.len(),
            all == section_texts(sections@),
            text@ == front + platform_blocks(all.take(i as int)),
        decreases sections@.len() - i,
    {
        let ghost before = platform_blocks(all.take(i as int));
        text.append("\n[target.");
        text.append(sections[i].platform.as_str());
        text.append(".dependencies]\n");
        push_lines(&mut text, &sections[i].lines);
        i += 1;
        assert(all.take(i as int).drop_last() =~= all.take(i - 1));
        assert(all.take(i as int).last() == all[i - 1]);
        assert(text@ =~= front + platform_blocks(all.take(i as int)));
    }
    assert(all.take(i as int) =~= all);
    text
}

fn lines_for(dependencies: &Vec<Dependency>, list: &Vec<usize>) -> (lines: Vec<String>)
    requires
        forall|i: int| 0 <= i < list@.len() ==> (#[trigger] list@[i]) < dependencies@.len(),
    ensures
        texts(lines@) == lines_of(dependencies@, indices(list@)),
{
    let ghost wanted = lines_of(dependencies@, indices(list@));
    let mut lines: Vec<String> = Vec::new();
    let mut i: usize = 0;
    assert(texts(lines@) =~= wanted.take(0));
    while i < list.len()
        invariant
            i <= list@.len(),
            forall|i: int| 0 <= i < list@.len() ==> (#[trigger] list@[i]) < dependencies@.len(),
            wanted == lines_of(dependencies@, indices(list@)),
            texts(lines@) == wanted.take(i as int),
        decreases list@.len() - i,
    {
        let dependency = &dependencies[list[i]];
        let key = key_of(dependency);
        push_text(&mut lines, render_dependency(key.as_str(), dependency));
        i += 1;
        assert(indices(list@)[i - 1] == list@[i - 1] as int);
        assert(wanted.take(i as int) =~= wanted.take(i - 1).push(wanted[i - 1]));
    }
    assert(wanted.take(i as int) =~= wanted);
    lines
}

fn any_library(targets: &Vec<Target>) -> (found: bool)
    ensures
        found == has_library(targets@),
{
    let mut i: usize = 0;
    while i < targets.len()
        invariant
            i <= targets@.len(),
            forall|k: int| 0 <= k < i ==> !(#[trigger] targets@[k]).is_library(),
        decreases targets@.len() - i,
    {
        if is_library_target(&targets[i]) {
            return true;
        }
        i += 1;
    }
    false
}

/// The manifest of the runner of a package. `support` and `macros` are the directories of
/// the crates that the runner is built with.
pub fn runner_manifest(
    support: &str,
    macros: &str,
    package: &Package,
    config: &DinghyWorkspaceConfig,
) -> (text: String)
    requires
        parent_parts(components(package.manifest_path@)) is Some,
    ensures
        text@ == runner_manifest_text(support@, macros@, *package, config@.forward_cfgs),
{
    let cfg_line = render_check_cfg_line(config);
    let own: Option<(String, String)> = if any_library(&package.targets) {
        Some((package.name.clone(), quote_path(package_root_of(package).as_str())))
    } else {
        None
    };
    let dependencies = &package.dependencies;
    let groups = group_dependencies(dependencies);
    let everywhere = lines_for(dependencies, &groups.everywhere);
    let ghost wanted = platform_sections(dependencies@);
    let mut sections: Vec<PlatformLines> = Vec::new();
    let mut i: usize = 0;
    assert(section_texts(sections@) =~= wanted.take(0));
    while i < groups.platforms.len()
        invariant
            i <= groups.platforms@.len(),
            dependencies == package.dependencies,
            wanted == platform_sections(dependencies@),
            group_platforms(groups.platforms@) == platforms(dependencies@),
            forall|i: int|
                0 <= i < groups.platforms@.len() ==> indices(
                    (#[trigger] groups.platforms@[i]).dependencies@,
                ) == kept_for(
                    dependencies@,
                    Some(groups.platforms@[i].platform@),
                    dependencies@.len() as int,
                ),
            forall|i: int, j: int|
                0 <= i < groups.platforms@.len() && 0 <= j
                    < groups.platforms@[i].dependencies@.len() ==> (
                #[trigger] groups.platforms@[i].dependencies@[j]) < dependencies@.len(),
            section_texts(sections@) == wanted.take(i as int),
        decreases groups.platforms@.len() - i,
    {
        let group = &groups.platforms[i];
        let ghost before = section_texts(sections@);
        let platform = quote_text(group.platform.as_str());
        let lines = lines_for(dependencies, &group.dependencies);
        sections.push(PlatformLines { platform, lines });
        i += 1;
        assert(group_platforms(groups.platforms@)[i - 1] == group.platform@);
        assert(wanted[i - 1] == (platform@, texts(lines@)));
        assert(wanted.take(i as int) =~= wanted.take(i - 1).push(wanted[i - 1]));
        assert(section_texts(sections@) =~= before.push((platform@, texts(lines@))));
    }
    assert(group_platforms(groups.platforms@).len() == groups.platforms@.len());
    assert(wanted.take(i as int) =~= wanted);
    assemble_runner_manifest(
        cfg_line.as_str(),
        quote_path(support).as_str(),
        quote_path(macros).as_str(),
        own,
        &everywhere,
        &sections,
    )
}

/// The manifest of the host application, put together from its parts.
pub open spec fn host_text(runtime: Seq<char>, cfg_line: Seq<char>) -> Seq<char> {
    "[package]\nname = \"dinghy-generated-apple-host\"\nversion = \"0.1.0\"\nedition = \"2021\"\n\n[[bin]]\nname = \"dinghy-generated-apple-host\"\npath = \"src/main.rs\"\n\n[dependencies]\ndinghy-apple-host-runtime = { path = "@
        + runtime
        + " }\ndinghy-generated-apple-runner = { path = \"../runner\" }\n\n[lints.rust]\n"@ + cfg_line
        + "\n"@
}

/// Puts the manifest of the host application together; `runtime` is in quotes.
pub fn assemble_host_manifest(runtime: &str, cfg_line: &str) -> (text: String)
    ensures
        text@ == host_text(runtime@, cfg_line@),
{
    "[package]\nname = \"dinghy-generated-apple-host\"\nversion = \"0.1.0\"\nedition = \"2021\"\n\n[[bin]]\nname = \"dinghy-generated-apple-host\"\npath = \"src/main.rs\"\n\n[dependencies]\ndinghy-apple-host-runtime = { path = ".to_string().concat(
    runtime).concat(
        " }\ndinghy-generated-apple-runner = { path = \"../runner\" }\n\n[lints.rust]\n",
    ).concat(cfg_line).concat("\n")
}

/// The manifest of the host application. `runtime` is the directory of the crate that runs
/// it.
pub fn host_manifest(runtime: &str, config: &DinghyWorkspaceConfig) -> (text: String)
    ensures
        text@ == host_text(debug_path(runtime@), check_cfg_line(cfg_names(config@.forward_cfgs))),
{
    assemble_host_manifest(quote_path(runtime).as_str(), render_check_cfg_line(config).as_str())
}

/// Writes the root source file of the host application.
pub fn host_main() -> (text: String)
    ensures
        text@ == host_main_text(),
{
    "fn main() {\n    dinghy_apple_host_runtime::run_application(dinghy_generated_apple_runner::run)\n}\n".to_string()
}

/// Of two kept dependencies no two have the same platform and name.
pub proof fn kept_slots_differ(dependencies: Seq<Dependency>, i: int, j: int)
    requires
        0 <= i < dependencies.len(),
        0 <= j < dependencies.len(),
        is_kept(dependencies, i),
        is_kept(dependencies, j),
        slot(dependencies[i]) == slot(dependencies[j]),
    ensures
        i == j,
{
}

/// Every dependency that is not for build scripts is kept, or an earlier one of the same
/// platform and name is.
pub proof fn every_slot_is_kept(dependencies: Seq<Dependency>, at: int) -> (first: int)
    requires
        0 <= at < dependencies.len(),
        dependencies[at].kind != DependencyKind::Build,
    ensures
        0 <= first <= at,
        is_kept(dependencies, first),
        slot(dependencies[first]) == slot(dependencies[at]),
    decreases at,
{
    if is_kept(dependencies, at) {
        at
    } else {
        let j = choose|j: int|
            0 <= j < at && (#[trigger] dependencies[j]).kind != DependencyKind::Build && slot(
                dependencies[j],
            ) == slot(dependencies[at]);
        every_slot_is_kept(dependencies, j)
    }
}

/// A dependency stands in the manifest exactly if it is kept, below its platform or among
/// those for all platforms.
pub proof fn kept_dependencies_are_grouped(
    dependencies: Seq<Dependency>,
    platform: Option<Seq<char>>,
    at: int,
)
    requires
        0 <= at < dependencies.len(),
    ensures
        kept_for(dependencies, platform, dependencies.len() as int).contains(at) <==> is_kept(
            dependencies,
            at,
        ) && optional_text(dependencies[at].target) == platform,
        is_kept(dependencies, at) ==> match optional_text(dependencies[at].target) {
            Some(name) => platforms(dependencies).contains(name),
            None => true,
        },
{
    lemma_kept_for(dependencies, platform, at, dependencies.len() as int);
    lemma_mentioned(dependencies, at, dependencies.len() as int);
    collected_is_the_ordered_set(mentioned_platforms(dependencies, dependencies.len() as int));
}

proof fn lemma_kept_for(
    dependencies: Seq<Dependency>,
    platform: Option<Seq<char>>,
    at: int,
    count: int,
)
    requires
        0 <= at,
        0 <= count <= dependencies.len(),
    ensures
        kept_for(dependencies, platform, count).contains(at) <==> at < count && is_kept(
            dependencies,
            at,
        ) && optional_text(dependencies[at].target) == platform,
    decreases count,
{
    if count > 0 {
        lemma_kept_for(dependencies, platform, at, count - 1);
        let before = kept_for(dependencies, platform, count - 1);
        let list = kept_for(dependencies, platform, count);
        if before.contains(at) {
            assert(list[before.index_of(at)] == at);
        }
        if list.len() > before.len() {
            assert(list[before.len() as int] == count - 1);
        }
        if list.contains(at) && at != count - 1 {
            assert(before[list.index_of(at)] == at);
        }
    }
}

proof fn lemma_mentioned(dependencies: Seq<Dependency>, at: int, count: int)
    requires
        0 <= at < count <= dependencies.len(),
    ensures
        dependencies[at].kind != DependencyKind::Build ==> match optional_text(
            dependencies[at].target,
        ) {
            Some(name) => mentioned_platforms(dependencies, count).contains(name),
            None => true,
        },
    decreases count,
{
    let list = mentioned_platforms(dependencies, count);
    let before = mentioned_platforms(dependencies, count - 1);
    if at == count - 1 {
        if let Some(name) = dependencies[at].target {
            if dependencies[at].kind != DependencyKind::Build {
                assert(list[before.len() as int] == name@);
            }
        }
    } else {
        lemma_mentioned(dependencies, at, count - 1);
        if let Some(name) = dependencies[at].target {
            if dependencies[at].kind != DependencyKind::Build {
                assert(list[before.index_of(name@)] == name@);
            }
        }
    }
}

} // verus!
