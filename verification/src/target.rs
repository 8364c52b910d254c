//! Which target of a package an executable was built from, and how it is to be run.

use vstd::prelude::*;

use crate::cargo::{Package, Target};
use crate::path::{
    components, file_name, last_name, parent, parent_parts, parent_path, parent_text, path_behind,
    path_below, rest_below_the_base_is_the_path, same_parts, take_apart, text_below,
};
use crate::quote::{debug_path, debug_text, quote_path, quote_text};
use crate::text::{before_last, chars_of, cut_before_last, lists, same_text, texts};

verus! {

/// How the generated runner runs a target.
#[derive(Clone, Copy, Debug, PartialEq, Eq, Structural)]
pub enum RunnerKind {
    Test,
    Bench,
    Binary,
    Example,
}

/// The target that an executable was built from.
pub struct ResolvedTarget<'a> {
    pub kind: RunnerKind,
    pub package: &'a Package,
    /// The root source file, below the package's directory.
    pub source_relative_path: String,
}

/// Why no target was found.
pub enum TargetError {
    PackageNotFound { package_root: String },
    InvalidExecutableName { executable: String },
    KindNotInferred { target_name: String },
    TargetNotFound { target_name: String, kind: RunnerKind, package: String },
    SourceOutsidePackage { src_path: String, package_root: String },
}

/// What a `TargetError` stands for.
pub enum TargetFault {
    PackageNotFound { package_root: Seq<char> },
    InvalidExecutableName { executable: Seq<char> },
    KindNotInferred { target_name: Seq<char> },
    TargetNotFound { target_name: Seq<char>, kind: RunnerKind, package: Seq<char> },
    SourceOutsidePackage { src_path: Seq<char>, package_root: Seq<char> },
}

impl View for TargetError {
    type V = TargetFault;

    open spec fn view(&self) -> TargetFault {
        match self {
            TargetError::PackageNotFound { package_root } => TargetFault::PackageNotFound {
                package_root: package_root@,
            },
            TargetError::InvalidExecutableName { executable } => TargetFault::InvalidExecutableName {
                executable: executable@,
            },
            TargetError::KindNotInferred { target_name } => TargetFault::KindNotInferred {
                target_name: target_name@,
            },
            TargetError::TargetNotFound { target_name, kind, package } => TargetFault::TargetNotFound {
                target_name: target_name@,
                kind: *kind,
                package: package@,
            },
            TargetError::SourceOutsidePackage { src_path, package_root } => {
                TargetFault::SourceOutsidePackage {
                    src_path: src_path@,
                    package_root: package_root@,
                }
            },
        }
    }
}

/// A name with underscores in the place of its dashes.
pub open spec fn underscored(name: Seq<char>) -> Seq<char> {
    name.map_values(|ch: char| if ch == '-' { '_' } else { ch })
}

/// Whether two names are the same but for dashes and underscores.
pub open spec fn names_match(candidate: Seq<char>, wanted: Seq<char>) -> bool {
    underscored(candidate) == underscored(wanted)
}

/// Whether a target can be run as `kind`.
pub open spec fn runs_as(target: Target, kind: RunnerKind) -> bool {
    match kind {
        RunnerKind::Bench => target.has_kind("bench"@),
        RunnerKind::Test => target.has_kind("test"@) || target.is_library(),
        RunnerKind::Binary => target.has_kind("bin"@),
        RunnerKind::Example => target.has_kind("example"@),
    }
}

/// Whether a target of this name and kind is among `targets`.
pub open spec fn some_has_kind(targets: Seq<Target>, name: Seq<char>, kind: Seq<char>) -> bool {
    exists|i: int|
        0 <= i < targets.len() && names_match((#[trigger] targets[i]).name@, name)
            && targets[i].has_kind(kind)
}

/// Whether a library of this name is among `targets`.
pub open spec fn some_is_library(targets: Seq<Target>, name: Seq<char>) -> bool {
    exists|i: int|
        0 <= i < targets.len() && names_match((#[trigger] targets[i]).name@, name)
            && targets[i].is_library()
}

/// The name of the target that an executable was built from: the file name, without the
/// hash that Cargo puts behind it in `deps`.
pub open spec fn logical_name(executable: Seq<char>) -> Option<Seq<char>> {
    let parts = components(executable);
    match last_name(parts) {
        Some(name) => if last_name(parts.drop_last()) == Some("deps"@) {
            match before_last(name, '-') {
                Some(before) => Some(before),
                None => Some(name),
            }
        } else {
            Some(name)
        },
        None => None,
    }
}

/// How the target is to be run. The `--bench` argument decides first, then the directory of
/// the examples, then what the package says of the targets with that name.
pub open spec fn inferred_kind(
    executable: Seq<char>,
    runner_args: Seq<Seq<char>>,
    targets: Seq<Target>,
    name: Seq<char>,
) -> Option<RunnerKind> {
    if runner_args.contains("--bench"@) {
        Some(RunnerKind::Bench)
    } else if components(executable).contains("examples"@) {
        Some(RunnerKind::Example)
    } else if some_has_kind(targets, name, "test"@) {
        Some(RunnerKind::Test)
    } else if some_has_kind(targets, name, "example"@) {
        Some(RunnerKind::Example)
    } else if some_has_kind(targets, name, "bin"@) {
        Some(RunnerKind::Binary)
    } else if some_is_library(targets, name) {
        Some(RunnerKind::Test)
    } else {
        None
    }
}

/// Whether the package's manifest stands in the directory.
pub open spec fn is_package_of(package: Package, root: Seq<char>) -> bool {
    parent_parts(components(package.manifest_path@)) == Some(components(root))
}

/// The directory that holds the package's manifest.
pub open spec fn package_directory(package: Package) -> Seq<char> {
    match parent_text(package.manifest_path@) {
        Some(directory) => directory,
        None => Seq::empty(),
    }
}

/// The index of the first package whose manifest stands in the directory, or the number of
/// packages where there is none.
pub open spec fn package_index(packages: Seq<Package>, root: Seq<char>) -> int
    decreases packages.len(),
{
    if packages.len() == 0 || is_package_of(packages[0], root) {
        0
    } else {
        1 + package_index(packages.skip(1), root)
    }
}

/// The index of the first target with that name that can be run as `kind`, or the number of
/// targets where there is none.
pub open spec fn target_index(targets: Seq<Target>, name: Seq<char>, kind: RunnerKind) -> int
    decreases targets.len(),
{
    if targets.len() == 0 || (names_match(targets[0].name@, name) && runs_as(targets[0], kind)) {
        0
    } else {
        1 + target_index(targets.skip(1), name, kind)
    }
}

/// The kind, the package and the root source file of the target that an executable was built
/// from.
pub open spec fn resolution(
    packages: Seq<Package>,
    root: Seq<char>,
    executable: Seq<char>,
    runner_args: Seq<Seq<char>>,
) -> Result<(RunnerKind, Package, Seq<char>), TargetFault> {
    let at = package_index(packages, root);
    if at == packages.len() {
        Err(TargetFault::PackageNotFound { package_root: root })
    } else {
        resolution_in(packages[at], executable, runner_args)
    }
}

/// The same, once the package is known.
pub open spec fn resolution_in(
    package: Package,
    executable: Seq<char>,
    runner_args: Seq<Seq<char>>,
) -> Result<(RunnerKind, Package, Seq<char>), TargetFault> {
    match logical_name(executable) {
        None => Err(TargetFault::InvalidExecutableName { executable }),
        Some(name) => match inferred_kind(executable, runner_args, package.targets@, name) {
            None => Err(TargetFault::KindNotInferred { target_name: name }),
            Some(kind) => {
                let at = target_index(package.targets@, name, kind);
                if at == package.targets@.len() {
                    Err(
                        TargetFault::TargetNotFound {
                            target_name: name,
                            kind,
                            package: package.name@,
                        },
                    )
                } else {
                    source_in(package, package.targets@[at], kind)
                }
            },
        },
    }
}

/// The same, once the target is known.
pub open spec fn source_in(package: Package, target: Target, kind: RunnerKind) -> Result<
    (RunnerKind, Package, Seq<char>),
    TargetFault,
> {
    let directory = package_directory(package);
    match text_below(target.src_path@, components(directory)) {
        Some(rest) => Ok((kind, package, rest)),
        None => Err(
            TargetFault::SourceOutsidePackage {
                src_path: target.src_path@,
                package_root: directory,
            },
        ),
    }
}

/// What a kind is called.
pub open spec fn kind_name(kind: RunnerKind) -> Seq<char> {
    match kind {
        RunnerKind::Test => "Test"@,
        RunnerKind::Bench => "Bench"@,
        RunnerKind::Binary => "Binary"@,
        RunnerKind::Example => "Example"@,
    }
}

impl TargetFault {
    /// What the user is told.
    pub open spec fn message(self) -> Seq<char> {
        match self {
            TargetFault::PackageNotFound { package_root } => {
                "Could not resolve the current Cargo package for "@ + debug_path(package_root)
            },
            TargetFault::InvalidExecutableName { executable } => {
                "invalid executable name "@ + debug_path(executable)
            },
            TargetFault::KindNotInferred { target_name } => {
                "Could not infer runner kind for target '"@ + target_name + "'"@
            },
            TargetFault::TargetNotFound { target_name, kind, package } => {
                "Could not resolve target '"@ + target_name + "' of kind "@ + kind_name(kind)
                    + " in package "@ + package
            },
            TargetFault::SourceOutsidePackage { src_path, package_root } => {
                "Target source "@ + debug_text(src_path) + " is not under package root "@
                    + debug_path(package_root)
            },
        }
    }
}

impl TargetError {
    /// What the user is told.
    pub fn message(&self) -> (text: String)
        ensures
            text@ == self@.message(),
    {
        match self {
            TargetError::PackageNotFound { package_root } => {
                "Could not resolve the current Cargo package for ".to_string().concat(
                    quote_path(package_root.as_str()).as_str(),
                )
            },
            TargetError::InvalidExecutableName { executable } => {
                "invalid executable name ".to_string().concat(quote_path(executable.as_str()).as_str())
            },
            TargetError::KindNotInferred { target_name } => {
                "Could not infer runner kind for target '".to_string().concat(
                    target_name.as_str(),
                ).concat("'")
            },
            TargetError::TargetNotFound { target_name, kind, package } => {
                let name = match kind {
                    RunnerKind::Test => "Test",
                    RunnerKind::Bench => "Bench",
                    RunnerKind::Binary => "Binary",
                    RunnerKind::Example => "Example",
                };
                "Could not resolve target '".to_string().concat(target_name.as_str()).concat(
                    "' of kind ",
                ).concat(name).concat(" in package ").concat(package.as_str())
            },
            TargetError::SourceOutsidePackage { src_path, package_root } => {
                "Target source ".to_string().concat(quote_text(src_path.as_str()).as_str()).concat(
                    " is not under package root ",
                ).concat(quote_path(package_root.as_str()).as_str())
            },
        }
    }
}

/// Whether two names are the same but for dashes and underscores.
pub fn target_names_match(candidate: &str, wanted: &str) -> (result: bool)
    ensures
        result == names_match(candidate@, wanted@),
{
    let left = chars_of(candidate);
    let right = chars_of(wanted);
    let ghost a = underscored(candidate@);
    let ghost b = underscored(wanted@);
    if left.len() != right.len() {
        assert(a.len() != b.len());
        return false;
    }
    let mut i: usize = 0;
    while i < left.len()
        invariant
            i <= left@.len(),
            left@.len() == right@.len(),
            left@ == candidate@,
            right@ == wanted@,
            a == underscored(candidate@),
            b == underscored(wanted@),
            forall|k: int| 0 <= k < i ==> a[k] == b[k],
        decreases left@.len() - i,
    {
        let x: char = if left[i] == '-' {
            '_'
        } else {
            left[i]
        };
        let y: char = if right[i] == '-' {
            '_'
        } else {
            right[i]
        };
        assert(a[i as int] == x);
        assert(b[i as int] == y);
        if x != y {
            return false;
        }
        i += 1;
    }
    assert(a =~= b);
    true
}

/// Whether the target is a library of any kind.
pub fn is_library_target(target: &Target) -> (result: bool)
    ensures
        result == target.is_library(),
{
    lists(&target.kind, "lib") || lists(&target.kind, "rlib") || lists(&target.kind, "dylib")
        || lists(&target.kind, "staticlib") || lists(&target.kind, "cdylib")
}

/// Whether the target can be run as `expected_kind`.
pub fn target_matches_kind(target: &Target, expected_kind: RunnerKind) -> (result: bool)
    ensures
        result == runs_as(*target, expected_kind),
{
    match expected_kind {
        RunnerKind::Bench => lists(&target.kind, "bench"),
        RunnerKind::Test => lists(&target.kind, "test") || is_library_target(target),
        RunnerKind::Binary => lists(&target.kind, "bin"),
        RunnerKind::Example => lists(&target.kind, "example"),
    }
}

/// The name of the target that an executable was built from.
pub fn logical_target_name(executable: &str) -> (result: Result<String, TargetError>)
    ensures
        match result {
            Ok(name) => logical_name(executable@) == Some(name@),
            Err(error) => logical_name(executable@) is None && error@
                == (TargetFault::InvalidExecutableName { executable: executable@ }),
        },
{
    let parts = take_apart(executable);
    let ghost all = texts(parts@);
    match file_name(&parts) {
        None => Err(TargetError::InvalidExecutableName { executable: executable.to_string() }),
        Some(name) => {
            let in_deps: bool = match parent(&parts) {
                Some(above) => match file_name(&above) {
                    Some(directory) => same_text(directory.as_str(), "deps"),
                    None => false,
                },
                None => false,
            };
            assert(in_deps == (last_name(all.drop_last()) == Some("deps"@)));
            if in_deps {
                match cut_before_last(name.as_str(), '-') {
                    Some(before) => Ok(before),
                    None => Ok(name),
                }
            } else {
                Ok(name)
            }
        },
    }
}

fn any_has_kind(targets: &Vec<Target>, name: &str, kind: &str) -> (found: bool)
    ensures
        found == some_has_kind(targets@, name@, kind@),
{
    let mut i: usize = 0;
    while i < targets.len()
        invariant
            i <= targets@.len(),
            forall|k: int|
                0 <= k < i ==> !(names_match((#[trigger] targets@[k]).name@, name@)
                    && targets@[k].has_kind(kind@)),
        decreases targets@.len() - i,
    {
        if target_names_match(targets[i].name.as_str(), name) && lists(&targets[i].kind, kind) {
            return true;
        }
        i += 1;
    }
    false
}

fn any_is_library(targets: &Vec<Target>, name: &str) -> (found: bool)
    ensures
        found == some_is_library(targets@, name@),
{
    let mut i: usize = 0;
    while i < targets.len()
        invariant
            i <= targets@.len(),
            forall|k: int|
                0 <= k < i ==> !(names_match((#[trigger] targets@[k]).name@, name@)
                    && targets@[k].is_library()),
        decreases targets@.len() - i,
    {
        if target_names_match(targets[i].name.as_str(), name) && is_library_target(&targets[i]) {
            return true;
        }
        i += 1;
    }
    false
}

/// How the target is to be run.
pub fn infer_runner_kind(
    executable: &str,
    runner_args: &Vec<String>,
    package: &Package,
    target_name: &str,
) -> (result: Result<RunnerKind, TargetError>)
    ensures
        match result {
            Ok(kind) => inferred_kind(
                executable@,
                texts(runner_args@),
                package.targets@,
                target_name@,
            ) == Some(kind),
            Err(error) => inferred_kind(
                executable@,
                texts(runner_args@),
                package.targets@,
                target_name@,
            ) is None && error@ == (TargetFault::KindNotInferred { target_name: target_name@ }),
        },
{
    if lists(runner_args, "--bench") {
        return Ok(RunnerKind::Bench);
    }
    if lists(&take_apart(executable), "examples") {
        return Ok(RunnerKind::Example);
    }
    if any_has_kind(&package.targets, target_name, "test") {
        return Ok(RunnerKind::Test);
    }
    if any_has_kind(&package.targets, target_name, "example") {
        return Ok(RunnerKind::Example);
    }
    if any_has_kind(&package.targets, target_name, "bin") {
        return Ok(RunnerKind::Binary);
    }
    if any_is_library(&package.targets, target_name) {
        return Ok(RunnerKind::Test);
    }
    Err(TargetError::KindNotInferred { target_name: target_name.to_string() })
}

fn find_package(packages: &Vec<Package>, root: &str) -> (at: usize)
    ensures
        at == package_index(packages@, root@),
        at <= packages@.len(),
        at < packages@.len() ==> is_package_of(packages@[at as int], root@),
{
    let wanted = take_apart(root);
    let mut i: usize = 0;
    assert(packages@.skip(0) =~= packages@);
    while i < packages.len()
        invariant
            i <= packages@.len(),
            texts(wanted@) == components(root@),
            package_index(packages@, root@) == i + package_index(packages@.skip(i as int), root@),
        decreases packages@.len() - i,
    {
        let parts = take_apart(packages[i].manifest_path.as_str());
        let found: bool = match parent(&parts) {
            Some(directory) => same_parts(&directory, &wanted),
            None => false,
        };
        assert(found == is_package_of(packages@[i as int], root@));
        assert(packages@.skip(i as int)[0] == packages@[i as int]);
        if found {
            return i;
        }
        assert(packages@.skip(i as int).skip(1) =~= packages@.skip(i + 1));
        i += 1;
    }
    i
}

fn find_target(targets: &Vec<Target>, name: &str, kind: RunnerKind) -> (at: usize)
    ensures
        at == target_index(targets@, name@, kind),
        at <= targets@.len(),
{
    let mut i: usize = 0;
    assert(targets@.skip(0) =~= targets@);
    while i < targets.len()
        invariant
            i <= targets@.len(),
            target_index(targets@, name@, kind) == i + target_index(
                targets@.skip(i as int),
                name@,
                kind,
            ),
        decreases targets@.len() - i,
    {
        let found: bool = target_names_match(targets[i].name.as_str(), name)
            && target_matches_kind(&targets[i], kind);
        assert(targets@.skip(i as int)[0] == targets@[i as int]);
        if found {
            return i;
        }
        assert(targets@.skip(i as int).skip(1) =~= targets@.skip(i + 1));
        i += 1;
    }
    i
}

/// The directory that holds the package's manifest.
pub fn package_root_of(package: &Package) -> (directory: String)
    requires
        parent_parts(components(package.manifest_path@)) is Some,
    ensures
        directory@ == package_directory(*package),
{
    match parent_path(package.manifest_path.as_str()) {
        Some(directory) => directory,
        None => String::new(),
    }
}

/// Finds the target that an executable was built from. `package_root` is the directory of
/// the current package.
pub fn resolve_target<'a>(
    packages: &'a Vec<Package>,
    package_root: &str,
    executable: &str,
    runner_args: &Vec<String>,
) -> (result: Result<ResolvedTarget<'a>, TargetError>)
    ensures
        match result {
            Ok(target) => {
                &&& resolution(packages@, package_root@, executable@, texts(runner_args@)) == Ok::<
                    _,
                    TargetFault,
                >((target.kind, *target.package, target.source_relative_path@))
                &&& is_package_of(*target.package, package_root@)
            },
            Err(error) => resolution(packages@, package_root@, executable@, texts(runner_args@))
                == Err::<(RunnerKind, Package, Seq<char>), _>(error@),
        },
{
    let at: usize = find_package(packages, package_root);
    if at == packages.len() {
        return Err(TargetError::PackageNotFound { package_root: package_root.to_string() });
    }
    let package: &'a Package = &packages[at];
    let target_name = match logical_target_name(executable) {
        Ok(name) => name,
        Err(error) => {
            return Err(error);
        },
    };
    let kind = match infer_runner_kind(executable, runner_args, package, target_name.as_str()) {
        Ok(kind) => kind,
        Err(error) => {
            return Err(error);
        },
    };
    let at: usize = find_target(&package.targets, target_name.as_str(), kind);
    if at == package.targets.len() {
        return Err(
            TargetError::TargetNotFound { target_name, kind, package: package.name.clone() },
        );
    }
    let source = &package.targets[at].src_path;
    let directory = package_root_of(package);
    match path_behind(source.as_str(), &take_apart(directory.as_str())) {
        Some(source_relative_path) => Ok(ResolvedTarget { kind, package, source_relative_path }),
        None => Err(
            TargetError::SourceOutsidePackage {
                src_path: source.clone(),
                package_root: directory,
            },
        ),
    }
}

/// Matching names are an equivalence.
pub proof fn names_match_is_an_equivalence(a: Seq<char>, b: Seq<char>, c: Seq<char>)
    ensures
        names_match(a, a),
        names_match(a, b) == names_match(b, a),
        names_match(a, b) && names_match(b, c) ==> names_match(a, c),
{
}

/// A name matches itself with other dashes and underscores.
pub proof fn underscored_name_matches(name: Seq<char>)
    ensures
        names_match(name, underscored(name)),
{
    assert(underscored(underscored(name)) =~= underscored(name));
}

/// The target that is found has the wanted name, can be run as the wanted kind, and is the
/// first of this sort.
pub proof fn found_target_fits(targets: Seq<Target>, name: Seq<char>, kind: RunnerKind)
    ensures
        0 <= target_index(targets, name, kind) <= targets.len(),
        target_index(targets, name, kind) < targets.len() ==> {
            let target = targets[target_index(targets, name, kind)];
            names_match(target.name@, name) && runs_as(target, kind)
        },
        forall|i: int|
            0 <= i < target_index(targets, name, kind) ==> !(names_match(
                (#[trigger] targets[i]).name@,
                name,
            ) && runs_as(targets[i], kind)),
    decreases targets.len(),
{
    if targets.len() > 0 && !(names_match(targets[0].name@, name) && runs_as(targets[0], kind)) {
        let rest = targets.skip(1);
        found_target_fits(rest, name, kind);
        assert forall|i: int| 0 <= i < target_index(targets, name, kind) implies !(names_match(
            (#[trigger] targets[i]).name@,
            name,
        ) && runs_as(targets[i], kind)) by {
            if i > 0 {
                assert(targets[i] == rest[i - 1]);
            }
        }
    }
}

/// A kind that comes from the package's targets, not from the `--bench` argument or the
/// directory of the examples, is a kind for which a target is found.
pub proof fn inferred_kind_has_a_target(
    executable: Seq<char>,
    runner_args: Seq<Seq<char>>,
    targets: Seq<Target>,
    name: Seq<char>,
)
    requires
        !runner_args.contains("--bench"@),
        !components(executable).contains("examples"@),
    ensures
        match inferred_kind(executable, runner_args, targets, name) {
            Some(kind) => target_index(targets, name, kind) < targets.len(),
            None => true,
        },
{
    if let Some(kind) = inferred_kind(executable, runner_args, targets, name) {
        found_target_fits(targets, name, kind);
    }
}

/// Every test, library, binary or example gets a kind under its own name.
pub proof fn runnable_targets_have_a_kind(
    executable: Seq<char>,
    runner_args: Seq<Seq<char>>,
    targets: Seq<Target>,
    at: int,
)
    requires
        0 <= at < targets.len(),
        runs_as(targets[at], RunnerKind::Test) || runs_as(targets[at], RunnerKind::Binary)
            || runs_as(targets[at], RunnerKind::Example),
    ensures
        inferred_kind(executable, runner_args, targets, targets[at].name@) is Some,
{
    let name = targets[at].name@;
    assert(names_match(targets[at].name@, name));
}

/// The root source file that is found is that of a target of the package, and below the
/// package's directory it is the file itself.
pub proof fn resolved_source_is_in_the_package(
    packages: Seq<Package>,
    root: Seq<char>,
    executable: Seq<char>,
    runner_args: Seq<Seq<char>>,
)
    ensures
        match resolution(packages, root, executable, runner_args) {
            Ok((kind, package, source)) => exists|at: int| #[trigger]
                is_source_of(package, kind, source, at),
            Err(_) => true,
        },
{
    found_package_fits(packages, root);
    if let Ok((kind, package, source)) = resolution(packages, root, executable, runner_args) {
        let name = logical_name(executable)->0;
        found_target_fits(package.targets@, name, kind);
        let at = target_index(package.targets@, name, kind);
        rest_below_the_base_is_the_path(
            package.targets@[at].src_path@,
            package_directory(package),
        );
        assert(is_source_of(package, kind, source, at));
    }
}

/// Whether `source`, below the package's directory, is the root source file of the target at
/// `at`, and that target can be run as `kind`.
pub open spec fn is_source_of(package: Package, kind: RunnerKind, source: Seq<char>, at: int) -> bool {
    &&& 0 <= at < package.targets@.len()
    &&& runs_as(package.targets@[at], kind)
    &&& components(path_below(package_directory(package), source)) == components(
        package.targets@[at].src_path@,
    )
}

/// The package that is found is the first whose manifest stands in the directory.
pub proof fn found_package_fits(packages: Seq<Package>, root: Seq<char>)
    ensures
        0 <= package_index(packages, root) <= packages.len(),
        package_index(packages, root) < packages.len() ==> is_package_of(
            packages[package_index(packages, root)],
            root,
        ),
        forall|i: int|
            0 <= i < package_index(packages, root) ==> !is_package_of(#[trigger] packages[i], root),
    decreases packages.len(),
{
    if packages.len() > 0 && !is_package_of(packages[0], root) {
        let rest = packages.skip(1);
        found_package_fits(rest, root);
        assert forall|i: int| 0 <= i < package_index(packages, root) implies !is_package_of(
            #[trigger] packages[i],
            root,
        ) by {
            if i > 0 {
                assert(packages[i] == rest[i - 1]);
            }
        }
    }
}

} // verus!
