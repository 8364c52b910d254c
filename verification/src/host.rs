//! The application that is generated around a target, and how it is built.

use vstd::prelude::*;

use crate::args::{arg_texts, Arg};
use crate::cargo::Package;
use crate::cfgs::{cfg_names, check_cfg_line};
use crate::config::{workspace_settings, ConfigError, DinghyWorkspaceConfig, Json, Settings};
use crate::manifest::{
    host_main, host_main_text, host_manifest, host_text, runner_manifest, runner_manifest_text,
    workspace_manifest, workspace_text,
};
use crate::path::{components, join, parent_parts, path_below};
use crate::quote::debug_path;
use crate::runner_source::{runner_source, runner_source_text};
use crate::target::{
    is_package_of, resolution, resolve_target, ResolvedTarget, RunnerKind, TargetError, TargetFault,
};
use crate::text::{contains, occurs, push_text, texts};

verus! {

/// What the generated application is made from.
pub struct PreparedHost<'a> {
    pub target: ResolvedTarget<'a>,
    pub config: DinghyWorkspaceConfig,
    /// Whether the application is built with the release profile.
    pub release: bool,
}

/// Why there is no generated application.
pub enum HostError {
    Target(TargetError),
    Config(ConfigError),
    /// Cargo failed to build it.
    Build,
}

/// What a `HostError` stands for.
pub enum HostFault {
    Target(TargetFault),
    Config(ConfigError),
    Build,
}

impl View for HostError {
    type V = HostFault;

    open spec fn view(&self) -> HostFault {
        match self {
            HostError::Target(error) => HostFault::Target(error@),
            HostError::Config(error) => HostFault::Config(*error),
            HostError::Build => HostFault::Build,
        }
    }
}

/// Where the parts of the generated application stand.
pub struct HostLayout {
    pub generated_root: String,
    /// The copy of the package's sources.
    pub source_root: String,
    /// The workspace of the generated crates.
    pub workspace_root: String,
    pub runner_crate_root: String,
    pub host_crate_root: String,
}

/// Whether a target platform is one of Apple's.
pub open spec fn is_apple(rustc_triple: Seq<char>) -> bool {
    occurs(rustc_triple, "-apple-"@)
}

/// What the generated application is made from: the kind of its target, the package and
/// the root source file, the settings of the workspace, and whether it is a release build.
/// For other platforms than Apple's there is none.
pub open spec fn preparation(
    rustc_triple: Seq<char>,
    packages: Seq<Package>,
    package_root: Seq<char>,
    executable: Seq<char>,
    runner_args: Seq<Seq<char>>,
    metadata: Json,
) -> Result<Option<((RunnerKind, Package, Seq<char>), Settings, bool)>, HostFault> {
    if !is_apple(rustc_triple) {
        Ok(None)
    } else {
        match resolution(packages, package_root, executable, runner_args) {
            Err(fault) => Err(HostFault::Target(fault)),
            Ok(target) => match workspace_settings(metadata) {
                Err(error) => Err(HostFault::Config(error)),
                Ok(settings) => Ok(Some((target, settings, occurs(executable, "/release/"@)))),
            },
        }
    }
}

/// Finds out what the generated application is to be made from. Nothing is generated for
/// other platforms than Apple's. `package_root` is the directory of the current package, and
/// `metadata` that of its workspace.
pub fn prepare_generated_apple_host<'a>(
    rustc_triple: &str,
    packages: &'a Vec<Package>,
    package_root: &str,
    executable: &str,
    runner_args: &Vec<String>,
    metadata: &Json,
) -> (result: Result<Option<PreparedHost<'a>>, HostError>)
    ensures
        ({
            let wanted = preparation(
                rustc_triple@,
                packages@,
                package_root@,
                executable@,
                texts(runner_args@),
                *metadata,
            );
            match result {
                Ok(Some(host)) => {
                    &&& wanted == Ok::<_, HostFault>(
                        Some(
                            (
                                (
                                    host.target.kind,
                                    *host.target.package,
                                    host.target.source_relative_path@,
                                ),
                                host.config@,
                                host.release,
                            ),
                        ),
                    )
                    &&& host.config.valid()
                    &&& is_package_of(*host.target.package, package_root@)
                },
                Ok(None) => wanted == Ok::<
                    Option<((RunnerKind, Package, Seq<char>), Settings, bool)>,
                    HostFault,
                >(None),
                Err(error) => wanted == Err::<
                    Option<((RunnerKind, Package, Seq<char>), Settings, bool)>,
                    _,
                >(error@),
            }
        }),
{
    if !contains(rustc_triple, "-apple-") {
        return Ok(None);
    }
    let target = match resolve_target(packages, package_root, executable, runner_args) {
        Ok(target) => target,
        Err(error) => {
            return Err(HostError::Target(error));
        },
    };
    let config = match DinghyWorkspaceConfig::from_workspace_metadata(metadata) {
        Ok(config) => config,
        Err(error) => {
            return Err(HostError::Config(error));
        },
    };
    let release = contains(executable, "/release/");
    Ok(Some(PreparedHost { target, config, release }))
}

impl HostError {
    /// What the user is told.
    pub fn message(&self) -> (text: String)
        ensures
            match self {
                HostError::Target(error) => text@ == error@.message(),
                HostError::Config(_) => text@
                    == "Failed to parse [workspace.metadata.dinghy]. Known fields: `forward-cfgs`, `test-attribute-aliases`."@,
                HostError::Build => text@ == "Failed to build generated Apple host app"@,
            },
    {
        match self {
            HostError::Target(error) => error.message(),
            HostError::Config(error) => error.message(),
            HostError::Build => "Failed to build generated Apple host app".to_string(),
        }
    }
}

impl HostLayout {
    /// Lays the generated application out below the directory of the bundle.
    pub fn new(bundle_root: &str) -> (layout: HostLayout)
        ensures
            layout.generated_root@ == path_below(bundle_root@, "apple-host"@),
            layout.source_root@ == path_below(layout.generated_root@, "source"@),
            layout.workspace_root@ == path_below(layout.generated_root@, "workspace"@),
            layout.runner_crate_root@ == path_below(layout.workspace_root@, "runner"@),
            layout.host_crate_root@ == path_below(layout.workspace_root@, "host"@),
    {
        let generated_root = join(bundle_root, "apple-host");
        let source_root = join(generated_root.as_str(), "source");
        let workspace_root = join(generated_root.as_str(), "workspace");
        let runner_crate_root = join(workspace_root.as_str(), "runner");
        let host_crate_root = join(workspace_root.as_str(), "host");
        HostLayout { generated_root, source_root, workspace_root, runner_crate_root, host_crate_root }
    }

    /// The directories that are made first, in order.
    pub fn directories(&self) -> (list: Vec<String>)
        ensures
            texts(list@) == seq![
                self.generated_root@,
                self.workspace_root@,
                path_below(self.runner_crate_root@, "src"@),
                path_below(self.host_crate_root@, "src"@),
            ],
    {
        let mut list: Vec<String> = Vec::new();
        push_text(&mut list, self.generated_root.clone());
        push_text(&mut list, self.workspace_root.clone());
        push_text(&mut list, join(self.runner_crate_root.as_str(), "src"));
        push_text(&mut list, join(self.host_crate_root.as_str(), "src"));
        assert(texts(list@) =~= seq![
            self.generated_root@,
            self.workspace_root@,
            path_below(self.runner_crate_root@, "src"@),
            path_below(self.host_crate_root@, "src"@),
        ]);
        list
    }
}

/// Where the crates stand that the generated ones are built with.
pub struct HelperCrates {
    pub support: String,
    pub macros: String,
    pub runtime: String,
}

impl HelperCrates {
    /// The crates below the directory of this project's workspace.
    pub fn new(workspace: &str) -> (crates: HelperCrates)
        ensures
            crates.support@ == path_below(workspace@, "dinghy-apple-runner-support"@),
            crates.macros@ == path_below(workspace@, "dinghy-apple-runner-macros"@),
            crates.runtime@ == path_below(workspace@, "dinghy-apple-host-runtime"@),
    {
        HelperCrates {
            support: join(workspace, "dinghy-apple-runner-support"),
            macros: join(workspace, "dinghy-apple-runner-macros"),
            runtime: join(workspace, "dinghy-apple-host-runtime"),
        }
    }
}

/// Where the copy of the target's root source file stands.
pub fn entry_path(layout: &HostLayout, target: &ResolvedTarget) -> (path: String)
    ensures
        path@ == path_below(layout.source_root@, target.source_relative_path@),
{
    join(layout.source_root.as_str(), target.source_relative_path.as_str())
}

/// A file of the generated crates.
pub struct GeneratedFile {
    pub path: String,
    pub contents: String,
}

impl GeneratedFile {
    /// Whether the file has this path and these contents.
    pub open spec fn is(self, path: Seq<char>, contents: Seq<char>) -> bool {
        self.path@ == path && self.contents@ == contents
    }
}

/// The manifest of the workspace of the generated crates.
pub fn workspace_manifest_file(layout: &HostLayout) -> (file: GeneratedFile)
    ensures
        file.is(path_below(layout.workspace_root@, WORKSPACE_MANIFEST@), workspace_text()),
{
    GeneratedFile {
        path: join(layout.workspace_root.as_str(), WORKSPACE_MANIFEST),
        contents: workspace_manifest(),
    }
}

/// The manifest of the runner.
pub fn runner_manifest_file(
    layout: &HostLayout,
    crates: &HelperCrates,
    package: &Package,
    config: &DinghyWorkspaceConfig,
) -> (file: GeneratedFile)
    requires
        parent_parts(components(package.manifest_path@)) is Some,
    ensures
        file.is(
            path_below(layout.runner_crate_root@, "Cargo.toml"@),
            runner_manifest_text(crates.support@, crates.macros@, *package, config@.forward_cfgs),
        ),
{
    GeneratedFile {
        path: join(layout.runner_crate_root.as_str(), "Cargo.toml"),
        contents: runner_manifest(
            crates.support.as_str(),
            crates.macros.as_str(),
            package,
            config,
        ),
    }
}

/// The source of the runner. `entry` is the root source file of the target.
pub fn runner_source_file(layout: &HostLayout, kind: RunnerKind, entry: &str) -> (file:
    GeneratedFile)
    ensures
        file.is(
            path_below(layout.runner_crate_root@, "src/lib.rs"@),
            runner_source_text(kind, debug_path(entry@)),
        ),
{
    GeneratedFile {
        path: join(layout.runner_crate_root.as_str(), "src/lib.rs"),
        contents: runner_source(kind, entry),
    }
}

/// The manifest of the host application.
pub fn host_manifest_file(
    layout: &HostLayout,
    crates: &HelperCrates,
    config: &DinghyWorkspaceConfig,
) -> (file: GeneratedFile)
    ensures
        file.is(
            path_below(layout.host_crate_root@, "Cargo.toml"@),
            host_text(debug_path(crates.runtime@), check_cfg_line(cfg_names(config@.forward_cfgs))),
        ),
{
    GeneratedFile {
        path: join(layout.host_crate_root.as_str(), "Cargo.toml"),
        contents: host_manifest(crates.runtime.as_str(), config),
    }
}

/// The source of the host application.
pub fn host_main_file(layout: &HostLayout) -> (file: GeneratedFile)
    ensures
        file.is(path_below(layout.host_crate_root@, "src/main.rs"@), host_main_text()),
{
    GeneratedFile {
        path: join(layout.host_crate_root.as_str(), "src/main.rs"),
        contents: host_main(),
    }
}

/// The executable of the bundle.
pub fn bundle_executable(bundle_dir: &str) -> (path: String)
    ensures
        path@ == path_below(bundle_dir@, "Dinghy"@),
{
    join(bundle_dir, "Dinghy")
}

/// What is left out when the sources of a package are copied: what Cargo built, and the
/// repository, if there is one.
pub fn copy_excludes(package_root: &str, has_git: bool) -> (list: Vec<String>)
    ensures
        texts(list@) == (if has_git {
            seq![path_below(package_root@, "target"@), path_below(package_root@, ".git"@)]
        } else {
            seq![path_below(package_root@, "target"@)]
        }),
{
    let mut list: Vec<String> = Vec::new();
    push_text(&mut list, join(package_root, "target"));
    if has_git {
        push_text(&mut list, join(package_root, ".git"));
    }
    assert(has_git ==> texts(list@) =~= seq![
        path_below(package_root@, "target"@),
        path_below(package_root@, ".git"@),
    ]);
    assert(!has_git ==> texts(list@) =~= seq![path_below(package_root@, "target"@)]);
    list
}

/// Where the manifest of the workspace stands, below the directory of the workspace.
pub const WORKSPACE_MANIFEST: &'static str = "Cargo.toml";

/// Cargo's arguments without the profile; `None` is the path of the workspace's manifest.
pub open spec fn build_target_args(rustc_triple: Seq<char>) -> Seq<Option<Seq<char>>> {
    seq![
        Some("build"@),
        Some("--manifest-path"@),
        None,
        Some("-p"@),
        Some("dinghy-generated-apple-host"@),
        Some("--bin"@),
        Some("dinghy-generated-apple-host"@),
        Some("--target"@),
        Some(rustc_triple),
    ]
}

/// The arguments with which Cargo builds the application. The path among them is that of
/// the manifest of the workspace.
pub fn build_args(rustc_triple: &str, release: bool) -> (args: Vec<Arg>)
    ensures
        arg_texts(args@) == (if release {
            build_target_args(rustc_triple@).push(Some("--release"@))
        } else {
            build_target_args(rustc_triple@)
        }),
{
    let mut args = vec![
        Arg::Text("build".to_string()),
        Arg::Text("--manifest-path".to_string()),
        Arg::HostPath,
        Arg::Text("-p".to_string()),
        Arg::Text("dinghy-generated-apple-host".to_string()),
        Arg::Text("--bin".to_string()),
        Arg::Text("dinghy-generated-apple-host".to_string()),
        Arg::Text("--target".to_string()),
        Arg::Text(rustc_triple.to_string()),
    ];
    assert(arg_texts(args@) =~= build_target_args(rustc_triple@));
    if release {
        args.push(Arg::Text("--release".to_string()));
    }
    assert(release ==> arg_texts(args@) =~= build_target_args(rustc_triple@).push(
        Some("--release"@),
    ));
    args
}

/// What came of building the application.
pub fn check_build(success: bool) -> (result: Result<(), HostError>)
    ensures
        match result {
            Ok(_) => success,
            Err(error) => !success && error is Build,
        },
{
    if success {
        Ok(())
    } else {
        Err(HostError::Build)
    }
}

/// Where Cargo puts the application.
pub fn built_binary(workspace_root: &str, rustc_triple: &str, release: bool) -> (path: String)
    ensures
        path@ == path_below(
            path_below(
                path_below(path_below(workspace_root@, "target"@), rustc_triple@),
                if release {
                    "release"@
                } else {
                    "debug"@
                },
            ),
            "dinghy-generated-apple-host"@,
        ),
{
    let profile = if release {
        "release"
    } else {
        "debug"
    };
    let directory = join(join(workspace_root, "target").as_str(), rustc_triple);
    join(join(directory.as_str(), profile).as_str(), "dinghy-generated-apple-host")
}

/// The program that Cargo is called by; `variable` is what `CARGO` holds.
pub fn cargo_program(variable: Option<String>) -> (program: String)
    ensures
        program@ == (match variable {
            Some(path) => path@,
            None => "cargo"@,
        }),
{
    match variable {
        Some(path) => path,
        None => "cargo".to_string(),
    }
}

} // verus!
