use dinghy_apple::args::Arg;
use dinghy_apple::cargo::{Dependency, DependencyKind, Package, Target};
use dinghy_apple::config::{ConfigError, DinghyWorkspaceConfig, Json, Member};
use dinghy_apple::host::{
    build_args, built_binary, bundle_executable, cargo_program, check_build, copy_excludes,
    entry_path, host_main_file, host_manifest_file, prepare_generated_apple_host,
    runner_manifest_file, runner_source_file, workspace_manifest_file, HelperCrates, HostError,
    HostLayout,
};
use dinghy_apple::target::{
    infer_runner_kind, is_library_target, logical_target_name, package_root_of, resolve_target,
    target_matches_kind, target_names_match, RunnerKind, TargetError,
};

fn list(items: &[&str]) -> Vec<String> {
    items.iter().map(|item| item.to_string()).collect()
}

fn shown(args: Vec<Arg>) -> Vec<String> {
    args.into_iter()
        .map(|arg| match arg {
            Arg::Text(text) => text,
            Arg::HostPath => "<path>".to_string(),
        })
        .collect()
}

fn target(name: &str, kinds: &[&str], src_path: &str) -> Target {
    Target { name: name.to_string(), kind: list(kinds), src_path: src_path.to_string() }
}

fn package() -> Package {
    Package {
        name: "my-crate".to_string(),
        manifest_path: "/work/my-crate/Cargo.toml".to_string(),
        targets: vec![
            target("my-crate", &["lib"], "/work/my-crate/src/lib.rs"),
            target("tool", &["bin"], "/work/my-crate/src/main.rs"),
            target("suite", &["test"], "/work/my-crate/tests/suite.rs"),
            target("speed", &["bench"], "/work/my-crate/benches/speed.rs"),
            target("demo", &["example"], "/work/my-crate/examples/demo.rs"),
            target("outside", &["bin"], "/elsewhere/main.rs"),
            target("build-script-build", &["custom-build"], "/work/my-crate/build.rs"),
        ],
        dependencies: vec![Dependency {
            name: "serde".to_string(),
            rename: None,
            kind: DependencyKind::Normal,
            target: None,
            path: None,
            req: "^1".to_string(),
            uses_default_features: true,
            features: Vec::new(),
        }],
    }
}

#[test]
fn names_match_with_dashes_and_underscores() {
    assert!(target_names_match("my-crate", "my_crate"));
    assert!(target_names_match("my_crate", "my-crate"));
    assert!(target_names_match("a-b_c", "a_b-c"));
    assert!(!target_names_match("my-crate", "mycrate"));
    assert!(target_names_match("", ""));
}

#[test]
fn library_kinds() {
    for kind in ["lib", "rlib", "dylib", "staticlib", "cdylib"] {
        assert!(is_library_target(&target("x", &["other", kind], "x")), "{kind}");
    }
    assert!(!is_library_target(&target("x", &["proc-macro", "bin"], "x")));
    assert!(!is_library_target(&target("x", &[], "x")));
}

#[test]
fn targets_fit_their_kinds() {
    let lib = target("x", &["lib"], "x");
    assert!(target_matches_kind(&lib, RunnerKind::Test));
    assert!(!target_matches_kind(&lib, RunnerKind::Binary));
    assert!(!target_matches_kind(&lib, RunnerKind::Bench));
    assert!(target_matches_kind(&target("x", &["test"], "x"), RunnerKind::Test));
    assert!(target_matches_kind(&target("x", &["bench"], "x"), RunnerKind::Bench));
    assert!(target_matches_kind(&target("x", &["bin"], "x"), RunnerKind::Binary));
    assert!(target_matches_kind(&target("x", &["example"], "x"), RunnerKind::Example));
    assert!(!target_matches_kind(&target("x", &["example"], "x"), RunnerKind::Test));
}

#[test]
fn logical_names_lose_the_hash_below_deps() {
    assert_eq!(logical_target_name("/t/debug/deps/my_crate-0a1b").ok().unwrap(), "my_crate");
    assert_eq!(logical_target_name("/t/debug/deps/my-crate-0a1b").ok().unwrap(), "my-crate");
    assert_eq!(logical_target_name("/t/debug/deps/plain").ok().unwrap(), "plain");
    assert_eq!(logical_target_name("/t/debug/my-tool").ok().unwrap(), "my-tool");
    assert_eq!(logical_target_name("tool").ok().unwrap(), "tool");
}

#[test]
fn executables_without_a_name_are_refused() {
    for path in ["/", "..", "a/..", ""] {
        match logical_target_name(path) {
            Err(error) => {
                assert!(matches!(error, TargetError::InvalidExecutableName { .. }));
                assert_eq!(error.message(), format!("invalid executable name {path:?}"));
            }
            Ok(name) => panic!("{name}"),
        }
    }
}

#[test]
fn kinds_are_inferred() {
    let package = package();
    let kind = |executable: &str, args: &[&str], name: &str| {
        infer_runner_kind(executable, &list(args), &package, name)
    };
    assert_eq!(kind("/t/deps/x-1", &["--bench"], "nothing").ok(), Some(RunnerKind::Bench));
    assert_eq!(kind("/t/examples/demo", &[], "nothing").ok(), Some(RunnerKind::Example));
    assert_eq!(kind("/t/examples/deeper/demo", &[], "tool").ok(), Some(RunnerKind::Example));
    assert_eq!(kind("/t/deps/suite-1", &["--nocapture"], "suite").ok(), Some(RunnerKind::Test));
    assert_eq!(kind("/t/demo", &[], "demo").ok(), Some(RunnerKind::Example));
    assert_eq!(kind("/t/tool", &[], "tool").ok(), Some(RunnerKind::Binary));
    assert_eq!(kind("/t/deps/my_crate-1", &[], "my_crate").ok(), Some(RunnerKind::Test));
    match kind("/t/speed", &[], "speed") {
        Err(error) => {
            assert!(matches!(error, TargetError::KindNotInferred { .. }));
            assert_eq!(error.message(), "Could not infer runner kind for target 'speed'");
        }
        Ok(_) => panic!(),
    }
}

#[test]
fn targets_are_resolved() {
    let packages = vec![package()];
    let resolve = |executable: &str, args: &[&str]| {
        resolve_target(&packages, "/work/my-crate", executable, &list(args))
    };
    let found = resolve("/t/debug/deps/my_crate-0a", &[]).ok().unwrap();
    assert_eq!(found.kind, RunnerKind::Test);
    assert_eq!(found.package.name, "my-crate");
    assert_eq!(found.source_relative_path, "src/lib.rs");
    let found = resolve("/t/debug/deps/speed-0a", &["--bench"]).ok().unwrap();
    assert_eq!(found.kind, RunnerKind::Bench);
    assert_eq!(found.source_relative_path, "benches/speed.rs");
    let found = resolve("/t/debug/examples/demo", &[]).ok().unwrap();
    assert_eq!(found.kind, RunnerKind::Example);
    assert_eq!(found.source_relative_path, "examples/demo.rs");
}

#[test]
fn unresolved_targets_say_why() {
    let packages = vec![package()];
    let message = |root: &str, executable: &str, args: &[&str]| {
        match resolve_target(&packages, root, executable, &list(args)) {
            Err(error) => error.message(),
            Ok(_) => panic!(),
        }
    };
    assert_eq!(
        message("/work/other", "/t/tool", &[]),
        "Could not resolve the current Cargo package for \"/work/other\""
    );
    assert_eq!(
        message("/work/my-crate", "/t/tool", &["--bench"]),
        "Could not resolve target 'tool' of kind Bench in package my-crate"
    );
    assert_eq!(
        message("/work/my-crate", "/t/outside", &[]),
        "Target source \"/elsewhere/main.rs\" is not under package root \"/work/my-crate\""
    );
    assert_eq!(message("/work/my-crate", "/", &[]), "invalid executable name \"/\"");
    assert_eq!(
        message("/work/my-crate", "/t/unknown", &[]),
        "Could not infer runner kind for target 'unknown'"
    );
}

fn metadata(key: &str, value: Json) -> Json {
    Json::Object(vec![Member { key: key.to_string(), value }])
}

#[test]
fn hosts_are_prepared_for_apple_platforms() {
    let packages = vec![package()];
    let prepare = |triple: &str, executable: &str, metadata: &Json| {
        prepare_generated_apple_host(
            triple,
            &packages,
            "/work/my-crate",
            executable,
            &Vec::new(),
            metadata,
        )
    };
    let none = Json::Object(Vec::new());
    assert!(prepare("x86_64-unknown-linux-gnu", "/", &none).ok().unwrap().is_none());
    let host = prepare("aarch64-apple-ios", "/t/release/deps/suite-1", &none).ok().unwrap().unwrap();
    assert!(host.release);
    assert_eq!(host.target.source_relative_path, "tests/suite.rs");
    assert!(host.config.forward_cfgs.is_empty());
    let host = prepare("aarch64-apple-ios", "/t/debug/deps/suite-1", &none).ok().unwrap().unwrap();
    assert!(!host.release);
    match prepare("aarch64-apple-ios", "/", &none) {
        Err(HostError::Target(error)) => {
            assert!(matches!(error, TargetError::InvalidExecutableName { .. }))
        }
        _ => panic!(),
    }
    match prepare("aarch64-apple-ios", "/t/tool", &metadata("dinghy", Json::Scalar)) {
        Err(HostError::Config(error)) => assert_eq!(error, ConfigError::NotATable),
        _ => panic!(),
    }
}

#[test]
fn host_paths_and_arguments() {
    let layout = HostLayout::new("/b");
    assert_eq!(layout.generated_root, "/b/apple-host");
    assert_eq!(layout.source_root, "/b/apple-host/source");
    assert_eq!(layout.workspace_root, "/b/apple-host/workspace");
    assert_eq!(layout.runner_crate_root, "/b/apple-host/workspace/runner");
    assert_eq!(layout.host_crate_root, "/b/apple-host/workspace/host");
    assert_eq!(
        layout.directories(),
        list(&[
            "/b/apple-host",
            "/b/apple-host/workspace",
            "/b/apple-host/workspace/runner/src",
            "/b/apple-host/workspace/host/src",
        ])
    );
    assert_eq!(bundle_executable("/b/Dinghy.app"), "/b/Dinghy.app/Dinghy");
    assert_eq!(copy_excludes("/p", false), list(&["/p/target"]));
    assert_eq!(copy_excludes("/p", true), list(&["/p/target", "/p/.git"]));
    assert_eq!(
        shown(build_args("aarch64-apple-ios", false)),
        list(&[
            "build",
            "--manifest-path",
            "<path>",
            "-p",
            "dinghy-generated-apple-host",
            "--bin",
            "dinghy-generated-apple-host",
            "--target",
            "aarch64-apple-ios",
        ])
    );
    assert_eq!(shown(build_args("t", true)).last().unwrap(), "--release");
    assert_eq!(
        built_binary("/w", "aarch64-apple-ios", false),
        "/w/target/aarch64-apple-ios/debug/dinghy-generated-apple-host"
    );
    assert_eq!(built_binary("/w", "t", true), "/w/target/t/release/dinghy-generated-apple-host");
    assert!(check_build(true).is_ok());
    match check_build(false) {
        Err(error) => assert_eq!(error.message(), "Failed to build generated Apple host app"),
        Ok(()) => panic!(),
    }
    assert_eq!(cargo_program(None), "cargo");
    assert_eq!(cargo_program(Some("/bin/cargo".to_string())), "/bin/cargo");
}

#[test]
fn generated_files_stand_in_their_crates() {
    let packages = vec![package()];
    let target = resolve_target(&packages, "/work/my-crate", "/t/tool", &Vec::new()).ok().unwrap();
    let layout = HostLayout::new("/b");
    let crates = HelperCrates::new("/dinghy");
    assert_eq!(crates.support, "/dinghy/dinghy-apple-runner-support");
    assert_eq!(crates.macros, "/dinghy/dinghy-apple-runner-macros");
    assert_eq!(crates.runtime, "/dinghy/dinghy-apple-host-runtime");
    let entry = entry_path(&layout, &target);
    assert_eq!(entry, "/b/apple-host/source/src/main.rs");
    assert_eq!(package_root_of(target.package), "/work/my-crate");
    let config = DinghyWorkspaceConfig::default();
    let files = [
        workspace_manifest_file(&layout),
        runner_manifest_file(&layout, &crates, target.package, &config),
        runner_source_file(&layout, target.kind, &entry),
        host_manifest_file(&layout, &crates, &config),
        host_main_file(&layout),
    ];
    let paths: Vec<&str> = files.iter().map(|file| file.path.as_str()).collect();
    assert_eq!(
        paths,
        vec![
            "/b/apple-host/workspace/Cargo.toml",
            "/b/apple-host/workspace/runner/Cargo.toml",
            "/b/apple-host/workspace/runner/src/lib.rs",
            "/b/apple-host/workspace/host/Cargo.toml",
            "/b/apple-host/workspace/host/src/main.rs",
        ]
    );
    assert!(files[0].contents.starts_with("[workspace]\n"));
    assert!(files[1].contents.contains("my-crate = { path = \"/work/my-crate\" }\nserde = { version = \"^1\" }\n"));
    assert!(files[2].contents.contains("#[path = \"/b/apple-host/source/src/main.rs\"]\n"));
    assert!(files[3].contents.contains("{ path = \"/dinghy/dinghy-apple-host-runtime\" }\n"));
    assert!(files[4].contents.starts_with("fn main() {"));
}

#[test]
fn resolved_sources_are_below_their_package() {
    let mut odd = package();
    odd.manifest_path = "/work//my-crate/./Cargo.toml".to_string();
    odd.targets = vec![target("my-crate", &["lib"], "/work/my-crate/src//lib.rs")];
    let packages = vec![odd];
    let found = resolve_target(&packages, "/work/my-crate/", "my_crate", &Vec::new()).ok().unwrap();
    assert_eq!(found.source_relative_path, "src//lib.rs");
    assert_eq!(package_root_of(found.package), "/work//my-crate");
}

#[test]
fn layouts_can_be_relative() {
    let layout = HostLayout::new("");
    assert_eq!(layout.host_crate_root, "apple-host/workspace/host");
    assert_eq!(bundle_executable(""), "Dinghy");
    assert_eq!(HelperCrates::new("").support, "dinghy-apple-runner-support");
    assert_eq!(built_binary("", "t", false), "target/t/debug/dinghy-generated-apple-host");
}
