use dinghy_apple::cargo::{Dependency, DependencyKind, Package, Target};
use dinghy_apple::cfgs::{
    appended_cfg_flags, configure_rustflags_env, custom_cfgs, render_check_cfg_line,
};
use dinghy_apple::config::{ConfigError, DinghyWorkspaceConfig, Json, Member};
use dinghy_apple::manifest::{
    assemble_host_manifest, assemble_runner_manifest, dependency_line, group_dependencies,
    host_main, host_manifest, render_dependency, runner_manifest, workspace_manifest,
    PlatformLines, QuotedDependency,
};
use dinghy_apple::registration::{
    bench_case, ignored, register, register_parsed, submit, submit_parsed, test_case, CaseKind,
    RegistrationError,
};
use dinghy_apple::rewrite::{entry_action, rewrite_rust_source, EntryAction};
use dinghy_apple::runner_source::{assemble_runner_source, runner_source};
use dinghy_apple::target::RunnerKind;

fn list(items: &[&str]) -> Vec<String> {
    items.iter().map(|item| item.to_string()).collect()
}

fn word(value: &str) -> Json {
    Json::Text(value.to_string())
}

fn object(members: Vec<(&str, Json)>) -> Json {
    Json::Object(
        members.into_iter().map(|(key, value)| Member { key: key.to_string(), value }).collect(),
    )
}

fn read(settings: Json) -> Result<DinghyWorkspaceConfig, ConfigError> {
    DinghyWorkspaceConfig::from_workspace_metadata(&object(vec![("dinghy", settings)]))
}

fn fault(settings: Json) -> ConfigError {
    match read(settings) {
        Err(error) => error,
        Ok(_) => panic!("no error"),
    }
}

fn config(cfgs: &[&str], aliases: &[(&str, &str)]) -> DinghyWorkspaceConfig {
    DinghyWorkspaceConfig {
        forward_cfgs: list(cfgs),
        test_attribute_aliases: aliases
            .iter()
            .map(|(from, to)| (from.to_string(), to.to_string()))
            .collect(),
    }
}

#[test]
fn missing_settings_are_empty() {
    for metadata in [Json::Scalar, word("x"), object(vec![]), object(vec![("other", word("x"))])] {
        let config = DinghyWorkspaceConfig::from_workspace_metadata(&metadata).ok().unwrap();
        assert!(config.forward_cfgs.is_empty());
        assert!(config.test_attribute_aliases.is_empty());
    }
    let config = read(object(vec![])).ok().unwrap();
    assert!(config.forward_cfgs.is_empty());
    assert!(DinghyWorkspaceConfig::default().forward_cfgs.is_empty());
}

#[test]
fn settings_are_read() {
    let config = read(object(vec![
        ("forward-cfgs", Json::List(vec![word("b"), word("a"), word("b")])),
        ("test-attribute-aliases", object(vec![("z", word("1")), ("a", word("2"))])),
    ]))
    .ok()
    .unwrap();
    assert_eq!(config.forward_cfgs, list(&["b", "a", "b"]));
    assert_eq!(
        config.test_attribute_aliases,
        vec![("a".to_string(), "2".to_string()), ("z".to_string(), "1".to_string())]
    );
}

#[test]
fn settings_in_a_list_are_read() {
    let config = read(Json::List(vec![Json::List(vec![word("a")]), object(vec![("x", word("y"))])]))
        .ok()
        .unwrap();
    assert_eq!(config.forward_cfgs, list(&["a"]));
    assert_eq!(config.test_attribute_aliases, vec![("x".to_string(), "y".to_string())]);
    assert_eq!(fault(Json::List(vec![Json::List(vec![]), object(vec![]), Json::Scalar])), ConfigError::TooLong);
}

#[test]
fn wrong_settings_are_refused() {
    assert_eq!(fault(Json::Scalar), ConfigError::NotATable);
    assert_eq!(fault(word("x")), ConfigError::NotATable);
    assert_eq!(fault(object(vec![("forward_cfgs", Json::List(vec![]))])), ConfigError::UnknownField);
    assert_eq!(
        fault(object(vec![
            ("forward-cfgs", Json::List(vec![])),
            ("forward-cfgs", Json::List(vec![])),
        ])),
        ConfigError::DuplicateField
    );
    assert_eq!(fault(object(vec![("forward-cfgs", word("a"))])), ConfigError::ForwardCfgs);
    assert_eq!(
        fault(object(vec![("forward-cfgs", Json::List(vec![Json::Scalar]))])),
        ConfigError::ForwardCfgs
    );
    assert_eq!(
        fault(object(vec![("test-attribute-aliases", Json::List(vec![]))])),
        ConfigError::TestAttributeAliases
    );
    assert_eq!(
        fault(object(vec![("test-attribute-aliases", object(vec![("a", Json::Scalar)]))])),
        ConfigError::TestAttributeAliases
    );
    assert_eq!(
        ConfigError::UnknownField.message(),
        "Failed to parse [workspace.metadata.dinghy]. Known fields: `forward-cfgs`, `test-attribute-aliases`."
    );
}

#[test]
fn cfgs_are_ordered_and_single() {
    let config = config(&["zeta", "alpha", "dinghy_force_test", "zeta"], &[]);
    assert_eq!(custom_cfgs(&config), list(&["alpha", "dinghy_force_test", "zeta"]));
    assert_eq!(
        render_check_cfg_line(&config),
        "unexpected_cfgs = { level = \"allow\", check-cfg = ['cfg(alpha)', 'cfg(dinghy_force_test)', 'cfg(zeta)'] }"
    );
    assert_eq!(
        appended_cfg_flags(&config)[..4],
        list(&["--cfg", "alpha", "--check-cfg", "cfg(alpha)"])[..]
    );
    assert_eq!(appended_cfg_flags(&config).len(), 12);
}

#[test]
fn flags_go_to_the_encoded_variable_first() {
    let config = config(&[], &[]);
    let flags = "--cfg\u{1f}dinghy_force_test\u{1f}--check-cfg\u{1f}cfg(dinghy_force_test)";
    let variable = configure_rustflags_env(Some(String::new()), Some("-O".to_string()), &config);
    assert_eq!((variable.name.as_str(), variable.value.as_str()), ("CARGO_ENCODED_RUSTFLAGS", flags));
    let variable = configure_rustflags_env(Some("-a".to_string()), None, &config);
    assert_eq!(variable.value, format!("-a\u{1f}{flags}"));
    let variable = configure_rustflags_env(None, None, &config);
    assert_eq!(variable.name, "RUSTFLAGS");
    assert_eq!(variable.value, "--cfg dinghy_force_test --check-cfg cfg(dinghy_force_test)");
    let variable = configure_rustflags_env(None, Some("-O".to_string()), &config);
    assert_eq!(variable.value, "-O --cfg dinghy_force_test --check-cfg cfg(dinghy_force_test)");
}

#[test]
fn flags_read_back_from_the_variable() {
    let config = config(&["a"], &[]);
    let variable = configure_rustflags_env(Some("-x".to_string()), None, &config);
    let mut expected = vec!["-x".to_string()];
    expected.extend(appended_cfg_flags(&config));
    let pieces: Vec<String> = variable.value.split('\u{1f}').map(|flag| flag.to_string()).collect();
    assert_eq!(pieces, expected);
}

#[test]
fn only_rust_files_are_rewritten() {
    assert_eq!(entry_action("/s/src", true), EntryAction::Descend);
    assert_eq!(entry_action("/s/src.rs", true), EntryAction::Descend);
    assert_eq!(entry_action("/s/lib.rs", false), EntryAction::Rewrite);
    assert_eq!(entry_action("/s/a.b.rs", false), EntryAction::Rewrite);
    assert_eq!(entry_action("/s/lib.RS", false), EntryAction::Skip);
    assert_eq!(entry_action("/s/.rs", false), EntryAction::Skip);
    assert_eq!(entry_action("/s/rs", false), EntryAction::Skip);
    assert_eq!(entry_action("/s/Cargo.toml", false), EntryAction::Skip);
}

#[test]
fn sources_are_rewritten() {
    let none = config(&[], &[]);
    let source = "#![feature(custom_test_frameworks)]\n#![test_runner(crate::bench_runner)]\n#![reexport_test_harness_main = \"test_main\"]\n#[cfg(test)]\nmod t {\n#[test]\n#[ignore]\nfn a() {}\n#[::criterion_macro::criterion]\n#[criterion_macro::criterion]\n#[criterion]\nfn b() {}\n}\n";
    let expected = "\n\n\n#[cfg(any(test, dinghy_force_test))]\nmod t {\n#[dinghy_apple_runner_macros::test_case]\n#[dinghy_apple_runner_macros::ignored]\nfn a() {}\n#[dinghy_apple_runner_macros::bench_case]\n#[dinghy_apple_runner_macros::bench_case]\n#[dinghy_apple_runner_macros::bench_case]\nfn b() {}\n}\n";
    let result = rewrite_rust_source(source, &none);
    assert_eq!(result, expected);
    for gone in ["cfg(test)", "#[test]", "#[ignore]", "#[criterion]", "criterion_macro"] {
        assert!(!result.contains(gone), "{gone}");
    }
}

#[test]
fn aliases_are_applied_in_order() {
    let aliases = config(&[], &[("a", "b"), ("b", "c"), ("tokio::test", "test")]);
    assert_eq!(rewrite_rust_source("#[a] #[b] #[tokio::test]", &aliases), "#[c] #[c] #[test]");
}

#[test]
fn other_sources_are_kept() {
    let aliases = config(&[], &[("a", "b")]);
    let source = "fn main() { /* # [test] \u{e9} */ }\n";
    assert_eq!(rewrite_rust_source(source, &aliases), source);
    assert_eq!(rewrite_rust_source("", &aliases), "");
}

fn dependency(name: &str) -> Dependency {
    Dependency {
        name: name.to_string(),
        rename: None,
        kind: DependencyKind::Normal,
        target: None,
        path: None,
        req: "^1.0".to_string(),
        uses_default_features: true,
        features: Vec::new(),
    }
}

#[test]
fn dependencies_are_rendered() {
    assert_eq!(render_dependency("serde", &dependency("serde")), "serde = { version = \"^1.0\" }");
    let full = Dependency {
        rename: Some("s".to_string()),
        path: Some("/p/\"q\"".to_string()),
        uses_default_features: false,
        features: list(&["derive", "rc"]),
        ..dependency("serde")
    };
    assert_eq!(
        render_dependency("s", &full),
        "s = { path = \"/p/\\\"q\\\"\", package = \"serde\", default-features = false, features = [\"derive\", \"rc\"] }"
    );
    let same = Dependency { rename: Some("serde".to_string()), ..dependency("serde") };
    assert_eq!(render_dependency("serde", &same), "serde = { version = \"^1.0\" }");
    let quoted = QuotedDependency {
        source: "path = \"/p\"".to_string(),
        package: None,
        uses_default_features: false,
        features: Vec::new(),
    };
    assert_eq!(dependency_line("k", &quoted), "k = { path = \"/p\", default-features = false }");
}

fn on(platform: &str, name: &str) -> Dependency {
    Dependency { target: Some(platform.to_string()), ..dependency(name) }
}

#[test]
fn dependencies_are_grouped_once() {
    let dependencies = vec![
        dependency("a"),
        on("cfg(unix)", "b"),
        Dependency { kind: DependencyKind::Build, ..dependency("build") },
        Dependency { kind: DependencyKind::Development, ..dependency("a") },
        on("aarch64-apple-ios", "c"),
        on("cfg(unix)", "a"),
        Dependency { rename: Some("b".to_string()), ..on("cfg(unix)", "other") },
        Dependency { kind: DependencyKind::Development, ..dependency("d") },
    ];
    let groups = group_dependencies(&dependencies);
    assert_eq!(groups.everywhere, vec![0, 7]);
    let platforms: Vec<(String, Vec<usize>)> =
        groups.platforms.into_iter().map(|group| (group.platform, group.dependencies)).collect();
    assert_eq!(
        platforms,
        vec![("aarch64-apple-ios".to_string(), vec![4]), ("cfg(unix)".to_string(), vec![1, 5])]
    );
}

#[test]
fn runner_manifests_hold_all_dependencies() {
    let package = Package {
        name: "mine".to_string(),
        manifest_path: "/work/mine/Cargo.toml".to_string(),
        targets: vec![Target {
            name: "mine".to_string(),
            kind: list(&["lib"]),
            src_path: "/work/mine/src/lib.rs".to_string(),
        }],
        dependencies: vec![dependency("a"), on("cfg(unix)", "b")],
    };
    let expected = "[package]\nname = \"dinghy-generated-apple-runner\"\nversion = \"0.1.0\"\nedition = \"2021\"\n\n[lib]\npath = \"src/lib.rs\"\n\n[lints.rust]\nunexpected_cfgs = { level = \"allow\", check-cfg = ['cfg(dinghy_force_test)'] }\n\n[dependencies]\ndinghy-apple-runner-support = { path = \"/d/support\" }\ndinghy-apple-runner-macros = { path = \"/d/macros\" }\ninventory = \"0.3\"\nmine = { path = \"/work/mine\" }\na = { version = \"^1.0\" }\n\n[target.\"cfg(unix)\".dependencies]\nb = { version = \"^1.0\" }\n";
    assert_eq!(runner_manifest("/d/support", "/d/macros", &package, &config(&[], &[])), expected);
    let sections = vec![PlatformLines {
        platform: "\"cfg(unix)\"".to_string(),
        lines: list(&["b = { version = \"^1.0\" }"]),
    }];
    assert_eq!(
        assemble_runner_manifest(
            &render_check_cfg_line(&config(&[], &[])),
            "\"/d/support\"",
            "\"/d/macros\"",
            Some(("mine".to_string(), "\"/work/mine\"".to_string())),
            &list(&["a = { version = \"^1.0\" }"]),
            &sections,
        ),
        expected
    );
    let without_library = Package { targets: Vec::new(), dependencies: Vec::new(), ..package };
    assert!(runner_manifest("/s", "/m", &without_library, &config(&[], &[]))
        .ends_with("inventory = \"0.3\"\n"));
}

#[test]
fn host_sources_and_manifests() {
    assert_eq!(
        workspace_manifest(),
        "[workspace]\nresolver = \"2\"\nmembers = [\"runner\", \"host\"]\n"
    );
    let expected = "[package]\nname = \"dinghy-generated-apple-host\"\nversion = \"0.1.0\"\nedition = \"2021\"\n\n[[bin]]\nname = \"dinghy-generated-apple-host\"\npath = \"src/main.rs\"\n\n[dependencies]\ndinghy-apple-host-runtime = { path = \"/d/runtime\" }\ndinghy-generated-apple-runner = { path = \"../runner\" }\n\n[lints.rust]\nunexpected_cfgs = { level = \"allow\", check-cfg = ['cfg(dinghy_force_test)'] }\n";
    let config = config(&[], &[]);
    assert_eq!(host_manifest("/d/runtime", &config), expected);
    assert_eq!(
        assemble_host_manifest("\"/d/runtime\"", &render_check_cfg_line(&config)),
        expected
    );
    assert_eq!(
        host_main(),
        "fn main() {\n    dinghy_apple_host_runtime::run_application(dinghy_generated_apple_runner::run)\n}\n"
    );
}

#[test]
fn runner_sources_name_their_entry() {
    for kind in [RunnerKind::Test, RunnerKind::Bench] {
        let source = runner_source(kind, "/s/\"x\".rs");
        assert!(source.contains("(\"/s/\\\"x\\\".rs\");\n\nfn normalize_name"));
        assert_eq!(source, assemble_runner_source(kind, "\"/s/\\\"x\\\".rs\""));
        assert!(source.starts_with("#![allow(dead_code, unused_imports)]\n\nuse std::"));
    }
    assert!(runner_source(RunnerKind::Test, "/x").contains("test result: {}. {} passed; {} failed"));
    assert!(runner_source(RunnerKind::Bench, "/x").contains("benchmark {} ... FAILED: {}"));
    let entry = "#![allow(dead_code, unused_imports)]\n\n#[path = \"/s/main.rs\"]\nmod target_entry;\n\npub fn run() -> i32 {\n    target_entry::main();\n    0\n}\n";
    assert_eq!(runner_source(RunnerKind::Binary, "/s/main.rs"), entry);
    assert_eq!(runner_source(RunnerKind::Example, "/s/main.rs"), entry);
}

#[test]
fn functions_are_registered() {
    let item = "fn works() { assert!(true); }";
    let expected = "fn works() { assert!(true); }\n\n::inventory::submit! {\n    ::dinghy_apple_runner_support::TestCase {\n        name: ::core::concat!(::core::module_path!(), \"::\", ::core::stringify!(works)),\n        run: works,\n    }\n}\n";
    assert_eq!(test_case("", item).ok().unwrap(), expected);
    assert_eq!(register(CaseKind::Test, item, "works"), expected);
    let bench = bench_case("", "pub fn speed(c: &mut Criterion) {}").ok().unwrap();
    assert!(bench.contains("::dinghy_apple_runner_support::BenchCase {"));
    assert!(bench.contains("run: speed,"));
    let note = ignored("", "#[inline] fn slow() {}").ok().unwrap();
    assert!(note.starts_with("#[inline] fn slow() {}\n"));
    assert!(note.contains("::dinghy_apple_runner_support::IgnoredCase {"));
    assert!(note.contains("stringify!(slow)"));
    assert!(!note.contains("run:"));
}

#[test]
fn parsed_items_are_registered() {
    let items = submit(CaseKind::Bench, "speed");
    assert_eq!(
        items,
        "::inventory::submit! {\n    ::dinghy_apple_runner_support::BenchCase {\n        name: ::core::concat!(::core::module_path!(), \"::\", ::core::stringify!(speed)),\n        run: speed,\n    }\n}\n"
    );
    assert_eq!(submit_parsed(CaseKind::Bench, Ok("speed".to_string())).ok().unwrap(), items);
    assert_eq!(
        register_parsed(CaseKind::Bench, "fn speed() {}", Ok("speed".to_string())).ok().unwrap(),
        format!("fn speed() {{}}\n\n{items}")
    );
    for parsed in [
        submit_parsed(CaseKind::Test, syn::parse_str("struct S;").map(|_: syn::ItemFn| String::new())),
        register_parsed(
            CaseKind::Test,
            "struct S;",
            syn::parse_str("struct S;").map(|_: syn::ItemFn| String::new()),
        ),
    ] {
        match parsed {
            Err(RegistrationError::NotAFunction(error)) => {
                assert_eq!(error.to_string(), "expected `fn`")
            }
            Ok(_) => panic!(),
        }
    }
}

#[test]
fn kinds_of_cases_share_their_name() {
    let name = "name: ::core::concat!(::core::module_path!(), \"::\", ::core::stringify!(f)),\n";
    let item = "fn f() {}";
    for items in [test_case("x", item), bench_case("", item), ignored("y", item)] {
        let items = items.ok().unwrap();
        assert!(items.starts_with("fn f() {}\n\n"));
        assert_eq!(items.matches(name).count(), 1);
        assert_eq!(items.matches("name: ").count(), 1);
    }
}

#[test]
fn other_items_are_not_registered() {
    for item in ["struct S;", "fn f(", "", "fn f() {} fn g() {}"] {
        assert!(test_case("", item).is_err(), "{item}");
        assert!(bench_case("", item).is_err(), "{item}");
        assert!(ignored("", item).is_err(), "{item}");
    }
}
