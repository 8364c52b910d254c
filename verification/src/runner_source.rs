//! The root source file of the generated runner.

use vstd::prelude::*;

use crate::quote::{debug_path, quote_path};
use crate::target::RunnerKind;

verus! {

/// The source of a runner that runs benchmarks, up to the path of the root source file.
pub const BENCH_HEAD: &'static str = r#"#![allow(dead_code, unused_imports)]

use std::panic::{self, AssertUnwindSafe};

include!("#;

/// The rest of that source.
pub const BENCH_TAIL: &'static str = r#");

fn normalize_name(raw_name: &str) -> &str {
    raw_name.split_once("::").map(|(_, name)| name).unwrap_or(raw_name)
}

fn panic_message(payload: Box<dyn ::std::any::Any + Send>) -> String {
    if let Some(message) = payload.downcast_ref::<String>() {
        message.clone()
    } else if let Some(message) = payload.downcast_ref::<&'static str>() {
        (*message).to_string()
    } else {
        "non-string panic payload".to_string()
    }
}

pub fn run() -> i32 {
    let bench_cases = ::inventory::iter::<::dinghy_apple_runner_support::BenchCase>;
    let ignored = ::inventory::iter::<::dinghy_apple_runner_support::IgnoredCase>
        .into_iter()
        .map(|case| case.name)
        .collect::<::std::collections::BTreeSet<_>>();
    let ignored_only = ::std::env::args().any(|arg| arg == "--ignored");

    for bench_case in bench_cases {
        let case_name = bench_case.name;
        let is_ignored = ignored.contains(case_name);
        if ignored_only != is_ignored {
            continue;
        }

        let mut criterion = ::criterion::Criterion::default().configure_from_args();
        if let Err(payload) = panic::catch_unwind(AssertUnwindSafe(|| (bench_case.run)(&mut criterion))) {
            eprintln!(
                "benchmark {} ... FAILED: {}",
                normalize_name(case_name),
                panic_message(payload)
            );
            return 1;
        }
    }

    0
}
"#;

/// The source of a runner that runs tests, up to the path of the root source file.
pub const TEST_HEAD: &'static str = r#"#![allow(dead_code, unused_imports)]

use std::collections::BTreeSet;
use std::panic::{self, AssertUnwindSafe};

include!("#;

/// The rest of that source.
pub const TEST_TAIL: &'static str = r#");

fn normalize_name(raw_name: &str) -> &str {
    raw_name.split_once("::").map(|(_, name)| name).unwrap_or(raw_name)
}

fn panic_message(payload: Box<dyn ::std::any::Any + Send>) -> String {
    if let Some(message) = payload.downcast_ref::<String>() {
        message.clone()
    } else if let Some(message) = payload.downcast_ref::<&'static str>() {
        (*message).to_string()
    } else {
        "non-string panic payload".to_string()
    }
}

fn matches_filter(case_name: &str, filters: &[String], exact: bool) -> bool {
    let display_name = normalize_name(case_name);
    if filters.is_empty() {
        return true;
    }

    filters.iter().any(|filter| {
        if exact {
            display_name == filter
        } else {
            display_name.contains(filter)
        }
    })
}

pub fn run() -> i32 {
    let mut filters = Vec::new();
    let mut exact = false;
    let mut list_only = false;
    let mut ignored_only = false;
    for argument in ::std::env::args().skip(1) {
        match argument.as_str() {
            "--exact" => exact = true,
            "--list" => list_only = true,
            "--ignored" => ignored_only = true,
            value if !value.starts_with('-') => filters.push(value.to_string()),
            _ => {}
        }
    }

    let ignored = ::inventory::iter::<::dinghy_apple_runner_support::IgnoredCase>
        .into_iter()
        .map(|case| case.name)
        .collect::<BTreeSet<_>>();
    let mut executed = 0usize;
    let mut failed = 0usize;

    for test_case in ::inventory::iter::<::dinghy_apple_runner_support::TestCase> {
        let case_name = test_case.name;
        let is_ignored = ignored.contains(case_name);
        if ignored_only != is_ignored {
            continue;
        }
        if !matches_filter(case_name, &filters, exact) {
            continue;
        }

        let display_name = normalize_name(case_name);
        if list_only {
            println!("{display_name}: test");
            continue;
        }

        executed += 1;
        match panic::catch_unwind(AssertUnwindSafe(|| (test_case.run)())) {
            Ok(()) => println!("test {display_name} ... ok"),
            Err(payload) => {
                failed += 1;
                println!(
                    "test {display_name} ... FAILED: {}",
                    panic_message(payload)
                );
            }
        }
    }

    if list_only {
        return 0;
    }

    println!();
    println!(
        "test result: {}. {} passed; {} failed; finished in 0.00s",
        if failed == 0 { "ok" } else { "FAILED" },
        executed.saturating_sub(failed),
        failed
    );

    if failed == 0 { 0 } else { 1 }
}
"#;

/// The source of a runner that runs a `main` function, up to the path of the root source file.
pub const ENTRY_HEAD: &'static str = r#"#![allow(dead_code, unused_imports)]

#[path = "#;

/// The rest of that source.
pub const ENTRY_TAIL: &'static str = r#"]
mod target_entry;

pub fn run() -> i32 {
    target_entry::main();
    0
}
"#;

/// The source of the runner; `entry` is the root source file of the target, in quotes.
pub open spec fn runner_source_text(kind: RunnerKind, entry: Seq<char>) -> Seq<char> {
    match kind {
        RunnerKind::Bench => BENCH_HEAD@ + entry + BENCH_TAIL@,
        RunnerKind::Test => TEST_HEAD@ + entry + TEST_TAIL@,
        RunnerKind::Binary => ENTRY_HEAD@ + entry + ENTRY_TAIL@,
        RunnerKind::Example => ENTRY_HEAD@ + entry + ENTRY_TAIL@,
    }
}

/// Puts the source of the runner together; `entry` is in quotes.
pub fn assemble_runner_source(kind: RunnerKind, entry: &str) -> (text: String)
    ensures
        text@ == runner_source_text(kind, entry@),
{
    match kind {
        RunnerKind::Bench => BENCH_HEAD.to_string().concat(entry).concat(BENCH_TAIL),
        RunnerKind::Test => TEST_HEAD.to_string().concat(entry).concat(TEST_TAIL),
        RunnerKind::Binary => ENTRY_HEAD.to_string().concat(entry).concat(ENTRY_TAIL),
        RunnerKind::Example => ENTRY_HEAD.to_string().concat(entry).concat(ENTRY_TAIL),
    }
}

/// The source of the runner of a target. `entry` is the root source file of the target.
pub fn runner_source(kind: RunnerKind, entry: &str) -> (text: String)
    ensures
        text@ == runner_source_text(kind, debug_path(entry@)),
{
    assemble_runner_source(kind, quote_path(entry).as_str())
}

} // verus!
