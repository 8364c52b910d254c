//! Laws on the source of the generated runner.

use vstd::prelude::*;

use crate::runner_source::runner_source_text;
use crate::target::RunnerKind;

verus! {

/// The runner of benchmarks takes in the target's source, runs each benchmark that is asked for
/// and returns 1 at the first that panics.
pub proof fn benchmarks_are_run(entry: Seq<char>)
    ensures
        runner_source_text(RunnerKind::Bench, entry) == r#"#![allow(dead_code, unused_imports)]

use std::panic::{self, AssertUnwindSafe};

include!("#@ + entry + r#");

fn normalize_name(raw_name: &str) -> &str {
    raw_name.split_once("::").map(|(_, name)| name).unwrap_or(raw_name)
}

fn panic_message(payload: Box<dyn ::std::any::Any + Send>) -> String {
    if let Some(message) = payload.downcast_ref::<String>() {
        message.clone()
    } else if let Some(message) = payload.downcast_ref::<&'static str>() {
        (*message).to_string()
    } else {
        "non-string panic payload".to_string()
    }
}

pub fn run() -> i32 {
    let bench_cases = ::inventory::iter::<::dinghy_apple_runner_support::BenchCase>;
    let ignored = ::inventory::iter::<::dinghy_apple_runner_support::IgnoredCase>
        .into_iter()
        .map(|case| case.name)
        .collect::<::std::collections::BTreeSet<_>>();
    let ignored_only = ::std::env::args().any(|arg| arg == "--ignored");

    for bench_case in bench_cases {
        let case_name = bench_case.name;
        let is_ignored = ignored.contains(case_name);
        if ignored_only != is_ignored {
            continue;
        }

        let mut criterion = ::criterion::Criterion::default().configure_from_args();
        if let Err(payload) = panic::catch_unwind(AssertUnwindSafe(|| (bench_case.run)(&mut criterion))) {
            eprintln!(
                "benchmark {} ... FAILED: {}",
                normalize_name(case_name),
                panic_message(payload)
            );
            return 1;
        }
    }

    0
}
"#@,
{
}

/// The runner of tests takes in the target's source, lists or runs each test that is asked for,
/// and returns 1 if one of them panics.
pub proof fn tests_are_run(entry: Seq<char>)
    ensures
        runner_source_text(RunnerKind::Test, entry) == r#"#![allow(dead_code, unused_imports)]

use std::collections::BTreeSet;
use std::panic::{self, AssertUnwindSafe};

include!("#@ + entry + r#");

fn normalize_name(raw_name: &str) -> &str {
    raw_name.split_once("::").map(|(_, name)| name).unwrap_or(raw_name)
}

fn panic_message(payload: Box<dyn ::std::any::Any + Send>) -> String {
    if let Some(message) = payload.downcast_ref::<String>() {
        message.clone()
    } else if let Some(message) = payload.downcast_ref::<&'static str>() {
        (*message).to_string()
    } else {
        "non-string panic payload".to_string()
    }
}

fn matches_filter(case_name: &str, filters: &[String], exact: bool) -> bool {
    let display_name = normalize_name(case_name);
    if filters.is_empty() {
        return true;
    }

    filters.iter().any(|filter| {
        if exact {
            display_name == filter
        } else {
            display_name.contains(filter)
        }
    })
}

pub fn run() -> i32 {
    let mut filters = Vec::new();
    let mut exact = false;
    let mut list_only = false;
    let mut ignored_only = false;
    for argument in ::std::env::args().skip(1) {
        match argument.as_str() {
            "--exact" => exact = true,
            "--list" => list_only = true,
            "--ignored" => ignored_only = true,
            value if !value.starts_with('-') => filters.push(value.to_string()),
            _ => {}
        }
    }

    let ignored = ::inventory::iter::<::dinghy_apple_runner_support::IgnoredCase>
        .into_iter()
        .map(|case| case.name)
        .collect::<BTreeSet<_>>();
    let mut executed = 0usize;
    let mut failed = 0usize;

    for test_case in ::inventory::iter::<::dinghy_apple_runner_support::TestCase> {
        let case_name = test_case.name;
        let is_ignored = ignored.contains(case_name);
        if ignored_only != is_ignored {
            continue;
        }
        if !matches_filter(case_name, &filters, exact) {
            continue;
        }

        let display_name = normalize_name(case_name);
        if list_only {
            println!("{display_name}: test");
            continue;
        }

        executed += 1;
        match panic::catch_unwind(AssertUnwindSafe(|| (test_case.run)())) {
            Ok(()) => println!("test {display_name} ... ok"),
            Err(payload) => {
                failed += 1;
                println!(
                    "test {display_name} ... FAILED: {}",
                    panic_message(payload)
                );
            }
        }
    }

    if list_only {
        return 0;
    }

    println!();
    println!(
        "test result: {}. {} passed; {} failed; finished in 0.00s",
        if failed == 0 { "ok" } else { "FAILED" },
        executed.saturating_sub(failed),
        failed
    );

    if failed == 0 { 0 } else { 1 }
}
"#@,
{
}

/// The runner of a binary or an example calls its `main` function and returns 0.
pub proof fn main_is_run(entry: Seq<char>)
    ensures
        runner_source_text(RunnerKind::Binary, entry) == r#"#![allow(dead_code, unused_imports)]

#[path = "#@ + entry + r#"]
mod target_entry;

pub fn run() -> i32 {
    target_entry::main();
    0
}
"#@,
        runner_source_text(RunnerKind::Example, entry) == runner_source_text(
            RunnerKind::Binary,
            entry,
        ),
{
}

} // verus!
