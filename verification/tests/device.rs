use dinghy_apple::app_bundle::{device_app_steps, simulator_app_steps, AppStep};
use dinghy_apple::args::Arg;
use dinghy_apple::device::{
    bundle_app_id, check_copy_from, check_copy_to, check_install, copying_from_message,
    copying_to_message, directory_to_create, env_json, signing_app_id, AppleDevicePlatform,
    AppleSimulatorType, DeviceError, IosDevice,
};
use dinghy_apple::lock::{is_locked, judge_answer, LockError, LONGEST_FRACTION};
use dinghy_apple::number::NumberFault;
use dinghy_apple::session::{Action, Event, Outcome, Report, Session};
use dinghy_apple::simulator::{
    assemble_lldb_script, attach_script, binary_arch, check_lldb, check_verdict, container_text,
    helper_source, launched_process, lldb_script, lldb_verdict, stdout_path, AppleSimDevice,
    Verdict,
};

fn list(items: &[&str]) -> Vec<String> {
    items.iter().map(|item| item.to_string()).collect()
}

fn words(line: &str) -> Vec<String> {
    line.split(' ').map(|word| word.to_string()).collect()
}

fn shown(args: Vec<Arg>) -> Vec<String> {
    args.into_iter()
        .map(|arg| match arg {
            Arg::Text(text) => text,
            Arg::HostPath => "<path>".to_string(),
        })
        .collect()
}

fn phone(arch: &str, coredevice_id: Option<&str>) -> IosDevice {
    IosDevice::new(
        "My Phone".to_string(),
        "ID".to_string(),
        arch,
        "17.0".to_string(),
        coredevice_id.map(|id| id.to_string()),
    )
    .ok()
    .unwrap()
}

fn simulator() -> AppleSimDevice {
    AppleSimDevice {
        id: "SIM".to_string(),
        name: "iPhone 15".to_string(),
        os: "17.0".to_string(),
        sim_type: AppleSimulatorType::Ios,
    }
}

#[test]
fn devices_know_their_processor() {
    for (arch, cpu) in [("arm64", "aarch64"), ("arm64e", "aarch64"), ("armv7s", "armv7"), ("", "armv7")] {
        let device = phone(arch, None);
        assert_eq!(device.arch_cpu, cpu);
        assert_eq!(device.rustc_triple, format!("{cpu}-apple-ios"));
    }
    let device = phone("arm64", None);
    assert_eq!((device.id(), device.name()), ("ID", "My Phone"));
    assert_eq!(device.display(), "My Phone (ID aarch64 17.0)");
    assert_eq!(device.devicectl_id(), "ID");
    assert_eq!(phone("arm64", Some("CORE")).devicectl_id(), "CORE");
    assert_eq!(simulator().display(), "iPhone 15 (SIM sim 17.0)");
    assert_eq!((simulator().id(), simulator().name()), ("SIM", "iPhone 15"));
}

#[test]
fn platforms_fit_their_devices() {
    let platform = |sim: Option<AppleSimulatorType>, triple: &str| AppleDevicePlatform {
        sim,
        rustc_triple: triple.to_string(),
    };
    let device = phone("arm64", None);
    assert!(device.is_compatible_with_simulator_platform(&platform(None, "aarch64-apple-ios")));
    assert!(!device.is_compatible_with_simulator_platform(&platform(None, "armv7-apple-ios")));
    assert!(!device.is_compatible_with_simulator_platform(&platform(
        Some(AppleSimulatorType::Ios),
        "aarch64-apple-ios"
    )));
    assert!(simulator()
        .is_compatible_with_simulator_platform(&platform(Some(AppleSimulatorType::Ios), "x")));
    assert!(!simulator()
        .is_compatible_with_simulator_platform(&platform(Some(AppleSimulatorType::Tvos), "x")));
    assert!(!simulator().is_compatible_with_simulator_platform(&platform(None, "x")));
}

#[test]
fn device_arguments() {
    let device = phone("arm64", Some("CORE"));
    assert_eq!(
        device.lock_query_args(),
        words("devicectl device info lockState --quiet --json-output /dev/stdout --device CORE")
    );
    assert_eq!(
        device.install_args("/b/Dinghy.app"),
        words("devicectl device install app --device CORE /b/Dinghy.app")
    );
    assert_eq!(
        device.probe_args("app", "Documents/x"),
        words("devicectl device info files --domain-type appDataContainer --device CORE --domain-identifier app --subdirectory Documents/x")
    );
    assert_eq!(
        shown(device.copy_to_args("app", "d")),
        words("devicectl device copy to --domain-type appDataContainer --device CORE --domain-identifier app --source <path> --destination d")
    );
    assert_eq!(
        shown(device.copy_from_args("app", "d")),
        words("devicectl device copy from --domain-type appDataContainer --device CORE --domain-identifier app --source d --destination <path>")
    );
}

#[test]
fn launch_arguments_carry_variables() {
    let device = phone("arm64", None);
    let front = words("devicectl device process launch --console --terminate-existing --device ID");
    let mut expected = front.clone();
    expected.extend(list(&["app", "--list"]));
    assert_eq!(device.launch_args("app", &list(&["--list"]), &Vec::new()), expected);
    let mut expected = front;
    expected.extend(list(&["--environment-variables", "{\"A\": \"1=2\", \"B\": \"\"}", "app"]));
    assert_eq!(device.launch_args("app", &Vec::new(), &list(&["A=1=2", "B"])), expected);
    assert_eq!(env_json(&Vec::new()), "{}");
    assert_eq!(env_json(&list(&["=x", ""])), "{\"\": \"x\", \"\": \"\"}");
}

#[test]
fn device_messages() {
    let device = phone("arm64", None);
    assert_eq!(device.installing_message("run"), "run to ID (My Phone)");
    assert_eq!(device.running_message("run"), "run on ID");
    assert_eq!(device.unlock_prompt(), "\n\n      Please unlock My Phone! ");
    assert_eq!(copying_to_message("/h", "d"), "/h from host to d");
    assert_eq!(copying_from_message("d", "/h"), "d from device to /h");
    assert_eq!(simulator().installing_message("run"), "run to SIM");
    assert_eq!(simulator().running_message("run"), "run on SIM");
}

#[test]
fn identifiers_of_applications() {
    assert_eq!(
        signing_app_id(&list(&["iOS Team: com.first", "iOS Team: com.second"])).ok().unwrap(),
        "com.second"
    );
    assert_eq!(signing_app_id(&list(&["single"])).ok().unwrap(), "single");
    match signing_app_id(&Vec::new()) {
        Err(error) => assert_eq!(error.message(), "no signing identity found"),
        Ok(_) => panic!(),
    }
    assert_eq!(bundle_app_id(&Some("app".to_string())).ok().unwrap(), "app");
    match bundle_app_id(&None) {
        Err(error) => assert_eq!(error.message(), "No app_id in build bundle"),
        Ok(_) => panic!(),
    }
}

#[test]
fn failures_are_told() {
    let told = |result: Result<(), DeviceError>| match result {
        Err(error) => error.message(),
        Ok(()) => "fine".to_string(),
    };
    assert_eq!(told(check_install(true)), "fine");
    assert_eq!(told(check_install(false)), "Installation on device failed\n");
    assert_eq!(told(check_copy_to(true, Some(0))), "fine");
    assert_eq!(
        told(check_copy_to(false, Some(-1))),
        "devicectl device copy to failed (exit code: Some(-1))"
    );
    assert_eq!(told(check_copy_from(true, None)), "fine");
    assert_eq!(
        told(check_copy_from(false, None)),
        "devicectl device copy from failed (exit code: None)"
    );
    assert_eq!(told(check_lldb(true, Some(0))), "fine");
    assert_eq!(told(check_lldb(false, Some(2))), "LLDB returned error code Some(2)");
    assert_eq!(told(simulator().check_install(true, "/x")), "fine");
    assert_eq!(told(simulator().check_install(false, "/x")), "Failed to install /x for SIM");
    assert_eq!(
        DeviceError::RunFailed { code: Some(101) }.message(),
        "Run on device failed (exit code: Some(101))"
    );
    assert_eq!(DeviceError::TestFailure { code: 7 }.message(), "Test failure, exit code: 7");
    assert_eq!(
        DeviceError::RunFailed { code: Some(i32::MIN) }.message(),
        "Run on device failed (exit code: Some(-2147483648))"
    );
}

#[test]
fn directories_before_copies() {
    assert_eq!(directory_to_create("/h/a/b"), Some("/h/a".to_string()));
    assert_eq!(directory_to_create("/h"), Some("/".to_string()));
    assert_eq!(directory_to_create("h"), None);
    assert_eq!(directory_to_create("/"), None);
    assert_eq!(directory_to_create("h/a"), Some("h".to_string()));
}

#[test]
fn bundles_are_made_in_steps() {
    assert_eq!(
        device_app_steps(false),
        vec![
            AppStep::MakeBundle,
            AppStep::CopyExecutable,
            AppStep::DescribeBuilt,
            AppStep::NameApp,
            AppStep::Sign,
        ]
    );
    assert_eq!(
        device_app_steps(true),
        vec![AppStep::DescribeBundled, AppStep::NameApp, AppStep::Sign]
    );
    assert_eq!(
        simulator_app_steps(false),
        vec![AppStep::MakeBundle, AppStep::CopyExecutable, AppStep::DescribeBuilt]
    );
    assert_eq!(simulator_app_steps(true), vec![AppStep::DescribeBundled, AppStep::NameApp]);
}

#[test]
fn lock_answers_are_read() {
    assert_eq!(is_locked(true, b"{\"result\": {\"passcodeRequired\": true}}").ok(), Some(true));
    assert_eq!(is_locked(true, b"{\"result\": {\"passcodeRequired\": false}}").ok(), Some(false));
    match is_locked(false, b"{\"result\": {\"passcodeRequired\": true}}") {
        Err(error) => assert_eq!(error.message(), Some("Device lock query failed\n")),
        Ok(_) => panic!(),
    }
    assert!(matches!(is_locked(true, &[0xff]), Err(LockError::NotText)));
    match is_locked(true, b"{") {
        Err(error) => {
            assert!(matches!(error, LockError::NotJson(_)));
            assert_eq!(error.message(), None);
        }
        Ok(_) => panic!(),
    }
    for answer in ["{}", "[]", "{\"result\": {}}", "{\"result\": {\"passcodeRequired\": 1}}", "3.25"] {
        assert!(matches!(is_locked(true, answer.as_bytes()), Err(LockError::NoAnswer)), "{answer}");
    }
}

fn unreadable(number: &str) -> bool {
    let answer = format!("{{\"x\": [{number}], \"result\": {{\"passcodeRequired\": true}}}}");
    match is_locked(true, answer.as_bytes()) {
        Ok(locked) => {
            assert!(locked);
            false
        }
        Err(error) => {
            assert_eq!(
                error.message(),
                Some("Device lock answer has a number with too long a fraction")
            );
            true
        }
    }
}

#[test]
fn fractions_are_read_while_they_can_be_counted() {
    let zeros = |count: usize| "0".repeat(count);
    assert!(!unreadable(&format!("0.{}", zeros(LONGEST_FRACTION))));
    assert!(unreadable(&format!("0.{}", zeros(LONGEST_FRACTION + 1))));
    assert!(unreadable(&format!("-0.{}1", zeros(LONGEST_FRACTION))));
    assert!(unreadable(&format!("0.{}1111111111111111111", zeros(LONGEST_FRACTION - 18))));
    assert!(!unreadable(&format!("0.{}1111111111111111111", zeros(LONGEST_FRACTION - 19))));
    assert!(!unreadable(&format!("0.{}22222222222222222222", zeros(LONGEST_FRACTION - 19))));
    let full = zeros(LONGEST_FRACTION - 19);
    assert!(!unreadable(&format!("0.{full}1844674407370955161")));
    assert!(!unreadable(&format!("0.{full}18446744073709551619")));
    assert!(!unreadable(&format!("0.{full}184467440737095516199")));
    assert!(unreadable(&format!("0.{full}184467440737095516195")));
    assert!(unreadable(&format!("0.{full}18446744073709551615")));
    assert!(!unreadable(&format!("0.{}18446744073709551619", zeros(LONGEST_FRACTION - 20))));
    assert!(!unreadable(&format!("0.{}", "1".repeat(LONGEST_FRACTION + 1))));
    assert!(!unreadable(&format!("1.{}", zeros(LONGEST_FRACTION + 1))));
    assert!(!unreadable(&format!("10.{}", zeros(LONGEST_FRACTION + 1))));
    assert!(!unreadable(&format!("\"0.{}\"", zeros(LONGEST_FRACTION + 1))));
    assert!(!unreadable(&format!("\"\\\"0.{}\"", zeros(LONGEST_FRACTION + 1))));
    assert!(unreadable(&format!("\"\\\\\", 0.{}", zeros(LONGEST_FRACTION + 1))));
}

#[test]
fn errors_before_a_long_fraction_come_first() {
    let long = format!("0.{}", "0".repeat(LONGEST_FRACTION + 1));
    for front in ["x", "[1 ", "1 ", "{1: ", "\"\\q\", ", "[0.5e0."] {
        let answer = format!("{front}{long}");
        let expected = match json::parse(front) {
            Err(json::Error::UnexpectedEndOfJson) | Ok(_) => None,
            Err(error) => Some(error.to_string()),
        };
        match is_locked(true, answer.as_bytes()) {
            Err(LockError::NotJson(error)) => {
                if let Some(expected) = expected {
                    assert_eq!(error.to_string(), expected);
                }
            }
            _ => panic!("{front}"),
        }
    }
    for front in ["", "[", "[1, ", "{\"a\": -", " [[ "] {
        let answer = format!("{front}{long}");
        assert!(
            matches!(is_locked(true, answer.as_bytes()), Err(LockError::FractionTooLong)),
            "{front}"
        );
    }
}

#[test]
fn answers_are_judged() {
    assert_eq!(judge_answer(Ok(Some(true))).ok(), Some(true));
    assert_eq!(judge_answer(Ok(Some(false))).ok(), Some(false));
    assert!(matches!(judge_answer(Ok(None)), Err(LockError::NoAnswer)));
    match json::parse("{") {
        Err(error) => assert!(matches!(judge_answer(Err(error)), Err(LockError::NotJson(_)))),
        Ok(_) => panic!(),
    }
}

fn event(ok: bool, answer: bool) -> Event {
    Event { ok, answer, code: None }
}

fn actions(dirs: usize, has_app_id: bool, events: &[Event]) -> Vec<Action> {
    let mut session = Session::new(dirs, has_app_id);
    let mut list = vec![session.action];
    for event in events {
        list.push(session.advance(*event));
    }
    list
}

const YES: Event = Event { ok: true, answer: true, code: None };
const NO: Event = Event { ok: true, answer: false, code: None };

#[test]
fn unlocked_device_runs_at_once() {
    let ended = Event { ok: true, answer: true, code: Some(0) };
    assert_eq!(
        actions(0, true, &[NO, ended]),
        vec![Action::QueryLock, Action::Launch, Action::Finish(Outcome::Success)]
    );
}

#[test]
fn locked_device_is_waited_for() {
    assert_eq!(
        actions(0, true, &[YES, YES, YES, YES, YES, NO, YES]),
        vec![
            Action::QueryLock,
            Action::Prompt,
            Action::Sleep,
            Action::QueryLockAgain,
            Action::Sleep,
            Action::QueryLockAgain,
            Action::Thank,
            Action::Launch,
        ]
    );
}

#[test]
fn directories_go_to_the_device_and_come_back() {
    let ended = Event { ok: true, answer: true, code: Some(0) };
    assert_eq!(
        actions(2, true, &[NO, YES, YES, NO, YES, YES, ended, YES, YES, YES, YES, YES, NO]),
        vec![
            Action::QueryLock,
            Action::FindHost(0),
            Action::CopyTo(0),
            Action::FindHost(1),
            Action::CreateHost(1),
            Action::CopyTo(1),
            Action::Launch,
            Action::FindDevice(0),
            Action::FindStale(0),
            Action::RemoveHost(0),
            Action::RecreateHost(0),
            Action::CopyFrom(0),
            Action::FindDevice(1),
            Action::Finish(Outcome::Success),
        ]
    );
}

#[test]
fn failed_application_is_reported_whatever_comes_back() {
    let ended = Event { ok: true, answer: false, code: Some(101) };
    let failed = |sync_failed: bool| {
        Action::Finish(Outcome::RunFailed { code: Some(101), sync_failed })
    };
    let start = [NO, YES, YES, ended];
    let end = |more: &[Event]| {
        let mut events = start.to_vec();
        events.extend_from_slice(more);
        *actions(1, true, &events).last().unwrap()
    };
    assert_eq!(end(&[NO]), failed(false));
    assert_eq!(end(&[event(false, false)]), failed(true));
    assert_eq!(end(&[YES, NO, YES, event(false, true)]), failed(true));
    assert_eq!(end(&[YES, YES, event(false, true)]), failed(true));
    assert_eq!(end(&[YES, NO, YES, YES]), failed(false));
    assert_eq!(end(&[YES, NO, event(false, true)]), failed(true));
}

#[test]
fn unlocked_runs_come_to_an_end() {
    for dirs in 0..4 {
        for answer in [YES, NO] {
            let mut session = Session::new(dirs, true);
            session.advance(NO);
            for _ in 0..8 * dirs + 1 {
                session.advance(answer);
            }
            assert!(matches!(session.action, Action::Finish(_)), "{dirs} {answer:?}");
        }
    }
}

#[test]
fn errors_end_the_run() {
    let error = event(false, false);
    let end = |events: &[Event]| *actions(1, true, events).last().unwrap();
    let failure = Action::Finish(Outcome::Failure);
    assert_eq!(end(&[error]), failure);
    assert_eq!(end(&[YES, YES, YES, error]), failure);
    assert_eq!(end(&[NO, NO, error]), failure);
    assert_eq!(end(&[NO, YES, error]), failure);
    assert_eq!(end(&[NO, YES, YES, error]), failure);
    assert_eq!(end(&[NO, YES, YES, YES, error]), failure);
    assert_eq!(end(&[error, YES, NO]), failure);
    assert_eq!(
        *actions(1, false, &[NO]).last().unwrap(),
        Action::Finish(Outcome::NoAppId)
    );
}

#[test]
fn outcomes_are_reported() {
    assert!(matches!(Outcome::Success.report(), Report::Success));
    assert!(matches!(Outcome::Failure.report(), Report::LastError));
    match Outcome::NoAppId.report() {
        Report::Error { error, warns } => {
            assert_eq!((error.message().as_str(), warns), ("No app_id in build bundle", false))
        }
        _ => panic!(),
    }
    for sync_failed in [false, true] {
        match (Outcome::RunFailed { code: Some(3), sync_failed }).report() {
            Report::Error { error, warns } => {
                assert_eq!(error.message(), "Run on device failed (exit code: Some(3))");
                assert_eq!(warns, sync_failed);
            }
            _ => panic!(),
        }
    }
}

#[test]
fn verdicts_are_results() {
    let told = |verdict: Verdict| match check_verdict(verdict) {
        Err(error) => error.message(),
        Ok(()) => "fine".to_string(),
    };
    assert_eq!(told(Verdict::Passed), "fine");
    assert_eq!(told(Verdict::Failed(101)), "Test failure, exit code: 101");
    assert_eq!(told(Verdict::Unreadable(NumberFault::InvalidDigit)), "invalid digit found in string");
    assert_eq!(
        told(Verdict::Unreadable(NumberFault::TooLarge)),
        "number too large to fit in target type"
    );
}

#[test]
fn containers_are_text() {
    assert_eq!(container_text("/c/\u{e9}\n".as_bytes()), Some("/c/\u{e9}\n".to_string()));
    assert_eq!(container_text(&[0xff]), None);
}

#[test]
fn simulator_arguments() {
    let device = simulator();
    assert_eq!(device.uninstall_args(), words("simctl uninstall SIM Dinghy"));
    assert_eq!(device.install_args("/b"), words("simctl install SIM /b"));
    assert_eq!(device.container_args(), words("simctl get_app_container SIM Dinghy"));
    assert_eq!(stdout_path("/c/Dinghy.app\n"), "/c/Dinghy.app/stdout");
    assert_eq!(stdout_path(""), "stdout");
    assert_eq!(
        device.launch_args("/c/stdout", &list(&["--list"])),
        words("simctl launch --wait-for-debugger --stdout=/c/stdout SIM Dinghy --list")
    );
}

#[test]
fn launched_processes_are_named() {
    assert_eq!(launched_process("Dinghy: 34163\n"), Some("34163\n".to_string()));
    assert_eq!(launched_process("Dinghy: "), Some(String::new()));
    assert_eq!(launched_process("Dinghy"), None);
    assert_eq!(launched_process("Dinghy:\u{e9}1"), None);
    assert_eq!(launched_process("\u{e9}\u{4e2d}abc1"), Some("1".to_string()));
    assert_eq!(launched_process("\u{1f680}\u{1f680}1"), Some("1".to_string()));
    assert_eq!(attach_script("34163\n"), "attach 34163\n\ncontinue\nquit\n");
}

#[test]
fn debugger_output_is_read() {
    let output = "(lldb) continue\nProcess 34163 resuming\nProcess 34163 exited with status = 101 (0x00000065)\n(lldb) quit\n";
    assert_eq!(lldb_verdict(output), Verdict::Failed(101));
    assert_eq!(
        lldb_verdict("Process 1 exited with status = 0 (0x00000000)\r\n"),
        Verdict::Passed
    );
    assert_eq!(
        lldb_verdict("Process 1 exited with status = 3 (0x3)\nProcess 1 exited with status = 0 (0x0)\n"),
        Verdict::Passed
    );
    assert_eq!(lldb_verdict("exited with status"), Verdict::Unreadable(NumberFault::InvalidDigit));
    assert_eq!(lldb_verdict("exited with status = -1 (0xff)"), Verdict::Unreadable(NumberFault::InvalidDigit));
    assert_eq!(lldb_verdict("exited with status = 4294967296 (x)"), Verdict::Unreadable(NumberFault::TooLarge));
    assert_eq!(lldb_verdict("(lldb) quit\n"), Verdict::Missing);
    assert_eq!(lldb_verdict(""), Verdict::Missing);
}

#[test]
fn processors_of_executables() {
    assert_eq!(binary_arch(b"/x: Mach-O 64-bit executable arm64\n"), Some("arm64".to_string()));
    assert_eq!(binary_arch(b"x86_64\n"), Some("x86_64".to_string()));
    assert_eq!(binary_arch(b""), Some(String::new()));
    assert_eq!(binary_arch(&[0xff]), None);
}

#[test]
fn debugger_scripts() {
    let device = simulator();
    let front = "platform select ios-simulator\ntarget create /c/Dinghy.app\n\nscript pass\ncommand script import \"/t/helpers.py\"\ncommand script add -s synchronous -f helpers.start start\ncommand script add -f helpers.connect_command connect\nconnect connect://SIM\n";
    let args = list(&["--list", "x"]);
    assert_eq!(lldb_script(&device, "/c/Dinghy.app\n", "/t/helpers.py", &args, true), front);
    assert_eq!(
        lldb_script(&device, "/c/Dinghy.app\n", "/t/helpers.py", &args, false),
        format!("{front}start --list x\nquit\n")
    );
    assert_eq!(
        assemble_lldb_script("SIM", "/c/Dinghy.app\n", "\"/t/helpers.py\"", &args, true),
        front
    );
    assert_eq!(
        helper_source("envs = [\"ENV_VAR_PLACEHOLDER\"]", &list(&["A=1", "B=2"])),
        "envs = [\"A=1\", \"B=2\"]"
    );
}
