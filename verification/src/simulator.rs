//! Simulators, and the debugger that runs the application on them.

use vstd::prelude::*;
use vstd::utf8::{decode_utf8, valid_utf8};

use crate::bytes::utf8_text;
use crate::device::{AppleDevicePlatform, AppleSimulatorType, DeviceError};
use crate::number::{
    decimal_digits, decimal_round_trip, decimal_value, digits_are_digits, find_fault, is_digit,
    number_fault, parse_decimal, NumberFault,
};
use crate::path::{join, path_below};
use crate::quote::{debug_path, quote_path};
use crate::text::{
    chars_of, contains, extend_texts, is_white_space, joined, last_piece, lines, occurs, occurs_at, push_text, replace,
    replaced, split_lines, split_on, split_words, text_of, texts, trim, trimmed, words,
};

verus! {

/// A simulator.
pub struct AppleSimDevice {
    pub id: String,
    pub name: String,
    pub os: String,
    pub sim_type: AppleSimulatorType,
}

/// What the output of the debugger says of the application.
#[derive(Clone, Copy, Debug, PartialEq, Eq, Structural)]
pub enum Verdict {
    /// It exited with status 0.
    Passed,
    /// It exited with another status.
    Failed(u32),
    /// It exited with a status that is no number.
    Unreadable(NumberFault),
    /// Nothing is said of its exit.
    Missing,
}

impl AppleSimDevice {
    /// The identifier of the simulator.
    pub fn id(&self) -> (id: &str)
        ensures
            id@ == self.id@,
    {
        self.id.as_str()
    }

    /// The name of the simulator.
    pub fn name(&self) -> (name: &str)
        ensures
            name@ == self.name@,
    {
        self.name.as_str()
    }

    /// The simulator as it is listed.
    pub fn display(&self) -> (text: String)
        ensures
            text@ == self.name@ + " ("@ + self.id@ + " sim "@ + self.os@ + ")"@,
    {
        self.name.clone().concat(" (").concat(self.id.as_str()).concat(" sim ").concat(
            self.os.as_str(),
        ).concat(")")
    }

    /// Whether what is built for the platform runs on the simulator.
    pub fn is_compatible_with_simulator_platform(&self, platform: &AppleDevicePlatform) -> (result:
        bool)
        ensures
            result == (platform.sim == Some(self.sim_type)),
    {
        match &platform.sim {
            Some(sim) => self.sim_type == *sim,
            None => false,
        }
    }

    /// What is shown when something is installed on the simulator.
    pub fn installing_message(&self, runnable_id: &str) -> (text: String)
        ensures
            text@ == runnable_id@ + " to "@ + self.id@,
    {
        runnable_id.to_string().concat(" to ").concat(self.id.as_str())
    }

    /// What is shown when something is run on the simulator.
    pub fn running_message(&self, runnable_id: &str) -> (text: String)
        ensures
            text@ == runnable_id@ + " on "@ + self.id@,
    {
        runnable_id.to_string().concat(" on ").concat(self.id.as_str())
    }

    /// What came of installing the executable.
    pub fn check_install(&self, success: bool, executable: &str) -> (result: Result<(), DeviceError>)
        ensures
            match result {
                Ok(_) => success,
                Err(DeviceError::SimInstallFailed { executable: shown, id }) => !success && shown@
                    == executable@ && id@ == self.id@,
                Err(_) => false,
            },
    {
        if success {
            Ok(())
        } else {
            Err(
                DeviceError::SimInstallFailed {
                    executable: executable.to_string(),
                    id: self.id.clone(),
                },
            )
        }
    }

    /// The arguments of `xcrun` that remove the application.
    pub fn uninstall_args(&self) -> (args: Vec<String>)
        ensures
            texts(args@) == seq!["simctl"@, "uninstall"@, self.id@, "Dinghy"@],
    {
        let mut args: Vec<String> = Vec::new();
        push_text(&mut args, "simctl".to_string());
        push_text(&mut args, "uninstall".to_string());
        push_text(&mut args, self.id.clone());
        push_text(&mut args, "Dinghy".to_string());
        assert(texts(args@) =~= seq!["simctl"@, "uninstall"@, self.id@, "Dinghy"@]);
        args
    }

    /// The arguments of `xcrun` that install a bundle.
    pub fn install_args(&self, bundle_dir: &str) -> (args: Vec<String>)
        ensures
            texts(args@) == seq!["simctl"@, "install"@, self.id@, bundle_dir@],
    {
        let mut args: Vec<String> = Vec::new();
        push_text(&mut args, "simctl".to_string());
        push_text(&mut args, "install".to_string());
        push_text(&mut args, self.id.clone());
        push_text(&mut args, bundle_dir.to_string());
        assert(texts(args@) =~= seq!["simctl"@, "install"@, self.id@, bundle_dir@]);
        args
    }

    /// The arguments of `xcrun` that tell where the application is installed.
    pub fn container_args(&self) -> (args: Vec<String>)
        ensures
            texts(args@) == seq!["simctl"@, "get_app_container"@, self.id@, "Dinghy"@],
    {
        let mut args: Vec<String> = Vec::new();
        push_text(&mut args, "simctl".to_string());
        push_text(&mut args, "get_app_container".to_string());
        push_text(&mut args, self.id.clone());
        push_text(&mut args, "Dinghy".to_string());
        assert(texts(args@) =~= seq!["simctl"@, "get_app_container"@, self.id@, "Dinghy"@]);
        args
    }

    /// The arguments of `xcrun` that launch the application and let it wait for the debugger.
    pub fn launch_args(&self, stdout: &str, app_args: &Vec<String>) -> (args: Vec<String>)
        ensures
            texts(args@) == seq![
                "simctl"@,
                "launch"@,
                "--wait-for-debugger"@,
                "--stdout="@ + stdout@,
                self.id@,
                "Dinghy"@,
            ] + texts(app_args@),
    {
        let mut args: Vec<String> = Vec::new();
        push_text(&mut args, "simctl".to_string());
        push_text(&mut args, "launch".to_string());
        push_text(&mut args, "--wait-for-debugger".to_string());
        push_text(&mut args, "--stdout=".to_string().concat(stdout));
        push_text(&mut args, self.id.clone());
        push_text(&mut args, "Dinghy".to_string());
        assert(texts(args@) =~= seq![
            "simctl"@,
            "launch"@,
            "--wait-for-debugger"@,
            "--stdout="@ + stdout@,
            self.id@,
            "Dinghy"@,
        ]);
        extend_texts(&mut args, app_args);
        args
    }
}

/// `text` without its last character.
pub open spec fn without_last(text: Seq<char>) -> Seq<char> {
    if text.len() == 0 {
        text
    } else {
        text.drop_last()
    }
}

/// The output of `xcrun` that tells where the application is installed, as text; `None` where
/// it is not valid UTF-8.
pub fn container_text(stdout: &[u8]) -> (result: Option<String>)
    ensures
        match result {
            Some(text) => valid_utf8(stdout@) && text@ == decode_utf8(stdout@),
            None => !valid_utf8(stdout@),
        },
{
    match utf8_text(stdout) {
        Some(text) => Some(text.to_string()),
        None => None,
    }
}

/// The file that the application writes to, from the output of `xcrun` that tells where the
/// application is installed. The output ends with a line feed.
pub fn stdout_path(container: &str) -> (path: String)
    ensures
        path@ == path_below(without_last(container@), "stdout"@),
{
    let chars = chars_of(container);
    let end: usize = if chars.len() == 0 {
        0
    } else {
        chars.len() - 1
    };
    let install_path = text_of(&chars, 0, end);
    assert(install_path@ =~= without_last(container@));
    join(install_path.as_str(), "stdout")
}

/// The number of bytes of a character in UTF-8.
pub open spec fn byte_width(ch: char) -> nat {
    if ch <= '\u{7f}' {
        1
    } else if ch <= '\u{7ff}' {
        2
    } else if ch <= '\u{ffff}' {
        3
    } else {
        4
    }
}

/// The number of bytes of a text in UTF-8.
pub open spec fn byte_length(text: Seq<char>) -> nat
    decreases text.len(),
{
    if text.len() == 0 {
        0
    } else {
        byte_width(text[0]) + byte_length(text.skip(1))
    }
}

/// The characters behind the first `count` bytes; `None` where the text is shorter or a
/// character stands across that place.
pub open spec fn behind_bytes(text: Seq<char>, count: nat) -> Option<Seq<char>>
    decreases text.len(),
{
    if count == 0 {
        Some(text)
    } else if text.len() == 0 || count < byte_width(text[0]) {
        None
    } else {
        behind_bytes(text.skip(1), (count - byte_width(text[0])) as nat)
    }
}

/// The process that was launched: the output is `Dinghy: ` and the process.
pub fn launched_process(launch_output: &str) -> (process: Option<String>)
    ensures
        match process {
            Some(process) => behind_bytes(launch_output@, 8) == Some(process@),
            None => behind_bytes(launch_output@, 8) is None,
        },
{
    let chars = chars_of(launch_output);
    let mut left: usize = 8;
    let mut i: usize = 0;
    assert(chars@.skip(0) =~= chars@);
    while 0 < left
        invariant
            i <= chars@.len(),
            chars@ == launch_output@,
            behind_bytes(launch_output@, 8) == behind_bytes(chars@.skip(i as int), left as nat),
        decreases left,
    {
        if i == chars.len() {
            return None;
        }
        let ch = chars[i];
        assert(chars@.skip(i as int)[0] == ch);
        let width: usize = if ch <= '\u{7f}' {
            1
        } else if ch <= '\u{7ff}' {
            2
        } else if ch <= '\u{ffff}' {
            3
        } else {
            4
        };
        if left < width {
            return None;
        }
        left -= width;
        assert(chars@.skip(i as int).skip(1) =~= chars@.skip(i + 1));
        i += 1;
    }
    let process = text_of(&chars, i, chars.len());
    assert(process@ =~= chars@.skip(i as int));
    Some(process)
}

/// What stands behind a beginning of a text is what stands behind as many bytes.
pub proof fn cut_is_behind_its_bytes(front: Seq<char>, rest: Seq<char>)
    ensures
        behind_bytes(front + rest, byte_length(front)) == Some(rest),
    decreases front.len(),
{
    if front.len() == 0 {
        assert(front + rest =~= rest);
    } else {
        cut_is_behind_its_bytes(front.skip(1), rest);
        assert((front + rest).skip(1) =~= front.skip(1) + rest);
    }
}

/// The output of a launch gives the process that it names.
pub proof fn launch_output_names_the_process(process: Seq<char>)
    ensures
        behind_bytes("Dinghy: "@ + process, 8) == Some(process),
{
    reveal_strlit("Dinghy: ");
    reveal_with_fuel(byte_length, 9);
    assert(byte_length("Dinghy: "@) == 8);
    cut_is_behind_its_bytes("Dinghy: "@, process);
}

/// The script that lets the debugger run a process to its end.
pub fn attach_script(process: &str) -> (script: String)
    ensures
        script@ == "attach "@ + process@ + "\ncontinue\nquit\n"@,
{
    "attach ".to_string().concat(process).concat("\ncontinue\nquit\n")
}

/// Where the last line that holds `wanted` stands; -1 where there is none.
pub open spec fn last_holding(list: Seq<Seq<char>>, wanted: Seq<char>) -> int
    decreases list.len(),
{
    if list.len() == 0 {
        -1
    } else if occurs(list.last(), wanted) {
        list.len() - 1
    } else {
        last_holding(list.drop_last(), wanted)
    }
}

/// What the line on the exit says: the status is its last word but one.
pub open spec fn exit_verdict(line: Seq<char>) -> Verdict {
    let status = words(line)[words(line).len() - 2];
    match decimal_value(status, u32::MAX as nat) {
        Some(number) => if number == 0 {
            Verdict::Passed
        } else {
            Verdict::Failed(number as u32)
        },
        None => Verdict::Unreadable(number_fault(status, u32::MAX as nat)),
    }
}

/// What the output of the debugger says: the last line on an exit counts.
pub open spec fn output_verdict(output: Seq<char>) -> Verdict {
    let at = last_holding(lines(output), "exited with status"@);
    if at < 0 {
        Verdict::Missing
    } else {
        exit_verdict(lines(output)[at])
    }
}

/// Reads how the application exited from the output of the debugger.
pub fn lldb_verdict(output: &str) -> (verdict: Verdict)
    ensures
        verdict == output_verdict(output@),
{
    let list = split_lines(output);
    let ghost all = texts(list@);
    let mut i: usize = list.len();
    assert(all.take(i as int) =~= all);
    while 0 < i
        invariant
            i <= list@.len(),
            all == texts(list@),
            all == lines(output@),
            last_holding(all, "exited with status"@) == last_holding(
                all.take(i as int),
                "exited with status"@,
            ),
        decreases i,
    {
        i -= 1;
        assert(all.take(i + 1).drop_last() =~= all.take(i as int));
        assert(all.take(i + 1).last() == list@[i as int]@);
        if contains(list[i].as_str(), "exited with status") {
            proof {
                exit_line_has_words(list@[i as int]@);
            }
            let parts = split_words(list[i].as_str());
            assert(texts(parts@).len() == parts@.len());
            let at: usize = parts.len() - 2;
            assert(texts(parts@)[at as int] == parts@[at as int]@);
            return match parse_decimal(parts[at].as_str(), u32::MAX) {
                Some(number) => if number == 0 {
                    Verdict::Passed
                } else {
                    Verdict::Failed(number)
                },
                None => Verdict::Unreadable(find_fault(parts[at].as_str(), u32::MAX)),
            };
        }
    }
    Verdict::Missing
}

/// What came of the application. Where nothing is said of its exit, nothing came of it.
pub fn check_verdict(verdict: Verdict) -> (result: Result<(), DeviceError>)
    requires
        !(verdict is Missing),
    ensures
        match verdict {
            Verdict::Failed(code) => result == Err::<(), DeviceError>(
                (DeviceError::TestFailure { code }),
            ),
            Verdict::Unreadable(fault) => result == Err::<(), DeviceError>(
                (DeviceError::UnreadableStatus { fault }),
            ),
            _ => result is Ok,
        },
{
    match verdict {
        Verdict::Failed(code) => Err(DeviceError::TestFailure { code }),
        Verdict::Unreadable(fault) => Err(DeviceError::UnreadableStatus { fault }),
        _ => Ok(()),
    }
}

/// A line on an exit has more than one word, so its last word but one is always there.
pub proof fn exit_line_has_words(line: Seq<char>)
    requires
        occurs(line, "exited with status"@),
    ensures
        words(line).len() >= 2,
{
    reveal_strlit("exited with status");
    let pattern = "exited with status"@;
    let at = choose|at: int| occurs_at(line, pattern, at);
    assert(line.subrange(at, at + pattern.len()) =~= pattern);
    assert(line[at + 5] == pattern[5]);
    assert(line[at + 6] == pattern[6]);
    assert(line[at + 7] == pattern[7]);
    lemma_two_words(line, at + 5);
}

proof fn lemma_word(text: Seq<char>, at: int)
    requires
        0 <= at < text.len(),
        !is_white_space(text[at]),
    ensures
        words(text).len() >= 1,
    decreases text.len(),
{
    if at < text.len() - 1 {
        assert(text.drop_last()[at] == text[at]);
        lemma_word(text.drop_last(), at);
    } else if text.len() > 1 && !is_white_space(text[text.len() - 2]) {
        assert(text.drop_last()[at - 1] == text[at - 1]);
        lemma_word(text.drop_last(), at - 1);
    }
}

proof fn lemma_two_words(text: Seq<char>, at: int)
    requires
        0 <= at,
        at + 2 < text.len(),
        !is_white_space(text[at]),
        is_white_space(text[at + 1]),
        !is_white_space(text[at + 2]),
    ensures
        words(text).len() >= 2,
    decreases text.len(),
{
    let before = text.drop_last();
    assert(forall|i: int| 0 <= i < before.len() ==> before[i] == text[i]);
    if at + 3 < text.len() {
        lemma_two_words(before, at);
    } else {
        lemma_word(before, at);
    }
}

proof fn lemma_last_word(front: Seq<char>, word: Seq<char>)
    requires
        word.len() > 0,
        forall|i: int| 0 <= i < word.len() ==> !is_white_space(#[trigger] word[i]),
    ensures
        words(front.push(' ') + word) == words(front).push(word),
    decreases word.len(),
{
    let text = front.push(' ') + word;
    let before = text.drop_last();
    assert(text.last() == word.last());
    assert(!is_white_space(word[word.len() - 1]));
    if word.len() == 1 {
        assert(before =~= front.push(' '));
        assert(front.push(' ').drop_last() =~= front);
        assert(words(front.push(' ')) == words(front));
        assert(is_white_space(text[text.len() - 2]));
        assert(word =~= seq![text.last()]);
    } else {
        let shorter = word.drop_last();
        assert(before =~= front.push(' ') + shorter);
        lemma_last_word(front, shorter);
        assert(text[text.len() - 2] == word[word.len() - 2]);
        assert(words(front).push(shorter).drop_last() =~= words(front));
        assert(shorter.push(text.last()) =~= word);
    }
}

/// A line on an exit says the status in decimal digits as its last word but one, and that is
/// the status that counts.
pub proof fn exit_line_gives_its_status(front: Seq<char>, status: u32, tail: Seq<char>)
    requires
        tail.len() > 0,
        forall|i: int| 0 <= i < tail.len() ==> !is_white_space(#[trigger] tail[i]),
    ensures
        exit_verdict(front + " "@ + decimal_digits(status as nat) + " "@ + tail) == (if status
            == 0 {
            Verdict::Passed
        } else {
            Verdict::Failed(status)
        }),
{
    reveal_strlit(" ");
    let digits = decimal_digits(status as nat);
    decimal_round_trip(status as nat, u32::MAX as nat);
    digits_are_digits(status as nat);
    assert forall|i: int| 0 <= i < digits.len() implies !is_white_space(#[trigger] digits[i]) by {
        assert(is_digit(digits[i]));
    }
    lemma_last_word(front, digits);
    lemma_last_word(front.push(' ') + digits, tail);
    assert(front + " "@ + digits + " "@ + tail =~= (front.push(' ') + digits).push(' ') + tail);
}

/// The last line on an exit counts, whatever stands behind it.
pub proof fn last_exit_line_counts(output: Seq<char>, at: int)
    requires
        0 <= at < lines(output).len(),
        occurs(lines(output)[at], "exited with status"@),
        forall|i: int|
            at < i < lines(output).len() ==> !occurs(
                #[trigger] lines(output)[i],
                "exited with status"@,
            ),
    ensures
        output_verdict(output) == exit_verdict(lines(output)[at]),
{
    lemma_last_holding(lines(output), "exited with status"@, at);
}

proof fn lemma_last_holding(list: Seq<Seq<char>>, wanted: Seq<char>, at: int)
    requires
        0 <= at < list.len(),
        occurs(list[at], wanted),
        forall|i: int| at < i < list.len() ==> !occurs(#[trigger] list[i], wanted),
    ensures
        last_holding(list, wanted) == at,
    decreases list.len(),
{
    if at < list.len() - 1 {
        assert(!occurs(list[list.len() - 1], wanted));
        assert forall|i: int| at < i < list.drop_last().len() implies !occurs(
            #[trigger] list.drop_last()[i],
            wanted,
        ) by {
            assert(!occurs(list[i], wanted));
        }
        lemma_last_holding(list.drop_last(), wanted, at);
    }
}

/// How an executable's file type is told: the last word behind a blank, without white space.
pub open spec fn arch_of(magic: Seq<char>) -> Seq<char> {
    trimmed(split_on(magic, ' ').last())
}

/// The processor that an executable is built for, from the output of `file`; `None` where the
/// output is not valid UTF-8.
pub fn binary_arch(magic: &[u8]) -> (result: Option<String>)
    ensures
        match result {
            Some(arch) => valid_utf8(magic@) && arch@ == arch_of(decode_utf8(magic@)),
            None => !valid_utf8(magic@),
        },
{
    match utf8_text(magic) {
        Some(text) => Some(trim(last_piece(text, ' ').as_str())),
        None => None,
    }
}

/// Puts the variables into the source of the debugger's helpers.
pub fn helper_source(template: &str, envs: &Vec<String>) -> (source: String)
    ensures
        source@ == replaced(
            template@,
            "ENV_VAR_PLACEHOLDER"@,
            joined(texts(envs@), "\", \""@),
        ),
{
    proof {
        reveal_strlit("ENV_VAR_PLACEHOLDER");
    }
    replace(template, "ENV_VAR_PLACEHOLDER", crate::text::join(envs, "\", \"").as_str())
}

/// The script that lets the debugger connect to the simulator, with the path of its helpers in
/// quotes. Without a debugger session the application is started, and the debugger is left.
pub open spec fn simulator_script(
    id: Seq<char>,
    installed: Seq<char>,
    quoted_helpers: Seq<char>,
    args: Seq<Seq<char>>,
    debugger: bool,
) -> Seq<char> {
    let session = "platform select ios-simulator\ntarget create "@ + installed
        + "\nscript pass\ncommand script import "@ + quoted_helpers
        + "\ncommand script add -s synchronous -f helpers.start start\ncommand script add -f helpers.connect_command connect\nconnect connect://"@
        + id + "\n"@;
    if debugger {
        session
    } else {
        session + "start "@ + joined(args, " "@) + "\nquit\n"@
    }
}

/// Writes the script with the path of the helpers in quotes.
pub fn assemble_lldb_script(
    id: &str,
    installed: &str,
    quoted_helpers: &str,
    args: &Vec<String>,
    debugger: bool,
) -> (script: String)
    ensures
        script@ == simulator_script(id@, installed@, quoted_helpers@, texts(args@), debugger),
{
    let session = "platform select ios-simulator\ntarget create ".to_string().concat(
        installed,
    ).concat("\nscript pass\ncommand script import ").concat(quoted_helpers).concat(
        "\ncommand script add -s synchronous -f helpers.start start\ncommand script add -f helpers.connect_command connect\nconnect connect://",
    ).concat(id).concat("\n");
    if debugger {
        session
    } else {
        session.concat("start ").concat(crate::text::join(args, " ").as_str()).concat("\nquit\n")
    }
}

/// Writes the script for a simulator.
pub fn lldb_script(
    device: &AppleSimDevice,
    installed: &str,
    helpers: &str,
    args: &Vec<String>,
    debugger: bool,
) -> (script: String)
    ensures
        script@ == simulator_script(
            device.id@,
            installed@,
            debug_path(helpers@),
            texts(args@),
            debugger,
        ),
{
    assemble_lldb_script(
        device.id.as_str(),
        installed,
        quote_path(helpers).as_str(),
        args,
        debugger,
    )
}

/// What came of the debugger.
pub fn check_lldb(success: bool, code: Option<i32>) -> (result: Result<(), DeviceError>)
    ensures
        match result {
            Ok(_) => success,
            Err(error) => !success && error == (DeviceError::LldbFailed { code }),
        },
{
    if success {
        Ok(())
    } else {
        Err(DeviceError::LldbFailed { code })
    }
}

} // verus!
