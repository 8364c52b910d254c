//! Laws on devices.

use vstd::prelude::*;

use crate::args::{arg_texts, Arg};
use crate::cargo::optional_text;
use crate::device::{code_text, cpu_of, env_args, env_member, env_object, DeviceError, IosDevice};
use crate::laws::text::{first_place_of_a_character, joined_of_few, joined_of_two};
use crate::number::decimal_digits;
use crate::text::joined;

verus! {

/// The 64-bit architectures have the one processor, and all others have the other.
pub proof fn processors_of_architectures(arch: Seq<char>)
    ensures
        cpu_of("arm64"@) == "aarch64"@,
        cpu_of("arm64e"@) == "aarch64"@,
        arch != "arm64"@ && arch != "arm64e"@ ==> cpu_of(arch) == "armv7"@,
{
}

/// The identifier for `devicectl` is the one for it, where there is one.
pub proof fn own_identifier_comes_first(device: IosDevice)
    ensures
        device.coredevice_id matches Some(id) ==> device.control_id() == id@,
        device.coredevice_id is None ==> device.control_id() == device.id@,
{
}

/// Without variables nothing is handed over. Any others are handed over behind
/// `--environment-variables`, as one object with a member for each of them, in order.
pub proof fn every_variable_is_handed_over(variables: Seq<Seq<char>>, members: Seq<Seq<char>>)
    requires
        members.len() == variables.len(),
        forall|i: int| 0 <= i < members.len() ==> #[trigger] members[i] == env_member(variables[i]),
    ensures
        env_args(Seq::empty()) == Seq::<Seq<char>>::empty(),
        variables.len() > 0 ==> {
            &&& env_args(variables).len() == 2
            &&& env_args(variables)[0] == "--environment-variables"@
            &&& env_args(variables)[1] == "{"@ + joined(members, ", "@) + "}"@
        },
{
    assert(variables.map_values(|variable: Seq<char>| env_member(variable)) =~= members);
}

/// The object of two lists of variables holds the members of both, with a comma between them,
/// and the object of one variable holds its member.
pub proof fn objects_hold_their_members(
    first: Seq<Seq<char>>,
    second: Seq<Seq<char>>,
    variable: Seq<char>,
)
    requires
        first.len() > 0,
        second.len() > 0,
    ensures
        env_object(seq![variable]) == "{"@ + env_member(variable) + "}"@,
        env_object(Seq::empty()) == "{"@ + Seq::<char>::empty() + "}"@,
        exists|left: Seq<char>, right: Seq<char>|
            env_object(first) == "{"@ + left + "}"@ && env_object(second) == "{"@ + right + "}"@
                && env_object(first + second) == "{"@ + (#[trigger] (left + ", "@ + right)) + "}"@,
{
    let all = |list: Seq<Seq<char>>|
        list.map_values(|variable: Seq<char>| env_member(variable));
    assert(all(seq![variable]) =~= seq![env_member(variable)]);
    assert(all(Seq::empty()) =~= Seq::empty());
    joined_of_few(env_member(variable), ", "@);
    assert(all(first + second) =~= all(first) + all(second));
    joined_of_two(all(first), all(second), ", "@);
    let left = joined(all(first), ", "@);
    let right = joined(all(second), ", "@);
    assert(env_object(first + second) == "{"@ + (left + ", "@ + right) + "}"@);
}

/// A variable without an equals sign has an empty value.
pub proof fn variable_without_a_sign_is_empty(key: Seq<char>)
    requires
        !key.contains('='),
    ensures
        env_member(key) == "\""@ + key + "\": \""@ + Seq::empty() + "\""@,
{
    first_place_of_a_character(key, '=', Seq::empty());
    assert(key.take(key.len() as int) =~= key);
}

/// Each argument stands for its text, and the path on the host for itself.
pub proof fn arguments_stand_for_their_texts(args: Seq<Arg>, i: int)
    requires
        0 <= i < args.len(),
    ensures
        arg_texts(args).len() == args.len(),
        match args[i] {
            Arg::Text(text) => arg_texts(args)[i] == Some(text@),
            Arg::HostPath => arg_texts(args)[i] is None,
        },
{
}

/// A text that may be missing is itself, where it is there.
pub proof fn optional_texts_are_themselves(value: Option<String>)
    ensures
        value is Some <==> optional_text(value) is Some,
        value matches Some(text) ==> optional_text(value) == Some(text@),
{
}

/// A step that failed is told with its name and the exit code.
pub proof fn failed_steps_are_told(code: Option<i32>, status: u32, executable: String, id: String)
    ensures
        (DeviceError::RunFailed { code }).text() == "Run on device failed (exit code: "@
            + code_text(code) + ")"@,
        (DeviceError::CopyToFailed { code }).text()
            == "devicectl device copy to failed (exit code: "@ + code_text(code) + ")"@,
        (DeviceError::CopyFromFailed { code }).text()
            == "devicectl device copy from failed (exit code: "@ + code_text(code) + ")"@,
        (DeviceError::LldbFailed { code }).text() == "LLDB returned error code "@ + code_text(code),
        (DeviceError::TestFailure { code: status }).text() == "Test failure, exit code: "@
            + decimal_digits(status as nat),
        (DeviceError::SimInstallFailed { executable, id }).text() == "Failed to install "@
            + executable@ + " for "@ + id@,
        DeviceError::NoSigningIdentity.text() == "no signing identity found"@,
        DeviceError::NoAppId.text() == "No app_id in build bundle"@,
        DeviceError::InstallFailed.text() == "Installation on device failed\n"@,
{
}

/// An exit code is told with its sign.
pub proof fn codes_are_told_with_their_sign(code: i32)
    ensures
        code >= 0 ==> code_text(Some(code)) == "Some("@ + decimal_digits(code as nat) + ")"@,
        code < 0 ==> code_text(Some(code)) == "Some("@ + ("-"@ + decimal_digits((-code) as nat))
            + ")"@,
        code_text(None) == "None"@,
{
}

} // verus!
