//! Devices that are driven through `devicectl`.

use vstd::prelude::*;

use crate::args::{arg_texts, Arg};
use crate::cargo::optional_text;
use crate::number::{decimal_digits, write_decimal, NumberFault};
use crate::path::{parent_path, parent_text};
use crate::text::{
    chars_of, extend_texts, first_index, join, joined, last_piece, push_text, same_text, split_on, text_of, texts,
};

verus! {

/// What kind of simulator a device is.
#[derive(Clone, Copy, Debug, PartialEq, Eq, Structural)]
pub enum AppleSimulatorType {
    Ios,
    Tvos,
    Watchos,
}

/// A platform that code is built for.
pub struct AppleDevicePlatform {
    /// The kind of simulator, where the platform is one.
    pub sim: Option<AppleSimulatorType>,
    pub rustc_triple: String,
}

/// A device.
pub struct IosDevice {
    pub id: String,
    pub name: String,
    pub arch_cpu: &'static str,
    /// The compiler's name of the platform that runs on the device.
    pub rustc_triple: String,
    pub os: String,
    pub coredevice_id: Option<String>,
}

/// Why something could not be done on a device.
#[allow(inconsistent_fields)]
pub enum DeviceError {
    NoSigningIdentity,
    NoAppId,
    InstallFailed,
    SimInstallFailed { executable: String, id: String },
    RunFailed { code: Option<i32> },
    CopyToFailed { code: Option<i32> },
    CopyFromFailed { code: Option<i32> },
    LldbFailed { code: Option<i32> },
    TestFailure { code: u32 },
    /// The debugger tells an exit status that is no number.
    UnreadableStatus { fault: NumberFault },
}

/// The processor that the compiler knows an architecture by.
pub open spec fn cpu_of(arch: Seq<char>) -> Seq<char> {
    if arch == "arm64"@ || arch == "arm64e"@ {
        "aarch64"@
    } else {
        "armv7"@
    }
}

/// A signed number in decimal digits.
pub open spec fn signed_digits(number: int) -> Seq<char> {
    if number < 0 {
        "-"@ + decimal_digits((-number) as nat)
    } else {
        decimal_digits(number as nat)
    }
}

/// An exit code as it is shown; a program that a signal ended has none.
pub open spec fn code_text(code: Option<i32>) -> Seq<char> {
    match code {
        Some(number) => "Some("@ + signed_digits(number as int) + ")"@,
        None => "None"@,
    }
}

/// A variable, given as `key=value`, as a member of a JSON object. Without the sign the
/// value is empty.
pub open spec fn env_member(variable: Seq<char>) -> Seq<char> {
    let at = first_index(variable, '=');
    let value = if at < variable.len() {
        variable.skip(at + 1)
    } else {
        Seq::empty()
    };
    "\""@ + variable.take(at) + "\": \""@ + value + "\""@
}

/// The variables as a JSON object.
pub open spec fn env_object(variables: Seq<Seq<char>>) -> Seq<char> {
    "{"@ + joined(variables.map_values(|variable: Seq<char>| env_member(variable)), ", "@) + "}"@
}

/// The arguments that hand variables over; none where there are no variables.
pub open spec fn env_args(variables: Seq<Seq<char>>) -> Seq<Seq<char>> {
    if variables.len() == 0 {
        Seq::empty()
    } else {
        seq!["--environment-variables"@, env_object(variables)]
    }
}

impl DeviceError {
    /// What the user is told.
    pub open spec fn text(self) -> Seq<char> {
        match self {
            DeviceError::NoSigningIdentity => "no signing identity found"@,
            DeviceError::NoAppId => "No app_id in build bundle"@,
            DeviceError::InstallFailed => "Installation on device failed\n"@,
            DeviceError::SimInstallFailed { executable, id } => "Failed to install "@ + executable@
                + " for "@ + id@,
            DeviceError::RunFailed { code } => "Run on device failed (exit code: "@ + code_text(code)
                + ")"@,
            DeviceError::CopyToFailed { code } => "devicectl device copy to failed (exit code: "@
                + code_text(code) + ")"@,
            DeviceError::CopyFromFailed { code } => "devicectl device copy from failed (exit code: "@
                + code_text(code) + ")"@,
            DeviceError::LldbFailed { code } => "LLDB returned error code "@ + code_text(code),
            DeviceError::TestFailure { code } => "Test failure, exit code: "@ + decimal_digits(
                code as nat,
            ),
            DeviceError::UnreadableStatus { fault } => fault.text(),
        }
    }

    /// What the user is told.
    pub fn message(&self) -> (text: String)
        ensures
            text@ == self.text(),
    {
        match self {
            DeviceError::NoSigningIdentity => "no signing identity found".to_string(),
            DeviceError::NoAppId => "No app_id in build bundle".to_string(),
            DeviceError::InstallFailed => "Installation on device failed\n".to_string(),
            DeviceError::SimInstallFailed { executable, id } => {
                "Failed to install ".to_string().concat(executable.as_str()).concat(" for ").concat(
                    id.as_str(),
                )
            },
            DeviceError::RunFailed { code } => {
                "Run on device failed (exit code: ".to_string().concat(
                    show_code(*code).as_str(),
                ).concat(")")
            },
            DeviceError::CopyToFailed { code } => {
                "devicectl device copy to failed (exit code: ".to_string().concat(
                    show_code(*code).as_str(),
                ).concat(")")
            },
            DeviceError::CopyFromFailed { code } => {
                "devicectl device copy from failed (exit code: ".to_string().concat(
                    show_code(*code).as_str(),
                ).concat(")")
            },
            DeviceError::LldbFailed { code } => {
                "LLDB returned error code ".to_string().concat(show_code(*code).as_str())
            },
            DeviceError::TestFailure { code } => {
                "Test failure, exit code: ".to_string().concat(write_decimal(*code as u64).as_str())
            },
            DeviceError::UnreadableStatus { fault } => fault.message(),
        }
    }
}

fn show_code(code: Option<i32>) -> (text: String)
    ensures
        text@ == code_text(code),
{
    match code {
        Some(number) => {
            let wide: i64 = number as i64;
            let digits = if wide < 0 {
                "-".to_string().concat(write_decimal((-wide) as u64).as_str())
            } else {
                write_decimal(wide as u64)
            };
            "Some(".to_string().concat(digits.as_str()).concat(")")
        },
        None => "None".to_string(),
    }
}

/// A variable is handed over with its key and its value; only the first equals sign parts
/// them.
pub proof fn variables_keep_their_values(key: Seq<char>, value: Seq<char>)
    requires
        !key.contains('='),
    ensures
        env_member(key + "="@ + value) == "\""@ + key + "\": \""@ + value + "\""@,
{
    reveal_strlit("=");
    let variable = key + "="@ + value;
    assert(variable.take(key.len() as int) =~= key);
    lemma_first_index(key, variable);
    assert(variable.skip(key.len() as int + 1) =~= value);
}

proof fn lemma_first_index(key: Seq<char>, variable: Seq<char>)
    requires
        !key.contains('='),
        key.len() < variable.len(),
        variable.take(key.len() as int) == key,
        variable[key.len() as int] == '=',
    ensures
        first_index(variable, '=') == key.len(),
    decreases key.len(),
{
    if key.len() > 0 {
        let rest = key.skip(1);
        assert(variable[0] == variable.take(key.len() as int)[0]);
        assert(key.contains(key[0]));
        assert(!rest.contains('=')) by {
            if rest.contains('=') {
                let i = choose|i: int| 0 <= i < rest.len() && rest[i] == '=';
                assert(key[i + 1] == '=');
            }
        }
        assert(variable.skip(1).take(rest.len() as int) =~= rest) by {
            assert forall|i: int| 0 <= i < rest.len() implies #[trigger] variable.skip(1)[i]
                == rest[i] by {
                assert(variable.take(key.len() as int)[i + 1] == key[i + 1]);
            }
        }
        lemma_first_index(rest, variable.skip(1));
    }
}

fn show_env(variable: &str) -> (text: String)
    ensures
        text@ == env_member(variable@),
{
    let chars = chars_of(variable);
    let mut at: usize = 0;
    assert(chars@.skip(0) =~= chars@);
    while at < chars.len() && chars[at] != '='
        invariant
            at <= chars@.len(),
            chars@ == variable@,
            first_index(variable@, '=') == at + first_index(chars@.skip(at as int), '='),
        decreases chars@.len() - at,
    {
        assert(chars@.skip(at as int).skip(1) =~= chars@.skip(at + 1));
        at += 1;
    }
    let key = text_of(&chars, 0, at);
    let value = if at < chars.len() {
        text_of(&chars, at + 1, chars.len())
    } else {
        String::new()
    };
    assert(key@ =~= variable@.take(at as int));
    assert(at < chars@.len() ==> value@ =~= variable@.skip(at + 1));
    "\"".to_string().concat(key.as_str()).concat("\": \"").concat(value.as_str()).concat("\"")
}

/// The variables as a JSON object.
pub fn env_json(envs: &Vec<String>) -> (text: String)
    ensures
        text@ == env_object(texts(envs@)),
{
    let ghost wanted = texts(envs@).map_values(|variable: Seq<char>| env_member(variable));
    let mut members: Vec<String> = Vec::new();
    let mut i: usize = 0;
    assert(texts(members@) =~= wanted.take(0));
    while i < envs.len()
        invariant
            i <= envs@.len(),
            wanted == texts(envs@).map_values(|variable: Seq<char>| env_member(variable)),
            texts(members@) == wanted.take(i as int),
        decreases envs@.len() - i,
    {
        push_text(&mut members, show_env(envs[i].as_str()));
        i += 1;
        assert(wanted[i - 1] == env_member(envs@[i - 1]@));
        assert(wanted.take(i as int) =~= wanted.take(i - 1).push(wanted[i - 1]));
    }
    assert(wanted.take(i as int) =~= wanted);
    "{".to_string().concat(join(&members, ", ").as_str()).concat("}")
}

impl IosDevice {
    /// The identifier that `devicectl` knows the device by.
    pub open spec fn control_id(self) -> Seq<char> {
        match self.coredevice_id {
            Some(id) => id@,
            None => self.id@,
        }
    }

    /// A device with a processor of the architecture `arch_cpu`.
    pub fn new(
        name: String,
        id: String,
        arch_cpu: &str,
        os: String,
        coredevice_id: Option<String>,
    ) -> (result: Result<IosDevice, DeviceError>)
        ensures
            match result {
                Ok(device) => {
                    &&& device.name == name
                    &&& device.id == id
                    &&& device.os == os
                    &&& device.coredevice_id == coredevice_id
                    &&& device.arch_cpu@ == cpu_of(arch_cpu@)
                    &&& device.rustc_triple@ == cpu_of(arch_cpu@) + "-apple-ios"@
                },
                Err(_) => false,
            },
    {
        let cpu: &'static str = if same_text(arch_cpu, "arm64") || same_text(arch_cpu, "arm64e") {
            "aarch64"
        } else {
            "armv7"
        };
        Ok(
            IosDevice {
                name,
                id,
                os,
                arch_cpu: cpu,
                rustc_triple: cpu.to_string().concat("-apple-ios"),
                coredevice_id,
            },
        )
    }

    /// Returns the identifier to use with `xcrun devicectl` commands.
    pub fn devicectl_id(&self) -> (id: &str)
        ensures
            id@ == self.control_id(),
    {
        match &self.coredevice_id {
            Some(id) => id.as_str(),
            None => self.id.as_str(),
        }
    }

    /// The identifier of the device.
    pub fn id(&self) -> (id: &str)
        ensures
            id@ == self.id@,
    {
        self.id.as_str()
    }

    /// The name of the device.
    pub fn name(&self) -> (name: &str)
        ensures
            name@ == self.name@,
    {
        self.name.as_str()
    }

    /// The device as it is listed.
    pub fn display(&self) -> (text: String)
        ensures
            text@ == self.name@ + " ("@ + self.id@ + " "@ + self.arch_cpu@ + " "@ + self.os@ + ")"@,
    {
        self.name.clone().concat(" (").concat(self.id.as_str()).concat(" ").concat(
            self.arch_cpu,
        ).concat(" ").concat(self.os.as_str()).concat(")")
    }

    /// Whether what is built for the platform runs on the device.
    pub fn is_compatible_with_simulator_platform(&self, platform: &AppleDevicePlatform) -> (result:
        bool)
        ensures
            result == (platform.sim is None && platform.rustc_triple@ == self.rustc_triple@),
    {
        if platform.sim.is_some() {
            return false;
        }
        platform.rustc_triple == self.rustc_triple
    }

    /// The arguments of `xcrun` that ask whether the device is locked.
    pub fn lock_query_args(&self) -> (args: Vec<String>)
        ensures
            texts(args@) == seq![
                "devicectl"@,
                "device"@,
                "info"@,
                "lockState"@,
                "--quiet"@,
                "--json-output"@,
                "/dev/stdout"@,
                "--device"@,
                self.control_id(),
            ],
    {
        let mut args: Vec<String> = Vec::new();
        push_text(&mut args, "devicectl".to_string());
        push_text(&mut args, "device".to_string());
        push_text(&mut args, "info".to_string());
        push_text(&mut args, "lockState".to_string());
        push_text(&mut args, "--quiet".to_string());
        push_text(&mut args, "--json-output".to_string());
        push_text(&mut args, "/dev/stdout".to_string());
        push_text(&mut args, "--device".to_string());
        push_text(&mut args, self.devicectl_id().to_string());
        assert(texts(args@) =~= seq![
            "devicectl"@,
            "device"@,
            "info"@,
            "lockState"@,
            "--quiet"@,
            "--json-output"@,
            "/dev/stdout"@,
            "--device"@,
            self.control_id(),
        ]);
        args
    }

    /// The arguments of `xcrun` that install a bundle.
    pub fn install_args(&self, bundle: &str) -> (args: Vec<String>)
        ensures
            texts(args@) == seq![
                "devicectl"@,
                "device"@,
                "install"@,
                "app"@,
                "--device"@,
                self.control_id(),
                bundle@,
            ],
    {
        let mut args: Vec<String> = Vec::new();
        push_text(&mut args, "devicectl".to_string());
        push_text(&mut args, "device".to_string());
        push_text(&mut args, "install".to_string());
        push_text(&mut args, "app".to_string());
        push_text(&mut args, "--device".to_string());
        push_text(&mut args, self.devicectl_id().to_string());
        push_text(&mut args, bundle.to_string());
        assert(texts(args@) =~= seq![
            "devicectl"@,
            "device"@,
            "install"@,
            "app"@,
            "--device"@,
            self.control_id(),
            bundle@,
        ]);
        args
    }

    /// The arguments of `xcrun` that list a directory of the application's data.
    pub fn probe_args(&self, app_id: &str, device_path: &str) -> (args: Vec<String>)
        ensures
            texts(args@) == seq![
                "devicectl"@,
                "device"@,
                "info"@,
                "files"@,
                "--domain-type"@,
                "appDataContainer"@,
                "--device"@,
                self.control_id(),
                "--domain-identifier"@,
                app_id@,
                "--subdirectory"@,
                device_path@,
            ],
    {
        let mut args: Vec<String> = Vec::new();
        push_text(&mut args, "devicectl".to_string());
        push_text(&mut args, "device".to_string());
        push_text(&mut args, "info".to_string());
        push_text(&mut args, "files".to_string());
        push_text(&mut args, "--domain-type".to_string());
        push_text(&mut args, "appDataContainer".to_string());
        push_text(&mut args, "--device".to_string());
        push_text(&mut args, self.devicectl_id().to_string());
        push_text(&mut args, "--domain-identifier".to_string());
        push_text(&mut args, app_id.to_string());
        push_text(&mut args, "--subdirectory".to_string());
        push_text(&mut args, device_path.to_string());
        assert(texts(args@) =~= seq![
            "devicectl"@,
            "device"@,
            "info"@,
            "files"@,
            "--domain-type"@,
            "appDataContainer"@,
            "--device"@,
            self.control_id(),
            "--domain-identifier"@,
            app_id@,
            "--subdirectory"@,
            device_path@,
        ]);
        args
    }

    /// The arguments of `xcrun` that copy to the application's data.
    pub fn copy_to_args(&self, app_id: &str, device_destination: &str) -> (args: Vec<Arg>)
        ensures
            arg_texts(args@) == seq![
                Some("devicectl"@),
                Some("device"@),
                Some("copy"@),
                Some("to"@),
                Some("--domain-type"@),
                Some("appDataContainer"@),
                Some("--device"@),
                Some(self.control_id()),
                Some("--domain-identifier"@),
                Some(app_id@),
                Some("--source"@),
                None,
                Some("--destination"@),
                Some(device_destination@),
            ],
    {
        let args = vec![
            Arg::Text("devicectl".to_string()),
            Arg::Text("device".to_string()),
            Arg::Text("copy".to_string()),
            Arg::Text("to".to_string()),
            Arg::Text("--domain-type".to_string()),
            Arg::Text("appDataContainer".to_string()),
            Arg::Text("--device".to_string()),
            Arg::Text(self.devicectl_id().to_string()),
            Arg::Text("--domain-identifier".to_string()),
            Arg::Text(app_id.to_string()),
            Arg::Text("--source".to_string()),
            Arg::HostPath,
            Arg::Text("--destination".to_string()),
            Arg::Text(device_destination.to_string()),
        ];
        assert(arg_texts(args@) =~= seq![
            Some("devicectl"@),
            Some("device"@),
            Some("copy"@),
            Some("to"@),
            Some("--domain-type"@),
            Some("appDataContainer"@),
            Some("--device"@),
            Some(self.control_id()),
            Some("--domain-identifier"@),
            Some(app_id@),
            Some("--source"@),
            None,
            Some("--destination"@),
            Some(device_destination@),
        ]);
        args
    }

    /// The arguments of `xcrun` that copy from the application's data.
    pub fn copy_from_args(&self, app_id: &str, device_source: &str) -> (args: Vec<Arg>)
        ensures
            arg_texts(args@) == seq![
                Some("devicectl"@),
                Some("device"@),
                Some("copy"@),
                Some("from"@),
                Some("--domain-type"@),
                Some("appDataContainer"@),
                Some("--device"@),
                Some(self.control_id()),
                Some("--domain-identifier"@),
                Some(app_id@),
                Some("--source"@),
                Some(device_source@),
                Some("--destination"@),
                None,
            ],
    {
        let args = vec![
            Arg::Text("devicectl".to_string()),
            Arg::Text("device".to_string()),
            Arg::Text("copy".to_string()),
            Arg::Text("from".to_string()),
            Arg::Text("--domain-type".to_string()),
            Arg::Text("appDataContainer".to_string()),
            Arg::Text("--device".to_string()),
            Arg::Text(self.devicectl_id().to_string()),
            Arg::Text("--domain-identifier".to_string()),
            Arg::Text(app_id.to_string()),
            Arg::Text("--source".to_string()),
            Arg::Text(device_source.to_string()),
            Arg::Text("--destination".to_string()),
            Arg::HostPath,
        ];
        assert(arg_texts(args@) =~= seq![
            Some("devicectl"@),
            Some("device"@),
            Some("copy"@),
            Some("from"@),
            Some("--domain-type"@),
            Some("appDataContainer"@),
            Some("--device"@),
            Some(self.control_id()),
            Some("--domain-identifier"@),
            Some(app_id@),
            Some("--source"@),
            Some(device_source@),
            Some("--destination"@),
            None,
        ]);
        args
    }

    /// The arguments of `xcrun` that launch the application with its arguments and variables.
    pub fn launch_args(&self, app_id: &str, args: &Vec<String>, envs: &Vec<String>) -> (list: Vec<
        String,
    >)
        ensures
            texts(list@) == seq![
                "devicectl"@,
                "device"@,
                "process"@,
                "launch"@,
                "--console"@,
                "--terminate-existing"@,
                "--device"@,
                self.control_id(),
            ] + env_args(texts(envs@)) + seq![app_id@] + texts(args@),
    {
        let mut list: Vec<String> = Vec::new();
        push_text(&mut list, "devicectl".to_string());
        push_text(&mut list, "device".to_string());
        push_text(&mut list, "process".to_string());
        push_text(&mut list, "launch".to_string());
        push_text(&mut list, "--console".to_string());
        push_text(&mut list, "--terminate-existing".to_string());
        push_text(&mut list, "--device".to_string());
        push_text(&mut list, self.devicectl_id().to_string());
        let ghost front = seq![
            "devicectl"@,
            "device"@,
            "process"@,
            "launch"@,
            "--console"@,
            "--terminate-existing"@,
            "--device"@,
            self.control_id(),
        ];
        assert(texts(list@) =~= front);
        if envs.len() != 0 {
            push_text(&mut list, "--environment-variables".to_string());
            push_text(&mut list, env_json(envs));
        }
        assert(texts(list@) =~= front + env_args(texts(envs@)));
        push_text(&mut list, app_id.to_string());
        let ghost named = front + env_args(texts(envs@)) + seq![app_id@];
        assert(texts(list@) =~= named);
        extend_texts(&mut list, args);
        list
    }

    /// What is shown when something is installed on the device.
    pub fn installing_message(&self, runnable_id: &str) -> (text: String)
        ensures
            text@ == runnable_id@ + " to "@ + self.id@ + " ("@ + self.name@ + ")"@,
    {
        runnable_id.to_string().concat(" to ").concat(self.id.as_str()).concat(" (").concat(
            self.name.as_str(),
        ).concat(")")
    }

    /// What is shown when something is run on the device.
    pub fn running_message(&self, runnable_id: &str) -> (text: String)
        ensures
            text@ == runnable_id@ + " on "@ + self.id@,
    {
        runnable_id.to_string().concat(" on ").concat(self.id.as_str())
    }

    /// What is shown while the device is locked.
    pub fn unlock_prompt(&self) -> (text: String)
        ensures
            text@ == "\n\n      Please unlock "@ + self.name@ + "! "@,
    {
        "\n\n      Please unlock ".to_string().concat(self.name.as_str()).concat("! ")
    }
}

/// The identifier of the application: the last word of the last signing identity.
pub fn signing_app_id(identities: &Vec<String>) -> (result: Result<String, DeviceError>)
    ensures
        match result {
            Ok(app_id) => identities@.len() > 0 && app_id@ == split_on(
                identities@.last()@,
                ' ',
            ).last(),
            Err(error) => identities@.len() == 0 && error is NoSigningIdentity,
        },
{
    if identities.len() == 0 {
        return Err(DeviceError::NoSigningIdentity);
    }
    Ok(last_piece(identities[identities.len() - 1].as_str(), ' '))
}

/// The identifier of the application in a bundle.
pub fn bundle_app_id(app_id: &Option<String>) -> (result: Result<&str, DeviceError>)
    ensures
        match result {
            Ok(id) => optional_text(*app_id) == Some(id@),
            Err(error) => app_id is None && error is NoAppId,
        },
{
    match app_id {
        Some(id) => Ok(id.as_str()),
        None => Err(DeviceError::NoAppId),
    }
}

/// What came of installing something on a device.
pub fn check_install(success: bool) -> (result: Result<(), DeviceError>)
    ensures
        match result {
            Ok(_) => success,
            Err(error) => !success && error is InstallFailed,
        },
{
    if success {
        Ok(())
    } else {
        Err(DeviceError::InstallFailed)
    }
}

/// What came of copying to a device.
pub fn check_copy_to(success: bool, code: Option<i32>) -> (result: Result<(), DeviceError>)
    ensures
        match result {
            Ok(_) => success,
            Err(error) => !success && error == (DeviceError::CopyToFailed { code }),
        },
{
    if success {
        Ok(())
    } else {
        Err(DeviceError::CopyToFailed { code })
    }
}

/// What came of copying from a device.
pub fn check_copy_from(success: bool, code: Option<i32>) -> (result: Result<(), DeviceError>)
    ensures
        match result {
            Ok(_) => success,
            Err(error) => !success && error == (DeviceError::CopyFromFailed { code }),
        },
{
    if success {
        Ok(())
    } else {
        Err(DeviceError::CopyFromFailed { code })
    }
}

/// What is shown when something is copied to a device.
pub fn copying_to_message(host_source: &str, device_destination: &str) -> (text: String)
    ensures
        text@ == host_source@ + " from host to "@ + device_destination@,
{
    host_source.to_string().concat(" from host to ").concat(device_destination)
}

/// What is shown when something is copied from a device.
pub fn copying_from_message(device_source: &str, host_destination: &str) -> (text: String)
    ensures
        text@ == device_source@ + " from device to "@ + host_destination@,
{
    device_source.to_string().concat(" from device to ").concat(host_destination)
}

/// The directory that has to be there before something is copied to `host_destination`;
/// for a path of one name there is none.
pub fn directory_to_create(host_destination: &str) -> (result: Option<String>)
    ensures
        match result {
            Some(directory) => directory@.len() > 0 && parent_text(host_destination@) == Some(
                directory@,
            ),
            None => match parent_text(host_destination@) {
                Some(directory) => directory.len() == 0,
                None => true,
            },
        },
{
    match parent_path(host_destination) {
        Some(directory) => if directory.as_str().is_empty() {
            None
        } else {
            Some(directory)
        },
        None => None,
    }
}

} // verus!
