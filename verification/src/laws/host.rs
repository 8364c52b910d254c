//! Laws on the generated application.

use vstd::prelude::*;

use crate::cargo::Package;
use crate::config::{workspace_settings, Json};
use crate::host::{build_target_args, preparation, GeneratedFile, HostError, HostFault};
use crate::laws::text::pattern_between_texts_occurs;
use crate::target::resolution;
use crate::text::occurs;

verus! {

/// An executable below a directory `release` is a release build; one whose path does not name
/// that directory is not.
pub proof fn release_builds_stand_below_release(
    rustc_triple: Seq<char>,
    packages: Seq<Package>,
    root: Seq<char>,
    front: Seq<char>,
    back: Seq<char>,
    other: Seq<char>,
    runner_args: Seq<Seq<char>>,
    metadata: Json,
)
    requires
        !occurs(other, "/release/"@),
    ensures
        preparation(
            rustc_triple,
            packages,
            root,
            front + "/release/"@ + back,
            runner_args,
            metadata,
        ) matches Ok(Some((_, _, release))) ==> release,
        preparation(
            rustc_triple,
            packages,
            root,
            other,
            runner_args,
            metadata,
        ) matches Ok(Some((_, _, release))) ==> !release,
{
    pattern_between_texts_occurs(front, "/release/"@, back);
}

/// An application is generated for every platform of Apple's, from the resolved target and the
/// settings of the workspace; a target that is not found is told before wrong settings.
pub proof fn apple_platforms_get_an_application(
    front: Seq<char>,
    back: Seq<char>,
    packages: Seq<Package>,
    root: Seq<char>,
    executable: Seq<char>,
    runner_args: Seq<Seq<char>>,
    metadata: Json,
)
    ensures
        ({
            let result = preparation(
                front + "-apple-"@ + back,
                packages,
                root,
                executable,
                runner_args,
                metadata,
            );
            match resolution(packages, root, executable, runner_args) {
                Err(fault) => result matches Err(HostFault::Target(told)) && told == fault,
                Ok(target) => match workspace_settings(metadata) {
                    Err(error) => result matches Err(HostFault::Config(told)) && told == error,
                    Ok(settings) => result matches Ok(Some((found, read, _))) && found == target
                        && read == settings,
                },
            }
        }),
{
    pattern_between_texts_occurs(front, "-apple-"@, back);
}

/// For other platforms nothing is generated, and nothing can be wrong.
pub proof fn other_platforms_get_none(
    rustc_triple: Seq<char>,
    packages: Seq<Package>,
    root: Seq<char>,
    executable: Seq<char>,
    runner_args: Seq<Seq<char>>,
    metadata: Json,
)
    requires
        !occurs(rustc_triple, "-apple-"@),
    ensures
        preparation(
            rustc_triple,
            packages,
            root,
            executable,
            runner_args,
            metadata,
        ) matches Ok(None),
{
}

/// A generated file has one path and one text, and those are its own.
pub proof fn generated_file_has_its_path_and_text(
    file: GeneratedFile,
    path: Seq<char>,
    contents: Seq<char>,
)
    ensures
        file.is(file.path@, file.contents@),
        file.is(path, contents) ==> path == file.path@ && contents == file.contents@,
{
}

/// An error is seen as what it is.
pub proof fn errors_are_seen_as_they_are(error: HostError)
    ensures
        match error {
            HostError::Target(inner) => error@ == HostFault::Target(inner@),
            HostError::Config(inner) => error@ == HostFault::Config(inner),
            HostError::Build => error@ is Build,
        },
{
}

/// Cargo builds the application of the generated workspace, and only that, for the platform.
pub proof fn application_is_built_for_the_platform(rustc_triple: Seq<char>)
    ensures
        ({
            let args = build_target_args(rustc_triple);
            &&& args.len() == 9
            &&& args[0] == Some("build"@)
            &&& args[1] == Some("--manifest-path"@) && args[2] is None
            &&& args[3] == Some("-p"@) && args[4] == Some("dinghy-generated-apple-host"@)
            &&& args[5] == Some("--bin"@) && args[6] == Some("dinghy-generated-apple-host"@)
            &&& args[7] == Some("--target"@) && args[8] == Some(rustc_triple)
        }),
{
}

} // verus!
