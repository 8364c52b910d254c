//! The steps that make a bundle that can be installed.

use vstd::prelude::*;

verus! {

/// The identifier of the application on simulators, and the name of its executable.
pub const APP_NAME: &'static str = "Dinghy";

/// The name of the bundle.
pub const BUNDLE_NAME: &'static str = "Dinghy.app";

/// A step on the way to a bundle that can be installed.
#[derive(Clone, Copy, Debug, PartialEq, Eq, Structural)]
pub enum AppStep {
    /// Make a bundle with the files of the package.
    MakeBundle,
    /// Copy the executable that was built into the bundle.
    CopyExecutable,
    /// Describe the bundle, for the processor that the executable was built for.
    DescribeBuilt,
    /// Describe the bundle, for the processor that the executable in the bundle is built for.
    DescribeBundled,
    /// Note the identifier of the application.
    NameApp,
    /// Sign the bundle.
    Sign,
}

/// The steps that make a bundle of an executable that was built.
pub open spec fn fresh_steps() -> Seq<AppStep> {
    seq![AppStep::MakeBundle, AppStep::CopyExecutable, AppStep::DescribeBuilt]
}

/// The steps for a device: a bundle that is there already is only described. Either way the
/// application is named and the bundle is signed.
pub fn device_app_steps(prebuilt: bool) -> (steps: Vec<AppStep>)
    ensures
        steps@ == (if prebuilt {
            seq![AppStep::DescribeBundled]
        } else {
            fresh_steps()
        }) + seq![AppStep::NameApp, AppStep::Sign],
{
    let steps = if prebuilt {
        vec![AppStep::DescribeBundled, AppStep::NameApp, AppStep::Sign]
    } else {
        vec![
            AppStep::MakeBundle,
            AppStep::CopyExecutable,
            AppStep::DescribeBuilt,
            AppStep::NameApp,
            AppStep::Sign,
        ]
    };
    assert(steps@ =~= (if prebuilt {
        seq![AppStep::DescribeBundled]
    } else {
        fresh_steps()
    }) + seq![AppStep::NameApp, AppStep::Sign]);
    steps
}

/// The steps for a simulator: a bundle that is there already is described and its application
/// named. Nothing is signed.
pub fn simulator_app_steps(prebuilt: bool) -> (steps: Vec<AppStep>)
    ensures
        steps@ == (if prebuilt {
            seq![AppStep::DescribeBundled, AppStep::NameApp]
        } else {
            fresh_steps()
        }),
{
    let steps = if prebuilt {
        vec![AppStep::DescribeBundled, AppStep::NameApp]
    } else {
        vec![AppStep::MakeBundle, AppStep::CopyExecutable, AppStep::DescribeBuilt]
    };
    assert(steps@ =~= (if prebuilt {
        seq![AppStep::DescribeBundled, AppStep::NameApp]
    } else {
        fresh_steps()
    }));
    steps
}

} // verus!
