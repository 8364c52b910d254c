//! Arguments of programs.

use vstd::prelude::*;

verus! {

/// An argument of a program.
pub enum Arg {
    Text(String),
    /// The path on the host that the program works on, as the host has it.
    HostPath,
}

/// What an `Arg` stands for; `None` is the path on the host.
pub open spec fn arg_texts(args: Seq<Arg>) -> Seq<Option<Seq<char>>> {
    args.map_values(
        |arg: Arg|
            match arg {
                Arg::Text(text) => Some(text@),
                Arg::HostPath => None,
            },
    )
}

} // verus!
