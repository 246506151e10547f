//! The decisions of each `vex` command; the commands' I/O stays with the caller.
pub mod building;
pub mod deps;
pub mod info;
pub mod init;
pub mod setup;

use vstd::prelude::*;

use crate::text::{str_eq, views};

verus! {

/// Whether the arguments are a help flag alone.
pub open spec fn help_alone(args: Seq<Seq<char>>) -> bool {
    args.len() == 1 && (args[0] == "-h"@ || args[0] == "--help"@)
}

/// Whether a command's arguments only ask for its usage: one `-h` or `--help`.
pub fn help_only(args: &[String]) -> (r: bool)
    ensures
        r == help_alone(views(args@)),
{
    if args.len() != 1 {
        return false;
    }
    assert(views(args@)[0] == args@[0]@);
    str_eq(args[0].as_str(), "-h") || str_eq(args[0].as_str(), "--help")
}

} // verus!
