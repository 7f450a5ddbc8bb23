//! The command line: `<program> <directory> [--dry-run]`.

use vstd::prelude::*;

verus! {

/// What the command line asks for.
#[derive(Debug, PartialEq, Eq)]
pub struct Invocation {
    /// The path of the directory to organize.
    pub directory: String,
    /// Whether to report only and change nothing.
    pub dry_run: bool,
}

/// Whether `args`, the program's name first, ask for a dry run: the
/// argument after the directory is exactly `--dry-run`. The flag counts
/// nowhere else.
pub open spec fn asks_dry_run(args: Seq<String>) -> bool {
    args.len() > 2 && args[2]@ == "--dry-run"@
}

/// Reads the arguments of the program, its name first. Without a directory
/// there is nothing to do but to print the usage.
pub fn parse_arguments(args: &Vec<String>) -> (parsed: Option<Invocation>)
    ensures
        parsed is Some <==> args.len() >= 2,
        parsed matches Some(invocation) ==> {
            &&& invocation.directory@ == args@[1]@
            &&& invocation.dry_run == asks_dry_run(args@)
        },
{
    if args.len() < 2 {
        return None;
    }
    let flag = "--dry-run".to_owned();
    let dry_run = args.len() > 2 && args[2] == flag;
    Some(Invocation { directory: args[1].clone(), dry_run })
}

} // verus!
