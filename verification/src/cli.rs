//! The command-line surface's data model: what the user asked for, free of
//! any argument-parsing machinery.

use vstd::prelude::*;

verus! {

/// A parsed invocation: the chosen command, an optional tool directory, and
/// whether debug output was asked for.
#[derive(Debug)]
pub struct Args {
    /// The command to perform.
    pub commands: PatcherCommands,
    /// The tool directory to work in, when given.
    pub path: Option<String>,
    /// Whether debug output was asked for.
    pub debug: bool,
}

/// The commands the tool offers: patch the bundled SDK, or revert to the
/// default one.
#[derive(Debug)]
pub enum PatcherCommands {
    /// Replace the bundled SDK, downloading with the given task count.
    Patch {
        /// How many concurrent download tasks to use, when given.
        task_num: Option<u64>,
    },
    /// Restore the default SDK.
    Revert {},
}

/// The task count a transfer runs with: the one the user asked for, else
/// four.
pub fn effective_task_num(requested: Option<u64>) -> (r: u64)
    ensures
        requested matches Option::Some(t) ==> r == t,
        requested is None ==> r == 4,
{
    match requested {
        Option::Some(t) => t,
        Option::None => 4,
    }
}

} // verus!
