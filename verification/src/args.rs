//! The program's own invocation arguments, once parsed: the path of the
//! task-list document to run.
use vstd::prelude::*;

verus! {

/// The validated invocation arguments.
pub struct Args {
    pub nansi_file: String,
}

impl Args {
    /// Wraps the task-list path handed in by the caller's argument parsing.
    pub fn new(nansi_file: String) -> (r: Args)
        ensures
            r.nansi_file@ == nansi_file@,
    {
        Args { nansi_file }
    }
}

} // verus!
