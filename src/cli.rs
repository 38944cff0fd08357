use vstd::prelude::*;
use crate::error::CollectError;
use crate::executable::{probe_verdict, Executable, OSSpecificExecutable, PidProbe};

verus! {

/// What the command line asks for.
#[derive(Clone, Copy, Debug, PartialEq, Eq, Structural)]
pub struct CliArgs {
    /// The process of interest.
    pub pid: i32,
    /// Print only the command line, without the working directory and environment.
    pub command_only: bool,
    /// Leave the comment lines out of the script.
    pub omit_comments: bool,
}

impl CliArgs {
    /// Checks that the chosen pid can be replayed, from what checking it showed:
    /// its records under /proc, or the null signal, as the platform has it.
    pub fn validate(&self, probe: &PidProbe) -> (r: Result<(), CollectError>)
        ensures
            r == probe_verdict(self.pid, *probe),
    {
        Executable::validate(self.pid, probe)
    }
}

} // verus!
