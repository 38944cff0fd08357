use vstd::prelude::*;
use crate::cli::CliArgs;
use crate::executable::Executable;
use crate::render::{render_script, script, ProcessFacts};

verus! {

/// Replays a process from its records under /proc, always with every section
/// and every comment.
pub struct Proc {
    cli_args: CliArgs,
}

impl Proc {
    pub fn new(cli_args: CliArgs) -> (r: Self)
        ensures
            r.options() == cli_args,
    {
        Self { cli_args }
    }

    pub closed spec fn options(&self) -> CliArgs {
        self.cli_args
    }

    /// The script that replays `facts`: directory, environment and command
    /// line, each under its comment.
    pub fn extract_info(&self, facts: &ProcessFacts) -> (r: Vec<u8>)
        ensures
            r@ == script(CliArgs { pid: self.options().pid, command_only: false, omit_comments: false }, *facts),
    {
        let exe = Executable::new(CliArgs { pid: self.cli_args.pid, command_only: false, omit_comments: false });
        render_script(&exe, facts)
    }
}

} // verus!
