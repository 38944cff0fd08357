use vstd::prelude::*;
use crate::buffer::ascii;
use crate::cli::CliArgs;
use crate::executable::Executable;
use crate::text::{append, append_digits, digits, join, join_lines, literal};

verus! {

/// One environment variable of the target process.
pub struct EnvVar {
    pub key: Vec<u8>,
    pub value: Vec<u8>,
}

/// What is needed to replay a process: its owner, working directory,
/// environment and command line.
pub struct ProcessFacts {
    pub pid: i32,
    /// The owning user's id.
    pub uid: u32,
    pub cwd: Vec<u8>,
    pub executable_path: Vec<u8>,
    /// The command line as it is replayed, the program first.
    pub argv: Vec<Vec<u8>>,
    /// The environment in the order first seen; keys may repeat.
    pub environment: Vec<EnvVar>,
}

pub open spec fn nl() -> Seq<u8> {
    seq![10u8]
}

pub open spec fn comment_lines(opts: CliArgs, text: Seq<u8>) -> Seq<Seq<u8>> {
    if opts.omit_comments {
        seq![]
    } else {
        seq![text]
    }
}

/// The lines that change to the working directory.
pub open spec fn cwd_lines(opts: CliArgs, cwd: Seq<u8>) -> Seq<Seq<u8>> {
    comment_lines(opts, ascii("# change cwd user to match the target process"@)) + seq![ascii("cd "@) + cwd]
}

pub open spec fn export_line(key: Seq<u8>, value: Seq<u8>) -> Seq<u8> {
    ascii("export "@) + key + ascii("='"@) + value + ascii("'"@)
}

/// The lines that export the environment, one per variable, in order.
pub open spec fn env_lines(opts: CliArgs, env: Seq<EnvVar>) -> Seq<Seq<u8>> {
    comment_lines(opts, ascii("# export env variables to match the target process"@))
        + Seq::new(env.len(), |i: int| export_line(env[i].key@, env[i].value@))
}

/// The `i`-th word of the command line, on a line of its own that a
/// backslash continues unless it is the last.
pub open spec fn cmd_line(words: Seq<Seq<u8>>, i: int) -> Seq<u8> {
    let first = if i == 0 { words[0] } else { ascii("   "@) + words[i] };
    let cont = if i + 1 < words.len() {
        if i == 0 { ascii("    \\"@) } else { ascii(" \\"@) }
    } else {
        seq![]
    };
    first + cont + nl()
}

/// The lines that run the command line again.
pub open spec fn cmd_lines(opts: CliArgs, words: Seq<Seq<u8>>) -> Seq<Seq<u8>> {
    comment_lines(opts, ascii("# cmdline to match the target process\n"@))
        + Seq::new(words.len(), |i: int| cmd_line(words, i))
}

/// A section of the commands: its lines, each ended by a newline. A section
/// without lines leaves nothing behind, not even an empty line.
pub open spec fn section(lines: Seq<Seq<u8>>) -> Seq<u8> {
    if lines.len() == 0 {
        seq![]
    } else {
        join(lines, nl()) + nl()
    }
}

/// The commands inside the script: directory and environment unless only the
/// command line is asked for, then the command line.
pub open spec fn commands(opts: CliArgs, f: ProcessFacts) -> Seq<u8> {
    let cmd = join(cmd_lines(opts, f.argv.deep_view()), seq![]);
    if opts.command_only {
        cmd
    } else {
        section(cwd_lines(opts, f.cwd@)) + section(env_lines(opts, f.environment@)) + cmd
    }
}

/// The whole script: the commands in a here-document run as the owning user.
pub open spec fn script(opts: CliArgs, f: ProcessFacts) -> Seq<u8> {
    ascii("sudo -i -u \\#"@) + digits(f.uid as nat) + ascii(" <<EOF\n"@) + commands(opts, f) + ascii("EOF\n"@)
}

fn literal_vec(s: &'static str) -> (r: Vec<u8>)
    requires
        vstd::string::is_ascii(s),
    ensures
        r@ == ascii(s@),
{
    let mut r: Vec<u8> = Vec::new();
    append(&mut r, literal(s));
    assert(r@ =~= ascii(s@));
    r
}

fn push_line(lines: &mut Vec<Vec<u8>>, line: Vec<u8>)
    ensures
        final(lines).deep_view() == old(lines).deep_view().push(line@),
{
    assert(line.deep_view() =~= line@);
    lines.push(line);
    assert(final(lines).deep_view() =~= old(lines).deep_view().push(line@));
}

impl Executable {
    /// The lines that change to the working directory.
    pub fn extract_cwd(&self, facts: &ProcessFacts) -> (r: Vec<Vec<u8>>)
        ensures
            r.deep_view() == cwd_lines(self.cli_args, facts.cwd@),
    {
        proof {
            reveal_strlit("# change cwd user to match the target process");
            reveal_strlit("cd ");
        }
        let mut lines: Vec<Vec<u8>> = Vec::new();
        if !self.cli_args.omit_comments {
            push_line(&mut lines, literal_vec("# change cwd user to match the target process"));
        }
        let mut line = literal_vec("cd ");
        append(&mut line, facts.cwd.as_slice());
        push_line(&mut lines, line);
        assert(lines.deep_view() =~= cwd_lines(self.cli_args, facts.cwd@));
        lines
    }

    /// The lines that export the environment variables, in order.
    pub fn extract_env_vars(&self, facts: &ProcessFacts) -> (r: Vec<Vec<u8>>)
        ensures
            r.deep_view() == env_lines(self.cli_args, facts.environment@),
    {
        proof {
            reveal_strlit("# export env variables to match the target process");
            reveal_strlit("export ");
            reveal_strlit("='");
            reveal_strlit("'");
        }
        let ghost env = facts.environment@;
        let ghost head = comment_lines(self.cli_args, ascii("# export env variables to match the target process"@));
        let mut lines: Vec<Vec<u8>> = Vec::new();
        if !self.cli_args.omit_comments {
            push_line(&mut lines, literal_vec("# export env variables to match the target process"));
        }
        assert(lines.deep_view() =~= head);
        let mut i: usize = 0;
        while i < facts.environment.len()
            invariant
                env == facts.environment@,
                i <= env.len(),
                lines.deep_view() == head + Seq::new(i as nat, |j: int| export_line(env[j].key@, env[j].value@)),
            decreases env.len() - i,
        {
            proof {
                reveal_strlit("export ");
                reveal_strlit("='");
                reveal_strlit("'");
            }
            let var = &facts.environment[i];
            let mut line = literal_vec("export ");
            append(&mut line, var.key.as_slice());
            append(&mut line, literal("='"));
            append(&mut line, var.value.as_slice());
            append(&mut line, literal("'"));
            push_line(&mut lines, line);
            i += 1;
            assert(lines.deep_view() =~= head + Seq::new(i as nat, |j: int| export_line(env[j].key@, env[j].value@)));
        }
        assert(lines.deep_view() =~= env_lines(self.cli_args, env));
        lines
    }

    /// The lines that run the command line, one word per line.
    pub fn extract_cmdline(&self, facts: &ProcessFacts) -> (r: Vec<Vec<u8>>)
        ensures
            r.deep_view() == cmd_lines(self.cli_args, facts.argv.deep_view()),
    {
        proof {
            reveal_strlit("# cmdline to match the target process\n");
            reveal_strlit("   ");
            reveal_strlit("    \\");
            reveal_strlit(" \\");
            reveal_strlit("\n");
        }
        let ghost words = facts.argv.deep_view();
        let ghost head = comment_lines(self.cli_args, ascii("# cmdline to match the target process\n"@));
        let mut lines: Vec<Vec<u8>> = Vec::new();
        if !self.cli_args.omit_comments {
            push_line(&mut lines, literal_vec("# cmdline to match the target process\n"));
        }
        assert(lines.deep_view() =~= head);
        let n = facts.argv.len();
        let mut i: usize = 0;
        while i < n
            invariant
                words == facts.argv.deep_view(),
                n == words.len(),
                i <= n,
                lines.deep_view() == head + Seq::new(i as nat, |j: int| cmd_line(words, j)),
            decreases n - i,
        {
            proof {
                reveal_strlit("   ");
                reveal_strlit("    \\");
                reveal_strlit(" \\");
                reveal_strlit("\n");
            }
            let mut line: Vec<u8> = Vec::new();
            if i > 0 {
                append(&mut line, literal("   "));
            }
            append(&mut line, facts.argv[i].as_slice());
            if i + 1 < n {
                if i == 0 {
                    append(&mut line, literal("    \\"));
                } else {
                    append(&mut line, literal(" \\"));
                }
            }
            append(&mut line, literal("\n"));
            proof {
                assert(facts.argv[i as int]@ =~= words[i as int]);
                assert(line@ =~= cmd_line(words, i as int));
            }
            push_line(&mut lines, line);
            i += 1;
            assert(lines.deep_view() =~= head + Seq::new(i as nat, |j: int| cmd_line(words, j)));
        }
        assert(lines.deep_view() =~= cmd_lines(self.cli_args, words));
        lines
    }
}

/// Renders the script that replays `facts` under the owning user, as `opts` asks.
pub fn render_script(exe: &Executable, facts: &ProcessFacts) -> (r: Vec<u8>)
    ensures
        r@ == script(exe.cli_args, *facts),
{
    proof {
        reveal_strlit("sudo -i -u \\#");
        reveal_strlit(" <<EOF\n");
        reveal_strlit("EOF\n");
        reveal_strlit("\n");
        reveal_strlit("");
    }
    assert(ascii(""@) =~= Seq::<u8>::empty());
    assert(ascii("\n"@) =~= nl());
    let cmd_lines = exe.extract_cmdline(facts);
    let cmd = join_lines(&cmd_lines, literal(""));
    let mut out = literal_vec("sudo -i -u \\#");
    append_digits(&mut out, facts.uid as u64);
    append(&mut out, literal(" <<EOF\n"));
    if !exe.cli_args.command_only {
        let cwd_lines = exe.extract_cwd(facts);
        let env_lines = exe.extract_env_vars(facts);
        let cwd = join_lines(&cwd_lines, literal("\n"));
        let env = join_lines(&env_lines, literal("\n"));
        append(&mut out, cwd.as_slice());
        append(&mut out, literal("\n"));
        if env_lines.len() > 0 {
            append(&mut out, env.as_slice());
            append(&mut out, literal("\n"));
        }
    }
    append(&mut out, cmd.as_slice());
    append(&mut out, literal("EOF\n"));
    assert(out@ =~= script(exe.cli_args, *facts));
    out
}

} // verus!
