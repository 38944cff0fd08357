use vstd::prelude::*;
use crate::buffer::{args_of, args_start, argv_count, env_of, env_start, token_at, well_formed, KernProcArgs2, COUNT_LEN};
use crate::cli::CliArgs;
use crate::error::{CollectError, Source};
use crate::text::append;
use crate::render::{render_script, script, EnvVar, ProcessFacts};

verus! {

/// Collects a process's facts and renders them, as the command line asked.
pub struct Executable {
    pub cli_args: CliArgs,
}

/// What reading the process's records under /proc showed.
#[derive(Clone, Copy, Debug, PartialEq, Eq, Structural)]
pub struct RecordProbe {
    pub exists: bool,
    pub status_readable: bool,
    pub cmdline_readable: bool,
    pub environ_readable: bool,
}

/// What sending the null signal to the process showed.
#[derive(Clone, Copy, Debug, PartialEq, Eq, Structural)]
pub enum KillOutcome {
    Delivered,
    NoSuchProcess,
    NotPermitted,
    OtherError,
}

/// What checking a pid showed, in the way of the platform: the records under
/// /proc, or the null signal.
#[derive(Clone, Copy, Debug, PartialEq, Eq, Structural)]
pub enum PidProbe {
    Records(RecordProbe),
    Signal(KillOutcome),
}

/// The verdict on a pid from what checking it showed.
pub open spec fn probe_verdict(pid: i32, p: PidProbe) -> Result<(), CollectError> {
    match p {
        PidProbe::Records(r) => records_verdict(pid, r),
        PidProbe::Signal(o) => kill_verdict(pid, o),
    }
}

/// The verdict on a pid from its records: it must exist and each record must be readable.
pub open spec fn records_verdict(pid: i32, p: RecordProbe) -> Result<(), CollectError> {
    if pid < 0 || !p.exists {
        Err(CollectError::NotFound { pid })
    } else if !p.status_readable {
        Err(CollectError::PermissionDenied { pid, source: Source::Status })
    } else if !p.cmdline_readable {
        Err(CollectError::PermissionDenied { pid, source: Source::Cmdline })
    } else if !p.environ_readable {
        Err(CollectError::PermissionDenied { pid, source: Source::Environ })
    } else {
        Ok(())
    }
}

/// The verdict on a pid from the null signal.
pub open spec fn kill_verdict(pid: i32, o: KillOutcome) -> Result<(), CollectError> {
    if pid < 0 {
        Err(CollectError::NotFound { pid })
    } else {
        match o {
            KillOutcome::NoSuchProcess => Err(CollectError::NotFound { pid }),
            KillOutcome::NotPermitted => Err(CollectError::PermissionDenied { pid, source: Source::ProcessTable }),
            _ => Ok(()),
        }
    }
}

/// The verdict on the kernel's answer to the argument-buffer query: `status`
/// is what the query returned and `errno` the OS error after it.
pub open spec fn query_verdict(pid: i32, status: i32, errno: i32) -> Result<(), CollectError> {
    if status == 0 {
        Ok(())
    } else if status == -1 {
        Err(CollectError::ProtocolError { pid, code: errno })
    } else {
        Err(CollectError::ProtocolError { pid, code: status })
    }
}

/// The verdict on a per-process record query: nothing written is a failure
/// with the OS error; a size other than the record's is an inconsistent answer.
pub open spec fn pidinfo_verdict_of(pid: i32, n: i32, size: i32, errno: i32) -> Result<(), CollectError> {
    if n <= 0 {
        Err(CollectError::ProtocolError { pid, code: errno })
    } else if n != size {
        Err(CollectError::ProtocolError { pid, code: 0 })
    } else {
        Ok(())
    }
}

/// The part of an environment token before its first `=`.
pub open spec fn key_end(t: Seq<u8>, i: nat) -> nat
    decreases t.len() - i,
{
    if i >= t.len() {
        t.len()
    } else if t[i as int] == 61 {
        i
    } else {
        key_end(t, i + 1)
    }
}

pub open spec fn env_key(t: Seq<u8>) -> Seq<u8> {
    t.subrange(0, key_end(t, 0) as int)
}

/// What follows the first `=` of an environment token; empty when there is none.
pub open spec fn env_value(t: Seq<u8>) -> Seq<u8> {
    if key_end(t, 0) < t.len() {
        t.subrange(key_end(t, 0) as int + 1, t.len() as int)
    } else {
        seq![]
    }
}

/// One platform's way to check a pid and to replay what was collected.
pub trait OSSpecificExecutable {
    spec fn script_of(&self, facts: ProcessFacts) -> Seq<u8>;

    fn validate(pid: i32, probe: &PidProbe) -> (r: Result<(), CollectError>)
        ensures
            r == probe_verdict(pid, *probe),
    ;

    fn extract_info(&self, facts: &ProcessFacts) -> (r: Vec<u8>)
        ensures
            r@ == self.script_of(*facts),
    ;
}

impl OSSpecificExecutable for Executable {
    open spec fn script_of(&self, facts: ProcessFacts) -> Seq<u8> {
        script(self.cli_args, facts)
    }

    fn validate(pid: i32, probe: &PidProbe) -> (r: Result<(), CollectError>) {
        match *probe {
            PidProbe::Records(records) => Self::records_exist(pid, &records),
            PidProbe::Signal(outcome) => Self::pid_exists(pid, outcome),
        }
    }

    fn extract_info(&self, facts: &ProcessFacts) -> (r: Vec<u8>) {
        render_script(self, facts)
    }
}

impl Executable {
    /// Decides from the records under /proc whether the pid can be replayed; a
    /// negative pid is never one.
    pub fn records_exist(pid: i32, probe: &RecordProbe) -> (r: Result<(), CollectError>)
        ensures
            r == records_verdict(pid, *probe),
    {
        if pid < 0 || !probe.exists {
            Err(CollectError::NotFound { pid })
        } else if !probe.status_readable {
            Err(CollectError::PermissionDenied { pid, source: Source::Status })
        } else if !probe.cmdline_readable {
            Err(CollectError::PermissionDenied { pid, source: Source::Cmdline })
        } else if !probe.environ_readable {
            Err(CollectError::PermissionDenied { pid, source: Source::Environ })
        } else {
            Ok(())
        }
    }

    pub fn new(cli_args: CliArgs) -> (r: Self)
        ensures
            r.cli_args == cli_args,
    {
        Self { cli_args }
    }

    /// Decides from the null signal whether the pid can be replayed; a negative
    /// pid is never one.
    pub fn pid_exists(pid: i32, outcome: KillOutcome) -> (r: Result<(), CollectError>)
        ensures
            r == kill_verdict(pid, outcome),
    {
        if pid < 0 {
            return Err(CollectError::NotFound { pid });
        }
        match outcome {
            KillOutcome::NoSuchProcess => Err(CollectError::NotFound { pid }),
            KillOutcome::NotPermitted => Err(CollectError::PermissionDenied { pid, source: Source::ProcessTable }),
            _ => Ok(()),
        }
    }

    /// Decides whether the kernel's answer to a query can be used.
    pub fn do_sysctl(pid: i32, status: i32, errno: i32) -> (r: Result<(), CollectError>)
        ensures
            r == query_verdict(pid, status, errno),
    {
        if status == 0 {
            Ok(())
        } else if status == -1 {
            Err(CollectError::ProtocolError { pid, code: errno })
        } else {
            Err(CollectError::ProtocolError { pid, code: status })
        }
    }

    /// Decides whether a per-process record query can be used: `n` is the
    /// number of bytes it wrote, `size` the size of the record asked for and
    /// `errno` the OS error after it.
    pub fn pidinfo_verdict(pid: i32, n: i32, size: i32, errno: i32) -> (r: Result<(), CollectError>)
        ensures
            r == pidinfo_verdict_of(pid, n, size, errno),
    {
        if n <= 0 {
            Err(CollectError::ProtocolError { pid, code: errno })
        } else if n != size {
            Err(CollectError::ProtocolError { pid, code: 0 })
        } else {
            Ok(())
        }
    }

    /// The part of the destination that the kernel filled: its first `returned`
    /// bytes. A length beyond the destination is an inconsistent answer.
    pub fn returned_bytes(pid: i32, dest: Vec<u8>, returned: usize) -> (r: Result<Vec<u8>, CollectError>)
        ensures
            returned <= dest.len() ==> (r matches Ok(v) && v@ == dest@.subrange(0, returned as int)),
            returned > dest.len() ==> r == Err::<Vec<u8>, CollectError>(CollectError::ProtocolError { pid, code: 0 }),
    {
        if returned > dest.len() {
            return Err(CollectError::ProtocolError { pid, code: 0 });
        }
        let mut v = dest;
        v.truncate(returned);
        Ok(v)
    }

    /// Collects the facts of a process from its kernel argument buffer, or says
    /// why the buffer cannot be read; nothing is returned from a malformed one.
    pub fn collect_from_buffer(pid: i32, uid: u32, cwd: Vec<u8>, procargs: &Vec<u8>) -> (r: Result<ProcessFacts, CollectError>)
        ensures
            match r {
                Ok(f) => {
                    &&& well_formed(procargs@)
                    &&& f.pid == pid && f.uid == uid && f.cwd@ == cwd@
                    &&& f.executable_path@ == token_at(procargs@, COUNT_LEN as nat)
                    &&& f.argv.deep_view() == seq![token_at(procargs@, COUNT_LEN as nat)]
                        + args_of(procargs@, args_start(procargs@), argv_count(procargs@))
                    &&& f.environment.len() == env_of(procargs@, env_start(procargs@)).len()
                    &&& forall|i: int| 0 <= i < f.environment.len() ==> {
                        &&& (#[trigger] f.environment@[i]).key@ == env_key(env_of(procargs@, env_start(procargs@))[i])
                        &&& f.environment@[i].value@ == env_value(env_of(procargs@, env_start(procargs@))[i])
                    }
                },
                Err(e) => !well_formed(procargs@) && e == CollectError::MalformedBuffer { len: procargs.len() },
            },
    {
        match Self::parse_kernel_args(procargs) {
            Ok(args) => {
                let ghost env = args.environ;
                let f = Self::facts_from_kernel_args(pid, uid, cwd, args);
                proof {
                    assert forall|i: int| 0 <= i < env.len() implies env@[i]@ == env.deep_view()[i] by {}
                }
                Ok(f)
            },
            Err(e) => Err(e),
        }
    }

    /// Splits an environment token at its first `=` into key and value.
    pub fn split_env(token: &Vec<u8>) -> (r: EnvVar)
        ensures
            r.key@ == env_key(token@),
            r.value@ == env_value(token@),
    {
        let mut i: usize = 0;
        while i < token.len() && token[i] != 61
            invariant
                i <= token.len(),
                key_end(token@, i as nat) == key_end(token@, 0),
            decreases token.len() - i,
        {
            i += 1;
        }
        let mut key: Vec<u8> = Vec::new();
        let mut j: usize = 0;
        while j < i
            invariant
                i <= token.len(),
                j <= i,
                key@ == token@.subrange(0, j as int),
            decreases i - j,
        {
            key.push(token[j]);
            j += 1;
            assert(key@ =~= token@.subrange(0, j as int));
        }
        let mut value: Vec<u8> = Vec::new();
        if i < token.len() {
            let mut k: usize = i + 1;
            while k < token.len()
                invariant
                    i < token.len(),
                    i + 1 <= k <= token.len(),
                    value@ == token@.subrange(i + 1, k as int),
                decreases token.len() - k,
            {
                value.push(token[k]);
                k += 1;
                assert(value@ =~= token@.subrange(i + 1, k as int));
            }
        }
        assert(value@ =~= env_value(token@));
        EnvVar { key, value }
    }

    /// The facts of a process whose arguments came in a kernel buffer: the
    /// command line is the path followed by the argument tokens, and each
    /// environment token is split at its first `=`.
    pub fn facts_from_kernel_args(pid: i32, uid: u32, cwd: Vec<u8>, args: KernProcArgs2) -> (r: ProcessFacts)
        ensures
            r.pid == pid,
            r.uid == uid,
            r.cwd@ == cwd@,
            r.executable_path@ == args.executable_path@,
            r.argv.deep_view() == seq![args.executable_path@] + args.executable_args.deep_view(),
            r.environment.len() == args.environ.len(),
            forall|i: int| 0 <= i < r.environment.len() ==> {
                &&& (#[trigger] r.environment@[i]).key@ == env_key(args.environ@[i]@)
                &&& r.environment@[i].value@ == env_value(args.environ@[i]@)
            },
    {
        let mut argv: Vec<Vec<u8>> = Vec::new();
        let mut path: Vec<u8> = Vec::new();
        append(&mut path, args.executable_path.as_slice());
        assert(path@ =~= args.executable_path@);
        assert(path.deep_view() =~= path@);
        argv.push(path);
        assert(argv.deep_view() =~= seq![args.executable_path@]);
        let mut i: usize = 0;
        while i < args.executable_args.len()
            invariant
                i <= args.executable_args.len(),
                argv.deep_view() == seq![args.executable_path@] + args.executable_args.deep_view().take(i as int),
            decreases args.executable_args.len() - i,
        {
            let mut a: Vec<u8> = Vec::new();
            append(&mut a, args.executable_args[i].as_slice());
            assert(a@ =~= args.executable_args.deep_view()[i as int]);
            assert(a.deep_view() =~= a@);
            let ghost prev = argv.deep_view();
            argv.push(a);
            assert(argv.deep_view() =~= prev.push(a@));
            assert(args.executable_args.deep_view().take(i + 1) =~= args.executable_args.deep_view().take(i as int).push(a@));
            i += 1;
            assert(argv.deep_view() =~= seq![args.executable_path@] + args.executable_args.deep_view().take(i as int));
        }
        assert(args.executable_args.deep_view().take(i as int) =~= args.executable_args.deep_view());
        let mut environment: Vec<EnvVar> = Vec::new();
        let mut k: usize = 0;
        while k < args.environ.len()
            invariant
                k <= args.environ.len(),
                environment.len() == k,
                forall|j: int| 0 <= j < k ==> {
                    &&& (#[trigger] environment@[j]).key@ == env_key(args.environ@[j]@)
                    &&& environment@[j].value@ == env_value(args.environ@[j]@)
                },
            decreases args.environ.len() - k,
        {
            let var = Self::split_env(&args.environ[k]);
            environment.push(var);
            k += 1;
        }
        ProcessFacts { pid, uid, cwd, executable_path: args.executable_path, argv, environment }
    }
}

} // verus!
