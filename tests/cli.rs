use proc_replay::cli::CliArgs;
use proc_replay::error::{CollectError, Source};
use proc_replay::executable::{Executable, KillOutcome, OSSpecificExecutable, PidProbe, RecordProbe};

fn probe(exists: bool, status: bool, cmdline: bool, environ: bool) -> PidProbe {
    PidProbe::Records(RecordProbe {
        exists,
        status_readable: status,
        cmdline_readable: cmdline,
        environ_readable: environ,
    })
}

#[test]
fn test_validate_different_pid_fail() {
    let args = CliArgs {
        pid: 1,
        command_only: false,
        omit_comments: false,
    };
    // an unprivileged caller may read the status and command line of PID 1, not its environment
    let result = args.validate(&probe(true, true, true, false)).unwrap_err();
    assert_eq!(result.message(), "read: /proc/1/environ: Permission denied");

    // where the null signal decides, it is refused for PID 1
    let result = args.validate(&PidProbe::Signal(KillOutcome::NotPermitted)).unwrap_err();
    assert_eq!(
        result.message(),
        "got permission denied while checking if PID 1 exits"
    );
}

#[test]
fn test_validate_invalid_pid_fail() {
    let args = CliArgs {
        pid: -1,
        command_only: false,
        omit_comments: false,
    };
    let result = args.validate(&probe(true, true, true, true)).unwrap_err();
    assert_eq!(result.message(), "Invalid PID -1");
    assert_eq!(result, CollectError::NotFound { pid: -1 });
}

#[test]
fn validate_accepts_readable_process() {
    let args = CliArgs {
        pid: 4242,
        command_only: false,
        omit_comments: false,
    };
    assert_eq!(args.validate(&probe(true, true, true, true)), Ok(()));
}

#[test]
fn validate_reports_each_record() {
    assert_eq!(
        Executable::validate(7, &probe(false, true, true, true)),
        Err(CollectError::NotFound { pid: 7 })
    );
    let e = Executable::validate(7, &probe(true, false, true, true)).unwrap_err();
    assert_eq!(e, CollectError::PermissionDenied { pid: 7, source: Source::Status });
    assert_eq!(e.message(), "read: /proc/7/status: Permission denied");
    let e = Executable::validate(7, &probe(true, true, false, true)).unwrap_err();
    assert_eq!(e.message(), "read: /proc/7/cmdline: Permission denied");
}

#[test]
fn validate_by_signal() {
    let args = CliArgs { pid: 300, command_only: false, omit_comments: false };
    assert_eq!(args.validate(&PidProbe::Signal(KillOutcome::Delivered)), Ok(()));
    assert_eq!(
        args.validate(&PidProbe::Signal(KillOutcome::NoSuchProcess)).unwrap_err().message(),
        "Invalid PID 300"
    );
    let neg = CliArgs { pid: -1, command_only: false, omit_comments: false };
    assert_eq!(
        neg.validate(&PidProbe::Signal(KillOutcome::Delivered)).unwrap_err().message(),
        "Invalid PID -1"
    );
}

#[test]
fn pidinfo_decisions() {
    assert_eq!(Executable::pidinfo_verdict(4, 136, 136, 0), Ok(()));
    assert_eq!(
        Executable::pidinfo_verdict(4, 0, 136, 3),
        Err(CollectError::ProtocolError { pid: 4, code: 3 })
    );
    assert_eq!(
        Executable::pidinfo_verdict(4, -1, 136, 1),
        Err(CollectError::ProtocolError { pid: 4, code: 1 })
    );
    assert_eq!(
        Executable::pidinfo_verdict(4, 64, 136, 0),
        Err(CollectError::ProtocolError { pid: 4, code: 0 })
    );
}

#[test]
fn pid_exists_decisions() {
    assert_eq!(Executable::pid_exists(-5, KillOutcome::Delivered), Err(CollectError::NotFound { pid: -5 }));
    assert_eq!(Executable::pid_exists(12, KillOutcome::NoSuchProcess), Err(CollectError::NotFound { pid: 12 }));
    assert_eq!(Executable::pid_exists(12, KillOutcome::Delivered), Ok(()));
    assert_eq!(Executable::pid_exists(12, KillOutcome::OtherError), Ok(()));
}

#[test]
fn query_decisions_and_messages() {
    assert_eq!(Executable::do_sysctl(3, 0, 0), Ok(()));
    let e = Executable::do_sysctl(3, -1, 22).unwrap_err();
    assert_eq!(e, CollectError::ProtocolError { pid: 3, code: 22 });
    assert_eq!(e.message(), "kernel query for PID 3 failed: os error 22");
    assert_eq!(Executable::do_sysctl(3, 5, 0), Err(CollectError::ProtocolError { pid: 3, code: 5 }));
    assert_eq!(
        CollectError::MalformedBuffer { len: 2 }.message(),
        "malformed argument buffer of 2 bytes"
    );
    assert_eq!(CollectError::NotFound { pid: -2147483648 }.message(), "Invalid PID -2147483648");
    assert_eq!(
        CollectError::PermissionDenied { pid: 90, source: Source::Cwd }.message(),
        "read: /proc/90/cwd: Permission denied"
    );
}

#[test]
fn returned_bytes_uses_returned_length() {
    let dest = vec![1u8, 2, 3, 0, 0, 0];
    assert_eq!(Executable::returned_bytes(8, dest.clone(), 3), Ok(vec![1u8, 2, 3]));
    assert_eq!(Executable::returned_bytes(8, dest.clone(), 6), Ok(dest.clone()));
    assert_eq!(
        Executable::returned_bytes(8, dest, 7),
        Err(CollectError::ProtocolError { pid: 8, code: 0 })
    );
}
