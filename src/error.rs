use vstd::prelude::*;
use crate::buffer::ascii;
use crate::text::{all_ascii, append, append_decimal, append_digits, digits, lemma_digits_ascii, ascii_string, chars_of, decimal, lemma_concat_ascii, lemma_decimal_ascii, literal};

verus! {

/// Which per-process record a permission failure concerns.
#[derive(Clone, Copy, Debug, PartialEq, Eq, Structural)]
pub enum Source {
    Status,
    Cmdline,
    Environ,
    Cwd,
    ProcessTable,
}

/// Why collecting a process's facts failed.
#[derive(Clone, Copy, Debug, PartialEq, Eq, Structural)]
pub enum CollectError {
    /// No such process.
    NotFound { pid: i32 },
    /// The caller may not read the given record of the process.
    PermissionDenied { pid: i32, source: Source },
    /// A kernel query failed or answered inconsistently; `code` is the OS error number.
    ProtocolError { pid: i32, code: i32 },
    /// The argument buffer cannot be tokenized (it is too short or ends early).
    MalformedBuffer { len: usize },
}

impl Source {
    /// The name of the record under the process's directory in /proc.
    pub open spec fn record_name(self) -> Seq<u8> {
        match self {
            Source::Status => ascii("status"@),
            Source::Cmdline => ascii("cmdline"@),
            Source::Environ => ascii("environ"@),
            Source::Cwd => ascii("cwd"@),
            Source::ProcessTable => ascii("stat"@),
        }
    }
}

impl CollectError {
    /// The one-line description of the failure, naming the pid and the record.
    pub open spec fn message_bytes(self) -> Seq<u8> {
        match self {
            CollectError::NotFound { pid } => ascii("Invalid PID "@) + decimal(pid as int),
            CollectError::PermissionDenied { pid, source: Source::ProcessTable } =>
                ascii("got permission denied while checking if PID "@) + decimal(pid as int) + ascii(" exits"@),
            CollectError::PermissionDenied { pid, source } =>
                ascii("read: /proc/"@) + decimal(pid as int) + ascii("/"@) + source.record_name() + ascii(": Permission denied"@),
            CollectError::ProtocolError { pid, code } =>
                ascii("kernel query for PID "@) + decimal(pid as int) + ascii(" failed: os error "@) + decimal(code as int),
            CollectError::MalformedBuffer { len } =>
                ascii("malformed argument buffer of "@) + digits(len as nat) + ascii(" bytes"@),
        }
    }

    /// The description of the failure as text.
    pub fn message(&self) -> (r: String)
        ensures
            r@ == chars_of(self.message_bytes()),
    {
        proof {
            reveal_strlit("Invalid PID ");
            reveal_strlit("got permission denied while checking if PID ");
            reveal_strlit(" exits");
            reveal_strlit("read: /proc/");
            reveal_strlit("/");
            reveal_strlit("status");
            reveal_strlit("cmdline");
            reveal_strlit("environ");
            reveal_strlit("cwd");
            reveal_strlit("stat");
            reveal_strlit(": Permission denied");
            reveal_strlit("kernel query for PID ");
            reveal_strlit(" failed: os error ");
            reveal_strlit("malformed argument buffer of ");
            reveal_strlit(" bytes");
        }
        let mut out: Vec<u8> = Vec::new();
        match *self {
            CollectError::NotFound { pid } => {
                append(&mut out, literal("Invalid PID "));
                append_decimal(&mut out, pid as i64);
                proof { lemma_decimal_ascii(pid as int); lemma_concat_ascii(ascii("Invalid PID "@), decimal(pid as int));
                    assert(out@ =~= ascii("Invalid PID "@) + decimal(pid as int)); }
            },
            CollectError::PermissionDenied { pid, source: Source::ProcessTable } => {
                let ghost d = decimal(pid as int);
                let ghost a = ascii("got permission denied while checking if PID "@);
                append(&mut out, literal("got permission denied while checking if PID "));
                append_decimal(&mut out, pid as i64);
                append(&mut out, literal(" exits"));
                proof {
                    lemma_decimal_ascii(pid as int);
                    lemma_concat_ascii(a, d);
                    lemma_concat_ascii(a + d, ascii(" exits"@));
                    assert(out@ =~= a + d + ascii(" exits"@));
                }
            },
            CollectError::PermissionDenied { pid, source } => {
                let ghost d = decimal(pid as int);
                let ghost a = ascii("read: /proc/"@);
                append(&mut out, literal("read: /proc/"));
                append_decimal(&mut out, pid as i64);
                append(&mut out, literal("/"));
                let name = match source {
                    Source::Status => literal("status"),
                    Source::Cmdline => literal("cmdline"),
                    Source::Environ => literal("environ"),
                    Source::Cwd => literal("cwd"),
                    Source::ProcessTable => literal("stat"),
                };
                append(&mut out, name);
                append(&mut out, literal(": Permission denied"));
                proof {
                    lemma_decimal_ascii(pid as int);
                    lemma_concat_ascii(a, d);
                    lemma_concat_ascii(a + d, ascii("/"@));
                    lemma_concat_ascii(a + d + ascii("/"@), name@);
                    lemma_concat_ascii(a + d + ascii("/"@) + name@, ascii(": Permission denied"@));
                    assert(name@ == source.record_name());
                    assert(out@ =~= a + d + ascii("/"@) + name@ + ascii(": Permission denied"@));
                }
            },
            CollectError::ProtocolError { pid, code } => {
                let ghost a = ascii("kernel query for PID "@);
                let ghost d = decimal(pid as int);
                let ghost m = ascii(" failed: os error "@);
                let ghost c = decimal(code as int);
                append(&mut out, literal("kernel query for PID "));
                append_decimal(&mut out, pid as i64);
                append(&mut out, literal(" failed: os error "));
                append_decimal(&mut out, code as i64);
                proof {
                    lemma_decimal_ascii(pid as int);
                    lemma_decimal_ascii(code as int);
                    lemma_concat_ascii(a, d);
                    lemma_concat_ascii(a + d, m);
                    lemma_concat_ascii(a + d + m, c);
                    assert(out@ =~= a + d + m + c);
                }
            },
            CollectError::MalformedBuffer { len } => {
                let ghost a = ascii("malformed argument buffer of "@);
                let ghost d = digits(len as nat);
                append(&mut out, literal("malformed argument buffer of "));
                append_digits(&mut out, len as u64);
                append(&mut out, literal(" bytes"));
                proof {
                    lemma_digits_ascii(len as nat);
                    lemma_concat_ascii(a, d);
                    lemma_concat_ascii(a + d, ascii(" bytes"@));
                    assert(out@ =~= a + d + ascii(" bytes"@));
                }
            },
        }
        ascii_string(out)
    }
}

} // verus!
