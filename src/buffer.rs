use vstd::prelude::*;
use crate::error::CollectError;
use crate::text::literal;

verus! {

/// Bytes of an ASCII text, one per character.
pub open spec fn ascii(s: Seq<char>) -> Seq<u8> {
    Seq::new(s.len(), |i: int| s[i] as u8)
}

/// Size of the leading argument count.
pub const COUNT_LEN: usize = 4;

/// The argument count stored little-endian, signed, in the first four bytes.
pub open spec fn nargs_of(b: Seq<u8>) -> int {
    let u = b[0] as int + b[1] as int * 256 + b[2] as int * 65536 + b[3] as int * 16777216;
    if u >= 0x8000_0000 {
        u - 0x1_0000_0000
    } else {
        u
    }
}

/// The number of argument tokens that follow the duplicated command token.
pub open spec fn argv_count(b: Seq<u8>) -> nat {
    if nargs_of(b) >= 1 {
        (nargs_of(b) - 1) as nat
    } else {
        0
    }
}

/// The first NUL at or after `pos`, or the end of the buffer.
pub open spec fn token_end(b: Seq<u8>, pos: nat) -> nat
    decreases b.len() - pos,
{
    if pos >= b.len() {
        b.len()
    } else if b[pos as int] == 0 {
        pos
    } else {
        token_end(b, pos + 1)
    }
}

/// The token that starts at `pos`: the bytes up to the next NUL.
pub open spec fn token_at(b: Seq<u8>, pos: nat) -> Seq<u8> {
    b.subrange(pos as int, token_end(b, pos) as int)
}

/// The position just past the token at `pos` and its terminating NUL.
pub open spec fn after_token(b: Seq<u8>, pos: nat) -> nat {
    if token_end(b, pos) < b.len() {
        token_end(b, pos) + 1
    } else {
        b.len()
    }
}

/// The first non-NUL byte at or after `pos`, or the end of the buffer.
pub open spec fn skip_padding(b: Seq<u8>, pos: nat) -> nat
    decreases b.len() - pos,
{
    if pos >= b.len() {
        b.len()
    } else if b[pos as int] != 0 {
        pos
    } else {
        skip_padding(b, pos + 1)
    }
}

/// Where the next token starts once the token at `pos` and the padding after it are passed.
pub open spec fn next_region_token(b: Seq<u8>, pos: nat) -> nat {
    skip_padding(b, after_token(b, pos))
}

/// Where the duplicated command token starts.
pub open spec fn cmd_start(b: Seq<u8>) -> nat {
    next_region_token(b, COUNT_LEN as nat)
}

/// Where the argument tokens start.
pub open spec fn args_start(b: Seq<u8>) -> nat {
    next_region_token(b, cmd_start(b))
}

/// Where the `k`-th of the consecutive argument tokens from `start` begins.
pub open spec fn arg_pos(b: Seq<u8>, start: nat, k: nat) -> nat
    decreases k,
{
    if k == 0 {
        start
    } else {
        after_token(b, arg_pos(b, start, (k - 1) as nat))
    }
}

/// The first `k` argument tokens from `start` are each ended by a NUL inside the buffer.
pub open spec fn args_fit(b: Seq<u8>, start: nat, k: nat) -> bool
    decreases k,
{
    k == 0 || (args_fit(b, start, (k - 1) as nat) && token_end(b, arg_pos(b, start, (k - 1) as nat)) < b.len())
}

/// The first `k` argument tokens from `start`, in order; each NUL ends exactly one of them.
pub open spec fn args_of(b: Seq<u8>, start: nat, k: nat) -> Seq<Seq<u8>>
    decreases k,
{
    if k == 0 {
        seq![]
    } else {
        args_of(b, start, (k - 1) as nat).push(token_at(b, arg_pos(b, start, (k - 1) as nat)))
    }
}

/// Where the environment region starts: past the arguments and the padding after them.
pub open spec fn env_start(b: Seq<u8>) -> nat {
    skip_padding(b, arg_pos(b, args_start(b), argv_count(b)))
}

/// The prefixes of the metadata strings that the kernel adds after the environment.
pub open spec fn apple_prefixes() -> Seq<Seq<u8>> {
    seq![
        ascii("ptr_munge="@),
        ascii("main_stack="@),
        ascii("executable_file="@),
        ascii("dyld_file="@),
        ascii("executable_cdhash="@),
        ascii("executable_boothash="@),
        ascii("arm64e_abi="@),
    ]
}

pub open spec fn has_prefix(v: Seq<u8>, p: Seq<u8>) -> bool {
    p.len() <= v.len() && v.subrange(0, p.len() as int) == p
}

/// A kernel metadata string: one that starts with a known metadata prefix.
pub open spec fn is_apple_string(v: Seq<u8>) -> bool {
    exists|i: int| 0 <= i < apple_prefixes().len() && has_prefix(v, #[trigger] apple_prefixes()[i])
}

/// The environment tokens from `pos` to the end of the buffer, metadata strings
/// left out. A trailing span that no NUL ends is no token.
pub open spec fn env_of(b: Seq<u8>, pos: nat) -> Seq<Seq<u8>>
    decreases b.len() - pos,
    via env_of_decreases
{
    if pos >= b.len() || token_end(b, pos) >= b.len() {
        seq![]
    } else {
        let t = token_at(b, pos);
        let rest = env_of(b, next_region_token(b, pos));
        if is_apple_string(t) {
            rest
        } else {
            seq![t] + rest
        }
    }
}

#[via_fn]
proof fn env_of_decreases(b: Seq<u8>, pos: nat) {
    if pos < b.len() {
        lemma_next_region_token(b, pos);
    }
}

/// A buffer that holds the count, then the path, the command token and every
/// argument token, each ended by a NUL.
pub open spec fn well_formed(b: Seq<u8>) -> bool {
    &&& b.len() > COUNT_LEN
    &&& token_end(b, COUNT_LEN as nat) < b.len()
    &&& token_end(b, cmd_start(b)) < b.len()
    &&& args_fit(b, args_start(b), argv_count(b))
}

pub proof fn lemma_token_end(b: Seq<u8>, pos: nat)
    requires
        pos <= b.len(),
    ensures
        pos <= token_end(b, pos) <= b.len(),
        token_end(b, pos) < b.len() ==> b[token_end(b, pos) as int] == 0,
        forall|i: int| pos <= i < token_end(b, pos) ==> b[i] != 0,
    decreases b.len() - pos,
{
    if pos < b.len() && b[pos as int] != 0 {
        lemma_token_end(b, pos + 1);
    }
}

pub proof fn lemma_skip_padding(b: Seq<u8>, pos: nat)
    requires
        pos <= b.len(),
    ensures
        pos <= skip_padding(b, pos) <= b.len(),
        skip_padding(b, pos) < b.len() ==> b[skip_padding(b, pos) as int] != 0,
        forall|i: int| pos <= i < skip_padding(b, pos) ==> b[i] == 0,
    decreases b.len() - pos,
{
    if pos < b.len() && b[pos as int] == 0 {
        lemma_skip_padding(b, pos + 1);
    }
}

pub proof fn lemma_next_region_token(b: Seq<u8>, pos: nat)
    requires
        pos < b.len(),
    ensures
        pos < after_token(b, pos) <= next_region_token(b, pos) <= b.len(),
{
    lemma_token_end(b, pos);
    lemma_skip_padding(b, after_token(b, pos));
}

pub proof fn lemma_arg_pos(b: Seq<u8>, start: nat, k: nat)
    requires
        start <= b.len(),
    ensures
        start <= arg_pos(b, start, k) <= b.len(),
    decreases k,
{
    if k > 0 {
        lemma_arg_pos(b, start, (k - 1) as nat);
        lemma_token_end(b, arg_pos(b, start, (k - 1) as nat));
    }
}

pub proof fn lemma_args_fit_shrink(b: Seq<u8>, start: nat, j: nat, k: nat)
    requires
        j <= k,
        args_fit(b, start, k),
    ensures
        args_fit(b, start, j),
    decreases k,
{
    if j < k {
        lemma_args_fit_shrink(b, start, j, (k - 1) as nat);
    }
}

pub proof fn lemma_args_len(b: Seq<u8>, start: nat, k: nat)
    ensures
        args_of(b, start, k).len() == k,
    decreases k,
{
    if k > 0 {
        lemma_args_len(b, start, (k - 1) as nat);
    }
}

} // verus!

verus! {

/// A kernel argument buffer split into its parts.
pub struct KernProcArgs2 {
    /// The argument count that the buffer states (the path counts as one).
    pub nargs: i32,
    pub executable_path: Vec<u8>,
    /// The short command name that the kernel repeats after the path.
    pub executable_cmd: Vec<u8>,
    pub executable_args: Vec<Vec<u8>>,
    /// The environment tokens, metadata strings left out.
    pub environ: Vec<Vec<u8>>,
}

/// The bytes `b[start..end]`.
fn copy_range(b: &Vec<u8>, start: usize, end: usize) -> (r: Vec<u8>)
    requires
        start <= end <= b.len(),
    ensures
        r@ == b@.subrange(start as int, end as int),
{
    let mut r: Vec<u8> = Vec::new();
    let mut i: usize = start;
    while i < end
        invariant
            start <= i <= end <= b.len(),
            r@ == b@.subrange(start as int, i as int),
        decreases end - i,
    {
        r.push(b[i]);
        i += 1;
        assert(r@ =~= b@.subrange(start as int, i as int));
    }
    r
}

fn find_token_end(b: &Vec<u8>, pos: usize) -> (r: usize)
    requires
        pos <= b.len(),
    ensures
        r == token_end(b@, pos as nat),
{
    let mut i: usize = pos;
    while i < b.len() && b[i] != 0
        invariant
            pos <= i <= b.len(),
            token_end(b@, i as nat) == token_end(b@, pos as nat),
        decreases b.len() - i,
    {
        i += 1;
    }
    i
}

fn find_padding_end(b: &Vec<u8>, pos: usize) -> (r: usize)
    requires
        pos <= b.len(),
    ensures
        r == skip_padding(b@, pos as nat),
{
    let mut i: usize = pos;
    while i < b.len() && b[i] == 0
        invariant
            pos <= i <= b.len(),
            skip_padding(b@, i as nat) == skip_padding(b@, pos as nat),
        decreases b.len() - i,
    {
        i += 1;
    }
    i
}

fn starts_with(v: &Vec<u8>, p: &[u8]) -> (r: bool)
    ensures
        r == has_prefix(v@, p@),
{
    if p.len() > v.len() {
        return false;
    }
    let mut i: usize = 0;
    while i < p.len()
        invariant
            p@.len() <= v@.len(),
            i <= p.len(),
            forall|j: int| 0 <= j < i ==> v@[j] == p@[j],
        decreases p.len() - i,
    {
        if v[i] != p[i] {
            assert(v@.subrange(0, p@.len() as int)[i as int] != p@[i as int]);
            return false;
        }
        i += 1;
    }
    assert(v@.subrange(0, p@.len() as int) =~= p@);
    true
}

fn read_nargs(b: &Vec<u8>) -> (r: i32)
    requires
        b.len() >= COUNT_LEN,
    ensures
        r as int == nargs_of(b@),
{
    let u: u64 = b[0] as u64 + b[1] as u64 * 256 + b[2] as u64 * 65536 + b[3] as u64 * 16777216;
    if u >= 0x8000_0000 {
        (u as i64 - 0x1_0000_0000i64) as i32
    } else {
        u as i32
    }
}

impl crate::executable::Executable {
    /// Reads the token at `offset` into `dest` and returns where the next token
    /// starts, past the token's NUL and any padding after it.
    pub fn do_parse_kernel_args(procargs: &Vec<u8>, dest: &mut Vec<u8>, offset: usize) -> (r: usize)
        requires
            offset <= procargs.len(),
        ensures
            final(dest)@ == token_at(procargs@, offset as nat),
            offset + final(dest)@.len() == token_end(procargs@, offset as nat),
            r == next_region_token(procargs@, offset as nat),
            r <= procargs.len(),
            offset < procargs.len() ==> offset < r,
    {
        proof {
            lemma_token_end(procargs@, offset as nat);
            if offset < procargs.len() {
                lemma_next_region_token(procargs@, offset as nat);
            } else {
                lemma_skip_padding(procargs@, after_token(procargs@, offset as nat));
            }
        }
        let end = find_token_end(procargs, offset);
        *dest = copy_range(procargs, offset, end);
        let after = if end < procargs.len() { end + 1 } else { end };
        find_padding_end(procargs, after)
    }

    /// Reads the argument token at `offset` into `dest` and returns the position
    /// just past its NUL: inside the argument run each NUL ends exactly one token.
    pub fn read_arg(procargs: &Vec<u8>, dest: &mut Vec<u8>, offset: usize) -> (r: usize)
        requires
            offset <= procargs.len(),
        ensures
            final(dest)@ == token_at(procargs@, offset as nat),
            offset + final(dest)@.len() == token_end(procargs@, offset as nat),
            r == after_token(procargs@, offset as nat),
            r <= procargs.len(),
    {
        proof {
            lemma_token_end(procargs@, offset as nat);
        }
        let end = find_token_end(procargs, offset);
        *dest = copy_range(procargs, offset, end);
        if end < procargs.len() { end + 1 } else { end }
    }

    /// Splits a kernel argument buffer into the count, the path, the repeated
    /// command name, the argument tokens and the environment tokens. The buffer
    /// is malformed when it ends before the NUL of the path, of the command name
    /// or of one of the argument tokens that the count announces. A trailing
    /// span that no NUL ends is not an environment token.
    pub fn parse_kernel_args(procargs: &Vec<u8>) -> (r: Result<KernProcArgs2, CollectError>)
        ensures
            match r {
                Ok(a) => {
                    &&& well_formed(procargs@)
                    &&& a.nargs as int == nargs_of(procargs@)
                    &&& a.executable_path@ == token_at(procargs@, COUNT_LEN as nat)
                    &&& a.executable_cmd@ == token_at(procargs@, cmd_start(procargs@))
                    &&& a.executable_args.deep_view() == args_of(procargs@, args_start(procargs@), argv_count(procargs@))
                    &&& a.environ.deep_view() == env_of(procargs@, env_start(procargs@))
                    &&& a.nargs >= 1 ==> a.executable_args.len() == a.nargs - 1
                    &&& a.nargs < 1 ==> a.executable_args.len() == 0
                    &&& forall|i: int| 0 <= i < a.environ.len() ==> !is_apple_string(#[trigger] a.environ@[i]@)
                },
                Err(e) => !well_formed(procargs@) && e == CollectError::MalformedBuffer { len: procargs.len() },
            },
    {
        let ghost b = procargs@;
        if procargs.len() <= COUNT_LEN {
            return Err(CollectError::MalformedBuffer { len: procargs.len() });
        }
        let nargs = read_nargs(procargs);

        let mut executable_path: Vec<u8> = Vec::new();
        let mut offset = Self::do_parse_kernel_args(procargs, &mut executable_path, COUNT_LEN);
        if executable_path.len() >= procargs.len() - COUNT_LEN {
            return Err(CollectError::MalformedBuffer { len: procargs.len() });
        }
        let cmd_offset = offset;
        let mut executable_cmd: Vec<u8> = Vec::new();
        offset = Self::do_parse_kernel_args(procargs, &mut executable_cmd, cmd_offset);
        if executable_cmd.len() >= procargs.len() - cmd_offset {
            return Err(CollectError::MalformedBuffer { len: procargs.len() });
        }

        let start = offset;
        let mut executable_args: Vec<Vec<u8>> = Vec::new();
        let mut k: i32 = 1;
        while k < nargs
            invariant
                b == procargs@,
                nargs as int == nargs_of(b),
                start == args_start(b),
                1 <= k,
                nargs >= 1 ==> k <= nargs,
                nargs < 1 ==> k == 1,
                offset <= procargs.len(),
                offset as nat == arg_pos(b, start as nat, (k - 1) as nat),
                args_fit(b, start as nat, (k - 1) as nat),
                executable_args.deep_view() == args_of(b, start as nat, (k - 1) as nat),
            decreases nargs - k,
        {
            let arg_offset = offset;
            let mut tmp: Vec<u8> = Vec::new();
            offset = Self::read_arg(procargs, &mut tmp, arg_offset);
            if tmp.len() >= procargs.len() - arg_offset {
                proof {
                    assert(!args_fit(b, start as nat, k as nat));
                    if args_fit(b, start as nat, argv_count(b)) {
                        lemma_args_fit_shrink(b, start as nat, k as nat, argv_count(b));
                    }
                }
                return Err(CollectError::MalformedBuffer { len: procargs.len() });
            }
            let ghost prev = executable_args.deep_view();
            assert(tmp.deep_view() =~= tmp@);
            executable_args.push(tmp);
            k += 1;
            assert(executable_args.deep_view() =~= prev.push(tmp@));
        }
        proof {
            lemma_arg_pos(b, start as nat, argv_count(b));
            lemma_args_len(b, start as nat, argv_count(b));
            lemma_skip_padding(b, arg_pos(b, start as nat, argv_count(b)));
        }
        offset = find_padding_end(procargs, offset);

        let ghost env_begin = offset as nat;
        let mut environ: Vec<Vec<u8>> = Vec::new();
        while offset < procargs.len()
            invariant
                b == procargs@,
                env_begin <= offset <= procargs.len(),
                environ.deep_view() + env_of(b, offset as nat) == env_of(b, env_begin),
                forall|i: int| 0 <= i < environ.len() ==> !is_apple_string(#[trigger] environ@[i]@),
            decreases procargs.len() - offset,
        {
            let mut tmp: Vec<u8> = Vec::new();
            let next = Self::do_parse_kernel_args(procargs, &mut tmp, offset);
            let ghost prev = environ.deep_view();
            assert(tmp.deep_view() =~= tmp@);
            let ended = tmp.len() < procargs.len() - offset;
            if ended && !Self::is_kernel_apple_string(&tmp) {
                environ.push(tmp);
                assert(environ.deep_view() =~= prev.push(tmp@));
                assert(environ.deep_view() + env_of(b, next as nat) =~= prev + (seq![tmp@] + env_of(b, next as nat)));
            }
            proof {
                if !ended {
                    assert(next_region_token(b, offset as nat) == b.len());
                }
            }
            offset = next;
        }
        assert(environ.deep_view() =~= environ.deep_view() + env_of(b, offset as nat));
        Ok(KernProcArgs2 { nargs, executable_path, executable_cmd, executable_args, environ })
    }

    /// Whether `value` is a metadata string that the kernel added, not an environment variable.
    pub fn is_kernel_apple_string(value: &Vec<u8>) -> (r: bool)
        ensures
            r == is_apple_string(value@),
    {
        proof {
            reveal_strlit("ptr_munge=");
            reveal_strlit("main_stack=");
            reveal_strlit("executable_file=");
            reveal_strlit("dyld_file=");
            reveal_strlit("executable_cdhash=");
            reveal_strlit("executable_boothash=");
            reveal_strlit("arm64e_abi=");
        }
        let found = starts_with(value, literal("ptr_munge="))
            || starts_with(value, literal("main_stack="))
            || starts_with(value, literal("executable_file="))
            || starts_with(value, literal("dyld_file="))
            || starts_with(value, literal("executable_cdhash="))
            || starts_with(value, literal("executable_boothash="))
            || starts_with(value, literal("arm64e_abi="));
        proof {
            let ps = apple_prefixes();
            if !found {
                assert forall|i: int| 0 <= i < ps.len() implies !has_prefix(value@, #[trigger] ps[i]) by {
                    assert(i == 0 || i == 1 || i == 2 || i == 3 || i == 4 || i == 5 || i == 6);
                }
            } else {
                assert(has_prefix(value@, ps[0]) || has_prefix(value@, ps[1]) || has_prefix(value@, ps[2])
                    || has_prefix(value@, ps[3]) || has_prefix(value@, ps[4]) || has_prefix(value@, ps[5])
                    || has_prefix(value@, ps[6]));
            }
        }
        found
    }
}

} // verus!
