use vstd::prelude::*;
use crate::cli::CliArgs;
use crate::render::{cmd_lines, commands, cwd_lines, env_lines, section, ProcessFacts};
use crate::text::join;
use crate::buffer::{
    after_token, arg_pos, args_fit, args_of, args_start, argv_count, cmd_start, env_of, env_start,
    is_apple_string, lemma_arg_pos, lemma_args_fit_shrink, lemma_next_region_token, lemma_skip_padding, lemma_token_end,
    nargs_of, next_region_token, skip_padding, token_at, token_end, well_formed, COUNT_LEN,
};

verus! {

/// No token that starts with a metadata prefix, whole or followed by more,
/// is ever among the environment tokens read from any position.
pub proof fn lemma_env_has_no_apple_string(b: Seq<u8>, pos: nat)
    requires
        pos <= b.len(),
    ensures
        forall|i: int| 0 <= i < env_of(b, pos).len() ==> !is_apple_string(#[trigger] env_of(b, pos)[i]),
    decreases b.len() - pos,
{
    if pos < b.len() {
        lemma_next_region_token(b, pos);
        lemma_env_has_no_apple_string(b, next_region_token(b, pos));
        let t = token_at(b, pos);
        let rest = env_of(b, next_region_token(b, pos));
        if !is_apple_string(t) {
            assert forall|i: int| 0 <= i < env_of(b, pos).len() implies !is_apple_string(#[trigger] env_of(b, pos)[i]) by {
                if i > 0 {
                    assert(env_of(b, pos)[i] == rest[i - 1]);
                }
            }
        }
    }
}

/// `b` with `k` NUL bytes inserted at position `p`.
pub open spec fn insert_padding(b: Seq<u8>, p: nat, k: nat) -> Seq<u8> {
    b.subrange(0, p as int) + Seq::new(k, |i: int| 0u8) + b.subrange(p as int, b.len() as int)
}

proof fn lemma_insert_facts(b: Seq<u8>, p: nat, k: nat)
    requires
        p <= b.len(),
    ensures
        insert_padding(b, p, k).len() == b.len() + k,
        forall|i: int| 0 <= i < p ==> #[trigger] insert_padding(b, p, k)[i] == b[i],
        forall|i: int| p <= i < p + k ==> #[trigger] insert_padding(b, p, k)[i] == 0,
        forall|i: int| p <= i < b.len() ==> #[trigger] insert_padding(b, p, k)[i + k] == b[i],
{
    let b2 = insert_padding(b, p, k);
    assert forall|i: int| p <= i < b.len() implies #[trigger] b2[i + k] == b[i] by {
        assert(b2[i + k] == b.subrange(p as int, b.len() as int)[i - p]);
    }
}

proof fn lemma_prefix_token_end(b: Seq<u8>, b2: Seq<u8>, p: nat, pos: nat)
    requires
        pos <= b.len(),
        p <= b.len(),
        p <= b2.len(),
        token_end(b, pos) < p,
        forall|i: int| 0 <= i < p ==> b2[i] == b[i],
    ensures
        token_end(b2, pos) == token_end(b, pos),
    decreases b.len() - pos,
{
    lemma_token_end(b, pos);
    if pos < b.len() && b[pos as int] != 0 {
        lemma_prefix_token_end(b, b2, p, pos + 1);
    }
}

proof fn lemma_prefix_skip(b: Seq<u8>, b2: Seq<u8>, p: nat, pos: nat)
    requires
        pos <= b.len(),
        p <= b.len(),
        p <= b2.len(),
        skip_padding(b, pos) < p,
        forall|i: int| 0 <= i < p ==> b2[i] == b[i],
    ensures
        skip_padding(b2, pos) == skip_padding(b, pos),
    decreases b.len() - pos,
{
    lemma_skip_padding(b, pos);
    if pos < b.len() && b[pos as int] == 0 {
        lemma_prefix_skip(b, b2, p, pos + 1);
    }
}

proof fn lemma_zeros_skip(b2: Seq<u8>, x: nat, y: nat)
    requires
        x <= y <= b2.len(),
        forall|i: int| x <= i < y ==> b2[i] == 0,
    ensures
        skip_padding(b2, x) == skip_padding(b2, y),
    decreases y - x,
{
    if x < y {
        lemma_zeros_skip(b2, x + 1, y);
    }
}

proof fn lemma_shift_token_end(b: Seq<u8>, p: nat, k: nat, pos: nat)
    requires
        p <= pos <= b.len(),
    ensures
        token_end(insert_padding(b, p, k), pos + k) == token_end(b, pos) + k,
    decreases b.len() - pos,
{
    lemma_insert_facts(b, p, k);
    if pos < b.len() && b[pos as int] != 0 {
        lemma_shift_token_end(b, p, k, pos + 1);
    }
}

proof fn lemma_shift_skip(b: Seq<u8>, p: nat, k: nat, pos: nat)
    requires
        p <= pos <= b.len(),
    ensures
        skip_padding(insert_padding(b, p, k), pos + k) == skip_padding(b, pos) + k,
    decreases b.len() - pos,
{
    lemma_insert_facts(b, p, k);
    if pos < b.len() && b[pos as int] == 0 {
        lemma_shift_skip(b, p, k, pos + 1);
    }
}

proof fn lemma_shift_env(b: Seq<u8>, p: nat, k: nat, pos: nat)
    requires
        p <= pos <= b.len(),
    ensures
        env_of(insert_padding(b, p, k), pos + k) == env_of(b, pos),
    decreases b.len() - pos,
{
    let b2 = insert_padding(b, p, k);
    lemma_insert_facts(b, p, k);
    if pos < b.len() {
        lemma_token_end(b, pos);
        lemma_shift_token_end(b, p, k, pos);
        let te = token_end(b, pos);
        assert(after_token(b2, pos + k) == after_token(b, pos) + k);
        lemma_shift_skip(b, p, k, after_token(b, pos));
        lemma_next_region_token(b, pos);
        lemma_shift_env(b, p, k, next_region_token(b, pos));
        assert(token_at(b2, pos + k) =~= token_at(b, pos)) by {
            assert forall|i: int| 0 <= i < te - pos implies token_at(b2, pos + k)[i] == token_at(b, pos)[i] by {
                assert(b2[pos + i + k] == b[pos + i]);
            }
        }
    }
}

proof fn lemma_arg_pos_mono(b: Seq<u8>, s: nat, j: nat, n: nat)
    requires
        s <= b.len(),
        j <= n,
    ensures
        arg_pos(b, s, j) <= arg_pos(b, s, n),
    decreases n,
{
    if j < n {
        lemma_arg_pos_mono(b, s, j, (n - 1) as nat);
        lemma_arg_pos(b, s, (n - 1) as nat);
        lemma_token_end(b, arg_pos(b, s, (n - 1) as nat));
    }
}

/// The argument tokens before position `p` read the same in a buffer that
/// agrees with `b` below `p`.
proof fn lemma_prefix_args(b: Seq<u8>, b2: Seq<u8>, p: nat, s: nat, n: nat, j: nat)
    requires
        s <= b.len(),
        p < b.len(),
        p <= b2.len(),
        j <= n,
        args_fit(b, s, n),
        arg_pos(b, s, n) == p,
        forall|i: int| 0 <= i < p ==> b2[i] == b[i],
    ensures
        arg_pos(b2, s, j) == arg_pos(b, s, j),
        args_fit(b2, s, j),
        args_of(b2, s, j) == args_of(b, s, j),
    decreases j,
{
    if j > 0 {
        let j1 = (j - 1) as nat;
        lemma_prefix_args(b, b2, p, s, n, j1);
        lemma_args_fit_shrink(b, s, j, n);
        let q = arg_pos(b, s, j1);
        lemma_arg_pos(b, s, j1);
        lemma_token_end(b, q);
        lemma_arg_pos_mono(b, s, j, n);
        assert(token_end(b, q) < p);
        lemma_prefix_token_end(b, b2, p, q);
        assert(token_at(b2, q) =~= token_at(b, q));
    }
}

/// Extra NUL bytes between the argument region and the environment region
/// change nothing that is read from a buffer.
pub proof fn lemma_padding_invariant(b: Seq<u8>, k: nat)
    requires
        well_formed(b),
        arg_pos(b, args_start(b), argv_count(b)) < b.len(),
    ensures
        ({
            let b2 = insert_padding(b, arg_pos(b, args_start(b), argv_count(b)), k);
            &&& well_formed(b2)
            &&& nargs_of(b2) == nargs_of(b)
            &&& token_at(b2, COUNT_LEN as nat) == token_at(b, COUNT_LEN as nat)
            &&& token_at(b2, cmd_start(b2)) == token_at(b, cmd_start(b))
            &&& args_of(b2, args_start(b2), argv_count(b2)) == args_of(b, args_start(b), argv_count(b))
            &&& env_of(b2, env_start(b2)) == env_of(b, env_start(b))
        }),
{
    let s = args_start(b);
    let n = argv_count(b);
    let p = arg_pos(b, s, n);
    let b2 = insert_padding(b, p, k);
    lemma_insert_facts(b, p, k);
    let c = cmd_start(b);
    // the path and the command token lie below p
    lemma_token_end(b, 4);
    lemma_skip_padding(b, after_token(b, 4));
    lemma_token_end(b, c);
    lemma_skip_padding(b, after_token(b, c));
    lemma_arg_pos(b, s, n);
    assert(token_end(b, c) < s);
    assert(s <= p);
    assert(b2[0] == b[0] && b2[1] == b[1] && b2[2] == b[2] && b2[3] == b[3]);
    assert(nargs_of(b2) == nargs_of(b));
    lemma_prefix_token_end(b, b2, p, 4);
    lemma_prefix_skip(b, b2, p, after_token(b, 4));
    assert(cmd_start(b2) == c);
    assert(token_at(b2, 4) =~= token_at(b, 4));
    lemma_prefix_token_end(b, b2, p, c);
    assert(token_at(b2, c) =~= token_at(b, c));
    let a = after_token(b, c);
    assert(after_token(b2, c) == a);
    lemma_shift_skip(b, p, k, p);
    if n == 0 {
        // the inserted bytes join the padding after the command token
        lemma_zeros_skip(b2, a, p + k);
        lemma_zeros_skip(b, a, p);
        assert(args_start(b2) == p + k);
        lemma_zeros_skip(b2, p + k, p + k);
        assert(env_start(b2) == p + k);
    } else {
        lemma_arg_pos_mono(b, s, 1, n);
        lemma_args_fit_shrink(b, s, 1, n);
        lemma_token_end(b, s);
        assert(s < p);
        lemma_prefix_skip(b, b2, p, a);
        assert(args_start(b2) == s);
        lemma_prefix_args(b, b2, p, s, n, n);
        assert(env_start(b2) == skip_padding(b2, p));
        lemma_zeros_skip(b2, p, p + k);
    }
    lemma_skip_padding(b, p);
    lemma_shift_env(b, p, k, env_start(b));
}

/// Tokens each followed by a NUL, in order.
pub open spec fn terminated(ts: Seq<Seq<u8>>) -> Seq<u8>
    decreases ts.len(),
{
    if ts.len() == 0 {
        seq![]
    } else {
        terminated(ts.drop_last()) + ts.last() + seq![0u8]
    }
}

/// A non-negative count as four little-endian bytes.
pub open spec fn count_bytes(n: int) -> Seq<u8> {
    seq![(n % 256) as u8, (n / 256 % 256) as u8, (n / 65536 % 256) as u8, (n / 16777216 % 256) as u8]
}

/// A buffer laid out from its parts: the count, the path, the command name,
/// the argument tokens, `pad` NULs and the environment tokens.
pub open spec fn build_buffer(
    nargs: int,
    path: Seq<u8>,
    cmd: Seq<u8>,
    argv: Seq<Seq<u8>>,
    pad: nat,
    env: Seq<Seq<u8>>,
) -> Seq<u8> {
    count_bytes(nargs) + path + seq![0u8] + cmd + seq![0u8] + terminated(argv) + Seq::new(pad, |i: int| 0u8)
        + terminated(env)
}

pub open spec fn no_nul(t: Seq<u8>) -> bool {
    forall|i: int| 0 <= i < t.len() ==> t[i] != 0
}

proof fn lemma_terminated_front(ts: Seq<Seq<u8>>)
    requires
        ts.len() > 0,
    ensures
        terminated(ts) == ts[0] + seq![0u8] + terminated(ts.drop_first()),
    decreases ts.len(),
{
    if ts.len() > 1 {
        lemma_terminated_front(ts.drop_last());
        assert(ts.drop_last().drop_first() =~= ts.drop_first().drop_last());
        assert(ts.drop_first().last() == ts.last());
        assert(terminated(ts) =~= ts[0] + seq![0u8] + terminated(ts.drop_first()));
    } else {
        assert(ts.drop_last() =~= Seq::<Seq<u8>>::empty());
        assert(ts.drop_first() =~= Seq::<Seq<u8>>::empty());
        assert(terminated(ts) =~= ts[0] + seq![0u8] + terminated(ts.drop_first()));
    }
}

/// A NUL-free token followed by a NUL at `pos` is read back whole.
proof fn lemma_read_token(b: Seq<u8>, pos: nat, t: Seq<u8>)
    requires
        pos + t.len() < b.len(),
        no_nul(t),
        b.subrange(pos as int, pos + t.len() as int) == t,
        b[pos + t.len() as int] == 0,
    ensures
        token_end(b, pos) == pos + t.len(),
        token_at(b, pos) == t,
        after_token(b, pos) == pos + t.len() + 1,
    decreases t.len(),
{
    if t.len() > 0 {
        assert(b[pos as int] == t[0]);
        let t1 = t.drop_first();
        let p1: int = pos as int + 1;
        assert(b.subrange(p1, p1 + t1.len()) =~= t1) by {
            assert forall|i: int| 0 <= i < t1.len() implies b.subrange(p1, p1 + t1.len())[i] == t1[i] by {
                assert(b[p1 + i] == b.subrange(pos as int, pos + t.len() as int)[i + 1]);
            }
        }
        lemma_read_token(b, (pos + 1) as nat, t1);
    }
}

proof fn lemma_read_args(b: Seq<u8>, s: nat, argv: Seq<Seq<u8>>, j: nat)
    requires
        j <= argv.len(),
        s + terminated(argv).len() <= b.len(),
        b.subrange(s as int, s + terminated(argv).len() as int) == terminated(argv),
        forall|i: int| 0 <= i < argv.len() ==> no_nul(#[trigger] argv[i]),
    ensures
        arg_pos(b, s, j) == s + terminated(argv.take(j as int)).len(),
        args_fit(b, s, j),
        args_of(b, s, j) == argv.take(j as int),
    decreases argv.len(),
{
    if argv.len() > 0 {
        let last = (argv.len() - 1) as nat;
        let prefix = argv.drop_last();
        let si: int = s as int;
        let whole = b.subrange(si, si + terminated(argv).len());
        let lp: int = terminated(prefix).len() as int;
        assert(terminated(argv) == terminated(prefix) + argv.last() + seq![0u8]);
        assert(b.subrange(si, si + lp) =~= terminated(prefix)) by {
            assert forall|i: int| 0 <= i < lp implies b.subrange(si, si + lp)[i] == terminated(prefix)[i] by {
                assert(b[si + i] == whole[i]);
            }
        }
        if j <= last {
            lemma_read_args(b, s, prefix, j);
            assert(prefix.take(j as int) =~= argv.take(j as int));
        } else {
            lemma_read_args(b, s, prefix, last);
            assert(prefix.take(last as int) =~= prefix);
            assert(argv.take(j as int) =~= argv);
            let q: int = si + lp;
            let t = argv.last();
            assert(b.subrange(q, q + t.len()) =~= t) by {
                assert forall|i: int| 0 <= i < t.len() implies b.subrange(q, q + t.len())[i] == t[i] by {
                    assert(b[q + i] == whole[lp + i]);
                }
            }
            assert(b[q + t.len()] == whole[lp + t.len()]);
            lemma_read_token(b, q as nat, t);
            assert(args_of(b, s, j) =~= prefix.push(t));
            assert(prefix.push(t) =~= argv);
        }
    } else {
        assert(argv.take(j as int) =~= argv);
    }
}

proof fn lemma_read_env(b: Seq<u8>, pos: nat, env: Seq<Seq<u8>>)
    requires
        pos + terminated(env).len() == b.len(),
        b.subrange(pos as int, b.len() as int) == terminated(env),
        forall|i: int| 0 <= i < env.len() ==> no_nul(#[trigger] env[i]) && env[i].len() > 0 && !is_apple_string(env[i]),
    ensures
        env_of(b, pos) == env,
    decreases env.len(),
{
    let tail = b.subrange(pos as int, b.len() as int);
    if env.len() > 0 {
        lemma_terminated_front(env);
        let t = env[0];
        let rest = env.drop_first();
        let pi: int = pos as int;
        assert(b.subrange(pi, pi + t.len()) =~= t) by {
            assert forall|i: int| 0 <= i < t.len() implies b.subrange(pi, pi + t.len())[i] == t[i] by {
                assert(b[pi + i] == tail[i]);
            }
        }
        assert(b[pi + t.len()] == tail[t.len() as int]);
        lemma_read_token(b, pos, t);
        let next: int = pi + t.len() + 1;
        assert(b.subrange(next, b.len() as int) =~= terminated(rest)) by {
            assert forall|i: int| 0 <= i < terminated(rest).len() implies b.subrange(next, b.len() as int)[i] == terminated(rest)[i] by {
                assert(b[next + i] == tail[t.len() + 1 + i]);
            }
        }
        if rest.len() > 0 {
            lemma_terminated_front(rest);
            assert(rest[0] == env[1]);
            assert(b[next] == tail[t.len() as int + 1]);
            assert(b[next] == rest[0][0]);
        }
        assert(next_region_token(b, pos) == next);
        lemma_read_env(b, next as nat, rest);
        assert(env =~= seq![t] + rest);
    } else {
        assert(env_of(b, pos) =~= env);
    }
}

proof fn lemma_count_bytes(n: int)
    requires
        0 <= n < 0x8000_0000,
    ensures
        nargs_of(count_bytes(n)) == n,
{
    let b0 = n % 256;
    let b1 = n / 256 % 256;
    let b2 = n / 65536 % 256;
    let b3 = n / 16777216 % 256;
    assert(n == b0 + b1 * 256 + b2 * 65536 + b3 * 16777216) by (nonlinear_arith)
        requires
            0 <= n < 0x8000_0000,
            b0 == n % 256,
            b1 == n / 256 % 256,
            b2 == n / 65536 % 256,
            b3 == n / 16777216 % 256,
    ;
}

/// Round trip: a buffer laid out from a count, a path, a command name, the
/// argument tokens, padding and environment tokens (no metadata strings) is
/// read back as exactly those arguments and environment tokens, in order.
/// Tokens hold no NUL; the command name, the first argument and every
/// environment token are non-empty, since an empty token there would read as
/// padding.
#[verifier::rlimit(40)]
pub proof fn lemma_round_trip(
    path: Seq<u8>,
    cmd: Seq<u8>,
    argv: Seq<Seq<u8>>,
    pad: nat,
    env: Seq<Seq<u8>>,
)
    requires
        argv.len() + 1 < 0x8000_0000,
        no_nul(path),
        no_nul(cmd),
        cmd.len() > 0,
        forall|i: int| 0 <= i < argv.len() ==> no_nul(#[trigger] argv[i]),
        argv.len() > 0 ==> argv[0].len() > 0,
        forall|i: int| 0 <= i < env.len() ==> no_nul(#[trigger] env[i]) && env[i].len() > 0 && !is_apple_string(env[i]),
    ensures
        ({
            let b = build_buffer(argv.len() as int + 1, path, cmd, argv, pad, env);
            &&& well_formed(b)
            &&& nargs_of(b) == argv.len() as int + 1
            &&& token_at(b, COUNT_LEN as nat) == path
            &&& token_at(b, cmd_start(b)) == cmd
            &&& args_of(b, args_start(b), argv_count(b)) == argv
            &&& env_of(b, env_start(b)) == env
        }),
{
    let n: int = argv.len() as int + 1;
    let b = build_buffer(n, path, cmd, argv, pad, env);
    let h = count_bytes(n);
    let ta = terminated(argv);
    let te = terminated(env);
    let o2: int = 4 + path.len() as int;
    let o3: int = o2 + 1;
    let o4: int = o3 + cmd.len();
    let s: int = o4 + 1;
    let o6: int = s + ta.len();
    let o7: int = o6 + pad;
    assert(b.len() == o7 + te.len());
    lemma_count_bytes(n);
    assert(b.subrange(0, 4) =~= h);
    assert(nargs_of(b) == n);
    assert(b.subrange(4, o2) =~= path);
    assert(b[o2] == 0);
    lemma_read_token(b, 4, path);
    assert(b.subrange(o3, o4) =~= cmd);
    assert(b[o4] == 0);
    assert(b[o3] == cmd[0]);
    assert(cmd_start(b) == o3);
    lemma_read_token(b, o3 as nat, cmd);
    assert(token_end(b, 4) < b.len());
    assert(token_end(b, cmd_start(b)) < b.len());
    assert(b.subrange(s, o6) =~= ta);
    assert forall|i: int| o6 <= i < o7 implies b[i] == 0 by {}
    assert(b.subrange(o7, b.len() as int) =~= te);
    if env.len() > 0 {
        lemma_terminated_front(env);
        assert(b[o7] == te[0]);
        assert(b[o7] == env[0][0]);
    }
    assert(skip_padding(b, o7 as nat) == o7);
    lemma_zeros_skip(b, o6 as nat, o7 as nat);
    if argv.len() > 0 {
        lemma_terminated_front(argv);
        assert(b[s] == ta[0]);
        assert(b[s] == argv[0][0]);
        assert(args_start(b) == s);
    } else {
        assert(ta.len() == 0);
        assert(args_start(b) == o7);
        assert(b.subrange(o7, o7) =~= ta);
    }
    lemma_read_args(b, args_start(b), argv, argv.len());
    assert(argv.take(argv.len() as int) =~= argv);
    if argv.len() > 0 {
        assert(env_start(b) == skip_padding(b, o6 as nat));
    }
    assert(env_start(b) == o7);
    lemma_read_env(b, o7 as nat, env);
}

/// Leaving the comments out removes exactly the header line of each section
/// and nothing else: every section keeps its other lines in order, and a
/// section left without lines (an empty environment) leaves no empty line.
pub proof fn lemma_omit_comments(opts: CliArgs, f: ProcessFacts)
    requires
        opts.omit_comments,
    ensures
        ({
            let full = CliArgs { omit_comments: false, ..opts };
            &&& cwd_lines(opts, f.cwd@) == cwd_lines(full, f.cwd@).drop_first()
            &&& env_lines(opts, f.environment@) == env_lines(full, f.environment@).drop_first()
            &&& cmd_lines(opts, f.argv.deep_view()) == cmd_lines(full, f.argv.deep_view()).drop_first()
            &&& commands(opts, f) == if opts.command_only {
                join(cmd_lines(full, f.argv.deep_view()).drop_first(), seq![])
            } else {
                section(cwd_lines(full, f.cwd@).drop_first()) + section(env_lines(full, f.environment@).drop_first())
                    + join(cmd_lines(full, f.argv.deep_view()).drop_first(), seq![])
            }
            &&& f.environment@.len() == 0 ==> section(env_lines(opts, f.environment@)) == Seq::<u8>::empty()
        }),
{
    let full = CliArgs { omit_comments: false, ..opts };
    assert(cwd_lines(opts, f.cwd@) =~= cwd_lines(full, f.cwd@).drop_first());
    assert(env_lines(opts, f.environment@) =~= env_lines(full, f.environment@).drop_first());
    assert(cmd_lines(opts, f.argv.deep_view()) =~= cmd_lines(full, f.argv.deep_view()).drop_first());
    if f.environment@.len() == 0 {
        assert(env_lines(opts, f.environment@) =~= Seq::<Seq<u8>>::empty());
    }
}

} // verus!
