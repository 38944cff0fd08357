use vstd::prelude::*;
use crate::buffer::ascii;

verus! {

broadcast use vstd::string::is_ascii_spec_bytes;

/// Every byte is an ASCII character.
pub open spec fn all_ascii(b: Seq<u8>) -> bool {
    forall|i: int| 0 <= i < b.len() ==> b[i] < 128
}

/// The characters that the ASCII bytes `b` encode.
pub open spec fn chars_of(b: Seq<u8>) -> Seq<char> {
    Seq::new(b.len(), |i: int| b[i] as char)
}

/// Decimal digits of `n`, most significant first.
pub open spec fn digits(n: nat) -> Seq<u8>
    decreases n,
{
    if n < 10 {
        seq![(48 + n) as u8]
    } else {
        digits(n / 10).push((48 + n % 10) as u8)
    }
}

/// `n` written in decimal, with a leading minus sign when negative.
pub open spec fn decimal(n: int) -> Seq<u8> {
    if n < 0 {
        seq![45u8] + digits((-n) as nat)
    } else {
        digits(n as nat)
    }
}

/// Lines joined with `sep` between each two of them.
pub open spec fn join(lines: Seq<Seq<u8>>, sep: Seq<u8>) -> Seq<u8>
    decreases lines.len(),
{
    if lines.len() == 0 {
        seq![]
    } else if lines.len() == 1 {
        lines[0]
    } else {
        join(lines.drop_last(), sep) + sep + lines.last()
    }
}

pub proof fn lemma_digits_ascii(n: nat)
    ensures
        all_ascii(digits(n)),
        digits(n).len() >= 1,
    decreases n,
{
    if n >= 10 {
        lemma_digits_ascii(n / 10);
    }
}

pub proof fn lemma_decimal_ascii(n: int)
    ensures
        all_ascii(decimal(n)),
{
    if n < 0 {
        lemma_digits_ascii((-n) as nat);
        assert(all_ascii(seq![45u8]));
        lemma_concat_ascii(seq![45u8], digits((-n) as nat));
    } else {
        lemma_digits_ascii(n as nat);
    }
}

pub proof fn lemma_concat_ascii(a: Seq<u8>, b: Seq<u8>)
    requires
        all_ascii(a),
        all_ascii(b),
    ensures
        all_ascii(a + b),
{
    assert forall|i: int| 0 <= i < (a + b).len() implies (a + b)[i] < 128 by {
        if i >= a.len() {
            assert((a + b)[i] == b[i - a.len()]);
        }
    }
}

/// The bytes of an ASCII literal.
pub fn literal(s: &'static str) -> (r: &'static [u8])
    requires
        vstd::string::is_ascii(s),
    ensures
        r@ == ascii(s@),
        all_ascii(r@),
{
    let r = s.as_bytes();
    proof {
        assert forall|i: int| 0 <= i < r@.len() implies r@[i] < 128 by {
            assert('\0' <= s@[i] <= '\u{7f}');
        }
    }
    r
}

/// Appends `s` to `out`.
pub fn append(out: &mut Vec<u8>, s: &[u8])
    ensures
        final(out)@ == old(out)@ + s@,
{
    let ghost start = out@;
    let mut i: usize = 0;
    while i < s.len()
        invariant
            i <= s.len(),
            out@ == start + s@.subrange(0, i as int),
        decreases s.len() - i,
    {
        out.push(s[i]);
        i += 1;
        assert(out@ =~= start + s@.subrange(0, i as int));
    }
    assert(s@.subrange(0, s@.len() as int) =~= s@);
}

/// Appends the decimal digits of `n`.
pub fn append_digits(out: &mut Vec<u8>, n: u64)
    ensures
        final(out)@ == old(out)@ + digits(n as nat),
    decreases n,
{
    if n >= 10 {
        append_digits(out, n / 10);
    }
    out.push((48 + n % 10) as u8);
    proof {
        if n >= 10 {
            assert(digits(n as nat) == digits((n / 10) as nat).push((48 + n % 10) as u8));
        }
    }
    assert(final(out)@ =~= old(out)@ + digits(n as nat));
}

/// Appends `n` written in decimal.
pub fn append_decimal(out: &mut Vec<u8>, n: i64)
    ensures
        final(out)@ == old(out)@ + decimal(n as int),
{
    if n < 0 {
        out.push(45u8);
        let m: u64 = if n == i64::MIN { 0x8000_0000_0000_0000u64 } else { (-n) as u64 };
        append_digits(out, m);
        assert(out@ =~= old(out)@ + decimal(n as int));
    } else {
        append_digits(out, n as u64);
    }
}

/// Joins lines with `sep` between each two of them.
pub fn join_lines(lines: &Vec<Vec<u8>>, sep: &[u8]) -> (r: Vec<u8>)
    ensures
        r@ == join(lines.deep_view(), sep@),
{
    let ghost ls = lines.deep_view();
    let mut out: Vec<u8> = Vec::new();
    let mut i: usize = 0;
    while i < lines.len()
        invariant
            ls == lines.deep_view(),
            i <= lines.len(),
            out@ == join(ls.take(i as int), sep@),
        decreases lines.len() - i,
    {
        let ghost before = out@;
        if i > 0 {
            append(&mut out, sep);
        }
        append(&mut out, lines[i].as_slice());
        assert(lines[i as int].deep_view() =~= lines[i as int]@);
        assert(ls.take(i + 1).drop_last() =~= ls.take(i as int));
        i += 1;
        if i == 1 {
            assert(out@ =~= join(ls.take(i as int), sep@));
        }
    }
    assert(ls.take(lines.len() as int) =~= ls);
    out
}

/// The text of ASCII bytes, one character per byte.
///
/// Relies on `String::from_utf8`: ASCII bytes are valid UTF-8, and each
/// encodes the character of the same value.
#[verifier::external_body]
pub(crate) fn ascii_string(b: Vec<u8>) -> (r: String)
    requires
        all_ascii(b@),
    ensures
        r@ == chars_of(b@),
{
    String::from_utf8(b).unwrap_or_default()
}

} // verus!
