use vstd::prelude::*;
use crate::error::SigniaError;
use crate::json::{utf8_bytes, utf8_of};
use crate::strs::{chars_of, is_ws, is_ws_exec, lemma_trail_exact, string_of, trail_ws, trim_end_spec};

verus! {

/// Leading byte-order marks removed.
pub open spec fn strip_bom(s: Seq<char>) -> Seq<char>
    decreases s.len(),
{
    if s.len() > 0 && s[0] == '\u{feff}' {
        strip_bom(s.drop_first())
    } else {
        s
    }
}

/// CRLF and lone CR turned into LF.
pub open spec fn lf_only(s: Seq<char>) -> Seq<char>
    decreases s.len(),
{
    if s.len() == 0 {
        s
    } else if s[0] == '\r' && s.len() > 1 && s[1] == '\n' {
        seq!['\n'] + lf_only(s.subrange(2, s.len() as int))
    } else if s[0] == '\r' {
        seq!['\n'] + lf_only(s.drop_first())
    } else {
        seq![s[0]] + lf_only(s.drop_first())
    }
}

/// Trailing white space removed from each line; `cur` is the line read so far.
pub open spec fn trim_lines_from(cur: Seq<char>, s: Seq<char>) -> Seq<char>
    decreases s.len(),
{
    if s.len() == 0 {
        trim_end_spec(cur)
    } else if s[0] == '\n' {
        trim_end_spec(cur) + seq!['\n'] + trim_lines_from(Seq::empty(), s.drop_first())
    } else {
        trim_lines_from(cur.push(s[0]), s.drop_first())
    }
}

/// Normalized text: byte-order marks dropped, line ends as LF, trailing white
/// space of each line removed; a final line end is kept.
pub open spec fn normalized(s: Seq<char>) -> Seq<char> {
    trim_lines_from(Seq::empty(), lf_only(strip_bom(s)))
}

fn trim_end_len(v: &Vec<char>) -> (n: usize)
    ensures
        n <= v@.len(),
        v@.subrange(0, n as int) == trim_end_spec(v@),
{
    let mut hi: usize = v.len();
    while hi > 0 && is_ws_exec(v[hi - 1])
        invariant
            hi <= v@.len(),
            forall|i: int| hi <= i < v@.len() ==> is_ws(#[trigger] v@[i]),
        decreases hi,
    {
        hi = hi - 1;
    }
    proof {
        lemma_trail_exact(v@, (v@.len() - hi) as nat);
    }
    hi
}

/// Normalizes text for hashing and comparison.
pub fn normalize_text(input: &str) -> (r: Result<String, SigniaError>)
    ensures
        r is Ok,
        r->Ok_0@ == normalized(input@),
{
    let v = chars_of(input);
    let n = v.len();
    let mut i: usize = 0;
    assert(v@.subrange(0, n as int) =~= v@);
    while i < n && v[i] == '\u{feff}'
        invariant
            n == v@.len(),
            i <= n,
            strip_bom(input@) == strip_bom(v@.subrange(i as int, n as int)),
        decreases n - i,
    {
        assert(v@.subrange(i as int, n as int).drop_first() =~= v@.subrange(i + 1, n as int));
        i = i + 1;
    }
    let ghost b = v@.subrange(i as int, n as int);
    assert(strip_bom(input@) == b);
    let mut lf: Vec<char> = Vec::new();
    while i < n
        invariant
            n == v@.len(),
            i <= n,
            lf_only(b) == lf@ + lf_only(v@.subrange(i as int, n as int)),
        decreases n - i,
    {
        let ghost rest = v@.subrange(i as int, n as int);
        if v[i] == '\r' && i + 1 < n && v[i + 1] == '\n' {
            assert(rest.subrange(2, rest.len() as int) =~= v@.subrange(i + 2, n as int));
            lf.push('\n');
            i = i + 2;
        } else if v[i] == '\r' {
            assert(rest.drop_first() =~= v@.subrange(i + 1, n as int));
            lf.push('\n');
            i = i + 1;
        } else {
            assert(rest.drop_first() =~= v@.subrange(i + 1, n as int));
            lf.push(v[i]);
            i = i + 1;
        }
        assert(lf_only(b) =~= lf@ + lf_only(v@.subrange(i as int, n as int)));
    }
    assert(lf_only(v@.subrange(n as int, n as int)) =~= Seq::<char>::empty());
    assert(lf@ =~= lf_only(b));
    let m = lf.len();
    let mut out: Vec<char> = Vec::new();
    let mut cur: Vec<char> = Vec::new();
    let mut j: usize = 0;
    assert(lf@.subrange(0, m as int) =~= lf@);
    while j < m
        invariant
            m == lf@.len(),
            j <= m,
            trim_lines_from(Seq::empty(), lf@) == out@ + trim_lines_from(cur@, lf@.subrange(j as int, m as int)),
        decreases m - j,
    {
        let ghost rest = lf@.subrange(j as int, m as int);
        assert(rest.drop_first() =~= lf@.subrange(j + 1, m as int));
        if lf[j] == '\n' {
            let t = trim_end_len(&cur);
            let mut q: usize = 0;
            let ghost o0 = out@;
            while q < t
                invariant
                    t <= cur@.len(),
                    q <= t,
                    out@ == o0 + cur@.subrange(0, q as int),
                decreases t - q,
            {
                out.push(cur[q]);
                q = q + 1;
            }
            out.push('\n');
            assert(out@ =~= o0 + trim_end_spec(cur@) + seq!['\n']);
            cur = Vec::new();
            assert(cur@ =~= Seq::<char>::empty());
        } else {
            cur.push(lf[j]);
        }
        j = j + 1;
    }
    let t = trim_end_len(&cur);
    let ghost o0 = out@;
    let mut q: usize = 0;
    while q < t
        invariant
            t <= cur@.len(),
            q <= t,
            out@ == o0 + cur@.subrange(0, q as int),
        decreases t - q,
    {
        out.push(cur[q]);
        q = q + 1;
    }
    assert(out@ =~= normalized(input@));
    Ok(string_of(out.as_slice()))
}

/// Normalizes text and refuses a result longer than `max_bytes` in UTF-8.
pub fn normalize_text_with_limit(input: &str, max_bytes: usize) -> (r: Result<String, SigniaError>)
    ensures
        r is Ok <==> utf8_of(normalized(input@)).len() <= max_bytes,
        r is Ok ==> r->Ok_0@ == normalized(input@),
{
    let out = normalize_text(input)?;
    let bytes = utf8_bytes(out.as_str());
    if bytes.len() > max_bytes {
        return Err(SigniaError::invalid_argument("normalized text exceeds maximum size"));
    }
    Ok(out)
}

} // verus!
