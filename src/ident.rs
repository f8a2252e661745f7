use vstd::prelude::*;
use crate::error::SigniaError;
use crate::strs::{chars_of, string_of, string_of_range, trim_bounds, trim_spec};

verus! {

pub open spec fn is_lower(c: char) -> bool {
    'a' <= c && c <= 'z'
}

pub open spec fn is_digit(c: char) -> bool {
    '0' <= c && c <= '9'
}

/// `char::to_ascii_lowercase`.
pub open spec fn ascii_lower(c: char) -> char {
    if 'A' <= c && c <= 'Z' {
        ((c as u8) + 32) as char
    } else {
        c
    }
}

pub open spec fn ascii_lower_seq(s: Seq<char>) -> Seq<char> {
    s.map_values(|c: char| ascii_lower(c))
}

pub fn ascii_lower_exec(c: char) -> (r: char)
    ensures
        r == ascii_lower(c),
{
    if 'A' <= c && c <= 'Z' {
        ((c as u8) + 32) as char
    } else {
        c
    }
}

/// Whether `b` may open a plugin id: `[a-z0-9]`.
pub fn is_id_start(b: u8) -> (r: bool)
    ensures
        r == ((0x61 <= b && b <= 0x7a) || (0x30 <= b && b <= 0x39)),
{
    (0x61 <= b && b <= 0x7a) || (0x30 <= b && b <= 0x39)
}

pub open spec fn plugin_id_char(c: char) -> bool {
    is_lower(c) || is_digit(c) || c == '.' || c == '_' || c == '-'
}

/// A plugin id: 2 to 64 characters of `[a-z0-9._-]`, starting with
/// `[a-z0-9]`, not ending with `.`.
pub open spec fn valid_plugin_id(t: Seq<char>) -> bool {
    2 <= t.len() <= 64 && (is_lower(t[0]) || is_digit(t[0])) && t.last() != '.'
        && forall|i: int| 0 <= i < t.len() ==> plugin_id_char(#[trigger] t[i])
}

/// Trims the id and checks it; the result is the trimmed id.
pub fn normalize_plugin_id(id: &str) -> (r: Result<String, SigniaError>)
    ensures
        r is Ok <==> valid_plugin_id(trim_spec(id@)),
        r is Ok ==> r->Ok_0@ == trim_spec(id@),
{
    let v = chars_of(id);
    let (lo, hi) = trim_bounds(&v);
    let ghost t = trim_spec(id@);
    let n = hi - lo;
    if n < 2 || n > 64 {
        return Err(SigniaError::invalid_argument("plugin id must be 2..64 chars"));
    }
    if v[lo] == '.' || v[hi - 1] == '.' {
        return Err(SigniaError::invalid_argument("plugin id must not start/end with '.'"));
    }
    let c0 = v[lo];
    if !(('a' <= c0 && c0 <= 'z') || ('0' <= c0 && c0 <= '9')) {
        return Err(SigniaError::invalid_argument("plugin id must start with [a-z0-9]"));
    }
    let mut i: usize = lo;
    while i < hi
        invariant
            lo <= i <= hi <= v@.len(),
            t == v@.subrange(lo as int, hi as int),
            t == trim_spec(id@),
            forall|j: int| lo <= j < i ==> plugin_id_char(#[trigger] v@[j]),
        decreases hi - i,
    {
        let c = v[i];
        if !(('a' <= c && c <= 'z') || ('0' <= c && c <= '9') || c == '.' || c == '_' || c == '-') {
            assert(t[i - lo] == v@[i as int]);
            assert(!plugin_id_char(t[i - lo]));
            return Err(SigniaError::invalid_argument("plugin id contains invalid character"));
        }
        i = i + 1;
    }
    assert forall|j: int| 0 <= j < t.len() implies plugin_id_char(#[trigger] t[j]) by {
        assert(t[j] == v@[j + lo]);
    }
    Ok(string_of_range(&v, lo, hi))
}

/// An input type: 2 to 32 characters of `[a-z0-9_-]`, starting with `[a-z]`.
pub open spec fn valid_input_type(t: Seq<char>) -> bool {
    2 <= t.len() <= 32 && is_lower(t[0]) && forall|i: int|
        0 <= i < t.len() ==> (is_lower(#[trigger] t[i]) || is_digit(t[i]) || t[i] == '_' || t[i]
            == '-')
}

/// The trimmed text with ASCII letters lowered.
pub fn trimmed_lower(s: &str) -> (r: Vec<char>)
    ensures
        r@ == ascii_lower_seq(trim_spec(s@)),
{
    let v = chars_of(s);
    let (lo, hi) = trim_bounds(&v);
    let mut out: Vec<char> = Vec::new();
    let mut i: usize = lo;
    while i < hi
        invariant
            lo <= i <= hi <= v@.len(),
            out@ == ascii_lower_seq(v@.subrange(lo as int, i as int)),
        decreases hi - i,
    {
        out.push(ascii_lower_exec(v[i]));
        i = i + 1;
        assert(ascii_lower_seq(v@.subrange(lo as int, i as int)) =~= ascii_lower_seq(
            v@.subrange(lo as int, i - 1),
        ).push(ascii_lower(v@[i - 1])));
    }
    out
}

/// Trims, lowers ASCII letters, and checks the input type.
pub fn normalize_input_type(t: &str) -> (r: Result<String, SigniaError>)
    ensures
        r is Ok <==> valid_input_type(ascii_lower_seq(trim_spec(t@))),
        r is Ok ==> r->Ok_0@ == ascii_lower_seq(trim_spec(t@)),
{
    let s = trimmed_lower(t);
    let n = s.len();
    if n < 2 || n > 32 {
        return Err(SigniaError::invalid_argument("input type must be 2..32 chars"));
    }
    if !('a' <= s[0] && s[0] <= 'z') {
        return Err(SigniaError::invalid_argument("input type must start with [a-z]"));
    }
    let mut i: usize = 0;
    while i < n
        invariant
            n == s@.len(),
            i <= n,
            s@ == ascii_lower_seq(trim_spec(t@)),
            forall|j: int|
                0 <= j < i ==> (is_lower(#[trigger] s@[j]) || is_digit(s@[j]) || s@[j] == '_'
                    || s@[j] == '-'),
        decreases n - i,
    {
        let c = s[i];
        if !(('a' <= c && c <= 'z') || ('0' <= c && c <= '9') || c == '_' || c == '-') {
            assert(!(is_lower(s@[i as int]) || is_digit(s@[i as int]) || s@[i as int] == '_'
                || s@[i as int] == '-'));
            return Err(SigniaError::invalid_argument("input type contains invalid character"));
        }
        i = i + 1;
    }
    Ok(string_of(s.as_slice()))
}

pub open spec fn artifact_kinds() -> Set<Seq<char>> {
    set!["schema"@, "manifest"@, "proof"@, "ir"@, "fingerprint"@]
}

/// Trims and lowers the kind; accepts `schema`, `manifest`, `proof`, `ir`,
/// `fingerprint`.
pub fn normalize_artifact_kind(kind: &str) -> (r: Result<String, SigniaError>)
    ensures
        r is Ok <==> artifact_kinds().contains(ascii_lower_seq(trim_spec(kind@))),
        r is Ok ==> r->Ok_0@ == ascii_lower_seq(trim_spec(kind@)),
{
    let s = trimmed_lower(kind);
    let ok = crate::strs::seq_eq(&s, &chars_of("schema")) || crate::strs::seq_eq(&s, &chars_of("manifest"))
        || crate::strs::seq_eq(&s, &chars_of("proof")) || crate::strs::seq_eq(&s, &chars_of("ir"))
        || crate::strs::seq_eq(&s, &chars_of("fingerprint"));
    if !ok {
        return Err(SigniaError::with_detail(crate::error::ErrorKind::InvalidArgument, "unsupported artifact kind: ", kind));
    }
    Ok(string_of(s.as_slice()))
}

} // verus!
