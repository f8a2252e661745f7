use vstd::prelude::*;
use crate::error::SigniaError;
use crate::strs::{chars_of, string_of_range};

verus! {

/// Number of occurrences of `c` in `s`.
pub open spec fn count_of(s: Seq<char>, c: char) -> nat
    decreases s.len(),
{
    if s.len() == 0 {
        0
    } else {
        count_of(s.drop_last(), c) + if s.last() == c { 1nat } else { 0nat }
    }
}

/// Position of the first `c` in `s`.
pub open spec fn first_of(s: Seq<char>, c: char) -> Option<int> {
    if exists|i: int| 0 <= i < s.len() && s[i] == c {
        Some(choose|i: int| 0 <= i < s.len() && s[i] == c && forall|j: int| 0 <= j < i ==> s[j] != c)
    } else {
        None
    }
}

/// `owner/repo`: exactly one slash, text on both sides.
pub open spec fn shorthand_spec(s: Seq<char>) -> bool {
    count_of(s, '/') == 1 && s.len() >= 3 && s[0] != '/' && s.last() != '/'
}

fn first_index(v: &Vec<char>, c: char) -> (r: Option<usize>)
    ensures
        r is Some ==> r->0 < v@.len() && first_of(v@, c) == Some(r->0 as int),
        r is None ==> first_of(v@, c) is None,
{
    let mut i: usize = 0;
    while i < v.len()
        invariant
            i <= v@.len(),
            forall|j: int| 0 <= j < i ==> v@[j] != c,
        decreases v@.len() - i,
    {
        if v[i] == c {
            proof {
                let w = choose|w: int| 0 <= w < v@.len() && v@[w] == c && forall|j: int| 0 <= j < w ==> v@[j] != c;
                if w < i {
                } else if w > i {
                    assert(v@[i as int] == c);
                }
            }
            return Some(i);
        }
        i = i + 1;
    }
    None
}

fn count_exec(v: &Vec<char>, from: usize, to: usize, c: char) -> (r: usize)
    requires
        from <= to <= v@.len(),
    ensures
        r == count_of(v@.subrange(from as int, to as int), c),
{
    let mut n: usize = 0;
    let mut i: usize = from;
    while i < to
        invariant
            from <= i <= to <= v@.len(),
            n == count_of(v@.subrange(from as int, i as int), c),
            n <= i - from,
        decreases to - i,
    {
        assert(v@.subrange(from as int, i + 1).drop_last() =~= v@.subrange(from as int, i as int));
        if v[i] == c {
            n = n + 1;
        }
        i = i + 1;
    }
    n
}

/// Whether the text is an `owner/repo` shorthand.
pub fn is_github_shorthand(s: &str) -> (r: bool)
    ensures
        r == shorthand_spec(s@),
{
    let v = chars_of(s);
    let n = v.len();
    let k = count_exec(&v, 0, n, '/');
    assert(v@.subrange(0, n as int) =~= v@);
    k == 1 && n >= 3 && v[0] != '/' && v[n - 1] != '/'
}

/// Splits `owner/repo[@ref][:path]`: the path follows the first `:`, the ref
/// follows the first `@` before it, and what remains must hold exactly one `/`.
pub fn parse_github_shorthand(s: &str) -> (r: Result<(String, Option<String>, Option<String>), SigniaError>)
    ensures
        r is Ok ==> {
            let (repo, git_ref, path) = r->Ok_0;
            &&& count_of(repo@, '/') == 1
            &&& (path is Some <==> first_of(s@, ':') is Some)
            &&& (path is Some ==> path->0@ == s@.subrange(first_of(s@, ':')->0 + 1, s@.len() as int))
        },
{
    let v = chars_of(s);
    let n = v.len();
    let (end, path) = match first_index(&v, ':') {
        Some(i) => (i, Some(string_of_range(&v, i + 1, n))),
        None => (n, None),
    };
    let head = {
        let mut h: Vec<char> = Vec::new();
        let mut i: usize = 0;
        while i < end
            invariant
                i <= end <= v@.len(),
                h@ == v@.subrange(0, i as int),
            decreases end - i,
        {
            h.push(v[i]);
            i = i + 1;
        }
        h
    };
    let (repo_end, git_ref) = match first_index(&head, '@') {
        Some(i) => (i, Some(string_of_range(&head, i + 1, head.len()))),
        None => (head.len(), None),
    };
    if count_exec(&head, 0, repo_end, '/') != 1 {
        return Err(SigniaError::invalid_argument("invalid github shorthand"));
    }
    let repo = string_of_range(&head, 0, repo_end);
    Ok((repo, git_ref, path))
}

} // verus!
