use vstd::prelude::*;
use crate::error::{ErrorKind, SigniaError};
use crate::strs::{chars_of, string_of};

verus! {

/// Backslashes turned into slashes.
pub open spec fn slashes(s: Seq<char>) -> Seq<char> {
    s.map_values(|c: char| if c == '\\' { '/' } else { c })
}

/// Runs of slashes collapsed into one.
pub open spec fn collapse(s: Seq<char>) -> Seq<char>
    decreases s.len(),
{
    if s.len() < 2 {
        s
    } else if s[0] == '/' && s[1] == '/' {
        collapse(s.drop_first())
    } else {
        seq![s[0]] + collapse(s.drop_first())
    }
}

/// Leading `./` prefixes removed.
pub open spec fn strip_dot_slash(s: Seq<char>) -> Seq<char>
    decreases s.len(),
{
    if s.len() >= 2 && s[0] == '.' && s[1] == '/' {
        strip_dot_slash(s.subrange(2, s.len() as int))
    } else {
        s
    }
}

/// Leading slashes removed.
pub open spec fn strip_slash(s: Seq<char>) -> Seq<char>
    decreases s.len(),
{
    if s.len() > 0 && s[0] == '/' {
        strip_slash(s.drop_first())
    } else {
        s
    }
}

/// A repository path in normal form.
pub open spec fn norm_path(p: Seq<char>) -> Seq<char> {
    strip_slash(strip_dot_slash(collapse(slashes(p))))
}

/// Some `/`-separated segment of `s` is `..`.
pub open spec fn has_dotdot(s: Seq<char>) -> bool {
    exists|i: int|
        0 <= i && i + 2 <= s.len() && #[trigger] s[i] == '.' && s[i + 1] == '.' && (i == 0 || s[i - 1]
            == '/') && (i + 2 == s.len() || s[i + 2] == '/')
}

/// Normalizes a repository path: `\` becomes `/`, repeated slashes collapse,
/// leading `./` and `/` go. A `..` segment is refused.
pub fn normalize_repo_path(p: &str) -> (r: Result<String, SigniaError>)
    ensures
        r is Ok <==> !has_dotdot(norm_path(p@)),
        r is Ok ==> r->Ok_0@ == norm_path(p@),
{
    let v = chars_of(p);
    let n = v.len();
    let mut a: Vec<char> = Vec::new();
    let mut i: usize = 0;
    while i < n
        invariant
            n == v@.len(),
            i <= n,
            a@ == slashes(v@).subrange(0, i as int),
        decreases n - i,
    {
        a.push(if v[i] == '\\' { '/' } else { v[i] });
        assert(a@ =~= slashes(v@).subrange(0, i + 1));
        i = i + 1;
    }
    assert(a@ =~= slashes(p@));
    let ghost sa = a@;
    let m = a.len();
    let mut b: Vec<char> = Vec::new();
    let mut i: usize = 0;
    assert(sa.subrange(0, m as int) =~= sa);
    while i < m
        invariant
            m == a@.len(),
            sa == a@,
            i <= m,
            collapse(sa) == b@ + collapse(sa.subrange(i as int, m as int)),
        decreases m - i,
    {
        let ghost rest = sa.subrange(i as int, m as int);
        assert(rest.drop_first() =~= sa.subrange(i + 1, m as int));
        if i + 1 < m && a[i] == '/' && a[i + 1] == '/' {
        } else {
            if i + 1 >= m {
                assert(rest.len() == 1);
                assert(collapse(rest) == rest);
                assert(rest =~= seq![a@[i as int]] + sa.subrange(i + 1, m as int));
                assert(collapse(sa.subrange(i + 1, m as int)) =~= Seq::<char>::empty());
            }
            b.push(a[i]);
        }
        assert(collapse(sa) =~= b@ + collapse(sa.subrange(i + 1, m as int)));
        i = i + 1;
    }
    assert(collapse(sa.subrange(m as int, m as int)) =~= Seq::<char>::empty());
    assert(b@ =~= collapse(sa));
    let k = b.len();
    let mut i: usize = 0;
    assert(b@.subrange(0, k as int) =~= b@);
    while k - i > 1 && b[i] == '.' && b[i + 1] == '/'
        invariant
            k == b@.len(),
            i <= k,
            strip_dot_slash(b@) == strip_dot_slash(b@.subrange(i as int, k as int)),
        decreases k - i,
    {
        assert(b@.subrange(i as int, k as int).subrange(2, (k - i) as int) =~= b@.subrange(i + 2, k as int));
        i = i + 2;
    }
    while i < k && b[i] == '/'
        invariant
            k == b@.len(),
            i <= k,
            strip_slash(strip_dot_slash(b@)) == strip_slash(b@.subrange(i as int, k as int)),
        decreases k - i,
    {
        assert(b@.subrange(i as int, k as int).drop_first() =~= b@.subrange(i + 1, k as int));
        i = i + 1;
    }
    let ghost out = b@.subrange(i as int, k as int);
    assert(out == norm_path(p@));
    let mut j: usize = i;
    while j < k
        invariant
            k == b@.len(),
            i <= j <= k,
            out == b@.subrange(i as int, k as int),
            out == norm_path(p@),
            forall|q: int|
                0 <= q && q + i < j && q + 2 <= out.len() && #[trigger] out[q] == '.' ==> !(out[q + 1] == '.' && (q
                    == 0 || out[q - 1] == '/') && (q + 2 == out.len() || out[q + 2] == '/')),
        decreases k - j,
    {
        if k - j >= 2 && b[j] == '.' && b[j + 1] == '.' && (j == i || b[j - 1] == '/') && (j + 2 == k
            || b[j + 2] == '/') {
            proof {
                let q = j - i;
                assert(out[q] == b@[j as int] && out[q + 1] == b@[j + 1]);
                if q > 0 {
                    assert(out[q - 1] == b@[j - 1]);
                }
                if q + 2 < out.len() {
                    assert(out[q + 2] == b@[j + 2]);
                }
                assert(out[q] == '.' && out[q + 1] == '.');
            }
            return Err(SigniaError::with_detail(ErrorKind::InvalidArgument, "path contains '..' segment: ", p));
        }
        proof {
            let q = j - i;
            if q + 2 <= out.len() && out[q] == '.' {
                assert(out[q] == b@[j as int] && out[q + 1] == b@[j + 1]);
                if q > 0 {
                    assert(out[q - 1] == b@[j - 1]);
                }
                if q + 2 < out.len() {
                    assert(out[q + 2] == b@[j + 2]);
                }
            }
        }
        j = j + 1;
    }
    Ok(string_of_range_pub(&b, i, k))
}

fn string_of_range_pub(v: &Vec<char>, from: usize, to: usize) -> (r: String)
    requires
        from <= to <= v@.len(),
    ensures
        r@ == v@.subrange(from as int, to as int),
{
    crate::strs::string_of_range(v, from, to)
}


/// Glob match: `**` matches any run of characters, `*` any run without `/`,
/// and every other character itself.
pub open spec fn glob(p: Seq<char>, s: Seq<char>) -> bool
    decreases p.len() + s.len(),
{
    if p.len() == 0 {
        s.len() == 0
    } else if p.len() >= 2 && p[0] == '*' && p[1] == '*' {
        glob(p.subrange(2, p.len() as int), s) || (s.len() > 0 && glob(p, s.drop_first()))
    } else if p[0] == '*' {
        glob(p.drop_first(), s) || (s.len() > 0 && s[0] != '/' && glob(p, s.drop_first()))
    } else {
        s.len() > 0 && p[0] == s[0] && glob(p.drop_first(), s.drop_first())
    }
}

/// Whether a repository path matches a pattern.
pub open spec fn pattern_matches(path: Seq<char>, pattern: Seq<char>) -> bool {
    glob(pattern, path)
}

/// Whether the path matches the pattern, by dynamic programming over suffixes.
pub fn matches_pattern(path: &str, pattern: &str) -> (r: bool)
    ensures
        r == pattern_matches(path@, pattern@),
{
    let p = chars_of(pattern);
    let s = chars_of(path);
    let m = p.len();
    let n = s.len();
    // row i holds glob(p[i..], s[j..]) for every j; `next` is row i + 1, `next2` row i + 2
    let mut next: Vec<bool> = Vec::new();
    let mut j: usize = 0;
    while j < n
        invariant
            n == s@.len(),
            j <= n,
            next@.len() == j,
            forall|q: int| 0 <= q < j ==> !(#[trigger] next@[q]),
        decreases n - j,
    {
        next.push(false);
        j = j + 1;
    }
    next.push(true);
    assert forall|q: int| 0 <= q <= n implies #[trigger] next@[q] == glob(p@.subrange(m as int, m as int), s@.subrange(q, n as int)) by {
        assert(p@.subrange(m as int, m as int).len() == 0);
    }
    let mut next2: Vec<bool> = next.clone();
    assert(next2@ == next@);
    let mut i: usize = m;
    while i > 0
        invariant
            n == s@.len(),
            m == p@.len(),
            i <= m,
            next@.len() == n + 1,
            next2@.len() == n + 1,
            forall|q: int| 0 <= q <= n ==> #[trigger] next@[q] == glob(p@.subrange(i as int, m as int), s@.subrange(q, n as int)),
            i < m ==> forall|q: int| 0 <= q <= n ==> #[trigger] next2@[q] == glob(p@.subrange(i + 1, m as int), s@.subrange(q, n as int)),
        decreases i,
    {
        let pi = i - 1;
        let ghost pr = p@.subrange(pi as int, m as int);
        assert(pr.drop_first() =~= p@.subrange(i as int, m as int));
        let dstar = i < m && p[pi] == '*' && p[i] == '*';
        if dstar {
            assert(pr.subrange(2, pr.len() as int) =~= p@.subrange(i + 1, m as int));
        }
        let mut cur: Vec<bool> = Vec::new();
        let mut k: usize = 0;
        while k < n
            invariant
                n == s@.len(),
                k <= n,
                cur@.len() == k,
            decreases n - k,
        {
            cur.push(false);
            k = k + 1;
        }
        let last = if dstar {
            next2[n]
        } else {
            p[pi] == '*' && next[n]
        };
        cur.push(last);
        proof {
            let e = s@.subrange(n as int, n as int);
            assert(e.len() == 0);
            assert(cur@[n as int] == glob(pr, e));
        }
        let mut jj: usize = n;
        while jj > 0
            invariant
                n == s@.len(),
                m == p@.len(),
                pi < m,
                i == pi + 1,
                pr == p@.subrange(pi as int, m as int),
                pr.drop_first() == p@.subrange(i as int, m as int),
                dstar == (pr.len() >= 2 && pr[0] == '*' && pr[1] == '*'),
                dstar ==> pr.subrange(2, pr.len() as int) == p@.subrange(i + 1, m as int),
                jj <= n,
                cur@.len() == n + 1,
                next@.len() == n + 1,
                next2@.len() == n + 1,
                forall|q: int| 0 <= q <= n ==> #[trigger] next@[q] == glob(p@.subrange(i as int, m as int), s@.subrange(q, n as int)),
                dstar ==> forall|q: int| 0 <= q <= n ==> #[trigger] next2@[q] == glob(p@.subrange(i + 1, m as int), s@.subrange(q, n as int)),
                forall|q: int| jj <= q <= n ==> #[trigger] cur@[q] == glob(pr, s@.subrange(q, n as int)),
            decreases jj,
        {
            let j = jj - 1;
            let ghost sr = s@.subrange(j as int, n as int);
            assert(sr.drop_first() =~= s@.subrange(j + 1, n as int));
            let v = if dstar {
                next2[j] || cur[j + 1]
            } else if p[pi] == '*' {
                next[j] || (s[j] != '/' && cur[j + 1])
            } else {
                p[pi] == s[j] && next[j + 1]
            };
            cur.set(j, v);
            jj = j;
        }
        next2 = next;
        next = cur;
        i = pi;
    }
    assert(p@.subrange(0, m as int) =~= p@);
    assert(s@.subrange(0, n as int) =~= s@);
    next[0]
}

pub open spec fn any_match(path: Seq<char>, pats: Seq<String>) -> bool {
    exists|i: int| 0 <= i < pats.len() && pattern_matches(path, #[trigger] pats[i]@)
}

/// Included when some includes pattern matches (or none is given) and no
/// excludes pattern matches.
pub open spec fn included(path: Seq<char>, includes: Seq<String>, excludes: Seq<String>) -> bool {
    (includes.len() == 0 || any_match(path, includes)) && !any_match(path, excludes)
}

fn any_matches(path: &str, pats: &[String]) -> (r: bool)
    ensures
        r == any_match(path@, pats@),
{
    let mut i: usize = 0;
    while i < pats.len()
        invariant
            i <= pats@.len(),
            forall|q: int| 0 <= q < i ==> !pattern_matches(path@, #[trigger] pats@[q]@),
        decreases pats@.len() - i,
    {
        if matches_pattern(path, pats[i].as_str()) {
            return true;
        }
        i = i + 1;
    }
    false
}

/// Whether the path passes the includes and excludes patterns.
pub fn is_included(path: &str, includes: &[String], excludes: &[String]) -> (r: bool)
    ensures
        r == included(path@, includes@, excludes@),
{
    let inc_ok = if includes.len() == 0 {
        true
    } else {
        any_matches(path, includes)
    };
    if !inc_ok {
        return false;
    }
    !any_matches(path, excludes)
}

/// Default cap on the number of files of a repository walk.
pub const DEFAULT_MAX_FILES: u64 = 10000;
/// Default cap on the total bytes of a repository walk.
pub const DEFAULT_MAX_TOTAL_BYTES: u64 = 33554432;

/// A file of an in-memory tree.
#[derive(Debug)]
pub struct VFile {
    pub path: String,
    pub bytes: Option<Vec<u8>>,
    pub size: u64,
    pub mode: Option<String>,
    pub meta: Vec<(String, String)>,
}

impl VFile {
    pub fn new(path: &str, size: u64) -> (r: Self)
        ensures
            r.path@ == path@,
            r.size == size,
            r.bytes is None,
            r.mode is None,
            r.meta@.len() == 0,
    {
        VFile { path: String::from_str(path), bytes: None, size, mode: None, meta: Vec::new() }
    }

    /// Attaches the contents; the size becomes their length.
    pub fn with_bytes(self, bytes: Vec<u8>) -> (r: Self)
        ensures
            r.path@ == self.path@,
            r.size == bytes@.len(),
            r.bytes == Some(bytes),
            r.mode == self.mode,
    {
        let size = bytes.len() as u64;
        VFile { path: self.path, bytes: Some(bytes), size, mode: self.mode, meta: self.meta }
    }
}

/// Options of a repository walk.
#[derive(Debug)]
pub struct WalkOptions {
    pub includes: Vec<String>,
    pub excludes: Vec<String>,
    pub max_files: u64,
    pub max_total_bytes: u64,
    pub include_contents: bool,
}

impl Default for WalkOptions {
    fn default() -> (r: Self)
        ensures
            r.includes@.len() == 0,
            r.excludes@.len() == 0,
            r.max_files == DEFAULT_MAX_FILES,
            r.max_total_bytes == DEFAULT_MAX_TOTAL_BYTES,
            !r.include_contents,
    {
        WalkOptions {
            includes: Vec::new(),
            excludes: Vec::new(),
            max_files: DEFAULT_MAX_FILES,
            max_total_bytes: DEFAULT_MAX_TOTAL_BYTES,
            include_contents: false,
        }
    }
}

/// A file selected from a repository.
#[derive(Debug, Clone)]
pub struct RepoFile {
    pub path: String,
    pub size: u64,
    pub sha256: Option<String>,
    pub mode: Option<String>,
    pub bytes: Option<Vec<u8>>,
}

impl RepoFile {
    pub fn new(path: &str, size: u64) -> (r: Self)
        ensures
            r.path@ == path@,
            r.size == size,
            r.sha256 is None,
            r.mode is None,
            r.bytes is None,
    {
        RepoFile { path: String::from_str(path), size, sha256: None, mode: None, bytes: None }
    }
}

pub open spec fn opt_str(o: Option<String>) -> Option<Seq<char>> {
    match o {
        Some(s) => Some(s@),
        None => None,
    }
}

pub open spec fn opt_bytes(o: Option<Vec<u8>>) -> Option<Seq<u8>> {
    match o {
        Some(b) => Some(b@),
        None => None,
    }
}

/// What a selected file records: path, size, digest, mode and contents.
pub type FileRec = (Seq<char>, u64, Option<Seq<char>>, Option<Seq<char>>, Option<Seq<u8>>);

pub open spec fn rf_view(f: RepoFile) -> FileRec {
    (f.path@, f.size, opt_str(f.sha256), opt_str(f.mode), opt_bytes(f.bytes))
}

pub open spec fn rf_views(s: Seq<RepoFile>) -> Seq<FileRec> {
    s.map_values(|f: RepoFile| rf_view(f))
}

/// Size that a walk counts for a file: the length of its contents when given.
pub open spec fn vsize(f: VFile) -> u64 {
    match f.bytes {
        Some(b) => b@.len() as u64,
        None => f.size,
    }
}

/// The record that a walk makes of a selected file.
pub open spec fn selected_view(f: VFile, include_contents: bool) -> FileRec {
    (norm_path(f.path@), vsize(f), None, opt_str(f.mode), if include_contents { opt_bytes(f.bytes) } else { None })
}

/// The files that pass the patterns, as records, in input order.
pub open spec fn selection(files: Seq<VFile>, opts: WalkOptions) -> Seq<FileRec>
    decreases files.len(),
{
    if files.len() == 0 {
        Seq::empty()
    } else {
        let rest = selection(files.drop_last(), opts);
        let f = files.last();
        if included(norm_path(f.path@), opts.includes@, opts.excludes@) {
            rest.push(selected_view(f, opts.include_contents))
        } else {
            rest
        }
    }
}

pub open spec fn total_size(s: Seq<FileRec>) -> int
    decreases s.len(),
{
    if s.len() == 0 {
        0
    } else {
        total_size(s.drop_last()) + s.last().1
    }
}

pub open spec fn paths_ok(files: Seq<VFile>) -> bool {
    forall|i: int| 0 <= i < files.len() ==> !has_dotdot(norm_path((#[trigger] files[i]).path@))
}

pub open spec fn sorted_by_path(s: Seq<FileRec>) -> bool {
    forall|i: int, j: int| 0 <= i < j < s.len() ==> !crate::json::key_lt(#[trigger] s[j].0, #[trigger] s[i].0)
}

fn copy_bytes(b: &Vec<u8>) -> (r: Vec<u8>)
    ensures
        r@ == b@,
{
    let mut out: Vec<u8> = Vec::new();
    crate::hashing::extend(&mut out, b.as_slice());
    out
}

fn copy_opt_str(o: &Option<String>) -> (r: Option<String>)
    ensures
        opt_str(r) == opt_str(*o),
{
    match o {
        Some(s) => Some(s.clone()),
        None => None,
    }
}

/// Inserts `x` after every element whose path is not greater than its own.
pub(crate) fn insert_sorted(out: &mut Vec<RepoFile>, x: RepoFile)
    requires
        sorted_by_path(rf_views(old(out)@)),
    ensures
        forall|q: int| 0 <= q < final(out)@.len() ==> #[trigger] final(out)@[q] == x || old(out)@.contains(final(out)@[q]),
        sorted_by_path(rf_views(final(out)@)),
        rf_views(final(out)@).to_multiset() == rf_views(old(out)@).to_multiset().insert(rf_view(x)),
{
    let xk = chars_of(x.path.as_str());
    let mut pos: usize = 0;
    while pos < out.len() && !crate::json::chars_lt(&xk, &chars_of(out[pos].path.as_str()))
        invariant
            pos <= out@.len(),
            xk@ == x.path@,
            forall|i: int| 0 <= i < pos ==> !crate::json::key_lt(x.path@, (#[trigger] out@[i]).path@),
        decreases out@.len() - pos,
    {
        pos = pos + 1;
    }
    let ghost v0 = rf_views(out@);
    let ghost xv = rf_view(x);
    proof {
        assert forall|i: int| pos <= i < out@.len() implies crate::json::key_lt(x.path@, (#[trigger] out@[i]).path@) by {
            if i > pos {
                assert(!crate::json::key_lt(v0[i].0, v0[pos as int].0));
                crate::json::lemma_key_lt_total(out@[pos as int].path@, out@[i].path@);
                if out@[pos as int].path@ != out@[i].path@ {
                    crate::json::lemma_key_lt_trans(x.path@, out@[pos as int].path@, out@[i].path@);
                }
            }
        }
    }
    let ghost o0 = out@;
    out.insert(pos, x);
    proof {
        assert forall|q: int| 0 <= q < out@.len() implies #[trigger] out@[q] == x || o0.contains(out@[q]) by {
            if q < pos {
                assert(out@[q] == o0[q]);
            } else if q > pos {
                assert(out@[q] == o0[q - 1]);
            }
        }
        assert(rf_views(out@) =~= v0.insert(pos as int, xv));
        vstd::seq_lib::to_multiset_insert(v0, pos as int, xv);
        let v1 = rf_views(out@);
        assert forall|i: int, j: int| 0 <= i < j < v1.len() implies !crate::json::key_lt(#[trigger] v1[j].0, #[trigger] v1[i].0) by {
            if i < pos && j == pos {
                assert(v1[i] == v0[i]);
                crate::json::lemma_key_lt_total(xv.0, v0[i].0);
                if crate::json::key_lt(xv.0, v0[i].0) {
                    crate::json::lemma_key_lt_asym(xv.0, v0[i].0);
                }
            } else if i == pos {
                assert(v1[j] == v0[j - 1]);
                if crate::json::key_lt(v1[j].0, xv.0) {
                    crate::json::lemma_key_lt_asym(xv.0, v1[j].0);
                }
            } else if j < pos {
                assert(v1[i] == v0[i] && v1[j] == v0[j]);
            } else if i < pos {
                assert(v1[i] == v0[i] && v1[j] == v0[j - 1]);
            } else {
                assert(v1[i] == v0[i - 1] && v1[j] == v0[j - 1]);
            }
        }
    }
}

/// Walks an in-memory tree: normalizes every path, keeps the files that pass
/// the patterns, sorts them by path, and enforces the file-count and
/// total-size limits.
pub fn walk_virtual_files(files: &Vec<VFile>, opts: &WalkOptions) -> (r: Result<Vec<RepoFile>, SigniaError>)
    ensures
        r is Ok <==> (paths_ok(files@) && selection(files@, *opts).len() <= opts.max_files
            && total_size(selection(files@, *opts)) <= opts.max_total_bytes),
        r is Ok ==> sorted_by_path(rf_views(r->Ok_0@)),
        r is Ok ==> rf_views(r->Ok_0@).to_multiset() == selection(files@, *opts).to_multiset(),
        r is Ok ==> forall|i: int| 0 <= i < r->Ok_0@.len() ==> (#[trigger] r->Ok_0@[i]).sha256 is None,
{
    let mut out: Vec<RepoFile> = Vec::new();
    let mut total: u64 = 0;
    let mut over = false;
    let mut i: usize = 0;
    assert(files@.subrange(0, 0) =~= Seq::<VFile>::empty());
    assert(rf_views(out@) =~= selection(files@.subrange(0, 0), *opts));
    while i < files.len()
        invariant
            i <= files@.len(),
            sorted_by_path(rf_views(out@)),
            rf_views(out@).to_multiset() == selection(files@.subrange(0, i as int), *opts).to_multiset(),
            rf_views(out@).len() == selection(files@.subrange(0, i as int), *opts).len(),
            paths_ok(files@.subrange(0, i as int)),
            over == (total_size(selection(files@.subrange(0, i as int), *opts)) > u64::MAX),
            !over ==> total == total_size(selection(files@.subrange(0, i as int), *opts)),
            forall|q: int| 0 <= q < out@.len() ==> (#[trigger] out@[q]).sha256 is None,
        decreases files@.len() - i,
    {
        let f = &files[i];
        let ghost pre = files@.subrange(0, i as int);
        let ghost nxt = files@.subrange(0, i + 1);
        assert(nxt.drop_last() =~= pre);
        assert(nxt.last() == files@[i as int]);
        let norm = match normalize_repo_path(f.path.as_str()) {
            Ok(p) => p,
            Err(e) => {
                assert(!paths_ok(files@)) by {
                    assert(!has_dotdot(norm_path(files@[i as int].path@)) == false);
                }
                return Err(e);
            },
        };
        proof {
            assert forall|q: int| 0 <= q < nxt.len() implies !has_dotdot(norm_path((#[trigger] nxt[q]).path@)) by {
                if q < i {
                    assert(nxt[q] == pre[q]);
                }
            }
        }
        if is_included(norm.as_str(), opts.includes.as_slice(), opts.excludes.as_slice()) {
            let size = match &f.bytes {
                Some(b) => b.len() as u64,
                None => f.size,
            };
            let bytes = if opts.include_contents {
                match &f.bytes {
                    Some(b) => Some(copy_bytes(b)),
                    None => None,
                }
            } else {
                None
            };
            let rf = RepoFile { path: norm, size, sha256: None, mode: copy_opt_str(&f.mode), bytes };
            assert(rf_view(rf) == selected_view(files@[i as int], opts.include_contents));
            let ghost before = out@;
            insert_sorted(&mut out, rf);
            assert forall|q: int| 0 <= q < out@.len() implies (#[trigger] out@[q]).sha256 is None by {
                if out@[q] != rf {
                    let j = choose|j: int| 0 <= j < before.len() && before[j] == out@[q];
                }
            }
            proof {
                let sel = selection(pre, *opts);
                assert(selection(nxt, *opts) == sel.push(selected_view(files@[i as int], opts.include_contents)));
                sel.to_multiset_ensures();
                rf_views(out@).to_multiset_ensures();
                rf_views(before).to_multiset_ensures();
                selection(nxt, *opts).to_multiset_ensures();
            }
            proof {
                let sel = selection(pre, *opts);
                let sv = selected_view(files@[i as int], opts.include_contents);
                assert(sel.push(sv).drop_last() =~= sel);
                assert(total_size(selection(nxt, *opts)) == total_size(sel) + size);
            }
            if !over {
                if total > u64::MAX - size {
                    over = true;
                } else {
                    total = total + size;
                }
            }
        }
        proof {
            if !included(norm_path(files@[i as int].path@), opts.includes@, opts.excludes@) {
                assert(selection(nxt, *opts) == selection(pre, *opts));
            }
        }
        i = i + 1;
    }
    assert(files@.subrange(0, files@.len() as int) =~= files@);
    if out.len() as u64 > opts.max_files {
        return Err(SigniaError::resource_limit("file count exceeds limit"));
    }
    if over || total > opts.max_total_bytes {
        return Err(SigniaError::resource_limit("total bytes exceeds limit"));
    }
    Ok(out)
}
} // verus!
