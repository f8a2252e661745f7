use vstd::prelude::*;
use crate::canonical::decimal_chars;
use crate::error::SigniaError;
use crate::hashing::{hash_bytes_hex, hex_of, sha256_of};
use crate::json::{digits, utf8_bytes, utf8_of};
use crate::strs::{chars_of, is_blank, string_of, trim_spec};
use crate::walk::{
    insert_sorted, opt_bytes, opt_str, rf_view, rf_views, sorted_by_path, FileRec, RepoFile,
    DEFAULT_MAX_FILES, DEFAULT_MAX_TOTAL_BYTES,
};

verus! {

/// Where a snapshot came from.
#[derive(Debug, Clone)]
pub struct SourceRef {
    pub source_type: String,
    pub locator: String,
    pub revision: Option<String>,
}

/// A request to snapshot a repository of a code host.
#[derive(Debug, Clone)]
pub struct GitHubFetchRequest {
    pub owner: String,
    pub repo: String,
    pub git_ref: String,
    pub subpath: Option<String>,
    pub max_files: u64,
    pub max_total_bytes: u64,
    pub includes: Vec<String>,
    pub excludes: Vec<String>,
    pub include_contents: bool,
    pub options: Vec<(String, String)>,
}

pub open spec fn ascii(s: Seq<char>) -> bool {
    forall|i: int| 0 <= i < s.len() ==> (#[trigger] s[i] as u32) < 128
}

fn is_ascii_str(s: &str) -> (r: bool)
    ensures
        r == ascii(s@),
{
    let v = chars_of(s);
    let mut i: usize = 0;
    while i < v.len()
        invariant
            i <= v@.len(),
            v@ == s@,
            forall|j: int| 0 <= j < i ==> (#[trigger] v@[j] as u32) < 128,
        decreases v@.len() - i,
    {
        if (v[i] as u32) >= 128 {
            return false;
        }
        i = i + 1;
    }
    true
}

/// A request is valid with non-blank ASCII owner, repo and ref, and non-zero limits.
pub open spec fn request_valid(r: GitHubFetchRequest) -> bool {
    trim_spec(r.owner@).len() > 0 && trim_spec(r.repo@).len() > 0 && trim_spec(r.git_ref@).len() > 0
        && ascii(r.owner@) && ascii(r.repo@) && ascii(r.git_ref@) && r.max_files > 0
        && r.max_total_bytes > 0
}

impl GitHubFetchRequest {
    pub fn new(owner: &str, repo: &str, git_ref: &str) -> (r: Self)
        ensures
            r.owner@ == owner@,
            r.repo@ == repo@,
            r.git_ref@ == git_ref@,
            r.subpath is None,
            r.max_files == DEFAULT_MAX_FILES,
            r.max_total_bytes == DEFAULT_MAX_TOTAL_BYTES,
            r.includes@.len() == 0,
            r.excludes@.len() == 0,
            !r.include_contents,
            r.options@.len() == 0,
    {
        GitHubFetchRequest {
            owner: String::from_str(owner),
            repo: String::from_str(repo),
            git_ref: String::from_str(git_ref),
            subpath: None,
            max_files: DEFAULT_MAX_FILES,
            max_total_bytes: DEFAULT_MAX_TOTAL_BYTES,
            includes: Vec::new(),
            excludes: Vec::new(),
            include_contents: false,
            options: Vec::new(),
        }
    }

    pub fn with_subpath(self, subpath: &str) -> (r: Self)
        ensures
            r.subpath is Some && r.subpath->0@ == subpath@,
            r.owner == self.owner && r.repo == self.repo && r.git_ref == self.git_ref,
            r.max_files == self.max_files && r.max_total_bytes == self.max_total_bytes,
    {
        let mut s = self;
        s.subpath = Some(String::from_str(subpath));
        s
    }

    pub fn with_limits(self, max_files: u64, max_total_bytes: u64) -> (r: Self)
        ensures
            r.max_files == max_files,
            r.max_total_bytes == max_total_bytes,
            r.owner == self.owner && r.repo == self.repo && r.git_ref == self.git_ref,
            r.subpath == self.subpath,
    {
        let mut s = self;
        s.max_files = max_files;
        s.max_total_bytes = max_total_bytes;
        s
    }

    /// Adds an include pattern.
    pub fn with_include(self, pat: &str) -> (r: Self)
        ensures
            r.includes@.len() == self.includes@.len() + 1,
            r.includes@.last()@ == pat@,
            r.includes@.drop_last() == self.includes@,
            r.owner == self.owner && r.repo == self.repo && r.git_ref == self.git_ref,
    {
        let mut s = self;
        let ghost before = s.includes@;
        s.includes.push(String::from_str(pat));
        assert(s.includes@.drop_last() =~= before);
        s
    }

    /// Adds an exclude pattern.
    pub fn with_exclude(self, pat: &str) -> (r: Self)
        ensures
            r.excludes@.len() == self.excludes@.len() + 1,
            r.excludes@.last()@ == pat@,
            r.excludes@.drop_last() == self.excludes@,
            r.owner == self.owner && r.repo == self.repo && r.git_ref == self.git_ref,
    {
        let mut s = self;
        let ghost before = s.excludes@;
        s.excludes.push(String::from_str(pat));
        assert(s.excludes@.drop_last() =~= before);
        s
    }

    /// Sets an option; a later value for the same key replaces an earlier one.
    pub fn with_option(self, k: &str, v: &str) -> (r: Self)
        ensures
            exists|i: int| 0 <= i < r.options@.len() && (#[trigger] r.options@[i]).0@ == k@ && r.options@[i].1@ == v@,
            r.owner == self.owner && r.repo == self.repo && r.git_ref == self.git_ref,
    {
        let mut s = self;
        let mut i: usize = 0;
        while i < s.options.len()
            invariant
                i <= s.options@.len(),
                s.owner == self.owner && s.repo == self.repo && s.git_ref == self.git_ref,
            decreases s.options@.len() - i,
        {
            if crate::strs::str_eq(s.options[i].0.as_str(), k) {
                s.options.set(i, (String::from_str(k), String::from_str(v)));
                assert(s.options@[i as int].0@ == k@);
                return s;
            }
            i = i + 1;
        }
        s.options.push((String::from_str(k), String::from_str(v)));
        assert(s.options@[s.options@.len() - 1].0@ == k@);
        s
    }

    pub fn validate(&self) -> (r: Result<(), SigniaError>)
        ensures
            r is Ok <==> request_valid(*self),
    {
        if is_blank(self.owner.as_str()) || is_blank(self.repo.as_str()) || is_blank(self.git_ref.as_str()) {
            return Err(SigniaError::invalid_argument("owner/repo/git_ref must be non-empty"));
        }
        if !is_ascii_str(self.owner.as_str()) || !is_ascii_str(self.repo.as_str()) || !is_ascii_str(self.git_ref.as_str()) {
            return Err(SigniaError::invalid_argument("owner/repo/git_ref must be ASCII"));
        }
        if self.max_files == 0 || self.max_total_bytes == 0 {
            return Err(SigniaError::invalid_argument("max_files and max_total_bytes must be > 0"));
        }
        Ok(())
    }

    /// `git:https://github.com/<owner>/<repo>.git#<ref>`, with `:<subpath>` when set.
    pub fn to_source_ref(&self) -> (r: SourceRef)
        ensures
            r.source_type@ == "git"@,
            r.revision is Some && r.revision->0@ == self.git_ref@,
            self.subpath is None ==> r.locator@ == "git:https://github.com/"@ + self.owner@ + "/"@ + self.repo@ + ".git#"@ + self.git_ref@,
            self.subpath is Some ==> r.locator@ == "git:https://github.com/"@ + self.owner@ + "/"@ + self.repo@ + ".git#"@ + self.git_ref@ + ":"@ + self.subpath->0@,
    {
        let mut locator = String::from_str("git:https://github.com/").concat(self.owner.as_str()).concat("/")
            .concat(self.repo.as_str()).concat(".git#").concat(self.git_ref.as_str());
        match &self.subpath {
            Some(s) => {
                locator = locator.concat(":").concat(s.as_str());
            },
            None => {},
        }
        SourceRef { source_type: String::from_str("git"), locator, revision: Some(self.git_ref.clone()) }
    }
}

/// The source reference that a request names (see `to_source_ref`).
pub open spec fn source_for(req: GitHubFetchRequest, r: SourceRef) -> bool {
    &&& r.source_type@ == "git"@
    &&& r.revision is Some && r.revision->0@ == req.git_ref@
    &&& req.subpath is None ==> r.locator@ == "git:https://github.com/"@ + req.owner@ + "/"@ + req.repo@ + ".git#"@ + req.git_ref@
    &&& req.subpath is Some ==> r.locator@ == "git:https://github.com/"@ + req.owner@ + "/"@ + req.repo@ + ".git#"@ + req.git_ref@ + ":"@ + req.subpath->0@
}

/// One line of the snapshot text: `path \t size \t sha256? \n`.
pub open spec fn snapshot_line(f: FileRec) -> Seq<char> {
    f.0 + seq!['\t'] + digits(f.1 as nat) + seq!['\t'] + match f.2 {
        Some(h) => h,
        None => Seq::empty(),
    } + seq!['\n']
}

pub open spec fn snapshot_text(s: Seq<FileRec>) -> Seq<char>
    decreases s.len(),
{
    if s.len() == 0 {
        Seq::empty()
    } else {
        snapshot_text(s.drop_last()) + snapshot_line(s.last())
    }
}

/// The files of a repository at one revision, and the hash over their listing.
#[derive(Debug, Clone)]
pub struct RepoSnapshot {
    pub source: SourceRef,
    pub files: Vec<RepoFile>,
    pub snapshot_hash: String,
}

fn push_chars(out: &mut Vec<char>, s: &Vec<char>)
    ensures
        final(out)@ == old(out)@ + s@,
{
    let mut i: usize = 0;
    while i < s.len()
        invariant
            i <= s@.len(),
            out@ == old(out)@ + s@.subrange(0, i as int),
        decreases s@.len() - i,
    {
        out.push(s[i]);
        i = i + 1;
    }
    assert(s@.subrange(0, s@.len() as int) =~= s@);
}

impl RepoSnapshot {
    /// Hex SHA-256 of the listing `path \t size \t sha256? \n`, in the order given.
    pub fn compute_snapshot_hash(files: &[RepoFile]) -> (r: Result<String, SigniaError>)
        ensures
            r is Ok,
            r->Ok_0@ == hex_of(sha256_of(utf8_of(snapshot_text(rf_views(files@))))),
    {
        let mut text: Vec<char> = Vec::new();
        let mut i: usize = 0;
        while i < files.len()
            invariant
                i <= files@.len(),
                text@ == snapshot_text(rf_views(files@.subrange(0, i as int))),
            decreases files@.len() - i,
        {
            let f = &files[i];
            let ghost t0 = text@;
            push_chars(&mut text, &chars_of(f.path.as_str()));
            text.push('\t');
            push_chars(&mut text, &decimal_chars(f.size));
            text.push('\t');
            match &f.sha256 {
                Some(h) => push_chars(&mut text, &chars_of(h.as_str())),
                None => {},
            }
            text.push('\n');
            proof {
                let pre = rf_views(files@.subrange(0, i as int));
                let nxt = rf_views(files@.subrange(0, i + 1));
                assert(nxt.drop_last() =~= pre);
                assert(nxt.last() == rf_view(files@[i as int]));
                assert(text@ =~= t0 + snapshot_line(rf_view(files@[i as int])));
            }
            i = i + 1;
        }
        assert(files@.subrange(0, files@.len() as int) =~= files@);
        let s = string_of(text.as_slice());
        let b = utf8_bytes(s.as_str());
        Ok(hash_bytes_hex(b.as_slice()))
    }
}

/// The record a file takes in a snapshot: with contents, the size is their
/// length and a missing digest is their SHA-256.
pub open spec fn snap_rec(f: RepoFile) -> FileRec {
    match f.bytes {
        Some(b) => (f.path@, b@.len() as u64, match f.sha256 {
            Some(h) => Some(h@),
            None => Some(hex_of(sha256_of(b@))),
        }, opt_str(f.mode), Some(b@)),
        None => rf_view(f),
    }
}

pub open spec fn snap_size(f: RepoFile) -> int {
    match f.bytes {
        Some(b) => b@.len() as int,
        None => f.size as int,
    }
}

pub open spec fn snap_total(s: Seq<RepoFile>) -> int
    decreases s.len(),
{
    if s.len() == 0 {
        0
    } else {
        snap_total(s.drop_last()) + snap_size(s.last())
    }
}

/// Builds a snapshot from files already fetched: checks the request and the
/// limits, fills digests from contents, sorts by path, and hashes the listing.
pub fn snapshot_from_files(req: &GitHubFetchRequest, files: Vec<RepoFile>) -> (r: Result<RepoSnapshot, SigniaError>)
    ensures
        r is Ok <==> (request_valid(*req) && files@.len() <= req.max_files && snap_total(files@) <= req.max_total_bytes),
        r is Ok ==> sorted_by_path(rf_views(r->Ok_0.files@)),
        r is Ok ==> rf_views(r->Ok_0.files@).to_multiset() == files@.map_values(|f: RepoFile| snap_rec(f)).to_multiset(),
        r is Ok ==> r->Ok_0.snapshot_hash@ == hex_of(sha256_of(utf8_of(snapshot_text(rf_views(r->Ok_0.files@))))),
        r is Ok ==> source_for(*req, r->Ok_0.source),
{
    req.validate()?;
    if files.len() as u64 > req.max_files {
        return Err(SigniaError::resource_limit("repo file count exceeds limit"));
    }
    let ghost f0 = files@;
    let mut rest = files;
    let mut out: Vec<RepoFile> = Vec::new();
    let mut total: u64 = 0;
    let mut over = false;
    let ghost mut done: Seq<RepoFile> = Seq::empty();
    assert(rf_views(out@) =~= done.map_values(|f: RepoFile| snap_rec(f)));
    assert(f0 =~= done + rest@);
    while rest.len() > 0
        invariant
            f0 == done + rest@,
            sorted_by_path(rf_views(out@)),
            rf_views(out@).to_multiset() == done.map_values(|f: RepoFile| snap_rec(f)).to_multiset(),
            over == (snap_total(done) > u64::MAX),
            !over ==> total == snap_total(done),
        decreases rest@.len(),
    {
        let ghost r0 = rest@;
        let mut f = rest.remove(0);
        let ghost fv = f;
        let size = match &f.bytes {
            Some(b) => {
                if f.sha256.is_none() {
                    f.sha256 = Some(hash_bytes_hex(b.as_slice()));
                }
                b.len() as u64
            },
            None => f.size,
        };
        f.size = size;
        assert(rf_view(f) == snap_rec(fv));
        if !over {
            if total > u64::MAX - size {
                over = true;
            } else {
                total = total + size;
            }
        }
        let ghost mv = rf_view(f);
        insert_sorted(&mut out, f);
        proof {
            let d1 = done.push(fv);
            assert(d1.drop_last() =~= done);
            assert(d1.map_values(|x: RepoFile| snap_rec(x)) =~= done.map_values(|x: RepoFile| snap_rec(x)).push(mv));
            done.map_values(|x: RepoFile| snap_rec(x)).to_multiset_ensures();
            assert(f0 =~= d1 + rest@) by {
                assert(r0 =~= seq![fv] + rest@);
            }
            done = d1;
        }
    }
    assert(done =~= f0);
    if over || total > req.max_total_bytes {
        return Err(SigniaError::resource_limit("repo total size exceeds limit"));
    }
    let snapshot_hash = RepoSnapshot::compute_snapshot_hash(out.as_slice())?;
    let source = req.to_source_ref();
    Ok(RepoSnapshot { source, files: out, snapshot_hash })
}

} // verus!
