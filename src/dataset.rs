use vstd::prelude::*;
use crate::canonical::decimal_chars;
use crate::error::SigniaError;
use crate::github::{snapshot_text, RepoSnapshot};
use crate::hashing::{hash_bytes_hex, hex_of, sha256_of, to_hex};
use crate::json::{digits, utf8_bytes, utf8_of};
use crate::merkle::{merkle_root, merkle_root_spec, views};
use crate::strs::{chars_of, string_of};
use crate::walk::{
    has_dotdot, insert_sorted, norm_path, normalize_repo_path, rf_view, rf_views, sorted_by_path,
    FileRec, RepoFile,
};

verus! {

/// A file of a dataset: its contents, or a digest computed elsewhere.
#[derive(Debug, Clone)]
pub struct DatasetFileRecord {
    pub path: String,
    pub size: u64,
    pub bytes: Option<Vec<u8>>,
    pub sha256: Option<String>,
}

impl DatasetFileRecord {
    pub fn new(path: &str, size: u64) -> (r: Self)
        ensures
            r.path@ == path@,
            r.size == size,
            r.bytes is None,
            r.sha256 is None,
    {
        DatasetFileRecord { path: String::from_str(path), size, bytes: None, sha256: None }
    }

    /// Attaches contents; the size becomes their length.
    pub fn with_bytes(self, bytes: Vec<u8>) -> (r: Self)
        ensures
            r.path == self.path,
            r.size == bytes@.len(),
            r.bytes == Some(bytes),
            r.sha256 == self.sha256,
    {
        let size = bytes.len() as u64;
        DatasetFileRecord { path: self.path, size, bytes: Some(bytes), sha256: self.sha256 }
    }

    pub fn with_sha256(self, sha256: &str) -> (r: Self)
        ensures
            r.path == self.path,
            r.size == self.size,
            r.bytes == self.bytes,
            r.sha256 is Some && r.sha256->0@ == sha256@,
    {
        DatasetFileRecord { path: self.path, size: self.size, bytes: self.bytes, sha256: Some(String::from_str(sha256)) }
    }
}

/// A record has a digest once its contents are hashed or one was given.
pub open spec fn has_digest(r: DatasetFileRecord) -> bool {
    r.bytes is Some || r.sha256 is Some
}

/// Digest and size of a record: from contents when present.
pub open spec fn digest_of(r: DatasetFileRecord) -> Seq<char> {
    match r.bytes {
        Some(b) => hex_of(sha256_of(b@)),
        None => r.sha256->0@,
    }
}

pub open spec fn size_of(r: DatasetFileRecord) -> u64 {
    match r.bytes {
        Some(b) => b@.len() as u64,
        None => r.size,
    }
}

/// Fills the digest from the contents, or requires one to be present.
pub fn ensure_file_sha256(record: &mut DatasetFileRecord) -> (r: Result<(), SigniaError>)
    ensures
        r is Ok <==> has_digest(*old(record)),
        r is Ok ==> final(record).sha256 is Some && final(record).sha256->0@ == digest_of(*old(record)),
        r is Ok ==> final(record).size == size_of(*old(record)),
        final(record).path == old(record).path,
        final(record).bytes == old(record).bytes,
        r is Err ==> *final(record) == *old(record),
{
    match &record.bytes {
        Some(b) => {
            let h = hash_bytes_hex(b.as_slice());
            let n = b.len() as u64;
            record.sha256 = Some(h);
            record.size = n;
            Ok(())
        },
        None => {
            if record.sha256.is_none() {
                return Err(SigniaError::invalid_argument("missing sha256 for file without bytes"));
            }
            Ok(())
        },
    }
}

/// The record a dataset file takes once normalized: path, size and digest.
pub open spec fn ds_rec(f: DatasetFileRecord) -> FileRec {
    (norm_path(f.path@), size_of(f), Some(digest_of(f)), None, None)
}

pub open spec fn ds_ok(files: Seq<DatasetFileRecord>) -> bool {
    forall|i: int| 0 <= i < files.len() ==> !has_dotdot(norm_path((#[trigger] files[i]).path@)) && has_digest(files[i])
}

/// Normalized records of the files, sorted by path.
fn normalized_sorted(files: Vec<DatasetFileRecord>) -> (r: Result<Vec<RepoFile>, SigniaError>)
    ensures
        r is Ok <==> ds_ok(files@),
        r is Ok ==> sorted_by_path(rf_views(r->Ok_0@)),
        r is Ok ==> rf_views(r->Ok_0@).to_multiset() == files@.map_values(|f: DatasetFileRecord| ds_rec(f)).to_multiset(),
        r is Ok ==> forall|i: int| 0 <= i < r->Ok_0@.len() ==> (#[trigger] r->Ok_0@[i]).sha256 is Some,
{
    let ghost f0 = files@;
    let mut rest = files;
    let mut out: Vec<RepoFile> = Vec::new();
    let ghost mut done: Seq<DatasetFileRecord> = Seq::empty();
    assert(rf_views(out@) =~= done.map_values(|f: DatasetFileRecord| ds_rec(f)));
    assert(f0 =~= done + rest@);
    while rest.len() > 0
        invariant
            f0 == done + rest@,
            f0 == files@,
            ds_ok(done),
            sorted_by_path(rf_views(out@)),
            rf_views(out@).to_multiset() == done.map_values(|f: DatasetFileRecord| ds_rec(f)).to_multiset(),
            forall|i: int| 0 <= i < out@.len() ==> (#[trigger] out@[i]).sha256 is Some,
        decreases rest@.len(),
    {
        let ghost r0 = rest@;
        let mut f = rest.remove(0);
        let ghost fv = f;
        assert(r0 =~= seq![fv] + rest@);
        assert(f0[done.len() as int] == fv);
        let p = match normalize_repo_path(f.path.as_str()) {
            Ok(p) => p,
            Err(e) => {
                assert(!ds_ok(f0)) by {
                    assert(f0[done.len() as int] == fv);
                }
                return Err(e);
            },
        };
        match ensure_file_sha256(&mut f) {
            Ok(()) => {},
            Err(e) => {
                assert(!ds_ok(f0)) by {
                    assert(f0[done.len() as int] == fv);
                }
                return Err(e);
            },
        }
        let sha = f.sha256;
        let rf = RepoFile { path: p, size: f.size, sha256: sha, mode: None, bytes: None };
        assert(rf_view(rf) == ds_rec(fv));
        let ghost before = out@;
        insert_sorted(&mut out, rf);
        proof {
            assert forall|q: int| 0 <= q < out@.len() implies (#[trigger] out@[q]).sha256 is Some by {
                if out@[q] != rf {
                    let j = choose|j: int| 0 <= j < before.len() && before[j] == out@[q];
                }
            }
            let d1 = done.push(fv);
            assert(d1.map_values(|x: DatasetFileRecord| ds_rec(x)) =~= done.map_values(|x: DatasetFileRecord| ds_rec(x)).push(ds_rec(fv)));
            done.map_values(|x: DatasetFileRecord| ds_rec(x)).to_multiset_ensures();
            assert forall|i: int| 0 <= i < d1.len() implies !has_dotdot(norm_path((#[trigger] d1[i]).path@)) && has_digest(d1[i]) by {
                if i < done.len() {
                    assert(d1[i] == done[i]);
                }
            }
            assert(f0 =~= d1 + rest@);
            done = d1;
        }
    }
    assert(done =~= f0);
    Ok(out)
}

/// Dataset fingerprint: hex SHA-256 of the lines `path \t size \t sha256 \n`
/// of the normalized files in path order.
pub fn dataset_fingerprint(files: Vec<DatasetFileRecord>) -> (r: Result<String, SigniaError>)
    ensures
        r is Ok <==> ds_ok(files@),
        r is Ok ==> exists|s: Seq<FileRec>| sorted_by_path(s) && s.to_multiset() == files@.map_values(|f: DatasetFileRecord| ds_rec(f)).to_multiset()
            && r->Ok_0@ == hex_of(sha256_of(utf8_of(#[trigger] snapshot_text(s)))),
{
    let recs = normalized_sorted(files)?;
    let h = RepoSnapshot::compute_snapshot_hash(recs.as_slice())?;
    assert(sorted_by_path(rf_views(recs@)));
    Ok(h)
}

/// Merkle payload of a dataset file: `path \n sha256 \n size`.
pub open spec fn ds_payload(f: FileRec) -> Seq<u8> {
    utf8_of(f.0 + seq!['\n'] + f.2->0 + seq!['\n'] + digits(f.1 as nat))
}

pub open spec fn ds_root(s: Seq<FileRec>) -> Seq<u8> {
    merkle_root_spec(s.map_values(|x: FileRec| ds_payload(x)))
}

/// Merkle root over the normalized files in path order, one leaf per file.
pub fn dataset_merkle_root(files: Vec<DatasetFileRecord>) -> (r: Result<String, SigniaError>)
    ensures
        r is Ok <==> ds_ok(files@),
        r is Ok ==> exists|s: Seq<FileRec>| sorted_by_path(s) && s.to_multiset() == files@.map_values(|f: DatasetFileRecord| ds_rec(f)).to_multiset()
            && r->Ok_0@ == hex_of(#[trigger] ds_root(s)),
{
    let recs = normalized_sorted(files)?;
    let ghost sv = rf_views(recs@);
    let mut payloads: Vec<Vec<u8>> = Vec::new();
    let mut k: usize = 0;
    while k < recs.len()
        invariant
            k <= recs@.len(),
            sv == rf_views(recs@),
            forall|i: int| 0 <= i < recs@.len() ==> (#[trigger] recs@[i]).sha256 is Some,
            payloads@.len() == k,
            forall|j: int| 0 <= j < k ==> (#[trigger] payloads@[j])@ == ds_payload(sv[j]),
        decreases recs@.len() - k,
    {
        let f = &recs[k];
        let mut text: Vec<char> = chars_of(f.path.as_str());
        text.push('\n');
        let sha = match &f.sha256 {
            Some(h) => chars_of(h.as_str()),
            None => Vec::new(),
        };
        let ghost t0 = text@;
        let mut i: usize = 0;
        while i < sha.len()
            invariant
                i <= sha@.len(),
                text@ == t0 + sha@.subrange(0, i as int),
            decreases sha@.len() - i,
        {
            text.push(sha[i]);
            i = i + 1;
        }
        text.push('\n');
        let d = decimal_chars(f.size);
        let ghost t1 = text@;
        let mut i: usize = 0;
        while i < d.len()
            invariant
                i <= d@.len(),
                text@ == t1 + d@.subrange(0, i as int),
            decreases d@.len() - i,
        {
            text.push(d[i]);
            i = i + 1;
        }
        proof {
            assert(sha@.subrange(0, sha@.len() as int) =~= sha@);
            assert(d@.subrange(0, d@.len() as int) =~= d@);
            assert(sv[k as int] == rf_view(recs@[k as int]));
            assert(text@ =~= sv[k as int].0 + seq!['\n'] + sv[k as int].2->0 + seq!['\n'] + digits(sv[k as int].1 as nat));
        }
        let s = string_of(text.as_slice());
        payloads.push(utf8_bytes(s.as_str()));
        k = k + 1;
    }
    assert(views(payloads@) =~= sv.map_values(|x: FileRec| ds_payload(x)));
    let root = merkle_root(&payloads);
    assert(root@ == ds_root(sv));
    Ok(to_hex(root.as_slice()))
}

pub open spec fn checksum_pairs(p: Seq<(String, String)>) -> Seq<(Seq<char>, Seq<char>)> {
    p.map_values(|x: (String, String)| (x.0@, x.1@))
}

/// Path-to-digest map of the dataset, in path order.
pub fn compute_checksums(files: Vec<DatasetFileRecord>) -> (r: Result<Vec<(String, String)>, SigniaError>)
    ensures
        r is Ok <==> ds_ok(files@),
        r is Ok ==> forall|i: int, j: int| 0 <= i < j < r->Ok_0@.len() ==> !crate::json::key_lt(#[trigger] r->Ok_0@[j].0@, #[trigger] r->Ok_0@[i].0@),
        r is Ok ==> exists|s: Seq<FileRec>| sorted_by_path(s) && s.to_multiset() == files@.map_values(|f: DatasetFileRecord| ds_rec(f)).to_multiset()
            && #[trigger] checksum_pairs(r->Ok_0@) == s.map_values(|x: FileRec| (x.0, x.2->0)),
{
    let recs = normalized_sorted(files)?;
    let ghost sv = rf_views(recs@);
    let mut out: Vec<(String, String)> = Vec::new();
    let mut k: usize = 0;
    while k < recs.len()
        invariant
            k <= recs@.len(),
            sorted_by_path(rf_views(recs@)),
            out@.len() == k,
            forall|j: int| 0 <= j < k ==> (#[trigger] out@[j]).0@ == recs@[j].path@,
            forall|i: int| 0 <= i < recs@.len() ==> (#[trigger] recs@[i]).sha256 is Some,
            sv == rf_views(recs@),
            forall|j: int| 0 <= j < k ==> (#[trigger] out@[j]).1@ == sv[j].2->0,
        decreases recs@.len() - k,
    {
        let h = match &recs[k].sha256 {
            Some(h) => h.clone(),
            None => String::new(),
        };
        out.push((recs[k].path.clone(), h));
        k = k + 1;
    }
    proof {
        assert forall|i: int, j: int| 0 <= i < j < out@.len() implies !crate::json::key_lt(#[trigger] out@[j].0@, #[trigger] out@[i].0@) by {
            assert(rf_views(recs@)[i].0 == recs@[i].path@);
            assert(rf_views(recs@)[j].0 == recs@[j].path@);
        }
        assert forall|j: int| 0 <= j < out@.len() implies checksum_pairs(out@)[j] == sv.map_values(|x: FileRec| (x.0, x.2->0))[j] by {
            assert(sv[j].0 == recs@[j].path@);
        }
        assert(checksum_pairs(out@) =~= sv.map_values(|x: FileRec| (x.0, x.2->0)));
    }
    Ok(out)
}

} // verus!
