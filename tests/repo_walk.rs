use signia::dataset::{compute_checksums, dataset_fingerprint, dataset_merkle_root, ensure_file_sha256, DatasetFileRecord};
use signia::github::{snapshot_from_files, GitHubFetchRequest, RepoSnapshot};
use signia::hashing::hash_bytes_hex;
use signia::walk::{is_included, matches_pattern, normalize_repo_path, walk_virtual_files, RepoFile, VFile, WalkOptions};

#[test]
fn normalize_rejects_dotdot() {
    assert!(normalize_repo_path("../x").is_err());
    assert!(normalize_repo_path("a/../b").is_err());
}

#[test]
fn normalize_repo_path_forms() {
    assert_eq!(normalize_repo_path(".\\a\\\\b").unwrap(), "a/b");
    assert_eq!(normalize_repo_path("././c").unwrap(), "c");
    assert_eq!(normalize_repo_path("//d/e").unwrap(), "d/e");
    assert_eq!(normalize_repo_path("a/..b").unwrap(), "a/..b");
}

#[test]
fn include_exclude_rules() {
    let inc = vec!["src/**".to_string()];
    let exc = vec!["**/test*".to_string()];

    assert!(is_included("src/lib.rs", &inc, &exc));
    assert!(!is_included("src/test.rs", &inc, &exc));
    assert!(!is_included("README.md", &inc, &exc));
}

#[test]
fn single_star_stays_in_segment() {
    assert!(matches_pattern("a/b.rs", "a/*.rs"));
    assert!(!matches_pattern("a/b/c.rs", "a/*.rs"));
    assert!(matches_pattern("a/b/c.rs", "a/**.rs"));
    assert!(matches_pattern("anything", "**"));
    assert!(matches_pattern("x.txt", "x.txt"));
    assert!(!matches_pattern("x.txt", "y.txt"));
}

#[test]
fn walk_is_deterministic_sorted() {
    let files = vec![
        VFile::new("b.txt", 1),
        VFile::new("a.txt", 1),
        VFile::new("./c.txt", 1),
    ];

    let out = walk_virtual_files(&files, &WalkOptions::default()).unwrap();
    let paths: Vec<String> = out.into_iter().map(|f| f.path).collect();
    assert_eq!(paths, vec!["a.txt", "b.txt", "c.txt"]);
}

#[test]
fn walk_enforces_limits() {
    let files = vec![VFile::new("a", 5), VFile::new("b", 6).with_bytes(vec![1, 2])];
    let mut opts = WalkOptions::default();
    opts.max_total_bytes = 7;
    let out = walk_virtual_files(&files, &opts).unwrap();
    assert_eq!(out[1].size, 2);
    opts.max_total_bytes = 6;
    assert!(walk_virtual_files(&files, &opts).is_err());
    opts.max_total_bytes = 100;
    opts.max_files = 1;
    assert!(walk_virtual_files(&files, &opts).is_err());
}

#[test]
fn snapshot_hash_stable() {
    let req = GitHubFetchRequest::new("o", "r", "deadbeef").with_limits(10, 1024);
    let files = vec![
        RepoFile { path: "b".to_string(), size: 1, sha256: Some("x".to_string()), mode: None, bytes: None },
        RepoFile { path: "a".to_string(), size: 2, sha256: Some("y".to_string()), mode: None, bytes: None },
    ];

    let s1 = snapshot_from_files(&req, files.clone()).unwrap();
    let s2 = snapshot_from_files(&req, files).unwrap();
    assert_eq!(s1.snapshot_hash, s2.snapshot_hash);
}

#[test]
fn rejects_limits() {
    let req = GitHubFetchRequest::new("o", "r", "deadbeef").with_limits(1, 10);
    let files = vec![
        RepoFile::new("a", 1),
        RepoFile::new("b", 1),
    ];
    assert!(snapshot_from_files(&req, files).is_err());
}

#[test]
fn snapshot_listing_hash_and_source() {
    let req = GitHubFetchRequest::new("o", "r", "main").with_subpath("docs");
    let files = vec![RepoFile::new("b", 3), RepoFile::new("a", 2)];
    let snap = snapshot_from_files(&req, files).unwrap();
    assert_eq!(snap.files[0].path, "a");
    assert_eq!(snap.snapshot_hash, hash_bytes_hex(b"a\t2\t\nb\t3\t\n"));
    assert_eq!(snap.source.locator, "git:https://github.com/o/r.git#main:docs");
    assert_eq!(RepoSnapshot::compute_snapshot_hash(&[]).unwrap(), hash_bytes_hex(b""));
    assert!(GitHubFetchRequest::new(" ", "r", "x").validate().is_err());
}

#[test]
fn fingerprint_stable() {
    let a = DatasetFileRecord::new("b.txt", 1).with_bytes(b"b".to_vec());
    let b = DatasetFileRecord::new("a.txt", 1).with_bytes(b"a".to_vec());

    let f1 = dataset_fingerprint(vec![a.clone(), b.clone()]).unwrap();
    let f2 = dataset_fingerprint(vec![b, a]).unwrap();
    assert_eq!(f1, f2);
}

#[test]
fn merkle_root_stable() {
    let a = DatasetFileRecord::new("x.txt", 1).with_bytes(b"x".to_vec());
    let b = DatasetFileRecord::new("y.txt", 1).with_bytes(b"y".to_vec());
    let r1 = dataset_merkle_root(vec![a.clone(), b.clone()]).unwrap();
    let r2 = dataset_merkle_root(vec![b, a]).unwrap();
    assert_eq!(r1, r2);
}

#[test]
fn dataset_fingerprint_formula() {
    let x = DatasetFileRecord::new("x", 0).with_bytes(b"x".to_vec());
    let y = DatasetFileRecord::new("y", 0).with_bytes(b"y".to_vec());
    let expected_text = format!("x\t1\t{}\ny\t1\t{}\n", hash_bytes_hex(b"x"), hash_bytes_hex(b"y"));
    let f = dataset_fingerprint(vec![y, x]).unwrap();
    assert_eq!(f, hash_bytes_hex(expected_text.as_bytes()));
}

#[test]
fn dataset_requires_digest() {
    let mut r = DatasetFileRecord::new("p", 3);
    assert!(ensure_file_sha256(&mut r).is_err());
    let mut r = DatasetFileRecord::new("p", 3).with_sha256("ab");
    ensure_file_sha256(&mut r).unwrap();
    assert_eq!(r.sha256.as_deref(), Some("ab"));
    let sums = compute_checksums(vec![DatasetFileRecord::new("./z", 1).with_sha256("h1"), DatasetFileRecord::new("a", 1).with_sha256("h2")]).unwrap();
    assert_eq!(sums, vec![("a".to_string(), "h2".to_string()), ("z".to_string(), "h1".to_string())]);
    assert!(dataset_fingerprint(vec![DatasetFileRecord::new("../p", 1).with_sha256("h")]).is_err());
}
