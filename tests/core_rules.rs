use signia::config::{validate_config, CoreConfig, HashAlgorithm, NetworkPolicy, SymlinkPolicy};
use signia::error::ErrorKind;
use signia::hashing::{hash_bytes_hex, hash_merkle_leaf_hex, hash_merkle_node_hex, HashAlg};
use signia::ident::{normalize_artifact_kind, normalize_input_type, normalize_plugin_id};
use signia::sorting::{ensure_sorted, stable_sort_by_key, stable_sort_strings};
use signia::text::{normalize_text, normalize_text_with_limit};
use signia::version::{require_version, ManifestVersion, ProofVersion, SchemaVersion};

#[test]
fn default_config_is_valid() {
    let cfg = CoreConfig::default();
    validate_config(&cfg).unwrap();
}

#[test]
fn invalid_limits_detected() {
    let mut cfg = CoreConfig::default();
    cfg.limits.max_file_bytes = cfg.limits.max_total_bytes + 1;
    assert!(validate_config(&cfg).is_err());
}

#[test]
fn empty_domain_detected() {
    let mut cfg = CoreConfig::default();
    cfg.hashing.domain = "".to_string();
    assert!(validate_config(&cfg).is_err());
}

#[test]
fn zero_nodes_detected() {
    let mut cfg = CoreConfig::default();
    cfg.limits.max_nodes = 0;
    let e = validate_config(&cfg).unwrap_err();
    assert_eq!(e.kind, ErrorKind::InvalidArgument);
    assert!(e.to_string().contains("max_nodes"));
}

#[test]
fn config_labels() {
    assert_eq!(HashAlgorithm::Blake3.as_str(), "blake3");
    assert_eq!(SymlinkPolicy::ResolveWithinRoot.as_str(), "resolve-within-root");
    assert_eq!(NetworkPolicy::AllowPinnedOnly.as_str(), "allow-pinned-only");
}

#[test]
fn normalize_newlines_and_whitespace() {
    let s = "a \r\nb\t\r\n";
    let n = normalize_text(s).unwrap();
    assert_eq!(n, "a\nb\n");
}

#[test]
fn remove_bom() {
    let s = "\u{FEFF}hello\n";
    let n = normalize_text(s).unwrap();
    assert_eq!(n, "hello\n");
}

#[test]
fn size_limit_enforced() {
    let s = "a";
    let err = normalize_text_with_limit(s, 0).err().unwrap();
    assert!(err.to_string().contains("exceeds"));
}

#[test]
fn normalize_text_lone_cr_and_empty() {
    assert_eq!(normalize_text("x\ry  \n\n").unwrap(), "x\ny\n\n");
    assert_eq!(normalize_text("").unwrap(), "");
    assert_eq!(normalize_text_with_limit("ab ", 2).unwrap(), "ab");
}

#[test]
fn stable_sort_basic() {
    let mut v = vec![3, 1, 2];
    stable_sort_by_key(&mut v, |x| *x).unwrap();
    assert_eq!(v, vec![1, 2, 3]);
}

#[test]
fn ensure_sorted_detects_unsorted() {
    let v = vec![1, 3, 2];
    let err = ensure_sorted(&v, |x| *x).err().unwrap();
    assert!(err.to_string().contains("not sorted"));
}

#[test]
fn stable_sort_keeps_equal_keys_in_order() {
    let mut v: Vec<(u64, u64)> = vec![(2, 0), (1, 1), (2, 2), (1, 3)];
    stable_sort_by_key(&mut v, |p| p.0).unwrap();
    assert_eq!(v, vec![(1, 1), (1, 3), (2, 0), (2, 2)]);
    let mut s = vec!["b".to_string(), "a".to_string(), "B".to_string()];
    stable_sort_strings(&mut s);
    assert_eq!(s, vec!["B", "a", "b"]);
    assert!(ensure_sorted(&vec![1u64, 1, 2], |x| *x).is_ok());
}

#[test]
fn parse_schema_v1() {
    assert_eq!(SchemaVersion::parse("v1").unwrap(), SchemaVersion::V1);
}

#[test]
fn parse_schema_unknown() {
    let e = SchemaVersion::parse("v9").unwrap_err();
    assert!(format!("{e:?}").contains("unsupported schema version"));
}

#[test]
fn require_version_ok() {
    require_version("v1", "v1", "version").unwrap();
}

#[test]
fn require_version_err() {
    let e = require_version("v2", "v1", "version").unwrap_err();
    assert!(format!("{e:?}").contains("expected v1"));
}

#[test]
fn other_versions_parse() {
    assert_eq!(ManifestVersion::parse("v1").unwrap().as_str(), "v1");
    assert!(ProofVersion::parse("v2").is_err());
}

#[test]
fn normalizes_plugin_id() {
    assert_eq!(normalize_plugin_id(" builtin.repo ").unwrap(), "builtin.repo");
    assert!(normalize_plugin_id("Bad").is_err());
}

#[test]
fn plugin_id_edges() {
    assert!(normalize_plugin_id("a").is_err());
    assert!(normalize_plugin_id(".ab").is_err());
    assert!(normalize_plugin_id("ab.").is_err());
    assert!(normalize_plugin_id("a b").is_err());
    assert_eq!(normalize_plugin_id("a-b_c.d9").unwrap(), "a-b_c.d9");
}

#[test]
fn normalizes_input_type() {
    assert_eq!(normalize_input_type(" Repo ").unwrap(), "repo");
    assert!(normalize_input_type("r").is_err());
}

#[test]
fn artifact_kind_validation() {
    assert_eq!(normalize_artifact_kind("Schema").unwrap(), "schema");
    assert!(normalize_artifact_kind("binary").is_err());
}

#[test]
fn hash_bytes_stable() {
    let h1 = hash_bytes_hex(b"abc");
    let h2 = hash_bytes_hex(b"abc");
    assert_eq!(h1, h2);
    assert_eq!(h1, "ba7816bf8f01cfea414140de5dae2223b00361a396177a9cb410ff61f20015ad");
}

#[test]
fn merkle_leaf_and_node() {
    let leaf = hash_merkle_leaf_hex("sha256", b"x").unwrap();
    let node = hash_merkle_node_hex("sha256", &leaf, &leaf).unwrap();
    assert!(!node.is_empty());
    assert_eq!(leaf.len(), 64);
    assert_ne!(leaf, hash_bytes_hex(b"x"));
    assert!(hash_merkle_leaf_hex("md5", b"x").is_err());
    assert!(hash_merkle_node_hex("sha256", "zz", &leaf).is_err());
    assert!(HashAlg::from_str("sha1").is_err());
}

#[test]
fn stable_sort_pairs_keeps_equal_keys() {
    let mut v = vec![("b".to_string(), 1), ("a".to_string(), 2), ("b".to_string(), 3), ("a".to_string(), 4)];
    signia::sorting::stable_sort_pairs(&mut v);
    let got: Vec<(&str, i32)> = v.iter().map(|(k, x)| (k.as_str(), *x)).collect();
    assert_eq!(got, vec![("a", 2), ("a", 4), ("b", 1), ("b", 3)]);
}
