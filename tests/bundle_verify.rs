use signia::canonical::{canonical_hash_hex, canonical_json_bytes, CanonicalError};
use signia::hashing::{hash_bytes_hex, hash_merkle_leaf_hex, hash_merkle_node_hex};
use signia::json::JsonValue;
use signia::merkle::{fold_path_exec, inclusion_path, merkle_root};
use signia::model::{
    hash_manifest_v1_hex, hash_schema_v1_hex, EntityV1, InclusionProofV1, LeafV1, LimitsV1, ManifestV1, ProofV1,
    SchemaRefV1, SchemaV1, SiblingV1,
};
use signia::verify::{recompute_proof_root_hex, verify_bundle, verify_inclusion, VerifyBundle, VerifyOptions};

fn s(x: &str) -> JsonValue {
    JsonValue::Str(x.to_string())
}

fn obj(entries: Vec<(&str, JsonValue)>) -> JsonValue {
    JsonValue::Object(entries.into_iter().map(|(k, v)| (k.to_string(), v)).collect())
}

fn demo_schema() -> SchemaV1 {
    SchemaV1 {
        version: "v1".to_string(),
        kind: "repo".to_string(),
        meta: obj(vec![
            ("name", s("demo")),
            ("createdAt", s("1970-01-01T00:00:00Z")),
            ("source", obj(vec![("type", s("path")), ("locator", s("artifact:/demo"))])),
            ("normalization", obj(vec![("policyVersion", s("v1")), ("newline", s("lf"))])),
        ]),
        entities: vec![],
        edges: vec![],
    }
}

fn demo_manifest() -> ManifestV1 {
    ManifestV1 {
        version: "v1".to_string(),
        name: "demo".to_string(),
        schemas: vec![],
        inputs: vec![],
        outputs: vec![],
        plugins: vec![],
        limits: LimitsV1 { max_files: 1, max_bytes: 1, max_nodes: 1, max_edges: 1, timeout_ms: 1, network: "deny".to_string() },
        labels: vec![],
    }
}

fn bound_bundle() -> VerifyBundle {
    let schema = demo_schema();
    let mut manifest = demo_manifest();
    let schema_hash = hash_schema_v1_hex(&schema).unwrap();
    manifest.schemas.push(SchemaRefV1 { name: "repo".to_string(), digest: schema_hash.clone() });
    let manifest_hash = hash_manifest_v1_hex(&manifest).unwrap();
    let leaves = vec![
        LeafV1 { key: "digest:schemaHash".to_string(), value: schema_hash },
        LeafV1 { key: "digest:manifestHash".to_string(), value: manifest_hash },
    ];
    let mut proof = ProofV1 { version: "v1".to_string(), hash_alg: "sha256".to_string(), root: String::new(), leaves, inclusions: None };
    proof.root = recompute_proof_root_hex(&proof).unwrap();
    VerifyBundle { schema, manifest, proof: Some(proof) }
}

#[test]
fn verify_smoke() {
    let rep = verify_bundle(bound_bundle(), VerifyOptions::default()).unwrap();
    assert!(rep.ok);
    assert!(!rep.has_errors());
}

#[test]
fn verify_flags_tampered_leaf() {
    let mut b = bound_bundle();
    let p = b.proof.as_mut().unwrap();
    let v = &mut p.leaves[0].value;
    let flipped = if v.starts_with('0') { "1" } else { "0" };
    v.replace_range(0..1, flipped);
    let rep = verify_bundle(b, VerifyOptions::default()).unwrap();
    assert!(!rep.ok);
    let codes: Vec<&str> = rep.findings.iter().map(|f| f.code.as_str()).collect();
    assert!(codes.contains(&"proof.leaf.schemaHash.mismatch"));
    assert!(codes.contains(&"proof.root.mismatch"));
}

#[test]
fn verify_flags_missing_binding_and_proof() {
    let mut b = bound_bundle();
    b.manifest.schemas.clear();
    b.proof = None;
    let rep = verify_bundle(b, VerifyOptions::default()).unwrap();
    assert!(!rep.ok);
    let codes: Vec<&str> = rep.findings.iter().map(|f| f.code.as_str()).collect();
    assert!(codes.contains(&"manifest.binding.missing"));
    assert!(codes.contains(&"proof.missing"));
    assert!(rep.proof_root_hex.is_none());
}

#[test]
fn verify_flags_schema_structure() {
    let mut b = bound_bundle();
    b.schema.entities.push(EntityV1 { id: " ".to_string(), entity_type: "file".to_string(), name: "x".to_string(), attrs: JsonValue::Null });
    let opts = VerifyOptions { require_proof: false, validate_inclusions: false, require_manifest_binding: false };
    let rep = verify_bundle(b, opts).unwrap();
    assert!(!rep.ok);
    assert!(rep.findings.iter().any(|f| f.code == "schema.entity.id"));
}

#[test]
fn odd_leaf_duplication() {
    let payloads: Vec<Vec<u8>> = vec![b"L1".to_vec(), b"L2".to_vec(), b"L3".to_vec()];
    let root = merkle_root(&payloads);
    let l1 = hash_merkle_leaf_hex("sha256", b"L1").unwrap();
    let l2 = hash_merkle_leaf_hex("sha256", b"L2").unwrap();
    let l3 = hash_merkle_leaf_hex("sha256", b"L3").unwrap();
    let left = hash_merkle_node_hex("sha256", &l1, &l2).unwrap();
    let right = hash_merkle_node_hex("sha256", &l3, &l3).unwrap();
    let expected = hash_merkle_node_hex("sha256", &left, &right).unwrap();
    assert_eq!(signia::hashing::to_hex(&root), expected);
}

#[test]
fn empty_tree_root_is_leaf_of_empty_payload() {
    let root = merkle_root(&vec![]);
    assert_eq!(signia::hashing::to_hex(&root), hash_merkle_leaf_hex("sha256", b"").unwrap());
}

#[test]
fn inclusion_paths_reach_root() {
    let payloads: Vec<Vec<u8>> = (0..5u8).map(|i| vec![i]).collect();
    let root = merkle_root(&payloads);
    for i in 0..payloads.len() {
        let path = inclusion_path(&payloads, i);
        let leaf = signia::hashing::merkle_leaf(&payloads[i]);
        assert_eq!(fold_path_exec(leaf, &path), root);
    }
    let mut path = inclusion_path(&payloads, 2);
    path[0].hash[0] ^= 1;
    let leaf = signia::hashing::merkle_leaf(&payloads[2]);
    assert_ne!(fold_path_exec(leaf, &path), root);
}

#[test]
fn inclusion_proof_checks() {
    let leaves = vec![
        LeafV1 { key: "a".to_string(), value: "1".to_string() },
        LeafV1 { key: "b".to_string(), value: "2".to_string() },
    ];
    let mut proof = ProofV1 { version: "v1".to_string(), hash_alg: "sha256".to_string(), root: String::new(), leaves, inclusions: None };
    proof.root = recompute_proof_root_hex(&proof).unwrap();
    let hb = hash_merkle_leaf_hex("sha256", b"b=2").unwrap();
    let good = InclusionProofV1 { key: "a".to_string(), value: "1".to_string(), siblings: vec![SiblingV1 { side: "right".to_string(), hash: hb.clone() }] };
    verify_inclusion(&proof, &good).unwrap();
    let bad_side = InclusionProofV1 { key: "a".to_string(), value: "1".to_string(), siblings: vec![SiblingV1 { side: "up".to_string(), hash: hb.clone() }] };
    assert!(verify_inclusion(&proof, &bad_side).is_err());
    let wrong = InclusionProofV1 { key: "a".to_string(), value: "1".to_string(), siblings: vec![SiblingV1 { side: "left".to_string(), hash: hb }] };
    assert!(verify_inclusion(&proof, &wrong).is_err());
    let dup = ProofV1 { leaves: vec![LeafV1 { key: "a".to_string(), value: "1".to_string() }, LeafV1 { key: "a".to_string(), value: "2".to_string() }], ..proof.clone() };
    assert!(recompute_proof_root_hex(&dup).is_err());
}

#[test]
fn canonical_json_sorts_keys() {
    let v = obj(vec![("b", JsonValue::Int(1)), ("a", JsonValue::Int(2))]);
    let bytes = canonical_json_bytes(&v, 8).unwrap();
    let s = String::from_utf8(bytes).unwrap();
    assert!(s.find(r#""a":2"#).unwrap() < s.find(r#""b":1"#).unwrap());
    assert_eq!(s, r#"{"a":2,"b":1}"#);
}

#[test]
fn canonical_text_forms() {
    let v = JsonValue::Array(vec![
        JsonValue::Null,
        JsonValue::Bool(true),
        JsonValue::Int(-120),
        s("q\"\\\n\u{1}é"),
        obj(vec![]),
    ]);
    let text = String::from_utf8(canonical_json_bytes(&v, 8).unwrap()).unwrap();
    assert_eq!(text, "[null,true,-120,\"q\\\"\\\\\\n\\u0001é\",{}]");
}

#[test]
fn canonical_errors() {
    let dup = obj(vec![("a", JsonValue::Int(1)), ("a", JsonValue::Int(2))]);
    assert_eq!(canonical_json_bytes(&dup, 8).unwrap_err(), CanonicalError::UnsortableKey);
    let deep = JsonValue::Array(vec![JsonValue::Array(vec![])]);
    assert_eq!(canonical_json_bytes(&deep, 1).unwrap_err(), CanonicalError::RecursionLimit);
    assert!(canonical_json_bytes(&deep, 2).is_ok());
}

#[test]
fn canonical_permutation_same_hash() {
    let a = obj(vec![("x", JsonValue::Int(1)), ("y", s("z"))]);
    let b = obj(vec![("y", s("z")), ("x", JsonValue::Int(1))]);
    assert_eq!(canonical_hash_hex(&a, 4).unwrap(), canonical_hash_hex(&b, 4).unwrap());
    assert_eq!(canonical_hash_hex(&a, 4).unwrap(), hash_bytes_hex(br#"{"x":1,"y":"z"}"#));
}

#[test]
fn schema_basic_checks() {
    let mut s = demo_schema();
    assert!(signia::verify::schema_v1_basic(&s).is_ok());
    s.entities.push(EntityV1 { id: "n0".to_string(), entity_type: "t".to_string(), name: "a".to_string(), attrs: JsonValue::Null });
    s.edges.push(signia::model::EdgeV1 { id: "e0".to_string(), edge_type: "c".to_string(), from: "n0".to_string(), to: "n9".to_string(), attrs: JsonValue::Null });
    assert!(signia::verify::schema_v1_basic(&s).is_err());
}
