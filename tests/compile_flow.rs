use signia::compile::{compile_from_ir, CompileRequest, InputSpec, LimitsSpec, OutputSpec, PluginSpec};
use signia::hashing::hash_bytes_hex;
use signia::ir::{emit_schema_v1, IrEdge, IrGraph, IrNode};
use signia::json::JsonValue;
use signia::model::{hash_manifest_v1_hex, hash_schema_v1_hex};
use signia::verify::{verify_bundle, VerifyBundle, VerifyOptions};

fn s(x: &str) -> JsonValue {
    JsonValue::Str(x.to_string())
}

fn meta() -> JsonValue {
    JsonValue::Object(vec![
        ("name".to_string(), s("demo")),
        ("createdAt".to_string(), s("1970-01-01T00:00:00Z")),
        ("source".to_string(), JsonValue::Object(vec![("type".to_string(), s("path"))])),
        ("normalization".to_string(), JsonValue::Object(vec![("newline".to_string(), s("lf"))])),
    ])
}

fn request() -> CompileRequest {
    CompileRequest {
        kind: "repo".to_string(),
        meta: meta(),
        created_at: "1970-01-01T00:00:00Z".to_string(),
        labels: vec![],
        inputs: vec![],
        outputs: vec![],
        plugins: vec![],
        limits: LimitsSpec::default(),
        run_inference: false,
        build_proof: true,
    }
}

fn node(key: &str, t: &str, name: &str) -> IrNode {
    IrNode { key: key.to_string(), node_type: t.to_string(), name: name.to_string(), attrs: JsonValue::Null }
}

fn edge(key: &str, from: &str, to: &str) -> IrEdge {
    IrEdge { key: key.to_string(), edge_type: "contains".to_string(), from: from.to_string(), to: to.to_string(), attrs: JsonValue::Null }
}

#[test]
fn empty_repo_compiles_and_verifies() {
    let ir = IrGraph { nodes: vec![node("repo:demo", "repo", "demo")], edges: vec![] };
    let rep = compile_from_ir(&ir, &request()).unwrap();
    let b = rep.bundle;
    assert_eq!(b.schema.entities.len(), 1);
    assert_eq!(b.schema.entities[0].id, "n0");
    assert_eq!(b.schema.entities[0].entity_type, "repo");
    assert_eq!(b.schema.edges.len(), 0);
    let sh = hash_schema_v1_hex(&b.schema).unwrap();
    let mh = hash_manifest_v1_hex(&b.manifest).unwrap();
    assert_eq!(b.manifest.schemas[0].digest, sh);
    let p = b.proof.as_ref().unwrap();
    let keys: Vec<&str> = p.leaves.iter().map(|l| l.key.as_str()).collect();
    assert_eq!(keys, vec!["digest:manifestHash", "digest:schemaHash", "meta:createdAt", "meta:kind"]);
    assert_eq!(p.leaves[0].value, mh);
    assert_eq!(p.leaves[1].value, sh);
    assert_eq!(p.leaves[2].value, hash_bytes_hex(b"1970-01-01T00:00:00Z"));
    assert_eq!(p.leaves[3].value, hash_bytes_hex(b"repo"));
    let report = verify_bundle(VerifyBundle { schema: b.schema, manifest: b.manifest, proof: b.proof }, VerifyOptions::default()).unwrap();
    assert!(report.ok);
}

#[test]
fn compile_is_repeatable() {
    let ir = IrGraph { nodes: vec![node("repo:demo", "repo", "demo")], edges: vec![] };
    let a = compile_from_ir(&ir, &request()).unwrap().bundle;
    let b = compile_from_ir(&ir, &request()).unwrap().bundle;
    assert_eq!(hash_schema_v1_hex(&a.schema).unwrap(), hash_schema_v1_hex(&b.schema).unwrap());
    assert_eq!(hash_manifest_v1_hex(&a.manifest).unwrap(), hash_manifest_v1_hex(&b.manifest).unwrap());
    assert_eq!(a.proof.unwrap().root, b.proof.unwrap().root);
}

#[test]
fn insertion_order_does_not_change_schema() {
    let g1 = IrGraph {
        nodes: vec![node("repo:demo", "repo", "demo"), node("file:b.txt", "file", "b.txt"), node("file:a.txt", "file", "a.txt")],
        edges: vec![edge("c:b", "repo:demo", "file:b.txt"), edge("c:a", "repo:demo", "file:a.txt")],
    };
    let g2 = IrGraph {
        nodes: vec![node("file:a.txt", "file", "a.txt"), node("file:b.txt", "file", "b.txt"), node("repo:demo", "repo", "demo")],
        edges: vec![edge("c:a", "repo:demo", "file:a.txt"), edge("c:b", "repo:demo", "file:b.txt")],
    };
    let s1 = emit_schema_v1(&g1, "repo", &meta()).unwrap();
    let s2 = emit_schema_v1(&g2, "repo", &meta()).unwrap();
    assert_eq!(hash_schema_v1_hex(&s1).unwrap(), hash_schema_v1_hex(&s2).unwrap());
    let names: Vec<&str> = s1.entities.iter().map(|e| e.name.as_str()).collect();
    assert_eq!(names, vec!["a.txt", "b.txt", "demo"]);
    assert_eq!(s1.edges[0].id, "e0");
    assert_eq!(s1.edges[0].from, "n2");
    assert_eq!(s1.edges[0].to, "n0");
}

#[test]
fn graph_errors_and_limits() {
    let dup = IrGraph { nodes: vec![node("k", "t", "a"), node("k", "t", "b")], edges: vec![] };
    assert!(compile_from_ir(&dup, &request()).is_err());
    let dangling = IrGraph { nodes: vec![node("k", "t", "a")], edges: vec![edge("e", "k", "missing")] };
    assert!(dangling.validate_basic().is_err());
    let ir = IrGraph { nodes: vec![node("a", "t", "a"), node("b", "t", "b")], edges: vec![] };
    let mut req = request();
    req.limits.max_nodes = 1;
    assert!(compile_from_ir(&ir, &req).is_err());
    req.limits.max_nodes = 2;
    req.build_proof = false;
    let rep = compile_from_ir(&ir, &req).unwrap();
    assert!(rep.bundle.proof.is_none());
    assert_eq!(rep.stats.entities, 2);
}

#[test]
fn compile_from_ir_emits_bundle() {
    let ir = IrGraph {
        nodes: vec![node("repo:root", "repo", "demo"), node("file:readme", "file", "README.md")],
        edges: vec![edge("contains:root:readme", "repo:root", "file:readme")],
    };
    let mut req = request();
    req.inputs.push(InputSpec { input_type: "path".to_string(), locator: "artifact:/demo".to_string(), digest: None });
    req.outputs.push(OutputSpec { output_type: "schema".to_string(), locator: "artifact:/out/schema.json".to_string(), expected_digest: None });
    req.plugins.push(PluginSpec { name: "repo".to_string(), version: "v1".to_string(), config: None });
    req.run_inference = true;
    let rep = compile_from_ir(&ir, &req).unwrap();
    assert_eq!(rep.bundle.schema.version, "v1");
    assert_eq!(rep.bundle.manifest.version, "v1");
    assert!(rep.bundle.proof.is_some());
    assert!(rep.stats.entities >= 2);
    assert!(rep.stats.leaf_count >= 2);
}
