use signia::compile::DeterministicClock;
use signia::ir::{IrGraph, IrNode};
use signia::json::JsonValue;
use signia::verify::recompute_proof_root_hex;
use signia::pipeline::{
    BuildProofV1Stage,
    EmitSchemaV1Stage, NormalizeIrStage, Pipeline, PipelineContext, PipelineData, SchemaSummaryStage, Stage,
    ValidateIrStage, ValidateJsonObjectStage,
};

fn ctx() -> PipelineContext {
    PipelineContext { clock: DeterministicClock::default(), kind: "repo".to_string(), meta: JsonValue::Null, diagnostics: vec![] }
}

#[test]
fn pipeline_runs_stages() {
    let mut p = Pipeline::new();
    p.push_stage(Stage::ValidateIr(ValidateIrStage::new("ir.validate")));
    p.push_stage(Stage::NormalizeIr(NormalizeIrStage::new("ir.normalize")));
    p.push_stage(Stage::EmitSchemaV1(EmitSchemaV1Stage::new("emit.schema_v1")));
    p.push_stage(Stage::SchemaSummary(SchemaSummaryStage::new("schema.summary")));
    let g = IrGraph {
        nodes: vec![IrNode { key: "k".to_string(), node_type: "repo".to_string(), name: "demo".to_string(), attrs: JsonValue::Null }],
        edges: vec![],
    };
    let mut c = ctx();
    let out = p.run(&mut c, PipelineData::Ir(g)).unwrap();
    match out {
        PipelineData::Json(JsonValue::Object(entries)) => {
            assert_eq!(entries.len(), 3);
            assert!(matches!(entries[1].1, JsonValue::Int(1)));
        }
        other => panic!("unexpected output {other:?}"),
    }
    let starts = c.diagnostics.iter().filter(|d| d.code == "pipeline.stage.start").count();
    let ends = c.diagnostics.iter().filter(|d| d.code == "pipeline.stage.end").count();
    assert_eq!((starts, ends), (4, 4));
}

#[test]
fn pipeline_propagates_error() {
    let mut p = Pipeline::new();
    p.push_stage(Stage::ValidateJsonObject(ValidateJsonObjectStage::new("json.object")));
    p.push_stage(Stage::ValidateIr(ValidateIrStage::new("ir.validate")));
    let mut c = ctx();
    assert!(p.run(&mut c, PipelineData::Json(JsonValue::Int(3))).is_err());
    let mut c = ctx();
    assert!(p.run(&mut c, PipelineData::Json(JsonValue::Object(vec![]))).is_err());
    assert_eq!(c.diagnostics.iter().filter(|d| d.code == "pipeline.stage.end").count(), 1);
}

#[test]
fn proof_stage_sorts_leaves() {
    let leaf = |k: &str, v: &str| JsonValue::Object(vec![("key".to_string(), JsonValue::Str(k.to_string())), ("value".to_string(), JsonValue::Str(v.to_string()))]);
    let input = JsonValue::Object(vec![
        ("hashAlg".to_string(), JsonValue::Str("sha256".to_string())),
        ("leaves".to_string(), JsonValue::Array(vec![leaf("b", "2"), leaf("a", "1")])),
    ]);
    let stage = BuildProofV1Stage::new("proof.build");
    let mut c = ctx();
    let p = stage.run(&mut c, &input).unwrap();
    assert_eq!(p.leaves[0].key, "a");
    assert_eq!(p.root, recompute_proof_root_hex(&p).unwrap());
    let dup = JsonValue::Object(vec![
        ("hashAlg".to_string(), JsonValue::Str("sha256".to_string())),
        ("leaves".to_string(), JsonValue::Array(vec![leaf("a", "2"), leaf("a", "1")])),
    ]);
    assert!(stage.run(&mut c, &dup).is_err());
}

#[test]
fn stages_emit_schema_and_summary() {
    let mk = |k: &str, t: &str, n: &str| IrNode { key: k.to_string(), node_type: t.to_string(), name: n.to_string(), attrs: JsonValue::Null };
    let g = IrGraph {
        nodes: vec![mk("repo:root", "repo", "demo"), mk("file:readme", "file", "README.md")],
        edges: vec![signia::ir::IrEdge {
            key: "contains:root:readme".to_string(),
            edge_type: "contains".to_string(),
            from: "repo:root".to_string(),
            to: "file:readme".to_string(),
            attrs: JsonValue::Null,
        }],
    };
    let mut p = Pipeline::new();
    p.push_stage(Stage::ValidateIr(ValidateIrStage::new("ir.validate")));
    p.push_stage(Stage::NormalizeIr(NormalizeIrStage::new("ir.normalize")));
    p.push_stage(Stage::EmitSchemaV1(EmitSchemaV1Stage::new("emit.schema_v1")));
    p.push_stage(Stage::SchemaSummary(SchemaSummaryStage::new("schema.summary")));
    let mut c = ctx();
    match p.run(&mut c, PipelineData::Ir(g)).unwrap() {
        PipelineData::Json(JsonValue::Object(entries)) => {
            assert!(matches!(entries[1], (ref k, JsonValue::Int(2)) if k == "entities"));
            assert!(matches!(entries[2], (ref k, JsonValue::Int(1)) if k == "edges"));
        }
        _ => panic!("expected json output"),
    }
}

#[test]
fn proof_stage_ignores_leaf_order() {
    let leaf = |k: &str, v: &str| JsonValue::Object(vec![("key".to_string(), JsonValue::Str(k.to_string())), ("value".to_string(), JsonValue::Str(v.to_string()))]);
    let mk = |ls: Vec<JsonValue>| JsonValue::Object(vec![
        ("hashAlg".to_string(), JsonValue::Str("sha256".to_string())),
        ("leaves".to_string(), JsonValue::Array(ls)),
    ]);
    let stage = BuildProofV1Stage::new("proof.build");
    let mut c = ctx();
    let p1 = stage.run(&mut c, &mk(vec![leaf("b", "2"), leaf("a", "1"), leaf("c", "3")])).unwrap();
    let p2 = stage.run(&mut c, &mk(vec![leaf("c", "3"), leaf("a", "1"), leaf("b", "2")])).unwrap();
    assert_eq!(p1.root, p2.root);
    let k1: Vec<&str> = p1.leaves.iter().map(|l| l.key.as_str()).collect();
    assert_eq!(k1, vec!["a", "b", "c"]);
    let md5 = JsonValue::Object(vec![("hashAlg".to_string(), JsonValue::Str("md5".to_string())), ("leaves".to_string(), JsonValue::Array(vec![]))]);
    assert!(stage.run(&mut c, &md5).is_err());
}
