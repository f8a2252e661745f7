use signia::hashing::hash_bytes_hex;
use signia::json::JsonValue;
use signia::workflow::{execute_workflow, validate_workflow};

fn s(x: &str) -> JsonValue {
    JsonValue::Str(x.to_string())
}

fn obj(entries: Vec<(&str, JsonValue)>) -> JsonValue {
    JsonValue::Object(entries.into_iter().map(|(k, v)| (k.to_string(), v)).collect())
}

fn wf(nodes: Vec<JsonValue>, edges: Vec<JsonValue>) -> JsonValue {
    obj(vec![("name", s("demo")), ("version", s("v1")), ("nodes", JsonValue::Array(nodes)), ("edges", JsonValue::Array(edges))])
}

fn n(id: &str, t: &str) -> JsonValue {
    obj(vec![("id", s(id)), ("type", s(t))])
}

fn e(from: &str, to: &str, kind: &str) -> JsonValue {
    obj(vec![("from", s(from)), ("to", s(to)), ("kind", s(kind))])
}

#[test]
fn valid_workflow_passes() {
    let v = wf(vec![n("a", "http"), n("b", "llm")], vec![e("a", "b", "data")]);
    validate_workflow(&v).unwrap();
}

#[test]
fn duplicate_node_fails() {
    let v = wf(vec![n("a", "x"), n("a", "y")], vec![]);
    let err = validate_workflow(&v).unwrap_err();
    assert!(err.message.starts_with("workflow.node.id.duplicate"));
}

#[test]
fn bad_edge_kind_fails() {
    let v = wf(vec![n("a", "x"), n("b", "y")], vec![e("a", "b", "x")]);
    let err = validate_workflow(&v).unwrap_err();
    assert!(err.message.starts_with("workflow.edge.kind.invalid"));
}

#[test]
fn unknown_endpoint_fails() {
    let v = wf(vec![n("a", "x")], vec![e("a", "z", "data")]);
    let err = execute_workflow(&v).unwrap_err();
    assert!(err.message.starts_with("workflow.edge.to.unknown"));
}

#[test]
fn workflow_plugin_executes_and_fingerprints() {
    let v = wf(
        vec![
            obj(vec![("id", s("b")), ("type", s("llm")), ("meta", obj(vec![("model", s("gpt"))]))]),
            obj(vec![("id", s("a")), ("type", s("http")), ("meta", obj(vec![("url", s("https://example.com")), ("retries", JsonValue::Int(2))]))]),
        ],
        vec![obj(vec![("from", s("a")), ("to", s("b")), ("kind", s("data")), ("label", s("response"))])],
    );
    let out = execute_workflow(&v).unwrap();
    let text = "workflow\ndemo\nv1\nnodes\na\thttp\nmeta\tretries=2\nmeta\turl=https://example.com\nb\tllm\nmeta\tmodel=gpt\nedges\na\tb\tdata\tresponse\n";
    assert_eq!(out.fingerprint, hash_bytes_hex(text.as_bytes()));
    assert!(out.ir.validate_basic().is_ok());
    assert_eq!(out.ir.nodes.len(), 2 + 2 * 2 + 3 + 2);
}

#[test]
fn duplicate_node_id_fails() {
    let v = obj(vec![("name", s("demo")), ("nodes", JsonValue::Array(vec![n("a", "x"), n("a", "y")])), ("edges", JsonValue::Array(vec![]))]);
    assert!(execute_workflow(&v).is_err());
}

#[test]
fn fingerprint_ignores_input_order() {
    let v1 = wf(vec![n("a", "x"), n("b", "y")], vec![e("a", "b", "data"), e("b", "a", "event")]);
    let v2 = wf(vec![n("b", "y"), n("a", "x")], vec![e("b", "a", "event"), e("a", "b", "data")]);
    assert_eq!(execute_workflow(&v1).unwrap().fingerprint, execute_workflow(&v2).unwrap().fingerprint);
}

#[test]
fn step_ids_with_colons_do_not_collide() {
    let v = wf(
        vec![
            obj(vec![("id", s("a:b")), ("type", s("t")), ("meta", obj(vec![("c", s("1"))]))]),
            obj(vec![("id", s("a")), ("type", s("t")), ("meta", obj(vec![("b:c", s("2"))]))]),
        ],
        vec![],
    );
    let out = execute_workflow(&v).unwrap();
    assert!(out.ir.validate_basic().is_ok());
}

#[test]
fn workflow_summary_counts() {
    let v = wf(vec![n("a", "x"), n("b", "y")], vec![e("a", "b", "data")]);
    assert_eq!(signia::workflow::workflow_summary(&v).unwrap(), (2, 1));
    let no_edges = obj(vec![("nodes", JsonValue::Array(vec![n("a", "x")]))]);
    assert_eq!(signia::workflow::workflow_summary(&no_edges).unwrap(), (1, 0));
    assert!(signia::workflow::workflow_summary(&JsonValue::Null).is_err());
}
