use signia::linkgraph::{build_link_graph, EdgeKind};
use signia::detect::{detect_input_kind, detect_kind, read_version, ArtifactKind, InputKind};
use signia::json::JsonValue;
use signia::plugins::{HostCapabilities, PluginRegistry, PluginResolver, PluginSpec};
use signia::repo::execute_repo;

fn s(x: &str) -> JsonValue {
    JsonValue::Str(x.to_string())
}

fn obj(entries: Vec<(&str, JsonValue)>) -> JsonValue {
    JsonValue::Object(entries.into_iter().map(|(k, v)| (k.to_string(), v)).collect())
}

fn arr(items: Vec<JsonValue>) -> JsonValue {
    JsonValue::Array(items)
}

#[test]
fn detect_schema() {
    let v = obj(vec![("version", s("v1")), ("kind", s("repo")), ("entities", arr(vec![])), ("edges", arr(vec![]))]);
    assert_eq!(detect_kind(&v), ArtifactKind::Schema);
    assert_eq!(read_version(&v).unwrap(), "v1");
}

#[test]
fn detect_manifest() {
    let v = obj(vec![
        ("version", s("v1")),
        ("schemas", arr(vec![])),
        ("inputs", arr(vec![])),
        ("outputs", arr(vec![])),
        ("limits", obj(vec![])),
    ]);
    assert_eq!(detect_kind(&v), ArtifactKind::Manifest);
}

#[test]
fn detect_proof() {
    let v = obj(vec![("version", s("v1")), ("hashAlg", s("sha256")), ("root", s("00")), ("leaves", arr(vec![]))]);
    assert_eq!(detect_kind(&v), ArtifactKind::Proof);
    assert_eq!(detect_kind(&obj(vec![("root", s("00"))])), ArtifactKind::Unknown);
}

#[test]
fn input_kinds() {
    let repo = obj(vec![("name", s("demo")), ("files", arr(vec![]))]);
    assert_eq!(detect_input_kind(&repo).unwrap(), InputKind::Repo);
    let dataset = obj(vec![("files", arr(vec![obj(vec![("path", s("x")), ("size", JsonValue::Int(1))])]))]);
    assert_eq!(detect_input_kind(&dataset).unwrap(), InputKind::Dataset);
    let rows = obj(vec![("rows", arr(vec![]))]);
    assert_eq!(detect_input_kind(&rows).unwrap(), InputKind::Dataset);
    let wf = obj(vec![
        ("nodes", arr(vec![obj(vec![("id", s("a")), ("type", s("http"))])])),
        ("edges", arr(vec![obj(vec![("from", s("a")), ("to", s("a")), ("kind", s("control"))])])),
    ]);
    assert_eq!(detect_input_kind(&wf).unwrap(), InputKind::Workflow);
    let api = obj(vec![("openapi", s("3.0.0")), ("paths", obj(vec![]))]);
    assert_eq!(detect_input_kind(&api).unwrap(), InputKind::OpenApi);
    let bad_wf = obj(vec![
        ("nodes", arr(vec![obj(vec![("id", s("a")), ("type", s("http"))])])),
        ("edges", arr(vec![obj(vec![("kind", s("x"))])])),
    ]);
    assert!(detect_input_kind(&bad_wf).is_err());
    assert!(detect_input_kind(&JsonValue::Null).is_err());
}

#[test]
fn repo_plugin_executes() {
    let v = obj(vec![
        ("name", s("test-repo")),
        ("files", arr(vec![obj(vec![("path", s("src/lib.rs"))]), obj(vec![("path", s("README.md"))])])),
    ]);
    let g = execute_repo(&v, &[], &[]).unwrap();
    assert_eq!(g.nodes.len(), 3);
    assert_eq!(g.edges.len(), 2);
    let only_src = execute_repo(&v, &["src/**".to_string()], &[]).unwrap();
    assert_eq!(only_src.nodes.len(), 2);
    let bad = obj(vec![("name", s("r")), ("files", arr(vec![obj(vec![("path", s("../x"))])]))]);
    assert!(execute_repo(&bad, &[], &[]).is_err());
}

#[test]
fn registry_order_and_dispatch() {
    let mut reg = PluginRegistry::new();
    reg.register(PluginSpec::new("builtin.workflow", "Workflow", "0.1.0").support("workflow")).unwrap();
    reg.register(PluginSpec::new("builtin.repo", "Repo", "0.1.0").support("repo").want("network", false)).unwrap();
    assert!(reg.register(PluginSpec::new("builtin.repo", "Again", "0.2.0")).is_err());
    assert_eq!(reg.list_ids(), vec!["builtin.repo", "builtin.workflow"]);
    let host = HostCapabilities { network: false, filesystem: false, clock: false, spawn: false };
    let resolver = PluginResolver::new(host);
    assert_eq!(resolver.dispatch(&reg, "workflow").unwrap(), 1);
    assert!(resolver.dispatch(&reg, "dataset").is_err());
    assert_eq!(resolver.resolve(&reg, "builtin.repo", Some("0.1.0")).unwrap(), 0);
    assert!(resolver.resolve(&reg, "builtin.repo", Some("9.9.9")).is_err());
    assert!(resolver.resolve(&reg, "missing", None).is_err());
    reg.register(PluginSpec::new("x.net", "Net", "1").support("dataset").want("network", true)).unwrap();
    assert!(resolver.dispatch(&reg, "dataset").is_err());
}

#[test]
fn graph_has_support_edges() {
    let specs = vec![
        PluginSpec::new("builtin.repo", "Repo", "0.1.0").support("repo").meta("category", "source"),
        PluginSpec::new("builtin.dataset", "Dataset", "0.1.0").support("dataset"),
    ];
    let g = build_link_graph(&specs);
    assert!(g.nodes.iter().any(|n| n.id == "plugin:builtin.repo"));
    assert!(g.nodes.iter().any(|n| n.id == "type:repo"));
    assert!(g.nodes.iter().any(|n| n.id == "tag:category:source"));
    assert!(g.nodes.iter().any(|n| n.id == "artifact:fingerprint"));
    assert!(g.edges.iter().any(|e| e.kind == EdgeKind::Supports));
    let ids: Vec<&str> = g.nodes.iter().map(|n| n.id.as_str()).collect();
    let mut sorted = ids.clone();
    sorted.sort();
    sorted.dedup();
    assert_eq!(ids, sorted);
}

#[test]
fn repo_refuses_shared_paths() {
    let v = obj(vec![
        ("name", s("r")),
        ("files", arr(vec![obj(vec![("path", s("a/b"))]), obj(vec![("path", s("./a/b"))])])),
    ]);
    assert!(execute_repo(&v, &[], &[]).is_err());
}
