use signia::builtin::BuiltinConfig;
use signia::plugins::{build_publish_plan, evaluate_spec, normalize_namespace, HostCapabilities, PluginSpec, SolanaClient, TxPlan};

#[test]
fn defaults_are_sane() {
    let c = BuiltinConfig::default();
    assert!(c.repo.max_files > 0);
    assert!(c.dataset.max_files > 0);
    assert!(c.workflow.max_nodes > 0);
    assert!(c.api.enabled);
}

#[test]
fn spec_validate_ok() {
    let s = PluginSpec::new("builtin.repo", "Repo", "0.1.0").support("repo");
    s.validate().unwrap();
    assert!(s.supports_type("repo"));
    assert!(!s.supports_type("dataset"));
    assert!(PluginSpec::new("x", " ", "1").validate().is_err());
}

#[test]
fn evaluate_spec_denies_missing() {
    let s = PluginSpec::new("x", "X", "0.1.0").want("network", true);
    let host = HostCapabilities {
        network: false,
        filesystem: false,
        clock: false,
        spawn: false,
    };
    let ev = evaluate_spec(&s, &host);
    assert!(!ev.allowed);
    assert_eq!(ev.missing, vec!["network".to_string()]);
}

#[test]
fn evaluate_spec_allows_granted() {
    let s = PluginSpec::new("x", "X", "0.1.0").want("clock", true).want("network", false);
    let host = HostCapabilities { network: false, filesystem: false, clock: true, spawn: false };
    assert!(evaluate_spec(&s, &host).allowed);
}

#[test]
fn namespace_normalization_is_stable() {
    assert_eq!(normalize_namespace("My Space"), "my-space");
    assert_eq!(normalize_namespace("my_space"), "my-space");
    assert_eq!(normalize_namespace("my..space"), "my-space");
    assert_eq!(normalize_namespace("  my-space  "), "my-space");
}

#[test]
fn publish_plan_and_client() {
    let plan = build_publish_plan("abc").unwrap();
    assert_eq!(plan.describe(), "no instructions");
    let two = TxPlan { instructions: vec!["a".to_string(), "b".to_string()] };
    assert_eq!(two.describe(), "2 instruction(s)");
    assert!(SolanaClient::new("  ").is_err());
    assert_eq!(SolanaClient::new("devnet").unwrap().cluster, "devnet");
}

#[test]
fn github_shorthand_forms() {
    assert!(signia::shorthand::is_github_shorthand("owner/repo"));
    assert!(!signia::shorthand::is_github_shorthand("owner/repo/x"));
    assert!(!signia::shorthand::is_github_shorthand("/repo"));
    let (repo, r, p) = signia::shorthand::parse_github_shorthand("o/r@dev:docs/signia.json").unwrap();
    assert_eq!(repo, "o/r");
    assert_eq!(r.as_deref(), Some("dev"));
    assert_eq!(p.as_deref(), Some("docs/signia.json"));
    assert!(signia::shorthand::parse_github_shorthand("nope").is_err());
}
