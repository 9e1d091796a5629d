use loom::tokens::{judge_token_resolution, TokenIncoherence, TokenRow};

fn row(token: &str, tier: &str, binds: Option<&str>, component: Option<&str>) -> TokenRow {
    TokenRow {
        token: token.into(),
        tier: tier.into(),
        binds: binds.map(String::from),
        component: component.map(String::from),
    }
}

#[test]
fn resolved_chain_is_coherent() {
    let rows = vec![
        row("t/button.bg", "component", Some("t/surface"), Some("Ref.Button")),
        row("t/surface", "semantic", Some("t/blue"), None),
        row("t/blue", "primitive", None, None),
    ];
    assert!(judge_token_resolution(&rows).is_empty());
}

#[test]
fn dangling_reference_is_incoherent() {
    let rows = vec![row("t/button.bg", "component", Some("t/ghost"), Some("Ref.Button"))];
    let verdict = judge_token_resolution(&rows);
    assert!(verdict
        .iter()
        .any(|i| matches!(i, TokenIncoherence::Dangling { missing, .. } if missing == "t/ghost")));
}

#[test]
fn cycle_is_incoherent() {
    let rows = vec![
        row("t/a", "semantic", Some("t/b"), None),
        row("t/b", "semantic", Some("t/a"), None),
    ];
    let verdict = judge_token_resolution(&rows);
    assert!(verdict.iter().any(|i| matches!(i, TokenIncoherence::Cycle { .. })));
}

#[test]
fn component_binding_primitive_directly_skips_semantic_tier() {
    let rows = vec![
        row("t/button.bg", "component", Some("t/blue"), Some("Ref.Button")),
        row("t/blue", "primitive", None, None),
    ];
    let verdict = judge_token_resolution(&rows);
    assert!(verdict
        .iter()
        .any(|i| matches!(i, TokenIncoherence::NoSemanticPath { .. })));
}

#[test]
fn empty_graph_is_coherent() {
    assert!(judge_token_resolution(&vec![]).is_empty());
}

#[test]
fn dangling_report_names_the_referring_token() {
    let rows = vec![
        row("t/surface", "semantic", Some("t/missing"), None),
        row("t/blue", "primitive", None, None),
    ];
    let verdict = judge_token_resolution(&rows);
    assert_eq!(
        verdict,
        vec![TokenIncoherence::Dangling {
            token: "t/surface".to_string(),
            missing: "t/missing".to_string(),
        }]
    );
}

#[test]
fn semantic_token_bound_to_a_primitive_is_coherent() {
    let rows = vec![
        row("t/surface", "semantic", Some("t/blue"), None),
        row("t/blue", "primitive", None, None),
    ];
    assert!(judge_token_resolution(&rows).is_empty());
}

#[test]
fn semantic_cycle_is_reported_once_from_its_smallest_member() {
    let rows = vec![
        row("t/b", "semantic", Some("t/a"), None),
        row("t/a", "semantic", Some("t/b"), None),
    ];
    let verdict = judge_token_resolution(&rows);
    assert_eq!(
        verdict,
        vec![TokenIncoherence::Cycle {
            tokens: vec!["t/a".to_string(), "t/b".to_string(), "t/a".to_string()],
        }]
    );
}
