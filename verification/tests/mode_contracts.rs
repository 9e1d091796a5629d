use loom::mode_contracts::{
    fold_contract_rows, fold_machine_rows, judge_contract_consistency, MachineRow, MachineSurface,
    ModeContract, ModeContractRow,
};
use loom::text::string_set;

fn set(items: &[&str]) -> Vec<String> {
    string_set(&items.iter().map(|s| s.to_string()).collect())
}

fn contract(events: &[&str], states: &[&str]) -> ModeContract {
    ModeContract {
        component: "single-select".into(),
        event_surface: set(events),
        descriptor_states: set(states),
        lifecycle: set(&["mount", "unmount"]),
    }
}

fn machine(events: &[&str], states: &[&str]) -> MachineSurface {
    MachineSurface {
        component: "single-select".into(),
        events: set(events),
        states: set(states),
    }
}

#[test]
fn derived_contract_is_consistent() {
    let report = judge_contract_consistency(
        &contract(&["open", "close"], &["closed", "open"]),
        &machine(&["open", "close"], &["closed", "open"]),
    );
    assert!(report.consistent());
}

#[test]
fn phantom_event_is_reported() {
    let report = judge_contract_consistency(
        &contract(&["open", "explode"], &["closed", "open"]),
        &machine(&["open"], &["closed", "open"]),
    );
    assert_eq!(report.phantom_events, vec!["explode".to_string()]);
    assert!(!report.consistent());
}

#[test]
fn unreported_state_is_reported() {
    let report = judge_contract_consistency(
        &contract(&["open"], &["closed"]),
        &machine(&["open"], &["closed", "open"]),
    );
    assert_eq!(report.unreported_states, vec!["open".to_string()]);
    assert!(!report.consistent());
}

#[test]
fn string_set_sorts_and_dedups() {
    assert_eq!(set(&["b", "a", "b", "c", "a"]), vec!["a".to_string(), "b".into(), "c".into()]);
    assert_eq!(set(&[]), Vec::<String>::new());
}

fn crow(c: &str, e: Option<&str>, s: Option<&str>, l: Option<&str>) -> ModeContractRow {
    ModeContractRow {
        component: c.into(),
        event: e.map(String::from),
        descriptor_state: s.map(String::from),
        lifecycle: l.map(String::from),
    }
}

#[test]
fn contract_rows_fold_per_component_in_order() {
    let rows = vec![
        crow("tooltip", Some("show"), None, None),
        crow("single-select", Some("open"), Some("closed"), Some("mount")),
        crow("single-select", Some("close"), Some("open"), Some("unmount")),
        crow("single-select", Some("open"), None, None),
        crow("tooltip", None, Some("hidden"), None),
    ];
    let folded = fold_contract_rows(&rows);
    assert_eq!(folded.len(), 2);
    assert_eq!(folded[0].component, "single-select");
    assert_eq!(folded[0].event_surface, vec!["close".to_string(), "open".into()]);
    assert_eq!(folded[0].descriptor_states, vec!["closed".to_string(), "open".into()]);
    assert_eq!(folded[0].lifecycle, vec!["mount".to_string(), "unmount".into()]);
    assert_eq!(folded[1].component, "tooltip");
    assert_eq!(folded[1].event_surface, vec!["show".to_string()]);
    assert_eq!(folded[1].descriptor_states, vec!["hidden".to_string()]);
    assert!(folded[1].lifecycle.is_empty());
}

#[test]
fn machine_rows_fold_and_judge_against_contract() {
    let machines = fold_machine_rows(&vec![
        MachineRow { component: "single-select".into(), event: Some("open".into()), state: Some("closed".into()) },
        MachineRow { component: "single-select".into(), event: Some("close".into()), state: Some("open".into()) },
    ]);
    assert_eq!(machines.len(), 1);
    assert_eq!(machines[0].events, vec!["close".to_string(), "open".into()]);
    assert_eq!(machines[0].states, vec!["closed".to_string(), "open".into()]);
    let report = judge_contract_consistency(&contract(&["open", "close"], &["closed", "open"]), &machines[0]);
    assert!(report.consistent());
    assert_eq!(report.component, "single-select");
}

#[test]
fn missing_event_and_stray_state_are_reported() {
    let report = judge_contract_consistency(
        &contract(&["open"], &["closed", "lost", "open"]),
        &machine(&["close", "open"], &["closed", "open"]),
    );
    assert!(report.phantom_events.is_empty());
    assert!(report.unreported_states.is_empty());
    assert_eq!(report.missing_events, vec!["close".to_string()]);
    assert_eq!(report.stray_states, vec!["lost".to_string()]);
    assert!(!report.consistent());
}
