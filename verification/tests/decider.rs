use loom::decider::{
    decide, BundleDeciderState, BundleEvent, Decision, LoadBundleCommand, ShaclStatus,
    INV_BUNDLE_ALREADY_RESIDENT, INV_BUNDLE_SOURCE_PRESENT, INV_KNOWN_ARTIFACT_CLASS,
};

fn cmd(path: &str, class: &str) -> LoadBundleCommand {
    LoadBundleCommand {
        bundle_path: path.into(),
        artifact_class: class.into(),
    }
}

#[test]
fn conformant_token_bundle_loads_into_its_named_graph() {
    let decision = decide(&BundleDeciderState::default(), &cmd("bundles/tokens.jsonld", "tokens"));
    assert_eq!(
        decision,
        Decision::Emit(vec![BundleEvent::Loaded {
            bundle_id: "bundles/tokens.jsonld".into(),
            artifact_class: "tokens".into(),
            named_graph: "loom:g/tokens".into(),
        }])
    );
}

#[test]
fn unknown_artifact_class_is_rejected_fail_closed() {
    let decision = decide(&BundleDeciderState::default(), &cmd("bundles/styles.jsonld", "styles"));
    assert_eq!(decision, Decision::Reject(INV_KNOWN_ARTIFACT_CLASS));
}

#[test]
fn bundle_without_source_path_is_rejected() {
    let decision = decide(&BundleDeciderState::default(), &cmd("", "tokens"));
    assert_eq!(decision, Decision::Reject(INV_BUNDLE_SOURCE_PRESENT));
}

#[test]
fn previously_rejected_bundle_may_be_reloaded_once_fixed() {
    let state = BundleDeciderState::from_history(&[BundleEvent::Rejected {
        bundle_id: "bundles/machines.jsonld".into(),
        artifact_class: "machines".into(),
        shacl_violations: "sh:MinCountConstraintComponent on loom:onEvent".into(),
    }]);
    let decision = decide(&state, &cmd("bundles/machines.jsonld", "machines"));
    assert_eq!(
        decision,
        Decision::Emit(vec![BundleEvent::Loaded {
            bundle_id: "bundles/machines.jsonld".into(),
            artifact_class: "machines".into(),
            named_graph: "loom:g/machines".into(),
        }])
    );
}

#[test]
fn reloading_the_already_resident_bundle_is_a_rejected_no_op() {
    let state = BundleDeciderState::from_history(&[BundleEvent::Loaded {
        bundle_id: "bundles/tokens.jsonld".into(),
        artifact_class: "tokens".into(),
        named_graph: "loom:g/tokens".into(),
    }]);
    let decision = decide(&state, &cmd("bundles/tokens.jsonld", "tokens"));
    assert_eq!(decision, Decision::Reject(INV_BUNDLE_ALREADY_RESIDENT));
}

#[test]
fn source_guard_runs_before_the_class_guard() {
    let decision = decide(&BundleDeciderState::default(), &cmd("", "styles"));
    assert_eq!(decision, Decision::Reject(INV_BUNDLE_SOURCE_PRESENT));
}

#[test]
fn empty_history_is_the_default_state() {
    let state = BundleDeciderState::from_history(&[]);
    assert_eq!(state, BundleDeciderState::default());
    assert_eq!(state.shacl_status, ShaclStatus::Absent);
    assert_eq!(state.bundle_id, "");
}

#[test]
fn history_is_decided_by_its_last_event() {
    let loaded = BundleEvent::Loaded {
        bundle_id: "b.jsonld".into(),
        artifact_class: "motion".into(),
        named_graph: "loom:g/motion".into(),
    };
    let rejected = BundleEvent::Rejected {
        bundle_id: "b.jsonld".into(),
        artifact_class: "motion".into(),
        shacl_violations: "x".into(),
    };
    let state = BundleDeciderState::from_history(&[loaded.clone(), rejected.clone()]);
    assert_eq!(state.shacl_status, ShaclStatus::Violated);
    let state = BundleDeciderState::from_history(&[rejected, loaded]);
    assert_eq!(state.shacl_status, ShaclStatus::Conformant);
    assert_eq!(decide(&state, &cmd("b.jsonld", "motion")), Decision::Reject(INV_BUNDLE_ALREADY_RESIDENT));
    assert!(matches!(decide(&state, &cmd("c.jsonld", "motion")), Decision::Emit(_)));
}

#[test]
fn evolve_records_the_event_bundle() {
    let s = BundleDeciderState::default().evolve(&BundleEvent::Loaded {
        bundle_id: "x".into(),
        artifact_class: "tokens".into(),
        named_graph: "loom:g/tokens".into(),
    });
    assert_eq!(s.shacl_status, ShaclStatus::Conformant);
    assert_eq!(s.bundle_id, "x");
}
