use loom::motion::{judge_motion_references, judge_reduced_motion_fallback, MotionReference};

#[test]
fn whitespace_fallback_fails_wcag_2_3_3() {
    assert!(judge_reduced_motion_fallback("instant"));
    assert!(!judge_reduced_motion_fallback(""));
    assert!(!judge_reduced_motion_fallback("   "));
}

#[test]
fn dangling_motion_reference_is_reported() {
    let report = judge_motion_references(
        &vec!["fade-in".into()],
        &vec![MotionReference {
            component: "Tooltip".into(),
            carries_motion: Some("zoom-out".into()),
        }],
    );
    assert!(!report.passes);
    assert_eq!(report.dangling[0].referenced_motion, "zoom-out");
}

#[test]
fn declared_none_is_legal() {
    let report = judge_motion_references(
        &vec![],
        &vec![MotionReference {
            component: "Checkbox".into(),
            carries_motion: None,
        }],
    );
    assert!(report.passes);
}

#[test]
fn unicode_whitespace_counts_as_empty() {
    assert!(!judge_reduced_motion_fallback("\t\n\u{00A0}\u{2003}\u{3000}"));
    assert!(judge_reduced_motion_fallback(" \u{3000}x "));
}

#[test]
fn named_entries_pass_and_dangling_keep_reference_order() {
    let refs = vec![
        MotionReference { component: "A".into(), carries_motion: Some("fade-in".into()) },
        MotionReference { component: "B".into(), carries_motion: Some("spin".into()) },
        MotionReference { component: "C".into(), carries_motion: None },
        MotionReference { component: "D".into(), carries_motion: Some("zoom".into()) },
    ];
    let report = judge_motion_references(&vec!["fade-in".into()], &refs);
    assert!(!report.passes);
    assert_eq!(report.dangling.len(), 2);
    assert_eq!(report.dangling[0].component, "B");
    assert_eq!(report.dangling[1].component, "D");
    let report = judge_motion_references(&vec!["fade-in".into(), "spin".into(), "zoom".into()], &refs);
    assert!(report.passes);
    assert!(report.dangling.is_empty());
}
