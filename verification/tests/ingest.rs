use loom::ingest::{
    check_seam, ingestion_outcome, join_roles, palette_loaded, partition_mappings, unmapped_role_rejection, IngestionEvent,
    IngestionError, RejectionReason, TokenMapping,
};

fn mapping(role: &str, target: &str, semantic: Option<&str>) -> TokenMapping {
    TokenMapping {
        role: role.into(),
        external_token: format!("ext/{role}"),
        target_primitive: target.into(),
        semantic_intermediate: semantic.map(String::from),
    }
}

#[test]
fn unmapped_roles_are_skipped() {
    let (applied, skipped) = partition_mappings(&vec![
        mapping("text-primary", "color:fg/base", None),
        mapping("text-muted", "", None),
        mapping("accent", "", Some("semantic/accent")),
    ]);
    assert_eq!(
        applied,
        vec![
            ("text-primary".to_string(), "ext/text-primary".to_string(), "color:fg/base".to_string()),
            ("accent".to_string(), "ext/accent".to_string(), String::new()),
        ]
    );
    assert_eq!(skipped, vec![("text-muted".to_string(), "unmapped-role".to_string())]);
}

#[test]
fn rejection_lists_unmapped_roles() {
    let skipped = vec![
        ("a".to_string(), "unmapped-role".to_string()),
        ("b".to_string(), "unmapped-role".to_string()),
    ];
    assert_eq!(join_roles(&skipped), "a,b");
    assert_eq!(
        unmapped_role_rejection("pal", "tokens", &skipped),
        IngestionEvent::PaletteRejected {
            bundle_id: "pal".into(),
            artifact_class: "tokens".into(),
            reason: RejectionReason::UnmappedRole("a,b".into()),
        }
    );
}

#[test]
fn loaded_palette_names_its_bundle() {
    assert_eq!(
        palette_loaded("pal", "tokens", "loom:g/tokens", 3),
        IngestionEvent::PaletteLoaded {
            bundle_id: "tokens-pal-v1".into(),
            artifact_class: "tokens".into(),
            named_graph: "loom:g/tokens".into(),
            triple_count: 3,
        }
    );
}

#[test]
fn unmapped_role_is_judged_before_the_criteria() {
    let ms = vec![mapping("a", "", None), mapping("b", "p", None)];
    let out = ingestion_outcome(
        "pal",
        "tokens",
        "loom:g/tokens",
        &ms,
        Err(RejectionReason::CriterionRegression("x".into())),
    );
    assert_eq!(
        out,
        IngestionEvent::PaletteRejected {
            bundle_id: "pal".into(),
            artifact_class: "tokens".into(),
            reason: RejectionReason::UnmappedRole("a".into()),
        }
    );
}

#[test]
fn criterion_regression_rejects_a_fully_mapped_palette() {
    let ms = vec![mapping("a", "p", None)];
    let reason = RejectionReason::CriterionRegression("basis".into());
    assert_eq!(
        ingestion_outcome("pal", "tokens", "loom:g/tokens", &ms, Err(reason.clone())),
        IngestionEvent::PaletteRejected {
            bundle_id: "pal".into(),
            artifact_class: "tokens".into(),
            reason,
        }
    );
}

#[test]
fn passing_palette_loads_one_triple_per_role() {
    let ms = vec![mapping("a", "p", None), mapping("b", "", Some("s"))];
    assert_eq!(
        ingestion_outcome("pal", "tokens", "loom:g/tokens", &ms, Ok(())),
        IngestionEvent::PaletteLoaded {
            bundle_id: "tokens-pal-v1".into(),
            artifact_class: "tokens".into(),
            named_graph: "loom:g/tokens".into(),
            triple_count: 2,
        }
    );
}

#[test]
fn seam_check_follows_the_schema() {
    let schema = r#"{"type": "array"}"#;
    assert_eq!(check_seam(Some(schema), "[]"), Ok(()));
    assert!(matches!(check_seam(Some(schema), "{}"), Err(IngestionError::SchemaViolation(_))));
    assert!(matches!(check_seam(Some(schema), "nope"), Err(IngestionError::ParseError(_))));
    assert!(matches!(check_seam(Some("not json"), "[]"), Err(IngestionError::SchemaInvalid(_))));
    assert!(matches!(check_seam(None, "[]"), Err(IngestionError::SchemaMissing(_))));
}
