use loom::reification_table::{
    judge_leaf_completeness, judge_row_ambiguity, NodeRef, ReificationError, ReificationRow,
    RowRaw, UnreifiableReason,
};

fn make_node(id: &str, label: Option<&str>) -> NodeRef {
    NodeRef {
        node: format!("http://example.com/ns#{}", id),
        label: label.map(String::from),
    }
}

#[test]
fn oracle_reifies_matching_rows() {
    let intent_aios = vec![
        (
            "modal".into(),
            make_node("desktop", Some("Desktop")),
            make_node("screen", Some("Screen")),
            make_node("keyboard", Some("Keyboard")),
        ),
        (
            "tooltip".into(),
            make_node("mobile", Some("Mobile")),
            make_node("touch", Some("Touch")),
            make_node("touch", Some("Touch")),
        ),
    ];

    let known_kinds = vec!["modal".into(), "tooltip".into(), "panel".into()];
    let capabilities = vec![];

    let rows = vec![
        ReificationRow {
            aio_kind: "modal".into(),
            platform: make_node("desktop", Some("Desktop")),
            form_factor: make_node("screen", Some("Screen")),
            interaction_class: make_node("keyboard", Some("Keyboard")),
            cio: "ModalDialog".into(),
        },
        ReificationRow {
            aio_kind: "tooltip".into(),
            platform: make_node("mobile", Some("Mobile")),
            form_factor: make_node("touch", Some("Touch")),
            interaction_class: make_node("touch", Some("Touch")),
            cio: "ToastNotification".into(),
        },
    ];

    let report = judge_leaf_completeness(&intent_aios, &rows, &known_kinds, &capabilities);

    assert_eq!(report.reified.len(), 2);
    assert_eq!(report.reified[0].cio, "ModalDialog");
    assert_eq!(report.reified[1].cio, "ToastNotification");
    assert!(report.unreifiable.is_empty());
}

#[test]
fn oracle_rejects_unknown_aio_kind() {
    let intent_aios = vec![(
        "ghost".into(),
        make_node("desktop", Some("Desktop")),
        make_node("screen", Some("Screen")),
        make_node("keyboard", Some("Keyboard")),
    )];

    let known_kinds = vec!["modal".into()];
    let report = judge_leaf_completeness(&intent_aios, &[], &known_kinds, &[]);

    assert_eq!(report.reified.len(), 0);
    assert_eq!(report.unreifiable.len(), 1);
    assert_eq!(report.unreifiable[0].reason, UnreifiableReason::UnknownAioKind);
}

#[test]
fn oracle_no_binding_for_context() {
    let intent_aios = vec![(
        "modal".into(),
        make_node("tablet", Some("Tablet")),
        make_node("screen", Some("Screen")),
        make_node("keyboard", Some("Keyboard")),
    )];

    let known_kinds = vec!["modal".into()];
    let capabilities = vec![];
    let rows = vec![ReificationRow {
        aio_kind: "modal".into(),
        platform: make_node("desktop", Some("Desktop")),
        form_factor: make_node("screen", Some("Screen")),
        interaction_class: make_node("keyboard", Some("Keyboard")),
        cio: "ModalDialog".into(),
    }];

    let report = judge_leaf_completeness(&intent_aios, &rows, &known_kinds, &capabilities);

    assert_eq!(report.reified.len(), 0);
    assert_eq!(report.unreifiable.len(), 1);
    assert_eq!(report.unreifiable[0].reason, UnreifiableReason::NoBindingForContext);
}

#[test]
fn oracle_capability_absent() {
    let intent_aios = vec![(
        "haptic_feedback".into(),
        make_node("mobile", Some("Mobile")),
        make_node("touch", Some("Touch")),
        make_node("touch", Some("Touch")),
    )];

    let known_kinds = vec!["haptic_feedback".into()];
    // Desktop has haptic, mobile does not
    let capabilities = vec![(
        make_node("desktop", Some("Desktop")),
        vec!["haptic_feedback".to_string()],
    )];

    let report = judge_leaf_completeness(&intent_aios, &[], &known_kinds, &capabilities);

    assert_eq!(report.reified.len(), 0);
    assert_eq!(report.unreifiable.len(), 1);
    assert_eq!(report.unreifiable[0].reason, UnreifiableReason::CapabilityAbsent);
}

#[test]
fn vector_positive_fixture() {
    let intent_aios = vec![
        (
            "button".into(),
            make_node("web", Some("Web")),
            make_node("screen", Some("Screen")),
            make_node("pointer", Some("Pointer")),
        ),
        (
            "switch".into(),
            make_node("web", Some("Web")),
            make_node("screen", Some("Screen")),
            make_node("pointer", Some("Pointer")),
        ),
    ];

    let known_kinds = vec!["button".into(), "switch".into()];
    let rows = vec![
        ReificationRow {
            aio_kind: "button".into(),
            platform: make_node("web", Some("Web")),
            form_factor: make_node("screen", Some("Screen")),
            interaction_class: make_node("pointer", Some("Pointer")),
            cio: "HtmlButton".into(),
        },
        ReificationRow {
            aio_kind: "switch".into(),
            platform: make_node("web", Some("Web")),
            form_factor: make_node("screen", Some("Screen")),
            interaction_class: make_node("pointer", Some("Pointer")),
            cio: "HtmlCheckbox".into(),
        },
    ];

    let report = judge_leaf_completeness(&intent_aios, &rows, &known_kinds, &[]);

    assert_eq!(report.reified.len(), 2);
    assert!(report.unreifiable.is_empty());
}

#[test]
fn vector_negative_fixture() {
    let intent_aios = vec![
        (
            "modal".into(),
            make_node("web", Some("Web")),
            make_node("screen", Some("Screen")),
            make_node("pointer", Some("Pointer")),
        ),
        (
            "nonexistent".into(),
            make_node("web", Some("Web")),
            make_node("screen", Some("Screen")),
            make_node("pointer", Some("Pointer")),
        ),
        (
            "haptic".into(),
            make_node("web", Some("Web")),
            make_node("screen", Some("Screen")),
            make_node("pointer", Some("Pointer")),
        ),
    ];

    let known_kinds = vec!["modal".into(), "haptic".into()];
    let capabilities = vec![(make_node("mobile", Some("Mobile")), vec!["haptic".to_string()])];
    let rows = vec![ReificationRow {
        aio_kind: "modal".into(),
        platform: make_node("web", Some("Web")),
        form_factor: make_node("screen", Some("Screen")),
        interaction_class: make_node("pointer", Some("Pointer")),
        cio: "HtmlDialog".into(),
    }];

    let report = judge_leaf_completeness(&intent_aios, &rows, &known_kinds, &capabilities);

    assert_eq!(report.reified.len(), 1);
    assert_eq!(report.reified[0].cio, "HtmlDialog");

    assert_eq!(report.unreifiable.len(), 2);
    assert_eq!(report.unreifiable[0].reason, UnreifiableReason::UnknownAioKind);
    assert_eq!(report.unreifiable[1].reason, UnreifiableReason::CapabilityAbsent);
}

#[test]
fn vector_empty_context() {
    let report = judge_leaf_completeness(&[], &[], &[], &[]);
    assert!(report.reified.is_empty());
    assert!(report.unreifiable.is_empty());
}

fn row(kind: &str, platform: &str, cio: &str) -> ReificationRow {
    ReificationRow {
        aio_kind: kind.into(),
        platform: make_node(platform, None),
        form_factor: make_node("screen", None),
        interaction_class: make_node("pointer", None),
        cio: cio.into(),
    }
}

#[test]
fn first_matching_row_wins_and_labels_are_ignored() {
    let intent_aios = vec![(
        "button".to_string(),
        make_node("web", None),
        make_node("screen", Some("Big screen")),
        make_node("pointer", None),
    )];
    let rows = vec![row("button", "web", "First"), row("button", "web", "Second")];
    let report = judge_leaf_completeness(&intent_aios, &rows, &["button".to_string()], &[]);
    assert_eq!(report.reified.len(), 1);
    assert_eq!(report.reified[0].cio, "First");
    // The assignment carries the catalog row's context objects.
    assert_eq!(report.reified[0].form_factor.label, None);
}

#[test]
fn capability_on_the_platform_lets_the_row_decide() {
    let intent_aios = vec![(
        "haptic".to_string(),
        make_node("mobile", None),
        make_node("screen", None),
        make_node("pointer", None),
    )];
    let caps = vec![(make_node("mobile", Some("Phone")), vec!["haptic".to_string()])];
    let report = judge_leaf_completeness(&intent_aios, &[], &["haptic".to_string()], &caps);
    assert_eq!(report.unreifiable.len(), 1);
    assert_eq!(report.unreifiable[0].reason, UnreifiableReason::NoBindingForContext);
}

#[test]
fn reason_wire_names() {
    assert_eq!(UnreifiableReason::NoBindingForContext.to_wire(), "no-binding-for-context");
    assert_eq!(UnreifiableReason::UnknownAioKind.to_wire(), "unknown-aio-kind");
    assert_eq!(UnreifiableReason::CapabilityAbsent.to_wire(), "capability-absent");
    assert_eq!(UnreifiableReason::UnknownAioKind.to_string(), "unknown-aio-kind");
}

#[test]
fn ambiguity_groups_every_cio_per_key() {
    let rows = vec![
        row("button", "web", "HtmlButton"),
        row("button", "web", "HtmlLink"),
        row("button", "web", "HtmlButton"),
        row("switch", "web", "HtmlCheckbox"),
    ];
    let keys = judge_row_ambiguity(&rows);
    assert_eq!(keys.len(), 1);
    assert_eq!(keys[0].aio_kind, "button");
    assert_eq!(keys[0].platform, "http://example.com/ns#web");
    assert_eq!(
        keys[0].cios,
        vec!["HtmlButton".to_string(), "HtmlLink".to_string(), "HtmlButton".to_string()]
    );
}

#[test]
fn unambiguous_rows_give_no_keys() {
    let rows = vec![row("button", "web", "HtmlButton"), row("button", "tui", "TuiButton")];
    assert!(judge_row_ambiguity(&rows).is_empty());
}

fn raw(platform: &str, form: &str, interaction: &str) -> RowRaw {
    RowRaw {
        aio_kind: "button".into(),
        platform_node: platform.into(),
        platform_label: Some("Web".into()),
        form_factor_node: form.into(),
        form_factor_label: None,
        interaction_class_node: interaction.into(),
        interaction_class_label: None,
        cio: "HtmlButton".into(),
    }
}

#[test]
fn raw_row_becomes_a_typed_row() {
    let row = ReificationRow::try_from_raw(raw("p", "f", "i")).unwrap();
    assert_eq!(row.platform.node, "p");
    assert_eq!(row.platform.label, Some("Web".to_string()));
    assert_eq!(row.interaction_class.node, "i");
    assert_eq!(row.cio, "HtmlButton");
}

#[test]
fn raw_row_missing_a_context_node_is_refused() {
    assert_eq!(
        ReificationRow::try_from_raw(raw("", "f", "i")),
        Err(ReificationError::MissingField("platform".into()))
    );
    assert_eq!(
        ReificationRow::try_from_raw(raw("p", "", "")),
        Err(ReificationError::MissingField("form_factor".into()))
    );
    assert_eq!(
        ReificationRow::try_from_raw(raw("p", "f", "")),
        Err(ReificationError::MissingField("interaction_class".into()))
    );
}

#[test]
fn capability_names_are_matched_in_lower_case() {
    let intent_aios = vec![(
        "Haptic".to_string(),
        make_node("mobile", None),
        make_node("screen", None),
        make_node("pointer", None),
    )];
    let caps = vec![(make_node("desktop", None), vec!["haptic".to_string()])];
    let report = judge_leaf_completeness(&intent_aios, &[], &["Haptic".to_string()], &caps);
    assert_eq!(report.unreifiable.len(), 1);
    assert_eq!(report.unreifiable[0].reason, UnreifiableReason::CapabilityAbsent);
}

#[test]
fn rows_and_nodes_read_as_text() {
    assert_eq!(make_node("web", Some("Web")).to_string(), "Web (http://example.com/ns#web)");
    assert_eq!(make_node("web", None).to_string(), "http://example.com/ns#web");
    let r = ReificationRow {
        aio_kind: "button".into(),
        platform: make_node("web", Some("Web")),
        form_factor: make_node("screen", None),
        interaction_class: make_node("pointer", None),
        cio: "HtmlButton".into(),
    };
    assert_eq!(
        r.to_string(),
        "ReificationRow(button @ Web (http://example.com/ns#web)/http://example.com/ns#screen (context http://example.com/ns#pointer)) → HtmlButton"
    );
}
