use loom::bundle::{
    catalog_inventory_from_rows, decider_state_from_statuses, CatalogRecordRow, InventoryRecord,
    InventoryState,
};
use loom::decider::ShaclStatus;

fn rec(id: &str, class: &str, status: &str, count: Option<i64>) -> CatalogRecordRow {
    CatalogRecordRow {
        bundle_id: id.into(),
        artifact_class: class.into(),
        shacl_status: status.into(),
        triple_count: count,
    }
}

#[test]
fn catalog_statuses_give_the_decider_state() {
    let s = decider_state_from_statuses(&vec!["violated".into(), "conformant".into()], "b.jsonld");
    assert_eq!(s.shacl_status, ShaclStatus::Conformant);
    assert_eq!(s.bundle_id, "b.jsonld");
    let s = decider_state_from_statuses(&vec!["violated".into()], "b.jsonld");
    assert_eq!(s.shacl_status, ShaclStatus::Violated);
    assert_eq!(s.bundle_id, "b.jsonld");
    let s = decider_state_from_statuses(&vec![], "b.jsonld");
    assert_eq!(s.shacl_status, ShaclStatus::Absent);
    assert_eq!(s.bundle_id, "");
}

#[test]
fn empty_catalog_lists_every_known_class_empty() {
    let inv = catalog_inventory_from_rows(vec![]);
    let names: Vec<&str> = inv.classes.iter().map(|(c, _)| c.as_str()).collect();
    assert_eq!(names, vec!["machines", "mode-contracts", "motion", "reification", "tokens"]);
    assert!(inv.classes.iter().all(|(_, s)| *s == InventoryState::Empty));
    assert!(inv.records.is_empty());
}

#[test]
fn inventory_states_follow_the_records() {
    let inv = catalog_inventory_from_rows(vec![
        rec("t.jsonld", "tokens", "conformant", Some(12)),
        rec("m.jsonld", "motion", "violated", None),
        rec("m2.jsonld", "motion", "violated", Some(3)),
        rec("s.jsonld", "styles", "violated", Some(1)),
    ]);
    let state = |class: &str| inv.classes.iter().find(|(c, _)| c == class).map(|(_, s)| *s);
    assert_eq!(state("tokens"), Some(InventoryState::Present));
    assert_eq!(state("motion"), Some(InventoryState::Failed));
    assert_eq!(state("machines"), Some(InventoryState::Empty));
    assert_eq!(state("styles"), Some(InventoryState::Failed));
    assert_eq!(inv.classes.len(), 6);
    assert_eq!(inv.records.len(), 4);
    assert_eq!(inv.records[1].triple_count, 0);
    assert_eq!(inv.records[2].triple_count, 3);
}

#[test]
fn one_conformant_load_makes_a_class_present() {
    let inv = catalog_inventory_from_rows(vec![
        rec("a", "machines", "violated", Some(0)),
        rec("b", "machines", "conformant", Some(9)),
    ]);
    let machines = inv.classes.iter().find(|(c, _)| c == "machines").unwrap();
    assert_eq!(machines.1, InventoryState::Present);
}

#[test]
fn record_from_row_defaults_the_count() {
    let r = InventoryRecord::from_row(rec("x", "tokens", "conformant", None));
    assert_eq!(r.triple_count, 0);
    assert_eq!(r.bundle_id, "x");
}
