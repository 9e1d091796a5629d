//! Bundles: the load request and its outcomes, the provenance recorded for
//! every load attempt, the decider state read back from the catalog, and
//! the catalog inventory projection.
use vstd::prelude::*;

use crate::decider::{BundleDeciderState, DeciderStateView, ShaclStatus};
use crate::ontology::ARTIFACT_CLASSES;
use crate::shacl::ShaclError;
use crate::text::{contains_str, sorted_insert, str_eq, strictly_sorted, views};

verus! {

/// A request to load one bundle.
#[derive(Debug, Clone, PartialEq, Eq)]
pub struct BundleLoadRequest {
    pub bundle_path: String,
    pub artifact_class: String,
    pub source: String,
    pub version: String,
}

/// The outcome of a load attempt whose bundle was validated.
#[derive(Debug, Clone, PartialEq, Eq)]
pub enum BundleLoadOutcome {
    Loaded(BundleLoaded),
    Rejected(BundleRejected),
}

/// A bundle entered its named graph.
#[derive(Debug, Clone, PartialEq, Eq)]
pub struct BundleLoaded {
    pub bundle_id: String,
    pub artifact_class: String,
    pub named_graph: String,
    pub triple_count: usize,
    pub provenance: ProvenanceRecord,
}

/// A bundle was rejected by its shapes; nothing of it entered the store.
#[derive(Debug, Clone, PartialEq, Eq)]
pub struct BundleRejected {
    pub bundle_id: String,
    pub artifact_class: String,
    pub shacl_violations: Vec<String>,
}

/// The provenance of one load attempt.
#[derive(Debug, Clone, PartialEq, Eq)]
pub struct ProvenanceRecord {
    pub activity_id: String,
    pub entity_id: String,
    pub generated_at: String,
    pub validated: bool,
}

/// Why a bundle could not be loaded.
#[derive(Debug, Clone, PartialEq, Eq)]
pub enum BundleError {
    /// The bundle document could not be read.
    Io(String),
    /// The bundle document is not JSON-LD the parser accepts.
    JsonLd(String),
    /// The store refused the write.
    Store(String),
    /// The class's shapes could not be had or applied.
    Shapes(ShaclError),
    /// The decider refused the load on this invariant.
    Invariant(&'static str),
    /// The catalog query failed.
    Query(String),
}

// ---------------------------------------------------------------------------
// Decider state from the catalog

/// The decider state the catalog's status records for a bundle give: a
/// conformant record makes it resident, else a violated record marks it
/// violated, else it has no history.
pub open spec fn decider_state_spec(statuses: Seq<Seq<char>>, bundle_id: Seq<char>) -> DeciderStateView {
    if statuses.contains("conformant"@) {
        DeciderStateView { shacl_status: ShaclStatus::Conformant, bundle_id }
    } else if statuses.contains("violated"@) {
        DeciderStateView { shacl_status: ShaclStatus::Violated, bundle_id }
    } else {
        DeciderStateView { shacl_status: ShaclStatus::Absent, bundle_id: Seq::empty() }
    }
}

/// The decider state for a bundle from the statuses of its catalog records.
pub fn decider_state_from_statuses(statuses: &Vec<String>, bundle_id: &str) -> (r: BundleDeciderState)
    ensures
        r@ == decider_state_spec(views(statuses@), bundle_id@),
{
    if contains_str(statuses, "conformant") {
        BundleDeciderState { shacl_status: ShaclStatus::Conformant, bundle_id: String::from_str(bundle_id) }
    } else if contains_str(statuses, "violated") {
        BundleDeciderState { shacl_status: ShaclStatus::Violated, bundle_id: String::from_str(bundle_id) }
    } else {
        BundleDeciderState { shacl_status: ShaclStatus::Absent, bundle_id: String::new() }
    }
}

// ---------------------------------------------------------------------------
// Catalog inventory

/// One catalog record row, as fetched.
#[derive(Debug, Clone, PartialEq, Eq)]
pub struct CatalogRecordRow {
    pub bundle_id: String,
    pub artifact_class: String,
    pub shacl_status: String,
    pub triple_count: Option<i64>,
}

/// The inventory state of an artifact class.
#[derive(Debug, Clone, Copy, PartialEq, Eq, Structural)]
pub enum InventoryState {
    Loading,
    Present,
    Empty,
    Failed,
}

/// One record of the inventory.
#[derive(Debug, Clone, PartialEq, Eq)]
pub struct InventoryRecord {
    pub bundle_id: String,
    pub artifact_class: String,
    pub shacl_status: String,
    pub triple_count: i64,
}

impl InventoryRecord {
    /// The record of a row; a missing triple count counts as zero.
    pub fn from_row(row: CatalogRecordRow) -> (r: InventoryRecord)
        ensures
            r.bundle_id == row.bundle_id,
            r.artifact_class == row.artifact_class,
            r.shacl_status == row.shacl_status,
            r.triple_count == match row.triple_count {
                Some(n) => n,
                None => 0,
            },
    {
        InventoryRecord {
            bundle_id: row.bundle_id,
            artifact_class: row.artifact_class,
            shacl_status: row.shacl_status,
            triple_count: match row.triple_count {
                Some(n) => n,
                None => 0,
            },
        }
    }
}

/// The inventory projection: one state per artifact class, in class order,
/// and the records.
#[derive(Debug, Clone, PartialEq, Eq)]
pub struct CatalogInventory {
    pub classes: Vec<(String, InventoryState)>,
    pub records: Vec<InventoryRecord>,
}

/// The state of a class: present once a bundle of it loaded conformant,
/// failed when it has records but none conformant, empty with no record.
pub open spec fn class_state(rows: Seq<CatalogRecordRow>, class: Seq<char>) -> InventoryState {
    if exists|i: int|
        0 <= i < rows.len() && (#[trigger] rows[i]).artifact_class@ == class && rows[i].shacl_status@
            == "conformant"@ {
        InventoryState::Present
    } else if exists|i: int| 0 <= i < rows.len() && (#[trigger] rows[i]).artifact_class@ == class {
        InventoryState::Failed
    } else {
        InventoryState::Empty
    }
}

/// The classes the inventory lists: the known artifact classes and every
/// class a record names.
pub open spec fn inventory_classes(rows: Seq<CatalogRecordRow>) -> Set<Seq<char>> {
    Set::new(
        |c: Seq<char>|
            (exists|j: int| 0 <= j < 5 && c == (#[trigger] ARTIFACT_CLASSES@[j])@) || (exists|i: int|
                0 <= i < rows.len() && (#[trigger] rows[i]).artifact_class@ == c),
    )
}

/// The known artifact classes and the classes of the first `k` records.
pub open spec fn classes_upto(rows: Seq<CatalogRecordRow>, k: int) -> Set<Seq<char>> {
    Set::new(
        |c: Seq<char>|
            (exists|q: int| 0 <= q < 5 && c == (#[trigger] ARTIFACT_CLASSES@[q])@) || (exists|i: int|
                0 <= i < k && (#[trigger] rows[i]).artifact_class@ == c),
    )
}

proof fn lemma_classes_step(rows: Seq<CatalogRecordRow>, k: int)
    requires
        0 <= k < rows.len(),
    ensures
        classes_upto(rows, k + 1) == classes_upto(rows, k).insert(rows[k].artifact_class@),
{
    assert forall|c: Seq<char>|
        #[trigger] classes_upto(rows, k + 1).contains(c) == classes_upto(rows, k).insert(
            rows[k].artifact_class@,
        ).contains(c) by {
        if exists|i: int| 0 <= i < k + 1 && (#[trigger] rows[i]).artifact_class@ == c {
            let i = choose|i: int| 0 <= i < k + 1 && (#[trigger] rows[i]).artifact_class@ == c;
            if i < k {
                assert(classes_upto(rows, k).contains(c));
            }
        }
    }
    assert(classes_upto(rows, k + 1) =~= classes_upto(rows, k).insert(rows[k].artifact_class@));
}

fn state_of(rows: &Vec<CatalogRecordRow>, class: &str) -> (r: InventoryState)
    ensures
        r == class_state(rows@, class@),
{
    let mut any = false;
    let mut conformant = false;
    let mut k: usize = 0;
    while k < rows.len()
        invariant
            k <= rows@.len(),
            any == exists|i: int| 0 <= i < k && (#[trigger] rows@[i]).artifact_class@ == class@,
            conformant == exists|i: int|
                0 <= i < k && (#[trigger] rows@[i]).artifact_class@ == class@
                    && rows@[i].shacl_status@ == "conformant"@,
        decreases rows@.len() - k,
    {
        if str_eq(rows[k].artifact_class.as_str(), class) {
            any = true;
            if str_eq(rows[k].shacl_status.as_str(), "conformant") {
                conformant = true;
            }
        }
        k = k + 1;
    }
    if conformant {
        InventoryState::Present
    } else if any {
        InventoryState::Failed
    } else {
        InventoryState::Empty
    }
}

/// Project the catalog inventory from its record rows: every known
/// artifact class and every class a record names, in class order, each in
/// its state; and every row as a record, in row order.
pub fn catalog_inventory_from_rows(rows: Vec<CatalogRecordRow>) -> (r: CatalogInventory)
    ensures
        strictly_sorted(r.classes@.map_values(|p: (String, InventoryState)| p.0@)),
        r.classes@.map_values(|p: (String, InventoryState)| p.0@).to_set() == inventory_classes(rows@),
        forall|i: int|
            0 <= i < r.classes@.len() ==> (#[trigger] r.classes@[i]).1 == class_state(
                rows@,
                r.classes@[i].0@,
            ),
        r.records@.len() == rows@.len(),
        forall|i: int|
            0 <= i < rows@.len() ==> (#[trigger] r.records@[i]).bundle_id == rows@[i].bundle_id
                && r.records@[i].artifact_class == rows@[i].artifact_class
                && r.records@[i].shacl_status == rows@[i].shacl_status && r.records@[i].triple_count
                == match rows@[i].triple_count {
                Some(n) => n,
                None => 0,
            },
{
    let mut names: Vec<String> = Vec::new();
    let known = ARTIFACT_CLASSES;
    let mut j: usize = 0;
    while j < 5
        invariant
            j <= 5,
            known == ARTIFACT_CLASSES,
            strictly_sorted(views(names@)),
            views(names@).to_set() == Set::new(
                |c: Seq<char>| exists|q: int| 0 <= q < j && c == (#[trigger] ARTIFACT_CLASSES@[q])@,
            ),
        decreases 5 - j,
    {
        let ghost before = views(names@).to_set();
        sorted_insert(&mut names, String::from_str(known[j]));
        assert(views(names@).to_set() =~= Set::new(
            |c: Seq<char>| exists|q: int| 0 <= q < j + 1 && c == (#[trigger] ARTIFACT_CLASSES@[q])@,
        )) by {
            assert(before.insert(known[j as int]@) =~= Set::new(
                |c: Seq<char>| exists|q: int| 0 <= q < j + 1 && c == (#[trigger] ARTIFACT_CLASSES@[q])@,
            )) by {
                assert(known[j as int] == ARTIFACT_CLASSES@[j as int]);
            }
        }
        j = j + 1;
    }
    let mut k: usize = 0;
    assert(views(names@).to_set() =~= classes_upto(rows@, 0));
    while k < rows.len()
        invariant
            k <= rows@.len(),
            strictly_sorted(views(names@)),
            views(names@).to_set() == classes_upto(rows@, k as int),
        decreases rows@.len() - k,
    {
        sorted_insert(&mut names, rows[k].artifact_class.clone());
        proof {
            lemma_classes_step(rows@, k as int);
        }
        k = k + 1;
    }
    assert(inventory_classes(rows@) =~= views(names@).to_set());
    let mut classes: Vec<(String, InventoryState)> = Vec::new();
    let mut i: usize = 0;
    while i < names.len()
        invariant
            i <= names@.len(),
            classes@.map_values(|p: (String, InventoryState)| p.0@) == views(names@).take(i as int),
            forall|q: int|
                0 <= q < classes@.len() ==> (#[trigger] classes@[q]).1 == class_state(
                    rows@,
                    classes@[q].0@,
                ),
        decreases names@.len() - i,
    {
        let st = state_of(&rows, names[i].as_str());
        let ghost before = classes@.map_values(|p: (String, InventoryState)| p.0@);
        classes.push((names[i].clone(), st));
        assert(classes@.map_values(|p: (String, InventoryState)| p.0@) =~= before.push(names@[i as int]@));
        assert(views(names@).take(i + 1) =~= views(names@).take(i as int).push(names@[i as int]@));
        i = i + 1;
    }
    assert(views(names@).take(names@.len() as int) =~= views(names@));
    let mut records: Vec<InventoryRecord> = Vec::new();
    let mut k: usize = 0;
    while k < rows.len()
        invariant
            k <= rows@.len(),
            records@.len() == k,
            forall|q: int|
                0 <= q < k ==> (#[trigger] records@[q]).bundle_id == rows@[q].bundle_id
                    && records@[q].artifact_class == rows@[q].artifact_class
                    && records@[q].shacl_status == rows@[q].shacl_status && records@[q].triple_count
                    == match rows@[q].triple_count {
                    Some(n) => n,
                    None => 0,
                },
        decreases rows@.len() - k,
    {
        let row = &rows[k];
        records.push(
            InventoryRecord {
                bundle_id: row.bundle_id.clone(),
                artifact_class: row.artifact_class.clone(),
                shacl_status: row.shacl_status.clone(),
                triple_count: match row.triple_count {
                    Some(n) => n,
                    None => 0,
                },
            },
        );
        k = k + 1;
    }
    CatalogInventory { classes, records }
}

/// Some row of the same multiset as `rows1` satisfying `p` is found in
/// `rows2` too.
proof fn lemma_some_row_kept(
    rows1: Seq<CatalogRecordRow>,
    rows2: Seq<CatalogRecordRow>,
    p: spec_fn(CatalogRecordRow) -> bool,
)
    requires
        rows1.to_multiset() == rows2.to_multiset(),
        exists|i: int| 0 <= i < rows1.len() && p(#[trigger] rows1[i]),
    ensures
        exists|j: int| 0 <= j < rows2.len() && p(#[trigger] rows2[j]),
{
    broadcast use vstd::seq_lib::group_to_multiset_ensures;

    let i = choose|i: int| 0 <= i < rows1.len() && p(#[trigger] rows1[i]);
    assert(rows1.to_multiset().count(rows1[i]) > 0);
    assert(rows2.contains(rows1[i]));
    let j = choose|j: int| 0 <= j < rows2.len() && rows2[j] == rows1[i];
    assert(p(rows2[j]));
}

/// Inventory law: a class is present exactly when some record of it loaded
/// conformant, whatever else was recorded for it and in whatever order;
/// failed exactly when it has records and none of them is conformant; empty
/// exactly when no record names it. So the state of a class does not depend
/// on the order of the records.
pub proof fn lemma_class_state_law(
    rows1: Seq<CatalogRecordRow>,
    rows2: Seq<CatalogRecordRow>,
    class: Seq<char>,
)
    requires
        rows1.to_multiset() == rows2.to_multiset(),
    ensures
        (class_state(rows1, class) == InventoryState::Present) <==> exists|i: int|
            0 <= i < rows1.len() && (#[trigger] rows1[i]).artifact_class@ == class
                && rows1[i].shacl_status@ == "conformant"@,
        (class_state(rows1, class) == InventoryState::Failed) <==> (exists|i: int|
            0 <= i < rows1.len() && (#[trigger] rows1[i]).artifact_class@ == class) && forall|i: int|
            0 <= i < rows1.len() && (#[trigger] rows1[i]).artifact_class@ == class
                ==> rows1[i].shacl_status@ != "conformant"@,
        (class_state(rows1, class) == InventoryState::Empty) <==> forall|i: int|
            0 <= i < rows1.len() ==> (#[trigger] rows1[i]).artifact_class@ != class,
        class_state(rows1, class) == class_state(rows2, class),
{
    let conf = |r: CatalogRecordRow| r.artifact_class@ == class && r.shacl_status@ == "conformant"@;
    let named = |r: CatalogRecordRow| r.artifact_class@ == class;
    if exists|i: int| 0 <= i < rows1.len() && conf(#[trigger] rows1[i]) {
        lemma_some_row_kept(rows1, rows2, conf);
    }
    if exists|i: int| 0 <= i < rows2.len() && conf(#[trigger] rows2[i]) {
        lemma_some_row_kept(rows2, rows1, conf);
    }
    if exists|i: int| 0 <= i < rows1.len() && named(#[trigger] rows1[i]) {
        lemma_some_row_kept(rows1, rows2, named);
    }
    if exists|i: int| 0 <= i < rows2.len() && named(#[trigger] rows2[i]) {
        lemma_some_row_kept(rows2, rows1, named);
    }
}

} // verus!
