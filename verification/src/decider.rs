//! The bundle decider — the pure decision procedure for loading a bundle.
//! The load gate composes it with parsing and SHACL; the decider itself is
//! side-effect free.
use vstd::prelude::*;

use crate::graph::{from_artifact_class_spec, qname_spec, NamedGraph};
use crate::text::str_eq;

verus! {

/// A bundle names an artifact class no graph holds.
pub const INV_KNOWN_ARTIFACT_CLASS: &'static str = "inv-known-artifact-class";

/// A bundle load names no source path.
pub const INV_BUNDLE_SOURCE_PRESENT: &'static str = "inv-bundle-source-present";

/// The bundle is already resident.
pub const INV_BUNDLE_ALREADY_RESIDENT: &'static str = "inv-bundle-already-resident";

/// The command to load a bundle.
#[derive(Debug, Clone, PartialEq, Eq)]
pub struct LoadBundleCommand {
    pub bundle_path: String,
    pub artifact_class: String,
}

/// Events the decider evolves from and emits.
#[derive(Debug, Clone, PartialEq, Eq)]
pub enum BundleEvent {
    Loaded { bundle_id: String, artifact_class: String, named_graph: String },
    Rejected { bundle_id: String, artifact_class: String, shacl_violations: String },
}

/// The value of an event.
pub enum BundleEventView {
    Loaded { bundle_id: Seq<char>, artifact_class: Seq<char>, named_graph: Seq<char> },
    Rejected { bundle_id: Seq<char>, artifact_class: Seq<char>, shacl_violations: Seq<char> },
}

impl View for BundleEvent {
    type V = BundleEventView;

    open spec fn view(&self) -> BundleEventView {
        match self {
            BundleEvent::Loaded { bundle_id, artifact_class, named_graph } => BundleEventView::Loaded {
                bundle_id: bundle_id@,
                artifact_class: artifact_class@,
                named_graph: named_graph@,
            },
            BundleEvent::Rejected { bundle_id, artifact_class, shacl_violations } =>
                BundleEventView::Rejected {
                bundle_id: bundle_id@,
                artifact_class: artifact_class@,
                shacl_violations: shacl_violations@,
            },
        }
    }
}

/// The SHACL status of the bundle, as its history leaves it.
#[derive(Debug, Clone, Copy, PartialEq, Eq, Structural)]
pub enum ShaclStatus {
    /// No load of the bundle is on record.
    Absent,
    Conformant,
    Violated,
}

/// Decider state, evolved from the bundle's event history.
#[derive(Debug, Clone, PartialEq, Eq)]
pub struct BundleDeciderState {
    pub shacl_status: ShaclStatus,
    pub bundle_id: String,
}

/// The value of a decider state.
pub struct DeciderStateView {
    pub shacl_status: ShaclStatus,
    pub bundle_id: Seq<char>,
}

impl View for BundleDeciderState {
    type V = DeciderStateView;

    open spec fn view(&self) -> DeciderStateView {
        DeciderStateView { shacl_status: self.shacl_status, bundle_id: self.bundle_id@ }
    }
}

impl Default for BundleDeciderState {
    /// No history: no status and no bundle.
    fn default() -> (r: Self)
        ensures
            r@ == (DeciderStateView { shacl_status: ShaclStatus::Absent, bundle_id: Seq::empty() }),
    {
        BundleDeciderState { shacl_status: ShaclStatus::Absent, bundle_id: String::new() }
    }
}

/// The state an event leaves: a load marks the bundle conformant, a
/// rejection marks it violated.
pub open spec fn evolve_spec(s: DeciderStateView, e: BundleEventView) -> DeciderStateView {
    match e {
        BundleEventView::Loaded { bundle_id, .. } => DeciderStateView {
            shacl_status: ShaclStatus::Conformant,
            bundle_id,
        },
        BundleEventView::Rejected { bundle_id, .. } => DeciderStateView {
            shacl_status: ShaclStatus::Violated,
            bundle_id,
        },
    }
}

/// The state a history leaves, folding from the empty state.
pub open spec fn history_spec(events: Seq<BundleEvent>) -> DeciderStateView
    decreases events.len(),
{
    if events.len() == 0 {
        DeciderStateView { shacl_status: ShaclStatus::Absent, bundle_id: Seq::empty() }
    } else {
        evolve_spec(history_spec(events.drop_last()), events.last()@)
    }
}

impl BundleDeciderState {
    /// Apply one event.
    pub fn evolve(self, event: &BundleEvent) -> (r: Self)
        ensures
            r@ == evolve_spec(self@, event@),
    {
        let mut s = self;
        match event {
            BundleEvent::Loaded { bundle_id, .. } => {
                s.shacl_status = ShaclStatus::Conformant;
                s.bundle_id = bundle_id.clone();
            },
            BundleEvent::Rejected { bundle_id, .. } => {
                s.shacl_status = ShaclStatus::Violated;
                s.bundle_id = bundle_id.clone();
            },
        }
        s
    }

    /// The state a history leaves.
    pub fn from_history(events: &[BundleEvent]) -> (r: Self)
        ensures
            r@ == history_spec(events@),
    {
        let mut s = BundleDeciderState::default();
        let mut k: usize = 0;
        assert(events@.take(0) =~= Seq::<BundleEvent>::empty());
        while k < events.len()
            invariant
                k <= events@.len(),
                s@ == history_spec(events@.take(k as int)),
            decreases events@.len() - k,
        {
            s = s.evolve(&events[k]);
            assert(events@.take(k + 1).drop_last() =~= events@.take(k as int));
            k = k + 1;
        }
        assert(events@.take(events@.len() as int) =~= events@);
        s
    }
}

/// What the decider answers a command: the events it records, or the
/// invariant that refuses it.
#[derive(Debug, Clone, PartialEq, Eq)]
pub enum Decision {
    Emit(Vec<BundleEvent>),
    Reject(&'static str),
}

/// The value of a verdict.
pub enum DecisionView {
    Emit(Seq<BundleEventView>),
    Reject(Seq<char>),
}

impl View for Decision {
    type V = DecisionView;

    open spec fn view(&self) -> DecisionView {
        match self {
            Decision::Emit(events) => DecisionView::Emit(
                events@.map_values(|e: BundleEvent| e@),
            ),
            Decision::Reject(inv) => DecisionView::Reject(inv@),
        }
    }
}

/// The decision on a load command: the guards in order — a source path is
/// present, the artifact class is known, the bundle is not already
/// resident — then the bundle is loaded into its class's graph.
pub open spec fn decide_spec(s: DeciderStateView, path: Seq<char>, class: Seq<char>) -> DecisionView {
    if path.len() == 0 {
        DecisionView::Reject(INV_BUNDLE_SOURCE_PRESENT@)
    } else {
        match from_artifact_class_spec(class) {
            None => DecisionView::Reject(INV_KNOWN_ARTIFACT_CLASS@),
            Some(g) => if s.shacl_status == ShaclStatus::Conformant && s.bundle_id == path {
                DecisionView::Reject(INV_BUNDLE_ALREADY_RESIDENT@)
            } else {
                DecisionView::Emit(
                    seq![
                        BundleEventView::Loaded {
                            bundle_id: path,
                            artifact_class: class,
                            named_graph: qname_spec(g),
                        },
                    ],
                )
            },
        }
    }
}

/// Pure decide — the guards run in order.
pub fn decide(state: &BundleDeciderState, command: &LoadBundleCommand) -> (r: Decision)
    ensures
        r@ == decide_spec(state@, command.bundle_path@, command.artifact_class@),
{
    if command.bundle_path.as_str().unicode_len() == 0 {
        return Decision::Reject(INV_BUNDLE_SOURCE_PRESENT);
    }
    let graph = match NamedGraph::from_artifact_class(command.artifact_class.as_str()) {
        None => {
            return Decision::Reject(INV_KNOWN_ARTIFACT_CLASS);
        },
        Some(g) => g,
    };
    if state.shacl_status == ShaclStatus::Conformant && str_eq(
        state.bundle_id.as_str(),
        command.bundle_path.as_str(),
    ) {
        return Decision::Reject(INV_BUNDLE_ALREADY_RESIDENT);
    }
    let mut events: Vec<BundleEvent> = Vec::new();
    events.push(
        BundleEvent::Loaded {
            bundle_id: command.bundle_path.clone(),
            artifact_class: command.artifact_class.clone(),
            named_graph: graph.qname(),
        },
    );
    assert(events@.map_values(|e: BundleEvent| e@) =~= seq![
        BundleEventView::Loaded {
            bundle_id: command.bundle_path@,
            artifact_class: command.artifact_class@,
            named_graph: qname_spec(graph),
        },
    ]);
    let r = Decision::Emit(events);
    assert(r@ =~= decide_spec(state@, command.bundle_path@, command.artifact_class@));
    r
}

/// Once a bundle has loaded, loading it again is rejected as already
/// resident — whatever came before, and for any known class.
pub proof fn lemma_reload_is_rejected(
    history: Seq<BundleEvent>,
    loaded: BundleEvent,
    class: Seq<char>,
)
    requires
        loaded@ matches BundleEventView::Loaded { bundle_id, .. } && bundle_id.len() > 0,
        from_artifact_class_spec(class) is Some,
    ensures
        decide_spec(
            history_spec(history.push(loaded)),
            loaded@->Loaded_bundle_id,
            class,
        ) == DecisionView::Reject(INV_BUNDLE_ALREADY_RESIDENT@),
{
    assert(history.push(loaded).drop_last() =~= history);
}

/// A bundle whose last load was rejected may be loaded again once fixed:
/// the load is emitted into its class's graph.
pub proof fn lemma_rejected_bundle_may_reload(
    history: Seq<BundleEvent>,
    rejected: BundleEvent,
    class: Seq<char>,
)
    requires
        rejected@ matches BundleEventView::Rejected { bundle_id, .. } && bundle_id.len() > 0,
        from_artifact_class_spec(class) is Some,
    ensures
        decide_spec(history_spec(history.push(rejected)), rejected@->Rejected_bundle_id, class)
            is Emit,
{
    assert(history.push(rejected).drop_last() =~= history);
}

/// The state a history leaves depends only on its last event.
pub proof fn lemma_history_is_last_event(history: Seq<BundleEvent>, other: Seq<BundleEvent>, e: BundleEvent)
    ensures
        history_spec(history.push(e)) == history_spec(other.push(e)),
{
    assert(history.push(e).drop_last() =~= history);
    assert(other.push(e).drop_last() =~= other);
}

/// Every emitted event is a load of the commanded bundle into the graph of
/// its class; every rejection names one of the three invariants.
pub proof fn lemma_decision_shape(s: DeciderStateView, path: Seq<char>, class: Seq<char>)
    ensures
        match decide_spec(s, path, class) {
            DecisionView::Emit(events) => events.len() == 1 && from_artifact_class_spec(class)
                is Some && events[0] == (BundleEventView::Loaded {
                bundle_id: path,
                artifact_class: class,
                named_graph: qname_spec(from_artifact_class_spec(class)->0),
            }),
            DecisionView::Reject(inv) => inv == INV_BUNDLE_SOURCE_PRESENT@ || inv
                == INV_KNOWN_ARTIFACT_CLASS@ || inv == INV_BUNDLE_ALREADY_RESIDENT@,
        },
{
}

} // verus!
