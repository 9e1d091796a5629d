//! The machine runtime: a component machine is data; this module interprets
//! its transition structure. Dispatch resolves against the interpreted
//! structure; there is no other way to effect a transition.
use vstd::prelude::*;

use crate::text::str_eq;

verus! {

/// One transition: from a state, on an event, to a state, optionally
/// carrying a named motion.
#[derive(Debug, Clone, PartialEq, Eq)]
pub struct TransitionDef {
    pub from_state: String,
    pub on_event: String,
    pub to_state: String,
    pub carries_motion: Option<String>,
}

/// An interpretable transition structure, read from the graph at mount.
#[derive(Debug, Clone, PartialEq, Eq)]
pub struct MachineDefinition {
    pub component: String,
    pub initial_state: String,
    /// (from-state, event) → transition.
    pub transitions: Vec<TransitionDef>,
}

/// A copy of a transition.
pub fn copy_transition(t: &TransitionDef) -> (r: TransitionDef)
    ensures
        r == *t,
{
    TransitionDef {
        from_state: t.from_state.clone(),
        on_event: t.on_event.clone(),
        to_state: t.to_state.clone(),
        carries_motion: match &t.carries_motion {
            Some(m) => Some(m.clone()),
            None => None,
        },
    }
}

/// A copy of a definition.
pub fn copy_definition(d: &MachineDefinition) -> (r: MachineDefinition)
    ensures
        r.component == d.component,
        r.initial_state == d.initial_state,
        r.transitions@ == d.transitions@,
{
    let mut ts: Vec<TransitionDef> = Vec::new();
    let mut k: usize = 0;
    while k < d.transitions.len()
        invariant
            k <= d.transitions@.len(),
            ts@ == d.transitions@.take(k as int),
        decreases d.transitions@.len() - k,
    {
        ts.push(copy_transition(&d.transitions[k]));
        k = k + 1;
        assert(ts@ =~= d.transitions@.take(k as int));
    }
    assert(d.transitions@.take(d.transitions@.len() as int) =~= d.transitions@);
    MachineDefinition {
        component: d.component.clone(),
        initial_state: d.initial_state.clone(),
        transitions: ts,
    }
}

/// The transition among the first `k` that fires from `state` on `event`:
/// the last one declared for the pair, as a table built by collecting the
/// declarations keeps it.
pub open spec fn transition_upto(ts: Seq<TransitionDef>, state: Seq<char>, event: Seq<char>, k: int) -> Option<
    int,
>
    decreases k,
{
    if k <= 0 {
        None
    } else if ts[k - 1].from_state@ == state && ts[k - 1].on_event@ == event {
        Some(k - 1)
    } else {
        transition_upto(ts, state, event, k - 1)
    }
}

/// The transition that fires from `state` on `event`, if any.
pub open spec fn transition_for(ts: Seq<TransitionDef>, state: Seq<char>, event: Seq<char>) -> Option<
    int,
> {
    transition_upto(ts, state, event, ts.len() as int)
}

proof fn lemma_transition_upto(ts: Seq<TransitionDef>, state: Seq<char>, event: Seq<char>, k: int)
    requires
        k <= ts.len(),
    ensures
        transition_upto(ts, state, event, k) matches Some(i) ==> 0 <= i < k && ts[i].from_state@
            == state && ts[i].on_event@ == event,
    decreases k,
{
    if k > 0 {
        lemma_transition_upto(ts, state, event, k - 1);
    }
}

/// A mounted machine instance.
pub struct Machine {
    definition: MachineDefinition,
    state: String,
}

impl Machine {
    /// The definition the machine interprets.
    pub closed spec fn definition(&self) -> MachineDefinition {
        self.definition
    }

    /// The current state.
    pub closed spec fn current(&self) -> Seq<char> {
        self.state@
    }

    /// Mount: interpret the definition, starting in its initial state.
    pub fn mount(definition: MachineDefinition) -> (r: Self)
        ensures
            r.definition() == definition,
            r.current() == definition.initial_state@,
    {
        let state = definition.initial_state.clone();
        Machine { definition, state }
    }

    /// Dispatch an event. The transition declared last for the current
    /// state and the event fires: the machine moves to its target and the
    /// transition is returned. An undeclared event is ignored, not an error
    /// — the adapter's event surface is validated upstream.
    pub fn dispatch(&mut self, event: &str) -> (r: Option<TransitionDef>)
        ensures
            final(self).definition() == old(self).definition(),
            match transition_for(old(self).definition().transitions@, old(self).current(), event@) {
                Some(i) => r == Some(old(self).definition().transitions@[i]) && final(self).current()
                    == old(self).definition().transitions@[i].to_state@,
                None => r is None && final(self).current() == old(self).current(),
            },
    {
        let ghost ts = self.definition.transitions@;
        let mut k = self.definition.transitions.len();
        while k > 0
            invariant
                k <= ts.len(),
                ts == self.definition.transitions@,
                self.definition == old(self).definition,
                self.state == old(self).state,
                transition_for(ts, self.state@, event@) == transition_upto(
                    ts,
                    self.state@,
                    event@,
                    k as int,
                ),
            decreases k,
        {
            let t = &self.definition.transitions[k - 1];
            if str_eq(t.from_state.as_str(), self.state.as_str()) && str_eq(t.on_event.as_str(), event) {
                let fired = copy_transition(t);
                self.state = fired.to_state.clone();
                return Some(fired);
            }
            k = k - 1;
        }
        None
    }

    /// The current state's name.
    pub fn state(&self) -> (r: &str)
        ensures
            r@ == self.current(),
    {
        self.state.as_str()
    }

    /// The component the machine belongs to.
    pub fn component(&self) -> (r: &str)
        ensures
            r@ == self.definition().component@,
    {
        self.definition.component.as_str()
    }
}

/// Dispatch law: a transition fires only from the state it leaves and on
/// the event it names, and the machine then stands in its target state.
pub proof fn lemma_fired_transition_matches(
    ts: Seq<TransitionDef>,
    state: Seq<char>,
    event: Seq<char>,
)
    ensures
        transition_for(ts, state, event) matches Some(i) ==> 0 <= i < ts.len() && ts[i].from_state@
            == state && ts[i].on_event@ == event,
{
    lemma_transition_upto(ts, state, event, ts.len() as int);
}

/// Whether transition `i` leaves `state` on `event`.
pub open spec fn declared_for(ts: Seq<TransitionDef>, i: int, state: Seq<char>, event: Seq<char>) -> bool {
    0 <= i < ts.len() && ts[i].from_state@ == state && ts[i].on_event@ == event
}

proof fn lemma_transition_upto_complete(ts: Seq<TransitionDef>, state: Seq<char>, event: Seq<char>, k: int)
    requires
        0 <= k <= ts.len(),
    ensures
        (exists|i: int| 0 <= i < k && #[trigger] declared_for(ts, i, state, event)) <==> transition_upto(
            ts,
            state,
            event,
            k,
        ) is Some,
        transition_upto(ts, state, event, k) matches Some(j) ==> forall|l: int|
            j < l < k ==> !#[trigger] declared_for(ts, l, state, event),
    decreases k,
{
    if k > 0 {
        lemma_transition_upto_complete(ts, state, event, k - 1);
        if declared_for(ts, k - 1, state, event) {
        } else {
            if exists|i: int| 0 <= i < k && #[trigger] declared_for(ts, i, state, event) {
                let i = choose|i: int| 0 <= i < k && #[trigger] declared_for(ts, i, state, event);
                assert(i < k - 1);
            }
        }
    }
}

/// Dispatch law: an event fires exactly when some declared transition
/// leaves the current state on it, and then the one that fires is the
/// last declared for that pair — none declared after it leaves the state
/// on the event.
pub proof fn lemma_declared_transition_fires(ts: Seq<TransitionDef>, state: Seq<char>, event: Seq<char>)
    ensures
        (exists|i: int| #[trigger] declared_for(ts, i, state, event)) <==> transition_for(
            ts,
            state,
            event,
        ) is Some,
        transition_for(ts, state, event) matches Some(j) ==> declared_for(ts, j, state, event)
            && forall|l: int| j < l < ts.len() ==> !#[trigger] declared_for(ts, l, state, event),
{
    lemma_transition_upto_complete(ts, state, event, ts.len() as int);
    lemma_transition_upto(ts, state, event, ts.len() as int);
    if exists|i: int| #[trigger] declared_for(ts, i, state, event) {
        let i = choose|i: int| #[trigger] declared_for(ts, i, state, event);
        assert(0 <= i < ts.len());
    }
}

} // verus!
