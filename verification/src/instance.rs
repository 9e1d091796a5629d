//! Descriptor assembly: the serializable descriptor pushed to subscribers,
//! and the mode contract it is assembled against.
use vstd::prelude::*;

verus! {

/// The mode contract parsed from the design-system catalog.
#[derive(Debug, Clone, PartialEq, Eq)]
pub struct ModeContract {
    pub event_surface: Vec<String>,
    pub descriptor_states: Vec<String>,
    pub lifecycle: Vec<String>,
}

/// The descriptor pushed to subscribers on state changes.
#[derive(Debug, Clone, PartialEq, Eq)]
pub struct Descriptor {
    pub state: String,
    pub slots: Vec<String>,
    pub a11y_fields: Vec<String>,
    pub active_motion: Option<String>,
}

fn copy_strings(v: &[String]) -> (r: Vec<String>)
    ensures
        r@ == v@,
{
    let mut r: Vec<String> = Vec::new();
    let mut k: usize = 0;
    while k < v.len()
        invariant
            k <= v@.len(),
            r@ == v@.take(k as int),
        decreases v@.len() - k,
    {
        r.push(v[k].clone());
        k = k + 1;
        assert(r@ =~= v@.take(k as int));
    }
    assert(v@.take(v@.len() as int) =~= v@);
    r
}

/// Assemble the descriptor for a state: the state's name, no slots yet,
/// the overlay states as the platform-realised accessibility fields, and
/// no active motion (the call site sets the motion of the transition that
/// fired). Pure and deterministic.
pub fn assemble_descriptor(state_name: &str, descriptor_states: &[String], overlay_states: &[String]) -> (r:
    Descriptor)
    ensures
        r.state@ == state_name@,
        r.slots@.len() == 0,
        r.a11y_fields@ == overlay_states@,
        r.active_motion is None,
{
    Descriptor {
        state: String::from_str(state_name),
        slots: Vec::new(),
        a11y_fields: copy_strings(overlay_states),
        active_motion: None,
    }
}

} // verus!
