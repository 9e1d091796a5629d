//! The motion catalog and its checks: machine transitions reference catalog
//! entries by name only, and an entry without a reduced-motion fallback
//! fails validation (WCAG 2.3.3).
use vstd::prelude::*;

use crate::text::{chars_of, contains_str, views};

verus! {

/// One motion catalog entry.
#[derive(Debug, Clone, PartialEq, Eq)]
pub struct MotionEntryRow {
    pub entry: String,
    pub name: String,
    pub communicates: String,
    pub duration: String,
    pub easing: String,
    pub reduced_motion_fallback: String,
}

/// Unicode `White_Space` — what `char::is_whitespace` and `str::trim` use.
pub open spec fn is_whitespace(c: char) -> bool {
    let u = c as u32;
    (0x9 <= u <= 0xD) || u == 0x20 || u == 0x85 || u == 0xA0 || u == 0x1680 || (0x2000 <= u
        <= 0x200A) || u == 0x2028 || u == 0x2029 || u == 0x202F || u == 0x205F || u == 0x3000
}

fn is_whitespace_exec(c: char) -> (r: bool)
    ensures
        r == is_whitespace(c),
{
    let u = c as u32;
    (0x9 <= u && u <= 0xD) || u == 0x20 || u == 0x85 || u == 0xA0 || u == 0x1680 || (0x2000 <= u
        && u <= 0x200A) || u == 0x2028 || u == 0x2029 || u == 0x202F || u == 0x205F || u == 0x3000
}

/// WCAG 2.3.3: a reduced-motion fallback must exist and be non-empty;
/// whitespace-only counts as empty.
pub fn judge_reduced_motion_fallback(fallback: &str) -> (r: bool)
    ensures
        r == exists|i: int| 0 <= i < fallback@.len() && !is_whitespace(#[trigger] fallback@[i]),
{
    let cs = chars_of(fallback);
    let mut i: usize = 0;
    while i < cs.len()
        invariant
            cs@ == fallback@,
            i <= cs@.len(),
            forall|j: int| 0 <= j < i ==> is_whitespace(#[trigger] fallback@[j]),
        decreases cs@.len() - i,
    {
        if !is_whitespace_exec(cs[i]) {
            return true;
        }
        i = i + 1;
    }
    false
}

/// A machine transition that claims to carry motion.
#[derive(Debug, Clone, PartialEq, Eq)]
pub struct MotionReference {
    pub component: String,
    /// The referenced catalog entry name; `None` means the transition
    /// explicitly declares no motion — always legal.
    pub carries_motion: Option<String>,
}

/// A transition whose named motion has no catalog entry — incoherence.
#[derive(Debug, Clone, PartialEq, Eq)]
pub struct DanglingMotion {
    pub component: String,
    pub referenced_motion: String,
}

/// The verdict of the motion-reference check.
#[derive(Debug, Clone, PartialEq, Eq)]
pub struct MotionCheckReport {
    pub passes: bool,
    pub dangling: Vec<DanglingMotion>,
}

/// The references among the first `k` whose named motion is not an entry,
/// as (component, motion) pairs in reference order.
pub open spec fn dangling_upto(names: Seq<String>, refs: Seq<MotionReference>, k: int) -> Seq<
    (Seq<char>, Seq<char>),
>
    decreases k,
{
    if k <= 0 {
        Seq::empty()
    } else {
        let r = refs[k - 1];
        dangling_upto(names, refs, k - 1) + match r.carries_motion {
            Some(m) => if views(names).contains(m@) {
                Seq::empty()
            } else {
                seq![(r.component@, m@)]
            },
            None => Seq::empty(),
        }
    }
}

/// The value of a dangling report list.
pub open spec fn dangling_views(v: Seq<DanglingMotion>) -> Seq<(Seq<char>, Seq<char>)> {
    v.map_values(|d: DanglingMotion| (d.component@, d.referenced_motion@))
}

/// The motion oracle: every transition carrying motion names an existing
/// catalog entry or declares none. The report passes exactly when nothing
/// dangles.
pub fn judge_motion_references(entry_names: &Vec<String>, references: &Vec<MotionReference>) -> (r:
    MotionCheckReport)
    ensures
        dangling_views(r.dangling@) == dangling_upto(
            entry_names@,
            references@,
            references@.len() as int,
        ),
        r.passes == (r.dangling@.len() == 0),
{
    let mut dangling: Vec<DanglingMotion> = Vec::new();
    let mut k: usize = 0;
    while k < references.len()
        invariant
            k <= references@.len(),
            dangling_views(dangling@) == dangling_upto(entry_names@, references@, k as int),
        decreases references@.len() - k,
    {
        let r = &references[k];
        let ghost before = dangling_views(dangling@);
        match &r.carries_motion {
            Some(name) => {
                if !contains_str(entry_names, name.as_str()) {
                    dangling.push(
                        DanglingMotion { component: r.component.clone(), referenced_motion: name.clone() },
                    );
                    assert(dangling_views(dangling@) =~= before.push((r.component@, name@)));
                }
            },
            None => {},
        }
        k = k + 1;
        assert(dangling_views(dangling@) =~= dangling_upto(entry_names@, references@, k as int));
    }
    let passes = dangling.len() == 0;
    MotionCheckReport { passes, dangling }
}

proof fn lemma_dangling_empty(names: Seq<String>, refs: Seq<MotionReference>, k: int)
    requires
        0 <= k <= refs.len(),
    ensures
        dangling_upto(names, refs, k).len() == 0 <==> forall|i: int|
            0 <= i < k ==> ((#[trigger] refs[i]).carries_motion matches Some(m) ==> views(
                names,
            ).contains(m@)),
    decreases k,
{
    if k > 0 {
        lemma_dangling_empty(names, refs, k - 1);
    }
}

/// The motion check passes exactly when every reference that names a
/// motion names a catalog entry.
pub proof fn lemma_motion_passes_iff_all_named(names: Seq<String>, refs: Seq<MotionReference>)
    ensures
        dangling_upto(names, refs, refs.len() as int).len() == 0 <==> forall|i: int|
            0 <= i < refs.len() ==> ((#[trigger] refs[i]).carries_motion matches Some(m) ==> views(
                names,
            ).contains(m@)),
{
    lemma_dangling_empty(names, refs, refs.len() as int);
}

} // verus!
