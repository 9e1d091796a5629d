//! Mode-contracts and the consistency oracle: a contract is derived from its
//! component's core machine — no phantom events, no unreported states.
use vstd::prelude::*;

use crate::text::{contains_str, lex_le, lex_le_exec, opt_view, sorted_insert, str_eq, strictly_sorted, views};

verus! {

/// One fetched row of a contract surface: a component and one surface item.
#[derive(Debug, Clone, PartialEq, Eq)]
pub struct ModeContractRow {
    pub component: String,
    pub event: Option<String>,
    pub descriptor_state: Option<String>,
    pub lifecycle: Option<String>,
}

/// One fetched row of a machine: a component and one event or state.
#[derive(Debug, Clone, PartialEq, Eq)]
pub struct MachineRow {
    pub component: String,
    pub event: Option<String>,
    pub state: Option<String>,
}

/// A component's mode-contract. Each surface is a set of strings, held
/// strictly sorted.
#[derive(Debug, Clone, Default, PartialEq, Eq)]
pub struct ModeContract {
    pub component: String,
    pub event_surface: Vec<String>,
    pub descriptor_states: Vec<String>,
    pub lifecycle: Vec<String>,
}

/// A component's machine surface: its input alphabet and its states, each
/// held strictly sorted.
#[derive(Debug, Clone, Default, PartialEq, Eq)]
pub struct MachineSurface {
    pub component: String,
    pub events: Vec<String>,
    pub states: Vec<String>,
}

/// One component's consistency report. A contract is consistent when its event surface equals the
/// machine's input alphabet and its descriptor states equal the machine's states.
#[derive(Debug, Clone, PartialEq, Eq)]
pub struct ConsistencyReport {
    pub component: String,
    /// Events on the contract surface that the machine never accepts.
    pub phantom_events: Vec<String>,
    /// Events the machine accepts that the contract surface lacks.
    pub missing_events: Vec<String>,
    /// Descriptor states that are not machine states.
    pub stray_states: Vec<String>,
    /// Machine states the descriptor shape does not report.
    pub unreported_states: Vec<String>,
}

/// The items of the first `k` of `a` that `b` lacks, in the order of `a`.
pub open spec fn minus_upto(a: Seq<Seq<char>>, b: Seq<Seq<char>>, k: int) -> Seq<Seq<char>>
    decreases k,
{
    if k <= 0 {
        Seq::empty()
    } else if b.contains(a[k - 1]) {
        minus_upto(a, b, k - 1)
    } else {
        minus_upto(a, b, k - 1).push(a[k - 1])
    }
}

/// The items of `a` that `b` lacks, in the order of `a`.
pub open spec fn minus(a: Seq<Seq<char>>, b: Seq<Seq<char>>) -> Seq<Seq<char>> {
    minus_upto(a, b, a.len() as int)
}

fn minus_exec(a: &Vec<String>, b: &Vec<String>) -> (r: Vec<String>)
    ensures
        views(r@) == minus(views(a@), views(b@)),
{
    let mut r: Vec<String> = Vec::new();
    let mut k: usize = 0;
    while k < a.len()
        invariant
            k <= a@.len(),
            views(r@) == minus_upto(views(a@), views(b@), k as int),
        decreases a@.len() - k,
    {
        if !contains_str(b, a[k].as_str()) {
            let ghost before = views(r@);
            r.push(a[k].clone());
            assert(views(r@) =~= before.push(a@[k as int]@));
        }
        k = k + 1;
    }
    r
}

impl ConsistencyReport {
    /// A contract is consistent when it has no phantom and no missing event,
    /// and no stray and no unreported state.
    pub fn consistent(&self) -> (r: bool)
        ensures
            r == (self.phantom_events@.len() == 0 && self.missing_events@.len() == 0
                && self.stray_states@.len() == 0 && self.unreported_states@.len() == 0),
    {
        self.phantom_events.len() == 0 && self.missing_events.len() == 0 && self.stray_states.len() == 0
            && self.unreported_states.len() == 0
    }
}

/// The consistency oracle — pure judge over the two fetched surfaces, each
/// a set held strictly sorted: phantom events are contract events the
/// machine lacks, missing events machine events the contract lacks; stray
/// states are descriptor states the machine lacks, unreported states
/// machine states the descriptor lacks. Each list keeps the order of the
/// set it is drawn from.
pub fn judge_contract_consistency(contract: &ModeContract, machine: &MachineSurface) -> (r:
    ConsistencyReport)
    requires
        strictly_sorted(views(contract.event_surface@)),
        strictly_sorted(views(contract.descriptor_states@)),
        strictly_sorted(views(machine.events@)),
        strictly_sorted(views(machine.states@)),
    ensures
        r.component@ == contract.component@,
        views(r.phantom_events@) == minus(views(contract.event_surface@), views(machine.events@)),
        views(r.missing_events@) == minus(views(machine.events@), views(contract.event_surface@)),
        views(r.stray_states@) == minus(views(contract.descriptor_states@), views(machine.states@)),
        views(r.unreported_states@) == minus(
            views(machine.states@),
            views(contract.descriptor_states@),
        ),
{
    ConsistencyReport {
        component: contract.component.clone(),
        phantom_events: minus_exec(&contract.event_surface, &machine.events),
        missing_events: minus_exec(&machine.events, &contract.event_surface),
        stray_states: minus_exec(&contract.descriptor_states, &machine.states),
        unreported_states: minus_exec(&machine.states, &contract.descriptor_states),
    }
}

proof fn lemma_minus_empty(a: Seq<Seq<char>>, b: Seq<Seq<char>>, k: int)
    requires
        0 <= k <= a.len(),
    ensures
        minus_upto(a, b, k).len() == 0 <==> forall|i: int| 0 <= i < k ==> b.contains(#[trigger] a[i]),
    decreases k,
{
    if k > 0 {
        lemma_minus_empty(a, b, k - 1);
    }
}

/// What `b` lacks of `a` is nothing exactly when `a`'s items are all in `b`.
proof fn lemma_minus_empty_iff_subset(a: Seq<Seq<char>>, b: Seq<Seq<char>>)
    ensures
        minus(a, b).len() == 0 <==> a.to_set().subset_of(b.to_set()),
{
    lemma_minus_empty(a, b, a.len() as int);
    if a.to_set().subset_of(b.to_set()) {
        assert forall|i: int| 0 <= i < a.len() implies b.contains(#[trigger] a[i]) by {
            assert(a.to_set().contains(a[i]));
        }
    }
}

/// The report of a contract against its machine is consistent exactly when
/// the contract is derived from the machine: the event surface equals the
/// machine's input alphabet and the descriptor's states equal the
/// machine's states.
pub proof fn lemma_consistent_iff_derived(contract: ModeContract, machine: MachineSurface)
    ensures
        (minus(views(contract.event_surface@), views(machine.events@)).len() == 0
            && minus(views(machine.events@), views(contract.event_surface@)).len() == 0 && minus(
            views(contract.descriptor_states@),
            views(machine.states@),
        ).len() == 0 && minus(views(machine.states@), views(contract.descriptor_states@)).len() == 0)
            <==> (views(contract.event_surface@).to_set() == views(machine.events@).to_set() && views(
            contract.descriptor_states@,
        ).to_set() == views(machine.states@).to_set()),
{
    let ce = views(contract.event_surface@);
    let me = views(machine.events@);
    let ms = views(machine.states@);
    let cs = views(contract.descriptor_states@);
    lemma_minus_empty_iff_subset(ce, me);
    lemma_minus_empty_iff_subset(me, ce);
    lemma_minus_empty_iff_subset(ms, cs);
    lemma_minus_empty_iff_subset(cs, ms);
    if ce.to_set().subset_of(me.to_set()) && me.to_set().subset_of(ce.to_set()) {
        assert(ce.to_set() =~= me.to_set());
    }
    if cs.to_set().subset_of(ms.to_set()) && ms.to_set().subset_of(cs.to_set()) {
        assert(cs.to_set() =~= ms.to_set());
    }
}

/// The values that field `f` takes on the first `k` rows of component `comp`.
pub open spec fn selected_contract(
    rows: Seq<ModeContractRow>,
    comp: Seq<char>,
    k: int,
    f: spec_fn(ModeContractRow) -> Option<String>,
) -> Set<Seq<char>> {
    Set::new(
        |e: Seq<char>|
            exists|i: int|
                0 <= i < k && (#[trigger] rows[i]).component@ == comp && opt_view(f(rows[i])) == Some(
                    e,
                ),
    )
}

/// The components named by the first `k` rows.
pub open spec fn contract_components(rows: Seq<ModeContractRow>, k: int) -> Set<Seq<char>> {
    Set::new(|c: Seq<char>| exists|i: int| 0 <= i < k && (#[trigger] rows[i]).component@ == c)
}

/// Whether `c` holds exactly what the first `k` rows say of its component.
pub open spec fn contract_folded(c: ModeContract, rows: Seq<ModeContractRow>, k: int) -> bool {
    &&& strictly_sorted(views(c.event_surface@))
    &&& strictly_sorted(views(c.descriptor_states@))
    &&& strictly_sorted(views(c.lifecycle@))
    &&& views(c.event_surface@).to_set() == selected_contract(
        rows,
        c.component@,
        k,
        |r: ModeContractRow| r.event,
    )
    &&& views(c.descriptor_states@).to_set() == selected_contract(
        rows,
        c.component@,
        k,
        |r: ModeContractRow| r.descriptor_state,
    )
    &&& views(c.lifecycle@).to_set() == selected_contract(
        rows,
        c.component@,
        k,
        |r: ModeContractRow| r.lifecycle,
    )
}

/// The components of a sequence of contracts.
pub open spec fn contract_names(v: Seq<ModeContract>) -> Seq<Seq<char>> {
    v.map_values(|c: ModeContract| c.component@)
}

/// Whether `out` is the fold of the first `k` rows: one contract per
/// component, in component order, each holding what the rows say of it.
pub open spec fn contracts_folded(out: Seq<ModeContract>, rows: Seq<ModeContractRow>, k: int) -> bool {
    &&& strictly_sorted(contract_names(out))
    &&& contract_names(out).to_set() == contract_components(rows, k)
    &&& forall|j: int| 0 <= j < out.len() ==> contract_folded(#[trigger] out[j], rows, k)
}

proof fn lemma_selected_contract_step(
    rows: Seq<ModeContractRow>,
    comp: Seq<char>,
    k: int,
    f: spec_fn(ModeContractRow) -> Option<String>,
)
    requires
        0 <= k < rows.len(),
    ensures
        rows[k].component@ != comp ==> selected_contract(rows, comp, k + 1, f) == selected_contract(
            rows,
            comp,
            k,
            f,
        ),
        rows[k].component@ == comp ==> selected_contract(rows, comp, k + 1, f) == match opt_view(
            f(rows[k]),
        ) {
            Some(e) => selected_contract(rows, comp, k, f).insert(e),
            None => selected_contract(rows, comp, k, f),
        },
{
    if rows[k].component@ != comp {
        assert(selected_contract(rows, comp, k + 1, f) =~= selected_contract(rows, comp, k, f));
    } else {
        match opt_view(f(rows[k])) {
            Some(e) => {
                assert(selected_contract(rows, comp, k + 1, f) =~= selected_contract(
                    rows,
                    comp,
                    k,
                    f,
                ).insert(e));
            },
            None => {
                assert(selected_contract(rows, comp, k + 1, f) =~= selected_contract(
                    rows,
                    comp,
                    k,
                    f,
                ));
            },
        }
    }
}

proof fn lemma_selected_empty(
    rows: Seq<ModeContractRow>,
    comp: Seq<char>,
    k: int,
    f: spec_fn(ModeContractRow) -> Option<String>,
)
    requires
        !contract_components(rows, k).contains(comp),
    ensures
        selected_contract(rows, comp, k, f) == Set::<Seq<char>>::empty(),
{
    assert forall|e: Seq<char>| !(#[trigger] selected_contract(rows, comp, k, f).contains(e)) by {
        if selected_contract(rows, comp, k, f).contains(e) {
            let i = choose|i: int|
                0 <= i < k && (#[trigger] rows[i]).component@ == comp && opt_view(f(rows[i])) == Some(e);
            assert(contract_components(rows, k).contains(comp));
        }
    }
    assert(selected_contract(rows, comp, k, f) =~= Set::<Seq<char>>::empty());
}

fn insert_opt(v: &mut Vec<String>, o: &Option<String>)
    requires
        strictly_sorted(views(old(v)@)),
    ensures
        strictly_sorted(views(final(v)@)),
        views(final(v)@).to_set() == match opt_view(*o) {
            Some(e) => views(old(v)@).to_set().insert(e),
            None => views(old(v)@).to_set(),
        },
{
    match o {
        Some(e) => sorted_insert(v, e.clone()),
        None => {},
    }
}

/// Where component `x` stands among strictly sorted `names`: found at `p`,
/// or absent with `p` the position that keeps the order.
fn locate(names: &Vec<String>, x: &str) -> (r: (usize, bool))
    requires
        strictly_sorted(views(names@)),
    ensures
        r.0 <= names@.len(),
        r.1 ==> r.0 < names@.len() && names@[r.0 as int]@ == x@,
        !r.1 ==> strictly_sorted(views(names@).insert(r.0 as int, x@)) && !views(names@).contains(x@),
{
    let ghost s = views(names@);
    let mut p: usize = 0;
    while p < names.len() && lex_le_exec(names[p].as_str(), x) && !str_eq(names[p].as_str(), x)
        invariant
            p <= names@.len(),
            s == views(names@),
            strictly_sorted(s),
            forall|q: int| 0 <= q < p ==> lex_le(#[trigger] s[q], x@) && s[q] != x@,
        decreases names@.len() - p,
    {
        p = p + 1;
    }
    if p < names.len() && str_eq(names[p].as_str(), x) {
        return (p, true);
    }
    proof {
        crate::text::lemma_sorted_insert_position(s, p as int, x@);
    }
    (p, false)
}

fn names_of(out: &Vec<ModeContract>) -> (r: Vec<String>)
    ensures
        views(r@) == contract_names(out@),
{
    let mut r: Vec<String> = Vec::new();
    let mut k: usize = 0;
    while k < out.len()
        invariant
            k <= out@.len(),
            views(r@) == contract_names(out@.take(k as int)),
        decreases out@.len() - k,
    {
        let ghost before = views(r@);
        r.push(out[k].component.clone());
        assert(views(r@) =~= before.push(out@[k as int].component@));
        assert(out@.take(k + 1) =~= out@.take(k as int).push(out@[k as int]));
        assert(contract_names(out@.take(k + 1)) =~= contract_names(out@.take(k as int)).push(
            out@[k as int].component@,
        ));
        k = k + 1;
    }
    assert(out@.take(out@.len() as int) =~= out@);
    r
}

/// Fold contract rows into one contract per component, in component order,
/// each surface the set of the values its rows give.
pub fn fold_contract_rows(rows: &Vec<ModeContractRow>) -> (r: Vec<ModeContract>)
    ensures
        contracts_folded(r@, rows@, rows@.len() as int),
{
    let mut out: Vec<ModeContract> = Vec::new();
    let mut k: usize = 0;
    assert(contract_names(out@).to_set() =~= contract_components(rows@, 0));
    while k < rows.len()
        invariant
            k <= rows@.len(),
            contracts_folded(out@, rows@, k as int),
        decreases rows@.len() - k,
    {
        let row = &rows[k];
        let ghost comp = row.component@;
        let names = names_of(&out);
        let (p, found) = locate(&names, row.component.as_str());
        let ghost old_out = out@;
        proof {
            lemma_selected_contract_step(rows@, comp, k as int, |r: ModeContractRow| r.event);
            lemma_selected_contract_step(rows@, comp, k as int, |r: ModeContractRow| r.descriptor_state);
            lemma_selected_contract_step(rows@, comp, k as int, |r: ModeContractRow| r.lifecycle);
            assert forall|j: int| 0 <= j < old_out.len() && old_out[j].component@ != comp implies contract_folded(
                #[trigger] old_out[j],
                rows@,
                k + 1,
            ) by {
                assert(contract_folded(old_out[j], rows@, k as int));
                lemma_selected_contract_step(rows@, old_out[j].component@, k as int, |r: ModeContractRow| r.event);
                lemma_selected_contract_step(rows@, old_out[j].component@, k as int, |r: ModeContractRow| r.descriptor_state);
                lemma_selected_contract_step(rows@, old_out[j].component@, k as int, |r: ModeContractRow| r.lifecycle);
            }
        }
        if found {
            let mut c = out.remove(p);
            assert(c == old_out[p as int]);
            assert(contract_names(old_out)[p as int] == comp);
            assert(contract_folded(c, rows@, k as int));
            insert_opt(&mut c.event_surface, &row.event);
            insert_opt(&mut c.descriptor_states, &row.descriptor_state);
            insert_opt(&mut c.lifecycle, &row.lifecycle);
            out.insert(p, c);
            proof {
                assert(out@ =~= old_out.update(p as int, c));
                assert(contract_names(out@) =~= contract_names(old_out));
                assert(contract_components(rows@, k + 1) =~= contract_components(rows@, k as int));
                assert forall|j: int| 0 <= j < out@.len() implies contract_folded(
                    #[trigger] out@[j],
                    rows@,
                    k + 1,
                ) by {
                    if j != p {
                        assert(out@[j] == old_out[j]);
                        assert(contract_names(old_out)[j] != contract_names(old_out)[p as int]);
                    }
                }
            }
        } else {
            let mut c = ModeContract {
                component: row.component.clone(),
                event_surface: Vec::new(),
                descriptor_states: Vec::new(),
                lifecycle: Vec::new(),
            };
            proof {
                assert(views(names@).to_set().contains(comp) ==> views(names@).contains(comp));
                lemma_selected_empty(rows@, comp, k as int, |r: ModeContractRow| r.event);
                lemma_selected_empty(rows@, comp, k as int, |r: ModeContractRow| r.descriptor_state);
                lemma_selected_empty(rows@, comp, k as int, |r: ModeContractRow| r.lifecycle);
                assert(views(c.event_surface@).to_set() =~= Set::<Seq<char>>::empty());
                assert(views(c.descriptor_states@).to_set() =~= Set::<Seq<char>>::empty());
                assert(views(c.lifecycle@).to_set() =~= Set::<Seq<char>>::empty());
            }
            insert_opt(&mut c.event_surface, &row.event);
            insert_opt(&mut c.descriptor_states, &row.descriptor_state);
            insert_opt(&mut c.lifecycle, &row.lifecycle);
            out.insert(p, c);
            proof {
                assert(contract_names(out@) =~= contract_names(old_out).insert(p as int, comp));
                crate::text::lemma_insert_to_set(contract_names(old_out), p as int, comp);
                assert(contract_components(rows@, k + 1) =~= contract_components(rows@, k as int).insert(comp));
                assert forall|j: int| 0 <= j < out@.len() implies contract_folded(
                    #[trigger] out@[j],
                    rows@,
                    k + 1,
                ) by {
                    if j < p {
                        assert(out@[j] == old_out[j]);
                        assert(contract_names(old_out)[j] != comp);
                    } else if j > p {
                        assert(out@[j] == old_out[j - 1]);
                        assert(contract_names(old_out)[j - 1] != comp);
                    }
                }
            }
        }
        k = k + 1;
    }
    out
}

/// The values that field `f` takes on the first `k` machine rows of component `comp`.
pub open spec fn selected_machine(
    rows: Seq<MachineRow>,
    comp: Seq<char>,
    k: int,
    f: spec_fn(MachineRow) -> Option<String>,
) -> Set<Seq<char>> {
    Set::new(
        |e: Seq<char>|
            exists|i: int|
                0 <= i < k && (#[trigger] rows[i]).component@ == comp && opt_view(f(rows[i])) == Some(
                    e,
                ),
    )
}

/// The components named by the first `k` machine rows.
pub open spec fn machine_components(rows: Seq<MachineRow>, k: int) -> Set<Seq<char>> {
    Set::new(|c: Seq<char>| exists|i: int| 0 <= i < k && (#[trigger] rows[i]).component@ == c)
}

/// Whether surface `c` holds exactly what the first `k` rows say of its component.
pub open spec fn surface_folded(c: MachineSurface, rows: Seq<MachineRow>, k: int) -> bool {
    &&& strictly_sorted(views(c.events@))
    &&& strictly_sorted(views(c.states@))
    &&& views(c.events@).to_set() == selected_machine(rows, c.component@, k, |r: MachineRow| r.event)
    &&& views(c.states@).to_set() == selected_machine(rows, c.component@, k, |r: MachineRow| r.state)
}

/// The components of a sequence of machine surfaces.
pub open spec fn surface_names(v: Seq<MachineSurface>) -> Seq<Seq<char>> {
    v.map_values(|c: MachineSurface| c.component@)
}

/// Whether `out` is the fold of the first `k` machine rows: one surface per
/// component, in component order, each holding what the rows say of it.
pub open spec fn surfaces_folded(out: Seq<MachineSurface>, rows: Seq<MachineRow>, k: int) -> bool {
    &&& strictly_sorted(surface_names(out))
    &&& surface_names(out).to_set() == machine_components(rows, k)
    &&& forall|j: int| 0 <= j < out.len() ==> surface_folded(#[trigger] out[j], rows, k)
}

proof fn lemma_selected_machine_step(
    rows: Seq<MachineRow>,
    comp: Seq<char>,
    k: int,
    f: spec_fn(MachineRow) -> Option<String>,
)
    requires
        0 <= k < rows.len(),
    ensures
        rows[k].component@ != comp ==> selected_machine(rows, comp, k + 1, f) == selected_machine(
            rows,
            comp,
            k,
            f,
        ),
        rows[k].component@ == comp ==> selected_machine(rows, comp, k + 1, f) == match opt_view(
            f(rows[k]),
        ) {
            Some(e) => selected_machine(rows, comp, k, f).insert(e),
            None => selected_machine(rows, comp, k, f),
        },
{
    if rows[k].component@ != comp {
        assert(selected_machine(rows, comp, k + 1, f) =~= selected_machine(rows, comp, k, f));
    } else {
        match opt_view(f(rows[k])) {
            Some(e) => {
                assert(selected_machine(rows, comp, k + 1, f) =~= selected_machine(
                    rows,
                    comp,
                    k,
                    f,
                ).insert(e));
            },
            None => {
                assert(selected_machine(rows, comp, k + 1, f) =~= selected_machine(
                    rows,
                    comp,
                    k,
                    f,
                ));
            },
        }
    }
}

proof fn lemma_selected_machine_empty(
    rows: Seq<MachineRow>,
    comp: Seq<char>,
    k: int,
    f: spec_fn(MachineRow) -> Option<String>,
)
    requires
        !machine_components(rows, k).contains(comp),
    ensures
        selected_machine(rows, comp, k, f) == Set::<Seq<char>>::empty(),
{
    assert forall|e: Seq<char>| !(#[trigger] selected_machine(rows, comp, k, f).contains(e)) by {
        if selected_machine(rows, comp, k, f).contains(e) {
            let i = choose|i: int|
                0 <= i < k && (#[trigger] rows[i]).component@ == comp && opt_view(f(rows[i])) == Some(e);
            assert(machine_components(rows, k).contains(comp));
        }
    }
    assert(selected_machine(rows, comp, k, f) =~= Set::<Seq<char>>::empty());
}

fn surface_names_of(out: &Vec<MachineSurface>) -> (r: Vec<String>)
    ensures
        views(r@) == surface_names(out@),
{
    let mut r: Vec<String> = Vec::new();
    let mut k: usize = 0;
    while k < out.len()
        invariant
            k <= out@.len(),
            views(r@) == surface_names(out@.take(k as int)),
        decreases out@.len() - k,
    {
        let ghost before = views(r@);
        r.push(out[k].component.clone());
        assert(views(r@) =~= before.push(out@[k as int].component@));
        assert(out@.take(k + 1) =~= out@.take(k as int).push(out@[k as int]));
        assert(surface_names(out@.take(k + 1)) =~= surface_names(out@.take(k as int)).push(
            out@[k as int].component@,
        ));
        k = k + 1;
    }
    assert(out@.take(out@.len() as int) =~= out@);
    r
}

/// Fold machine rows into one surface per component, in component order,
/// its events and states the sets of the values its rows give.
pub fn fold_machine_rows(rows: &Vec<MachineRow>) -> (r: Vec<MachineSurface>)
    ensures
        surfaces_folded(r@, rows@, rows@.len() as int),
{
    let mut out: Vec<MachineSurface> = Vec::new();
    let mut k: usize = 0;
    assert(surface_names(out@).to_set() =~= machine_components(rows@, 0));
    while k < rows.len()
        invariant
            k <= rows@.len(),
            surfaces_folded(out@, rows@, k as int),
        decreases rows@.len() - k,
    {
        let row = &rows[k];
        let ghost comp = row.component@;
        let names = surface_names_of(&out);
        let (p, found) = locate(&names, row.component.as_str());
        let ghost old_out = out@;
        proof {
            lemma_selected_machine_step(rows@, comp, k as int, |r: MachineRow| r.event);
            lemma_selected_machine_step(rows@, comp, k as int, |r: MachineRow| r.state);
            assert forall|j: int| 0 <= j < old_out.len() && old_out[j].component@ != comp implies surface_folded(
                #[trigger] old_out[j],
                rows@,
                k + 1,
            ) by {
                assert(surface_folded(old_out[j], rows@, k as int));
                lemma_selected_machine_step(rows@, old_out[j].component@, k as int, |r: MachineRow| r.event);
                lemma_selected_machine_step(rows@, old_out[j].component@, k as int, |r: MachineRow| r.state);
            }
        }
        if found {
            let mut c = out.remove(p);
            assert(c == old_out[p as int]);
            assert(surface_names(old_out)[p as int] == comp);
            assert(surface_folded(c, rows@, k as int));
            insert_opt(&mut c.events, &row.event);
            insert_opt(&mut c.states, &row.state);
            out.insert(p, c);
            proof {
                assert(out@ =~= old_out.update(p as int, c));
                assert(surface_names(out@) =~= surface_names(old_out));
                assert(machine_components(rows@, k + 1) =~= machine_components(rows@, k as int));
                assert forall|j: int| 0 <= j < out@.len() implies surface_folded(
                    #[trigger] out@[j],
                    rows@,
                    k + 1,
                ) by {
                    if j != p {
                        assert(out@[j] == old_out[j]);
                        assert(surface_names(old_out)[j] != surface_names(old_out)[p as int]);
                    }
                }
            }
        } else {
            let mut c = MachineSurface {
                component: row.component.clone(),
                events: Vec::new(),
                states: Vec::new(),
            };
            proof {
                assert(views(names@).to_set().contains(comp) ==> views(names@).contains(comp));
                lemma_selected_machine_empty(rows@, comp, k as int, |r: MachineRow| r.event);
                lemma_selected_machine_empty(rows@, comp, k as int, |r: MachineRow| r.state);
                assert(views(c.events@).to_set() =~= Set::<Seq<char>>::empty());
                assert(views(c.states@).to_set() =~= Set::<Seq<char>>::empty());
            }
            insert_opt(&mut c.events, &row.event);
            insert_opt(&mut c.states, &row.state);
            out.insert(p, c);
            proof {
                assert(surface_names(out@) =~= surface_names(old_out).insert(p as int, comp));
                crate::text::lemma_insert_to_set(surface_names(old_out), p as int, comp);
                assert(machine_components(rows@, k + 1) =~= machine_components(rows@, k as int).insert(comp));
                assert forall|j: int| 0 <= j < out@.len() implies surface_folded(
                    #[trigger] out@[j],
                    rows@,
                    k + 1,
                ) by {
                    if j < p {
                        assert(out@[j] == old_out[j]);
                        assert(surface_names(old_out)[j] != comp);
                    } else if j > p {
                        assert(out@[j] == old_out[j - 1]);
                        assert(surface_names(old_out)[j - 1] != comp);
                    }
                }
            }
        }
        k = k + 1;
    }
    out
}

} // verus!
