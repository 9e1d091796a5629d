//! The reification table — (AIO kind × context) → concrete component — and
//! its oracles: leaf completeness and exactly-once resolution.
use vstd::prelude::*;

use crate::text::{concat, lex_le, lex_le_exec, lemma_lex_le_antisymmetric, lemma_lex_le_total, lemma_lex_le_transitive, lowercase, str_eq, to_lowercase, views};

verus! {

/// A context object node reference — a node, not a string.
#[derive(Debug, Clone, PartialEq, Eq, Hash)]
pub struct NodeRef {
    /// The RDF node identifier (IRI or blank node).
    pub node: String,
    /// Display label if available.
    pub label: Option<String>,
}

/// The value of a node reference.
pub struct NodeRefView {
    pub node: Seq<char>,
    pub label: Option<Seq<char>>,
}

impl View for NodeRef {
    type V = NodeRefView;

    open spec fn view(&self) -> NodeRefView {
        NodeRefView {
            node: self.node@,
            label: match self.label {
                Some(l) => Some(l@),
                None => None,
            },
        }
    }
}

/// A copy of a node reference.
pub fn copy_node(n: &NodeRef) -> (r: NodeRef)
    ensures
        r@ == n@,
{
    NodeRef {
        node: n.node.clone(),
        label: match &n.label {
            Some(l) => Some(l.clone()),
            None => None,
        },
    }
}

/// How a node reference reads: its label with the node in brackets, or the
/// bare node when it has no label.
pub open spec fn node_text(n: NodeRefView) -> Seq<char> {
    match n.label {
        Some(l) => l + " ("@ + n.node + ")"@,
        None => n.node,
    }
}

impl NodeRef {
    /// The display text: `label (node)`, or `node` when unlabelled.
    pub fn to_string(&self) -> (r: String)
        ensures
            r@ == node_text(self@),
    {
        match &self.label {
            Some(l) => {
                let mut r = concat(l.as_str(), " (");
                r.append(self.node.as_str());
                r.append(")");
                r
            },
            None => self.node.clone(),
        }
    }
}

/// A reification row: an AIO kind in a context resolves to a component.
#[derive(Debug, Clone, PartialEq, Eq, Hash)]
pub struct ReificationRow {
    pub aio_kind: String,
    pub platform: NodeRef,
    pub form_factor: NodeRef,
    pub interaction_class: NodeRef,
    pub cio: String,
}

/// An aio that was successfully bound to a component.
#[derive(Debug, Clone, PartialEq, Eq)]
pub struct AioAssignment {
    pub aio_kind: String,
    pub platform: NodeRef,
    pub form_factor: NodeRef,
    pub interaction_class: NodeRef,
    pub cio: String,
}

/// The value of a reification row or an assignment.
pub struct AssignmentView {
    pub aio_kind: Seq<char>,
    pub platform: NodeRefView,
    pub form_factor: NodeRefView,
    pub interaction_class: NodeRefView,
    pub cio: Seq<char>,
}

impl View for ReificationRow {
    type V = AssignmentView;

    open spec fn view(&self) -> AssignmentView {
        AssignmentView {
            aio_kind: self.aio_kind@,
            platform: self.platform@,
            form_factor: self.form_factor@,
            interaction_class: self.interaction_class@,
            cio: self.cio@,
        }
    }
}

/// How a reification row reads:
/// `ReificationRow(<kind> @ <platform>/<form factor> (context <interaction class>)) → <component>`.
pub open spec fn row_text(r: AssignmentView) -> Seq<char> {
    "ReificationRow("@ + r.aio_kind + " @ "@ + node_text(r.platform) + "/"@ + node_text(r.form_factor)
        + " (context "@ + node_text(r.interaction_class) + ")) → "@ + r.cio
}

impl ReificationRow {
    /// The display text of the row.
    pub fn to_string(&self) -> (r: String)
        ensures
            r@ == row_text(self@),
    {
        let mut r = concat("ReificationRow(", self.aio_kind.as_str());
        r.append(" @ ");
        r.append(self.platform.to_string().as_str());
        r.append("/");
        r.append(self.form_factor.to_string().as_str());
        r.append(" (context ");
        r.append(self.interaction_class.to_string().as_str());
        r.append(")) → ");
        r.append(self.cio.as_str());
        r
    }
}

impl View for AioAssignment {
    type V = AssignmentView;

    open spec fn view(&self) -> AssignmentView {
        AssignmentView {
            aio_kind: self.aio_kind@,
            platform: self.platform@,
            form_factor: self.form_factor@,
            interaction_class: self.interaction_class@,
            cio: self.cio@,
        }
    }
}

impl AioAssignment {
    /// The assignment a row makes.
    pub fn from_row(row: ReificationRow) -> (r: AioAssignment)
        ensures
            r@ == row@,
    {
        AioAssignment {
            aio_kind: row.aio_kind,
            platform: row.platform,
            form_factor: row.form_factor,
            interaction_class: row.interaction_class,
            cio: row.cio,
        }
    }
}

/// Core unreifiable reasons.
#[derive(Debug, Clone, Copy, PartialEq, Eq)]
pub enum UnreifiableReason {
    /// The intent references an AIO kind that has no binding for the given context.
    NoBindingForContext,
    /// The intent references an AIO kind not declared in the token graph.
    UnknownAioKind,
    /// The platform lacks the capability required for this AIO × context.
    CapabilityAbsent,
}

impl UnreifiableReason {
    /// The display text of the reason: its wire name.
    pub fn to_string(&self) -> (r: String)
        ensures
            r@ == self.to_wire_spec(),
    {
        String::from_str(self.to_wire())
    }

    /// The wire name of a reason.
    pub open spec fn to_wire_spec(&self) -> Seq<char> {
        match *self {
            UnreifiableReason::NoBindingForContext => "no-binding-for-context"@,
            UnreifiableReason::UnknownAioKind => "unknown-aio-kind"@,
            UnreifiableReason::CapabilityAbsent => "capability-absent"@,
        }
    }

    /// The wire name of the reason.
    pub fn to_wire(&self) -> (r: &'static str)
        ensures
            r@ == self.to_wire_spec(),
    {
        match self {
            UnreifiableReason::NoBindingForContext => "no-binding-for-context",
            UnreifiableReason::UnknownAioKind => "unknown-aio-kind",
            UnreifiableReason::CapabilityAbsent => "capability-absent",
        }
    }
}

/// An aio that could not be resolved.
#[derive(Debug, Clone, PartialEq, Eq)]
pub struct UnreifiableAssignment {
    pub aio_kind: String,
    pub platform: NodeRef,
    pub form_factor: NodeRef,
    pub interaction_class: NodeRef,
    pub reason: UnreifiableReason,
}

/// The value of an unresolved aio.
pub struct UnreifiableView {
    pub aio_kind: Seq<char>,
    pub platform: NodeRefView,
    pub form_factor: NodeRefView,
    pub interaction_class: NodeRefView,
    pub reason: UnreifiableReason,
}

impl View for UnreifiableAssignment {
    type V = UnreifiableView;

    open spec fn view(&self) -> UnreifiableView {
        UnreifiableView {
            aio_kind: self.aio_kind@,
            platform: self.platform@,
            form_factor: self.form_factor@,
            interaction_class: self.interaction_class@,
            reason: self.reason,
        }
    }
}

/// The partition produced by the completeness check.
#[derive(Debug, Clone, PartialEq, Eq)]
pub struct CompletenessReport {
    /// Aios that resolved to a component via reification rows.
    pub reified: Vec<AioAssignment>,
    /// Aios that could not be resolved, with the core reason.
    pub unreifiable: Vec<UnreifiableAssignment>,
}

/// An aio in context, as an intent lists it.
pub type IntentAio = (String, NodeRef, NodeRef, NodeRef);

/// Whether a row binds `kind` in the context of `aio`, comparing context
/// nodes by identifier.
pub open spec fn row_matches(r: AssignmentView, aio: IntentAio) -> bool {
    &&& r.aio_kind == aio.0@
    &&& r.platform.node == aio.1@.node
    &&& r.form_factor.node == aio.2@.node
    &&& r.interaction_class.node == aio.3@.node
}

/// The first row from index `j` on that binds `aio`.
pub open spec fn first_match_from(rows: Seq<ReificationRow>, aio: IntentAio, j: int) -> Option<int>
    decreases rows.len() - j,
{
    if j < 0 || j >= rows.len() {
        None
    } else if row_matches(rows[j]@, aio) {
        Some(j)
    } else {
        first_match_from(rows, aio, j + 1)
    }
}

/// Whether some platform requires the capability named `key`.
pub open spec fn capability_gated(caps: Seq<(NodeRef, Vec<String>)>, key: Seq<char>) -> bool {
    exists|i: int| 0 <= i < caps.len() && views((#[trigger] caps[i]).1@).contains(key)
}

/// Whether the platform `node` declares the capability named `key`.
pub open spec fn platform_has(caps: Seq<(NodeRef, Vec<String>)>, node: Seq<char>, key: Seq<char>) -> bool {
    exists|i: int|
        0 <= i < caps.len() && (#[trigger] caps[i]).0.node@ == node && views(caps[i].1@).contains(key)
}

/// Why an aio with no binding row is unresolved: a capability-gated kind
/// on a platform without the capability cannot be hosted there; otherwise
/// the catalog lacks a binding for the context.
pub open spec fn missing_reason(caps: Seq<(NodeRef, Vec<String>)>, aio: IntentAio) -> UnreifiableReason {
    let key = lowercase(aio.0@);
    if capability_gated(caps, key) && !platform_has(caps, aio.1@.node, key) {
        UnreifiableReason::CapabilityAbsent
    } else {
        UnreifiableReason::NoBindingForContext
    }
}

/// How one aio resolves: the row it binds to, or the reason it does not.
pub open spec fn resolve(
    aio: IntentAio,
    rows: Seq<ReificationRow>,
    known: Seq<String>,
    caps: Seq<(NodeRef, Vec<String>)>,
) -> Result<AssignmentView, UnreifiableReason> {
    if !views(known).contains(aio.0@) {
        Err(UnreifiableReason::UnknownAioKind)
    } else {
        match first_match_from(rows, aio, 0) {
            Some(j) => Ok(rows[j]@),
            None => Err(missing_reason(caps, aio)),
        }
    }
}

/// The resolved assignments among the first `k` aios, in intent order.
pub open spec fn reified_upto(
    aios: Seq<IntentAio>,
    rows: Seq<ReificationRow>,
    known: Seq<String>,
    caps: Seq<(NodeRef, Vec<String>)>,
    k: int,
) -> Seq<AssignmentView>
    decreases k,
{
    if k <= 0 {
        Seq::empty()
    } else {
        reified_upto(aios, rows, known, caps, k - 1) + match resolve(aios[k - 1], rows, known, caps) {
            Ok(a) => seq![a],
            Err(_) => Seq::empty(),
        }
    }
}

/// The unresolved aios among the first `k`, in intent order.
pub open spec fn unreifiable_upto(
    aios: Seq<IntentAio>,
    rows: Seq<ReificationRow>,
    known: Seq<String>,
    caps: Seq<(NodeRef, Vec<String>)>,
    k: int,
) -> Seq<UnreifiableView>
    decreases k,
{
    if k <= 0 {
        Seq::empty()
    } else {
        let aio = aios[k - 1];
        unreifiable_upto(aios, rows, known, caps, k - 1) + match resolve(aio, rows, known, caps) {
            Ok(_) => Seq::empty(),
            Err(reason) => seq![
                UnreifiableView {
                    aio_kind: aio.0@,
                    platform: aio.1@,
                    form_factor: aio.2@,
                    interaction_class: aio.3@,
                    reason,
                },
            ],
        }
    }
}

fn contains_kind(known: &[String], kind: &str) -> (r: bool)
    ensures
        r == views(known@).contains(kind@),
{
    let mut i: usize = 0;
    while i < known.len()
        invariant
            i <= known@.len(),
            forall|j: int| 0 <= j < i ==> known@[j]@ != kind@,
        decreases known@.len() - i,
    {
        if str_eq(known[i].as_str(), kind) {
            assert(views(known@)[i as int] == kind@);
            return true;
        }
        i = i + 1;
    }
    assert forall|j: int| 0 <= j < views(known@).len() implies #[trigger] views(known@)[j]
        != kind@ by {
        assert(known@[j]@ != kind@);
    }
    false
}

proof fn lemma_first_match(rows: Seq<ReificationRow>, aio: IntentAio, j: int)
    ensures
        first_match_from(rows, aio, j) matches Some(x) ==> j <= x < rows.len() && row_matches(
            rows[x]@,
            aio,
        ),
    decreases rows.len() - j,
{
    if 0 <= j < rows.len() && !row_matches(rows[j]@, aio) {
        lemma_first_match(rows, aio, j + 1);
    }
}

fn find_row(rows: &[ReificationRow], aio: &IntentAio) -> (r: Option<usize>)
    ensures
        match r {
            Some(j) => first_match_from(rows@, *aio, 0) == Some(j as int) && j < rows@.len(),
            None => first_match_from(rows@, *aio, 0) is None,
        },
{
    let mut j: usize = 0;
    while j < rows.len()
        invariant
            j <= rows@.len(),
            first_match_from(rows@, *aio, 0) == first_match_from(rows@, *aio, j as int),
        decreases rows@.len() - j,
    {
        let r = &rows[j];
        if str_eq(r.aio_kind.as_str(), aio.0.as_str()) && str_eq(
            r.platform.node.as_str(),
            aio.1.node.as_str(),
        ) && str_eq(r.form_factor.node.as_str(), aio.2.node.as_str()) && str_eq(
            r.interaction_class.node.as_str(),
            aio.3.node.as_str(),
        ) {
            return Some(j);
        }
        j = j + 1;
    }
    None
}

fn reason_for(caps: &[(NodeRef, Vec<String>)], aio: &IntentAio) -> (r: UnreifiableReason)
    ensures
        r == missing_reason(caps@, *aio),
{
    let key = to_lowercase(aio.0.as_str());
    let mut gated = false;
    let mut hosted = false;
    let mut i: usize = 0;
    while i < caps.len()
        invariant
            i <= caps@.len(),
            key@ == lowercase(aio.0@),
            gated == exists|q: int| 0 <= q < i && views((#[trigger] caps@[q]).1@).contains(key@),
            hosted == exists|q: int|
                0 <= q < i && (#[trigger] caps@[q]).0.node@ == aio.1@.node && views(
                    caps@[q].1@,
                ).contains(key@),
        decreases caps@.len() - i,
    {
        let listed = contains_kind(caps[i].1.as_slice(), key.as_str());
        if listed {
            gated = true;
            if str_eq(caps[i].0.node.as_str(), aio.1.node.as_str()) {
                hosted = true;
            }
        }
        i = i + 1;
    }
    if gated && !hosted {
        UnreifiableReason::CapabilityAbsent
    } else {
        UnreifiableReason::NoBindingForContext
    }
}

/// The leaf-completeness oracle: each of an intent's aios-in-context either
/// resolves to the first reification row that binds its kind in its context
/// (comparing context nodes by identifier), or is unresolved — because its
/// kind is unknown, because no platform may host a capability-gated kind,
/// or because the catalog lacks a binding for the context.
pub fn judge_leaf_completeness(
    intent_aios: &[IntentAio],
    reified_rows: &[ReificationRow],
    known_aio_kinds: &[String],
    platform_capabilities: &[(NodeRef, Vec<String>)],
) -> (r: CompletenessReport)
    ensures
        r.reified@.map_values(|a: AioAssignment| a@) == reified_upto(
            intent_aios@,
            reified_rows@,
            known_aio_kinds@,
            platform_capabilities@,
            intent_aios@.len() as int,
        ),
        r.unreifiable@.map_values(|u: UnreifiableAssignment| u@) == unreifiable_upto(
            intent_aios@,
            reified_rows@,
            known_aio_kinds@,
            platform_capabilities@,
            intent_aios@.len() as int,
        ),
{
    let mut reified: Vec<AioAssignment> = Vec::new();
    let mut unreifiable: Vec<UnreifiableAssignment> = Vec::new();
    let mut k: usize = 0;
    while k < intent_aios.len()
        invariant
            k <= intent_aios@.len(),
            reified@.map_values(|a: AioAssignment| a@) == reified_upto(
                intent_aios@,
                reified_rows@,
                known_aio_kinds@,
                platform_capabilities@,
                k as int,
            ),
            unreifiable@.map_values(|u: UnreifiableAssignment| u@) == unreifiable_upto(
                intent_aios@,
                reified_rows@,
                known_aio_kinds@,
                platform_capabilities@,
                k as int,
            ),
        decreases intent_aios@.len() - k,
    {
        let aio = &intent_aios[k];
        let ghost ra = reified@.map_values(|a: AioAssignment| a@);
        let ghost ua = unreifiable@.map_values(|u: UnreifiableAssignment| u@);
        let mut reason = UnreifiableReason::UnknownAioKind;
        let mut resolved = false;
        if contains_kind(known_aio_kinds, aio.0.as_str()) {
            match find_row(reified_rows, aio) {
                Some(j) => {
                    let row = &reified_rows[j];
                    reified.push(
                        AioAssignment {
                            aio_kind: row.aio_kind.clone(),
                            platform: copy_node(&row.platform),
                            form_factor: copy_node(&row.form_factor),
                            interaction_class: copy_node(&row.interaction_class),
                            cio: row.cio.clone(),
                        },
                    );
                    resolved = true;
                    assert(reified@.map_values(|a: AioAssignment| a@) =~= ra.push(
                        reified_rows@[j as int]@,
                    ));
                },
                None => {
                    reason = reason_for(platform_capabilities, aio);
                },
            }
        }
        if !resolved {
            unreifiable.push(
                UnreifiableAssignment {
                    aio_kind: aio.0.clone(),
                    platform: copy_node(&aio.1),
                    form_factor: copy_node(&aio.2),
                    interaction_class: copy_node(&aio.3),
                    reason,
                },
            );
            assert(unreifiable@.map_values(|u: UnreifiableAssignment| u@) =~= ua.push(
                UnreifiableView {
                    aio_kind: aio.0@,
                    platform: aio.1@,
                    form_factor: aio.2@,
                    interaction_class: aio.3@,
                    reason,
                },
            ));
        }
        k = k + 1;
        assert(reified@.map_values(|a: AioAssignment| a@) =~= reified_upto(
            intent_aios@,
            reified_rows@,
            known_aio_kinds@,
            platform_capabilities@,
            k as int,
        ));
        assert(unreifiable@.map_values(|u: UnreifiableAssignment| u@) =~= unreifiable_upto(
            intent_aios@,
            reified_rows@,
            known_aio_kinds@,
            platform_capabilities@,
            k as int,
        ));
    }
    CompletenessReport { reified, unreifiable }
}

/// Every aio of an intent is accounted for exactly once: it is either
/// reified or unreifiable.
pub proof fn lemma_report_partitions_the_intent(
    aios: Seq<IntentAio>,
    rows: Seq<ReificationRow>,
    known: Seq<String>,
    caps: Seq<(NodeRef, Vec<String>)>,
    k: int,
)
    requires
        0 <= k <= aios.len(),
    ensures
        reified_upto(aios, rows, known, caps, k).len() + unreifiable_upto(aios, rows, known, caps, k).len()
            == k,
    decreases k,
{
    if k > 0 {
        lemma_report_partitions_the_intent(aios, rows, known, caps, k - 1);
    }
}

/// Two rows with one key, both among the first `k`, give that key at
/// least two components.
proof fn lemma_shared_key_counts_twice(rows: Seq<ReificationRow>, i: int, j: int, k: int)
    requires
        0 <= i < j < k <= rows.len(),
        row_key(rows[i]) == row_key(rows[j]),
    ensures
        cios_upto(rows, row_key(rows[i]), k).len() >= 2,
    decreases k,
{
    let key = row_key(rows[i]);
    if k - 1 > j {
        lemma_shared_key_counts_twice(rows, i, j, k - 1);
    } else {
        lemma_key_counted(rows, i, j);
    }
}

/// A row with the key among the first `k` gives it at least one component.
proof fn lemma_key_counted(rows: Seq<ReificationRow>, i: int, k: int)
    requires
        0 <= i < k <= rows.len(),
    ensures
        cios_upto(rows, row_key(rows[i]), k).len() >= 1,
    decreases k,
{
    if k - 1 > i {
        lemma_key_counted(rows, i, k - 1);
    }
}

/// Exactly once: when the ambiguity oracle finds no key that two rows
/// share, an aio in context is bound by at most one row of the catalog —
/// the row it resolves to is the only one.
pub proof fn lemma_unambiguous_rows_bind_at_most_once(rows: Seq<ReificationRow>, aio: IntentAio, i: int, j: int)
    requires
        forall|q: int| 0 <= q < rows.len() ==> cios_of(rows, row_key(#[trigger] rows[q])).len() <= 1,
        0 <= i < rows.len(),
        0 <= j < rows.len(),
        row_matches(rows[i]@, aio),
        row_matches(rows[j]@, aio),
    ensures
        i == j,
{
    if i != j {
        let (a, b) = if i < j { (i, j) } else { (j, i) };
        assert(row_key(rows[a]) =~= row_key(rows[b]));
        lemma_shared_key_counts_twice(rows, a, b, rows.len() as int);
        assert(cios_of(rows, row_key(rows[a])).len() <= 1);
    }
}

/// A duplicate (AIO kind, platform, form factor, interaction class) key —
/// two rows matching the same pair is an ambiguity and fails validation.
#[derive(Debug, Clone, PartialEq, Eq)]
pub struct AmbiguousKey {
    pub aio_kind: String,
    pub platform: String,
    pub form_factor: String,
    pub interaction_class: String,
    pub cios: Vec<String>,
}

/// The key a row is resolved by: its kind and its three context nodes.
pub open spec fn row_key(r: ReificationRow) -> Seq<Seq<char>> {
    seq![r.aio_kind@, r.platform.node@, r.form_factor.node@, r.interaction_class.node@]
}

/// The key of an ambiguity report.
pub open spec fn ambiguous_key(a: AmbiguousKey) -> Seq<Seq<char>> {
    seq![a.aio_kind@, a.platform@, a.form_factor@, a.interaction_class@]
}

/// Strict lexicographic order on keys, component by component.
pub open spec fn key_lt(a: Seq<Seq<char>>, b: Seq<Seq<char>>) -> bool
    decreases a.len(),
{
    if a.len() == 0 || b.len() == 0 {
        false
    } else if a[0] != b[0] {
        lex_le(a[0], b[0])
    } else {
        key_lt(a.skip(1), b.skip(1))
    }
}

/// The components, in row order, of the rows with key `key`, among the first `k`.
pub open spec fn cios_upto(rows: Seq<ReificationRow>, key: Seq<Seq<char>>, k: int) -> Seq<Seq<char>>
    decreases k,
{
    if k <= 0 {
        Seq::empty()
    } else if row_key(rows[k - 1]) == key {
        cios_upto(rows, key, k - 1).push(rows[k - 1].cio@)
    } else {
        cios_upto(rows, key, k - 1)
    }
}

/// The components, in row order, of the rows with key `key`.
pub open spec fn cios_of(rows: Seq<ReificationRow>, key: Seq<Seq<char>>) -> Seq<Seq<char>> {
    cios_upto(rows, key, rows.len() as int)
}

proof fn lemma_key_lt_total(a: Seq<Seq<char>>, b: Seq<Seq<char>>)
    requires
        a.len() == b.len(),
        a != b,
    ensures
        key_lt(a, b) || key_lt(b, a),
    decreases a.len(),
{
    if a.len() == 0 {
        assert(a =~= b);
    } else if a[0] != b[0] {
        lemma_lex_le_total(a[0], b[0]);
    } else {
        if a.skip(1) == b.skip(1) {
            assert(a =~= seq![a[0]] + a.skip(1));
            assert(b =~= seq![b[0]] + b.skip(1));
        }
        lemma_key_lt_total(a.skip(1), b.skip(1));
    }
}

proof fn lemma_key_lt_transitive(a: Seq<Seq<char>>, b: Seq<Seq<char>>, c: Seq<Seq<char>>)
    requires
        key_lt(a, b),
        key_lt(b, c),
    ensures
        key_lt(a, c),
    decreases a.len(),
{
    if a[0] != b[0] {
        if b[0] != c[0] {
            lemma_lex_le_transitive(a[0], b[0], c[0]);
            if a[0] == c[0] {
                lemma_lex_le_antisymmetric(a[0], b[0]);
            }
        }
    } else if b[0] == c[0] {
        lemma_key_lt_transitive(a.skip(1), b.skip(1), c.skip(1));
    }
}

proof fn lemma_key_lt_irreflexive(a: Seq<Seq<char>>)
    ensures
        !key_lt(a, a),
    decreases a.len(),
{
    if a.len() > 0 {
        lemma_key_lt_irreflexive(a.skip(1));
    }
}

fn key_lt_exec(a0: &str, a1: &str, a2: &str, a3: &str, b0: &str, b1: &str, b2: &str, b3: &str) -> (r:
    bool)
    ensures
        r == key_lt(seq![a0@, a1@, a2@, a3@], seq![b0@, b1@, b2@, b3@]),
{
    let ghost a = seq![a0@, a1@, a2@, a3@];
    let ghost b = seq![b0@, b1@, b2@, b3@];
    proof {
        reveal_with_fuel(key_lt, 5);
    }
    assert(a.skip(1) =~= seq![a1@, a2@, a3@] && b.skip(1) =~= seq![b1@, b2@, b3@]);
    assert(a.skip(1).skip(1) =~= seq![a2@, a3@] && b.skip(1).skip(1) =~= seq![b2@, b3@]);
    assert(a.skip(1).skip(1).skip(1) =~= seq![a3@] && b.skip(1).skip(1).skip(1) =~= seq![b3@]);
    assert(a.skip(1).skip(1).skip(1).skip(1) =~= Seq::<Seq<char>>::empty());
    if !str_eq(a0, b0) {
        lex_le_exec(a0, b0)
    } else if !str_eq(a1, b1) {
        lex_le_exec(a1, b1)
    } else if !str_eq(a2, b2) {
        lex_le_exec(a2, b2)
    } else if !str_eq(a3, b3) {
        lex_le_exec(a3, b3)
    } else {
        false
    }
}

fn same_key(r: &ReificationRow, q: &ReificationRow) -> (b: bool)
    ensures
        b == (row_key(*r) == row_key(*q)),
{
    let b = str_eq(r.aio_kind.as_str(), q.aio_kind.as_str()) && str_eq(
        r.platform.node.as_str(),
        q.platform.node.as_str(),
    ) && str_eq(r.form_factor.node.as_str(), q.form_factor.node.as_str()) && str_eq(
        r.interaction_class.node.as_str(),
        q.interaction_class.node.as_str(),
    );
    proof {
        if !b {
            if r.aio_kind@ != q.aio_kind@ {
                assert(row_key(*r)[0] != row_key(*q)[0]);
            } else if r.platform.node@ != q.platform.node@ {
                assert(row_key(*r)[1] != row_key(*q)[1]);
            } else if r.form_factor.node@ != q.form_factor.node@ {
                assert(row_key(*r)[2] != row_key(*q)[2]);
            } else {
                assert(row_key(*r)[3] != row_key(*q)[3]);
            }
        } else {
            assert(row_key(*r) =~= row_key(*q));
        }
    }
    b
}

fn collect_cios(rows: &[ReificationRow], key_row: &ReificationRow) -> (r: Vec<String>)
    ensures
        views(r@) == cios_of(rows@, row_key(*key_row)),
{
    let mut out: Vec<String> = Vec::new();
    let mut k: usize = 0;
    while k < rows.len()
        invariant
            k <= rows@.len(),
            views(out@) == cios_upto(rows@, row_key(*key_row), k as int),
        decreases rows@.len() - k,
    {
        if same_key(&rows[k], key_row) {
            let ghost before = views(out@);
            out.push(rows[k].cio.clone());
            assert(views(out@) =~= before.push(rows@[k as int].cio@));
        }
        k = k + 1;
    }
    out
}

/// Whether ambiguity reports are in strictly increasing key order.
pub open spec fn keys_sorted(s: Seq<AmbiguousKey>) -> bool {
    forall|i: int, j: int| 0 <= i < j < s.len() ==> key_lt(ambiguous_key(s[i]), ambiguous_key(s[j]))
}

fn insert_by_key(out: &mut Vec<AmbiguousKey>, item: AmbiguousKey) -> (p: usize)
    requires
        keys_sorted(old(out)@),
        forall|q: int|
            0 <= q < old(out)@.len() ==> ambiguous_key(#[trigger] old(out)@[q]) != ambiguous_key(
                item,
            ),
    ensures
        p <= old(out)@.len(),
        final(out)@ == old(out)@.insert(p as int, item),
        keys_sorted(final(out)@),
{
    let ghost key = ambiguous_key(item);
    let mut p: usize = 0;
    while p < out.len() && !key_lt_exec(
        item.aio_kind.as_str(),
        item.platform.as_str(),
        item.form_factor.as_str(),
        item.interaction_class.as_str(),
        out[p].aio_kind.as_str(),
        out[p].platform.as_str(),
        out[p].form_factor.as_str(),
        out[p].interaction_class.as_str(),
    )
        invariant
            p <= out@.len(),
            out@ == old(out)@,
            key == ambiguous_key(item),
            forall|q: int| 0 <= q < p ==> !key_lt(key, ambiguous_key(#[trigger] out@[q])),
        decreases out@.len() - p,
    {
        assert(ambiguous_key(out@[p as int]) =~= seq![
            out@[p as int].aio_kind@,
            out@[p as int].platform@,
            out@[p as int].form_factor@,
            out@[p as int].interaction_class@,
        ]);
        p = p + 1;
    }
    if p < out.len() {
        assert(ambiguous_key(out@[p as int]) =~= seq![
            out@[p as int].aio_kind@,
            out@[p as int].platform@,
            out@[p as int].form_factor@,
            out@[p as int].interaction_class@,
        ]);
    }
    let ghost old_out = out@;
    proof {
        assert forall|q: int| 0 <= q < p implies key_lt(ambiguous_key(#[trigger] old_out[q]), key) by {
            lemma_key_lt_total(ambiguous_key(old_out[q]), key);
        }
    }
    out.insert(p, item);
    proof {
        assert forall|i: int, j: int| 0 <= i < j < out@.len() implies key_lt(
            ambiguous_key(out@[i]),
            ambiguous_key(out@[j]),
        ) by {
            if j < p {
                assert(out@[i] == old_out[i] && out@[j] == old_out[j]);
            } else if j == p {
                assert(out@[i] == old_out[i]);
            } else if i < p {
                assert(out@[i] == old_out[i] && out@[j] == old_out[j - 1]);
                lemma_key_lt_transitive(ambiguous_key(old_out[i]), key, ambiguous_key(old_out[p as int]));
                if j - 1 > p {
                    lemma_key_lt_transitive(
                        ambiguous_key(old_out[i]),
                        ambiguous_key(old_out[p as int]),
                        ambiguous_key(old_out[j - 1]),
                    );
                }
            } else if i == p {
                assert(out@[j] == old_out[j - 1]);
                if j - 1 > p {
                    lemma_key_lt_transitive(
                        key,
                        ambiguous_key(old_out[p as int]),
                        ambiguous_key(old_out[j - 1]),
                    );
                }
            } else {
                assert(out@[i] == old_out[i - 1] && out@[j] == old_out[j - 1]);
            }
        }
    }
    p
}

fn key_seen_before(rows: &[ReificationRow], k: usize) -> (seen: bool)
    requires
        k < rows@.len(),
    ensures
        seen == exists|q: int| 0 <= q < k && row_key(#[trigger] rows@[q]) == row_key(rows@[k as int]),
{
    let ghost key = row_key(rows@[k as int]);
    let mut seen = false;
    let mut e: usize = 0;
    while e < k
        invariant
            e <= k,
            k < rows@.len(),
            key == row_key(rows@[k as int]),
            seen == exists|q: int| 0 <= q < e && row_key(#[trigger] rows@[q]) == key,
        decreases k - e,
    {
        if same_key(&rows[e], &rows[k]) {
            seen = true;
        }
        e = e + 1;
    }
    seen
}

/// The exactly-once oracle: each AIO × context must resolve to exactly
/// one component. Reports every key that two or more rows share, in key
/// order, each with the components of its rows in row order.
#[verifier::rlimit(60)]
pub fn judge_row_ambiguity(rows: &[ReificationRow]) -> (r: Vec<AmbiguousKey>)
    ensures
        keys_sorted(r@),
        forall|i: int|
            0 <= i < r@.len() ==> views((#[trigger] r@[i]).cios@) == cios_of(
                rows@,
                ambiguous_key(r@[i]),
            ) && r@[i].cios@.len() > 1,
        forall|q: int|
            0 <= q < rows@.len() && cios_of(rows@, row_key(#[trigger] rows@[q])).len() > 1
                ==> exists|i: int| 0 <= i < r@.len() && ambiguous_key(r@[i]) == row_key(rows@[q]),
{
    let mut out: Vec<AmbiguousKey> = Vec::new();
    let mut k: usize = 0;
    while k < rows.len()
        invariant
            k <= rows@.len(),
            keys_sorted(out@),
            forall|i: int|
                0 <= i < out@.len() ==> views((#[trigger] out@[i]).cios@) == cios_of(
                    rows@,
                    ambiguous_key(out@[i]),
                ) && out@[i].cios@.len() > 1,
            forall|i: int|
                0 <= i < out@.len() ==> exists|q: int|
                    0 <= q < k && ambiguous_key(#[trigger] out@[i]) == row_key(rows@[q]),
            forall|q: int|
                0 <= q < k && cios_of(rows@, row_key(#[trigger] rows@[q])).len() > 1 ==> exists|i: int|
                    0 <= i < out@.len() && ambiguous_key(out@[i]) == row_key(rows@[q]),
        decreases rows@.len() - k,
    {
        let row = &rows[k];
        let ghost key = row_key(rows@[k as int]);
        let seen = key_seen_before(rows, k);
        if !seen {
            let cios = collect_cios(rows, row);
            if cios.len() > 1 {
                let item = AmbiguousKey {
                    aio_kind: row.aio_kind.clone(),
                    platform: row.platform.node.clone(),
                    form_factor: row.form_factor.node.clone(),
                    interaction_class: row.interaction_class.node.clone(),
                    cios,
                };
                assert(ambiguous_key(item) =~= key);
                let ghost old_out = out@;
                proof {
                    assert forall|q: int| 0 <= q < old_out.len() implies ambiguous_key(
                        #[trigger] old_out[q],
                    ) != key by {
                        let w = choose|w: int|
                            0 <= w < k && ambiguous_key(old_out[q]) == row_key(rows@[w]);
                        assert(row_key(rows@[w]) != key);
                    }
                }
                let p = insert_by_key(&mut out, item);
                proof {
                    assert forall|i: int| 0 <= i < out@.len() implies exists|q: int|
                        0 <= q < k + 1 && ambiguous_key(#[trigger] out@[i]) == row_key(rows@[q]) by {
                        if i < p {
                            assert(out@[i] == old_out[i]);
                        } else if i == p {
                            assert(ambiguous_key(out@[i]) == row_key(rows@[k as int]));
                        } else {
                            assert(out@[i] == old_out[i - 1]);
                        }
                    }
                    assert forall|i: int| 0 <= i < out@.len() implies views(
                        (#[trigger] out@[i]).cios@,
                    ) == cios_of(rows@, ambiguous_key(out@[i])) && out@[i].cios@.len() > 1 by {
                        if i < p {
                            assert(out@[i] == old_out[i]);
                        } else if i > p {
                            assert(out@[i] == old_out[i - 1]);
                        }
                    }
                    assert forall|q: int|
                        0 <= q < k + 1 && cios_of(rows@, row_key(#[trigger] rows@[q])).len()
                            > 1 implies exists|i: int|
                        0 <= i < out@.len() && ambiguous_key(out@[i]) == row_key(rows@[q]) by {
                        if q == k {
                            assert(ambiguous_key(out@[p as int]) == row_key(rows@[q]));
                        } else {
                            let i = choose|i: int|
                                0 <= i < old_out.len() && ambiguous_key(old_out[i]) == row_key(
                                    rows@[q],
                                );
                            if i < p {
                                assert(out@[i] == old_out[i]);
                            } else {
                                assert(out@[i + 1] == old_out[i]);
                            }
                        }
                    }
                }
            }
        } else {
            proof {
                let w = choose|w: int| 0 <= w < k && row_key(#[trigger] rows@[w]) == key;
                assert forall|q: int|
                    0 <= q < k + 1 && cios_of(rows@, row_key(#[trigger] rows@[q])).len()
                        > 1 implies exists|i: int|
                    0 <= i < out@.len() && ambiguous_key(out@[i]) == row_key(rows@[q]) by {
                    if q == k {
                        assert(row_key(rows@[w]) == row_key(rows@[q]));
                    }
                }
            }
        }
        k = k + 1;
    }
    out
}

/// A raw row as the completeness query returns it, before the typed view.
#[derive(Debug, Clone, PartialEq, Eq)]
pub struct RowRaw {
    pub aio_kind: String,
    pub platform_node: String,
    pub platform_label: Option<String>,
    pub form_factor_node: String,
    pub form_factor_label: Option<String>,
    pub interaction_class_node: String,
    pub interaction_class_label: Option<String>,
    pub cio: String,
}

/// Why reification rows could not be had.
#[derive(Debug, Clone, PartialEq, Eq)]
pub enum ReificationError {
    MissingField(String),
    /// The fetching query failed, with its message.
    Query(String),
    DuplicateRow(String),
    IncompleteRow(String),
}

/// The error a raw row with an empty context node gives, or none.
pub open spec fn missing_field(raw: RowRaw) -> Option<Seq<char>> {
    if raw.platform_node@.len() == 0 {
        Some("platform"@)
    } else if raw.form_factor_node@.len() == 0 {
        Some("form_factor"@)
    } else if raw.interaction_class_node@.len() == 0 {
        Some("interaction_class"@)
    } else {
        None
    }
}

impl ReificationRow {
    /// The typed view of a raw row: every context node must be present
    /// (the first missing one is reported); labels are kept as fetched.
    pub fn try_from_raw(raw: RowRaw) -> (r: Result<ReificationRow, ReificationError>)
        ensures
            match r {
                Ok(row) => missing_field(raw) is None && row.aio_kind == raw.aio_kind && row.cio
                    == raw.cio && row.platform == (NodeRef {
                    node: raw.platform_node,
                    label: raw.platform_label,
                }) && row.form_factor == (NodeRef {
                    node: raw.form_factor_node,
                    label: raw.form_factor_label,
                }) && row.interaction_class == (NodeRef {
                    node: raw.interaction_class_node,
                    label: raw.interaction_class_label,
                }),
                Err(ReificationError::MissingField(f)) => missing_field(raw) == Some(f@),
                Err(_) => false,
            },
    {
        if raw.platform_node.as_str().unicode_len() == 0 {
            return Err(ReificationError::MissingField(String::from_str("platform")));
        }
        if raw.form_factor_node.as_str().unicode_len() == 0 {
            return Err(ReificationError::MissingField(String::from_str("form_factor")));
        }
        if raw.interaction_class_node.as_str().unicode_len() == 0 {
            return Err(ReificationError::MissingField(String::from_str("interaction_class")));
        }
        Ok(
            ReificationRow {
                aio_kind: raw.aio_kind,
                platform: NodeRef { node: raw.platform_node, label: raw.platform_label },
                form_factor: NodeRef { node: raw.form_factor_node, label: raw.form_factor_label },
                interaction_class: NodeRef {
                    node: raw.interaction_class_node,
                    label: raw.interaction_class_label,
                },
                cio: raw.cio,
            },
        )
    }
}

/// Reason law: an aio with no binding row is reported `CapabilityAbsent`
/// exactly when some platform declares the capability its kind names (the
/// kind lower-cased) and no entry for the aio's own platform declares it —
/// whatever the order of the entries and however many there are for one
/// platform; otherwise the catalog lacks a binding for the context.
pub proof fn lemma_capability_absent_law(caps: Seq<(NodeRef, Vec<String>)>, aio: IntentAio)
    ensures
        (missing_reason(caps, aio) == UnreifiableReason::CapabilityAbsent) <==> ((exists|i: int|
            0 <= i < caps.len() && views((#[trigger] caps[i]).1@).contains(lowercase(aio.0@)))
            && forall|i: int|
            0 <= i < caps.len() && (#[trigger] caps[i]).0.node@ == aio.1@.node ==> !views(
                caps[i].1@,
            ).contains(lowercase(aio.0@))),
        missing_reason(caps, aio) != UnreifiableReason::CapabilityAbsent ==> missing_reason(caps, aio)
            == UnreifiableReason::NoBindingForContext,
{
}

} // verus!
