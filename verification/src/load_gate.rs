//! The load gate: a bundle document is parsed into quads of its class's
//! graph and validated against the class's shapes. A bundle with any
//! violation is rejected fail-closed — only the verdict is written — and a
//! conformant bundle is written whole, with its catalog record and run, in
//! one write.
use vstd::prelude::*;

use oxigraph::io::{JsonLdProfileSet, RdfFormat, RdfParser};
use oxigraph::model::Term::{BlankNode, Literal, NamedNode};

use crate::bundle::{decider_state_spec, BundleError, BundleLoadOutcome, BundleLoadRequest, BundleLoaded, BundleRejected};
use crate::decider::{decide_spec, DecisionView, INV_BUNDLE_ALREADY_RESIDENT};
use crate::graph::{artifact_class_spec, from_artifact_class_spec, iri_spec, qname_spec, NamedGraph};
use crate::ontology::{GRAPH_NS, LOOM_NS, RUN_NS};
use crate::provenance::{lit_v, provenance_quads, record_load, run_id_spec, violation_quads};
use crate::rdf::{canonical, CanonicalTriple, copy_term, quad_views, Quad, Term, Triple};
use crate::shacl::{all_fail, all_violations, by_wire, shapes_error, pattern_error, violation_views, wire_spec, ShapeSet, ViolationView};
use crate::text::{concat, decimal, str_eq, views};

verus! {

/// The triples oxigraph's JSON-LD parser reads from a document, in the
/// order it yields them, graph names dropped and blank nodes renumbered by
/// first appearance; `None` when it refuses the document.
pub uninterp spec fn jsonld_triples(doc: Seq<char>) -> Option<Seq<CanonicalTriple>>;

/// oxigraph's JSON-LD parser (`RdfParser::for_slice` over `RdfFormat::JsonLd`
/// with no profile), each quad converted to a library triple, its graph
/// name dropped. The parser is a deterministic function of the text except
/// for the labels it draws for blank nodes: it keeps a label written in the
/// document and draws a fresh random one for each anonymous node, one label
/// per node. So the contract names the triples with blank nodes renumbered
/// by first appearance, taking the labels to be one-to-one. A parse error
/// is carried as its display text.
#[verifier::external_body]
fn parse_jsonld(doc: &str) -> (r: Result<Vec<Triple>, String>)
    ensures
        match r {
            Ok(ts) => jsonld_triples(doc@) == Some(canonical(ts@)),
            Err(_) => jsonld_triples(doc@) is None,
        },
{
    let term = |t| match t {
        NamedNode(n) => Term::Iri(n.into_string()),
        BlankNode(b) => Term::Blank(b.into_string()),
        Literal(l) => Term::Literal {
            value: l.value().to_string(),
            datatype: l.datatype().as_str().to_string(),
            language: l.language().map(str::to_string),
        },
    };
    RdfParser::from_format(RdfFormat::JsonLd { profile: JsonLdProfileSet::empty() }).for_slice(doc.as_bytes())
        .map(|q| q.map(|q| Triple { subject: term(q.subject.into()), predicate: q.predicate.into_string(), object: term(q.object) }))
        .collect::<Result<_, _>>()
        .map_err(|e| e.to_string())
}

/// The triple a quad carries, its graph dropped.
pub open spec fn triple_of(q: Quad) -> Triple {
    Triple { subject: q.subject, predicate: q.predicate, object: q.object }
}

/// The triples a sequence of quads carries.
pub open spec fn triples_spec(qs: Seq<Quad>) -> Seq<Triple> {
    qs.map_values(|q: Quad| triple_of(q))
}

/// Whether quad `q` carries triple `t` in the graph named `g`.
pub open spec fn placed(q: Quad, t: Triple, g: Seq<char>) -> bool {
    q.subject == t.subject && q.predicate == t.predicate && q.object == t.object && q.graph@ == g
}

/// The triples of quads, in order.
pub fn triples_of(qs: &Vec<Quad>) -> (r: Vec<Triple>)
    ensures
        r@ == triples_spec(qs@),
{
    let mut out: Vec<Triple> = Vec::new();
    let mut k: usize = 0;
    while k < qs.len()
        invariant
            k <= qs@.len(),
            out@ == triples_spec(qs@.take(k as int)),
        decreases qs@.len() - k,
    {
        let q = &qs[k];
        out.push(
            Triple {
                subject: copy_term(&q.subject),
                predicate: q.predicate.clone(),
                object: copy_term(&q.object),
            },
        );
        assert(triples_spec(qs@.take(k + 1)) =~= triples_spec(qs@.take(k as int)).push(
            triple_of(qs@[k as int]),
        ));
        k = k + 1;
    }
    assert(qs@.take(qs@.len() as int) =~= qs@);
    out
}

/// Place triples in a named graph: each becomes a quad of the graph, in order.
pub fn place_in_graph(ts: Vec<Triple>, graph: &NamedGraph) -> (r: Vec<Quad>)
    ensures
        r@.len() == ts@.len(),
        forall|i: int| 0 <= i < ts@.len() ==> placed(#[trigger] r@[i], ts@[i], iri_spec(*graph)),
{
    let g = graph.iri();
    let mut out: Vec<Quad> = Vec::new();
    let mut k: usize = 0;
    while k < ts.len()
        invariant
            k <= ts@.len(),
            g@ == iri_spec(*graph),
            out@.len() == k,
            forall|i: int| 0 <= i < k ==> placed(#[trigger] out@[i], ts@[i], g@),
        decreases ts@.len() - k,
    {
        let t = &ts[k];
        out.push(
            Quad {
                subject: copy_term(&t.subject),
                predicate: t.predicate.clone(),
                object: copy_term(&t.object),
                graph: g.clone(),
            },
        );
        k = k + 1;
    }
    out
}

/// Whether `r` is what parsing JSON-LD document `doc` into quads of the
/// graph `g` gives: the parser's triples, in order and up to the labels of
/// their blank nodes, each placed in `g`; a JSON-LD error when the parser
/// refuses the document.
pub open spec fn quads_read(r: Result<Vec<Quad>, BundleError>, doc: Seq<char>, g: NamedGraph) -> bool {
    match r {
        Ok(qs) => jsonld_triples(doc) == Some(canonical(triples_spec(qs@))) && forall|i: int|
            0 <= i < qs@.len() ==> (#[trigger] qs@[i]).graph@ == iri_spec(g),
        Err(e) => e is JsonLd && jsonld_triples(doc) is None,
    }
}

/// Parse a bundle document — JSON-LD whose context is already pinned — into
/// quads of the bundle's graph: the parser's triples, in order, each placed
/// in `graph` whatever graph the document names. A document the parser
/// refuses is a JSON-LD error.
pub fn parse_bundle_quads(document: &str, graph: &NamedGraph) -> (r: Result<Vec<Quad>, BundleError>)
    ensures
        quads_read(r, document@, *graph),
{
    match parse_jsonld(document) {
        Err(m) => Err(BundleError::JsonLd(m)),
        Ok(ts) => {
            let qs = place_in_graph(ts, graph);
            assert forall|i: int| 0 <= i < qs@.len() implies (#[trigger] qs@[i]).graph@ == iri_spec(*graph) by {
                assert(placed(qs@[i], ts@[i], iri_spec(*graph)));
            }
            assert(triples_spec(qs@) =~= ts@) by {
                assert forall|i: int| 0 <= i < ts@.len() implies triples_spec(qs@)[i] == ts@[i] by {
                    assert(placed(qs@[i], ts@[i], iri_spec(*graph)));
                }
            }
            Ok(qs)
        },
    }
}

/// The members of the JSON object a text holds, each as the JSON text of
/// its key and the JSON text of its value, in the order serde_json's map
/// keeps them; `None` when the text is not a JSON object.
pub uninterp spec fn json_members(raw: Seq<char>) -> Option<Seq<(Seq<char>, Seq<char>)>>;

/// The values of a list of members.
pub open spec fn member_views(m: Seq<(String, String)>) -> Seq<(Seq<char>, Seq<char>)> {
    m.map_values(|p: (String, String)| (p.0@, p.1@))
}

/// `serde_json::from_str` into a `serde_json::Map`, each member converted
/// to the JSON text of its key and of its value (`Value::to_string`). The
/// result is a function of the text, which the contract names. A text that
/// is not a JSON object is an error, carried as its display text.
#[verifier::external_body]
fn json_object_members(raw: &str) -> (r: Result<Vec<(String, String)>, String>)
    ensures
        match r {
            Ok(m) => json_members(raw@) == Some(member_views(m@)),
            Err(_) => json_members(raw@) is None,
        },
{
    serde_json::from_str::<serde_json::Map<String, serde_json::Value>>(raw)
        .map(|m| m.iter().map(|(k, v)| (serde_json::Value::from(k.as_str()).to_string(), v.to_string())).collect())
        .map_err(|e| e.to_string())
}

/// The JSON text of the key `@context`.
pub open spec fn context_key() -> Seq<char> {
    "\"@context\""@
}

/// The members from `k` on, as JSON text, each preceded by a comma, every
/// `@context` member left out.
pub open spec fn members_text(m: Seq<(Seq<char>, Seq<char>)>, k: int) -> Seq<char>
    decreases m.len() - k,
{
    if k < 0 || k >= m.len() {
        Seq::empty()
    } else if m[k].0 == context_key() {
        members_text(m, k + 1)
    } else {
        ","@ + m[k].0 + ":"@ + m[k].1 + members_text(m, k + 1)
    }
}

/// A bundle object with its context pinned: the pinned context first, then
/// every other member of the bundle; a context the bundle carries is
/// dropped.
pub open spec fn pinned_doc(m: Seq<(Seq<char>, Seq<char>)>, context: Seq<char>) -> Seq<char> {
    "{"@ + context_key() + ":"@ + context + members_text(m, 0) + "}"@
}

/// The value of the first member with key text `key`.
pub open spec fn member_value(m: Seq<(Seq<char>, Seq<char>)>, key: Seq<char>, k: int) -> Option<Seq<char>>
    decreases m.len() - k,
{
    if k < 0 || k >= m.len() {
        None
    } else if m[k].0 == key {
        Some(m[k].1)
    } else {
        member_value(m, key, k + 1)
    }
}

fn pinned_document(members: &Vec<(String, String)>, context: &str) -> (r: String)
    ensures
        r@ == pinned_doc(member_views(members@), context@),
{
    let ghost m = member_views(members@);
    let mut tail = String::new();
    let mut k = members.len();
    while k > 0
        invariant
            k <= members@.len(),
            m == member_views(members@),
            tail@ == members_text(m, k as int),
        decreases k,
    {
        k = k - 1;
        if !str_eq(members[k].0.as_str(), "\"@context\"") {
            let mut piece = concat(",", members[k].0.as_str());
            piece.append(":");
            piece.append(members[k].1.as_str());
            piece.append(tail.as_str());
            tail = piece;
        }
        proof {
            reveal_strlit("\"@context\"");
        }
    }
    let mut r = concat("{\"@context\":", context);
    r.append(tail.as_str());
    r.append("}");
    proof {
        reveal_strlit("{\"@context\":");
        reveal_strlit("{");
        reveal_strlit(":");
        reveal_strlit("\"@context\"");
        assert("{\"@context\":"@ =~= "{"@ + context_key() + ":"@);
    }
    r
}

/// The pinned context: the value of the `@context` member of the pinned
/// context document, as JSON text. A document that is not a JSON object,
/// or has no `@context` member, is a JSON-LD error.
pub fn pinned_context_value(context_doc: &str) -> (r: Result<String, BundleError>)
    ensures
        match json_members(context_doc@) {
            None => r matches Err(BundleError::JsonLd(_)),
            Some(m) => match member_value(m, context_key(), 0) {
                None => r matches Err(BundleError::JsonLd(_)),
                Some(v) => r matches Ok(c) && c@ == v,
            },
        },
{
    match json_object_members(context_doc) {
        Err(e) => Err(BundleError::JsonLd(e)),
        Ok(members) => {
            let ghost m = member_views(members@);
            let mut k: usize = 0;
            while k < members.len()
                invariant
                    k <= members@.len(),
                    m == member_views(members@),
                    json_members(context_doc@) == Some(m),
                    member_value(m, context_key(), 0) == member_value(m, context_key(), k as int),
                decreases members@.len() - k,
            {
                proof {
                    reveal_strlit("\"@context\"");
                }
                if str_eq(members[k].0.as_str(), "\"@context\"") {
                    assert(m[k as int] == (members@[k as int].0@, members@[k as int].1@));
                    assert(m[k as int].0 == context_key());
                    assert(member_value(m, context_key(), k as int) == Some(m[k as int].1));
                    let v = members[k].1.clone();
                    assert(v@ == m[k as int].1);
                    return Ok(v);
                }
                assert(m[k as int] == (members@[k as int].0@, members@[k as int].1@));
                k = k + 1;
            }
            Err(BundleError::JsonLd(String::from_str("pinned context has no @context key")))
        },
    }
}

/// Expand a bundle document against the pinned context: any context the
/// document carries is replaced, never trusted, and the result is parsed
/// into quads of the bundle's named graph. A bundle that is not a JSON
/// object, or that the JSON-LD parser refuses, is a JSON-LD error.
pub fn parse_against_pinned_context(raw: &str, context: &str, graph: &NamedGraph) -> (r: Result<
    Vec<Quad>,
    BundleError,
>)
    ensures
        match json_members(raw@) {
            None => r matches Err(BundleError::JsonLd(_)),
            Some(m) => quads_read(r, pinned_doc(m, context@), *graph),
        },
{
    match json_object_members(raw) {
        Err(e) => Err(BundleError::JsonLd(e)),
        Ok(members) => {
            let doc = pinned_document(&members, context);
            parse_bundle_quads(doc.as_str(), graph)
        },
    }
}

/// The violations the shapes find in the quads' triples.
pub open spec fn gate_violations(quads: Seq<Quad>, shapes: Seq<crate::shacl::NodeShapeView>) -> Seq<ViolationView> {
    all_violations(triples_spec(quads), shapes, shapes.len() as int)
}

/// Whether applying the shapes to the quads' triples fails.
pub open spec fn gate_fails(quads: Seq<Quad>, shapes: Seq<crate::shacl::NodeShapeView>) -> bool {
    all_fail(triples_spec(quads), shapes, shapes.len() as int)
}

/// The wire forms of violations, in order.
pub open spec fn wire_forms(vs: Seq<ViolationView>) -> Seq<Seq<char>> {
    vs.map_values(|v: ViolationView| wire_spec(v))
}

/// The wire forms of the violations the shapes find in the quads'
/// triples, in wire order.
pub open spec fn gate_wires(quads: Seq<Quad>, shapes: Seq<crate::shacl::NodeShapeView>) -> Seq<Seq<char>> {
    wire_forms(by_wire(gate_violations(quads, shapes), gate_violations(quads, shapes).len() as int))
}

/// The load gate on a parsed bundle, loaded at the given time: validate its
/// quads against the class's shapes. With no violation, the outcome is the
/// load and the write is the bundle's quads followed by the record of a
/// validated load. With any violation, the outcome is the rejection, naming
/// the violations in wire order, and the write is the record of a violated
/// load alone — no quad of the bundle. A shape whose pattern the regex crate
/// rejects is a shapes error, and nothing is written.
pub fn gate_bundle(
    request: &BundleLoadRequest,
    graph: &NamedGraph,
    shapes: &ShapeSet,
    quads: Vec<Quad>,
    now_nanos: u128,
    now_secs: u64,
) -> (r: Result<(BundleLoadOutcome, Vec<Quad>), BundleError>)
    ensures
        match r {
            Err(e) => gate_fails(quads@, shapes@) && (e matches BundleError::Shapes(se) && pattern_error(se)
                && shapes_error(triples_spec(quads@), shapes@, se)),
            Ok((BundleLoadOutcome::Loaded(l), writes)) => {
                &&& !gate_fails(quads@, shapes@)
                &&& gate_violations(quads@, shapes@).len() == 0
                &&& l.bundle_id == request.bundle_path
                &&& l.artifact_class == request.artifact_class
                &&& l.named_graph@ == qname_spec(*graph)
                &&& l.triple_count == quads@.len()
                &&& l.provenance.activity_id@ == RUN_NS@ + "activity/"@ + run_id_spec(
                    now_nanos as nat,
                    request.bundle_path@,
                )
                &&& l.provenance.entity_id@ == RUN_NS@ + "entity/"@ + run_id_spec(
                    now_nanos as nat,
                    request.bundle_path@,
                )
                &&& l.provenance.generated_at@ == decimal(now_secs as nat)
                &&& l.provenance.validated
                &&& quad_views(writes@) == quad_views(quads@) + provenance_quads(
                    *request,
                    *graph,
                    true,
                    Seq::empty(),
                    quads@.len() as nat,
                    now_nanos as nat,
                    now_secs as nat,
                )
            },
            Ok((BundleLoadOutcome::Rejected(rj), writes)) => {
                &&& !gate_fails(quads@, shapes@)
                &&& gate_violations(quads@, shapes@).len() > 0
                &&& rj.bundle_id == request.bundle_path
                &&& rj.artifact_class == request.artifact_class
                &&& views(rj.shacl_violations@) == gate_wires(quads@, shapes@)
                &&& quad_views(writes@) == provenance_quads(
                    *request,
                    *graph,
                    false,
                    rj.shacl_violations@,
                    0,
                    now_nanos as nat,
                    now_secs as nat,
                )
            },
        },
{
    let triples = triples_of(&quads);
    let violations = match shapes.validate(&triples) {
        Err(e) => {
            return Err(BundleError::Shapes(e));
        },
        Ok(v) => v,
    };
    let ghost found = violation_views(violations@);
    proof {
        found.to_multiset_ensures();
        gate_violations(quads@, shapes@).to_multiset_ensures();
    }
    if violations.len() > 0 {
        let mut wire: Vec<String> = Vec::new();
        let mut k: usize = 0;
        while k < violations.len()
            invariant
                k <= violations@.len(),
                found == violation_views(violations@),
                views(wire@) == found.take(k as int).map_values(|v: ViolationView| wire_spec(v)),
            decreases violations@.len() - k,
        {
            let w = violations[k].wire();
            wire.push(w);
            assert(found.take(k + 1).map_values(|v: ViolationView| wire_spec(v)) =~= found.take(
                k as int,
            ).map_values(|v: ViolationView| wire_spec(v)).push(wire_spec(found[k as int])));
            assert(views(wire@) =~= found.take(k as int).map_values(|v: ViolationView| wire_spec(v)).push(
                wire_spec(found[k as int]),
            ));
            k = k + 1;
        }
        assert(found.take(found.len() as int) =~= found);
        assert(wire_forms(found) == views(wire@));
        let (_, writes) = record_load(request, graph, false, &wire, 0, now_nanos, now_secs);
        let outcome = BundleLoadOutcome::Rejected(
            BundleRejected {
                bundle_id: request.bundle_path.clone(),
                artifact_class: request.artifact_class.clone(),
                shacl_violations: wire,
            },
        );
        return Ok((outcome, writes));
    }
    let triple_count = quads.len();
    let no_violations: Vec<String> = Vec::new();
    let (record, record_quads) = record_load(
        request,
        graph,
        true,
        &no_violations,
        triple_count,
        now_nanos,
        now_secs,
    );
    assert(no_violations@ =~= Seq::<String>::empty());
    let ghost record_views = quad_views(record_quads@);
    let mut writes = quads;
    let ghost bundle_views = quad_views(writes@);
    let mut tail = record_quads;
    writes.append(&mut tail);
    assert(quad_views(writes@) =~= bundle_views + record_views);
    let outcome = BundleLoadOutcome::Loaded(
        BundleLoaded {
            bundle_id: request.bundle_path.clone(),
            artifact_class: request.artifact_class.clone(),
            named_graph: graph.qname(),
            triple_count,
            provenance: record,
        },
    );
    Ok((outcome, writes))
}

/// A run graph or the catalog is never an artifact-class graph.
proof fn lemma_record_graphs_are_not_class_graphs(id: Seq<char>, g: NamedGraph)
    requires
        artifact_class_spec(g) is Some,
    ensures
        GRAPH_NS@ + "runs/"@ + id != iri_spec(g),
        iri_spec(NamedGraph::Catalog) != iri_spec(g),
{
    reveal_strlit("runs/");
    reveal_strlit("catalog");
    reveal_strlit("tokens");
    reveal_strlit("machines");
    reveal_strlit("reification");
    reveal_strlit("motion");
    reveal_strlit("mode-contracts");
    let n: int = GRAPH_NS@.len() as int;
    let run = GRAPH_NS@ + "runs/"@ + id;
    let class = iri_spec(g);
    assert(run[n + 1] == 'u');
    assert(class[n + 1] != 'u');
    assert(iri_spec(NamedGraph::Catalog)[n] == 'c');
    assert(class[n] != 'c');
}

/// Every violation quad lies in the run graph `g`.
proof fn lemma_violation_quads_graph(
    activity: Seq<char>,
    run_id: Seq<char>,
    g: Seq<char>,
    violations: Seq<String>,
    k: int,
)
    ensures
        forall|i: int|
            0 <= i < violation_quads(activity, run_id, g, violations, k).len() ==> (#[trigger] violation_quads(
                activity,
                run_id,
                g,
                violations,
                k,
            )[i]).graph == g,
    decreases k,
{
    if k > 0 {
        lemma_violation_quads_graph(activity, run_id, g, violations, k - 1);
    }
}

/// Fail-closed: the record of a violated load — all that a rejected bundle
/// writes — lies in the load's run graph and the catalog; not one quad of
/// it lands in the graph of the bundle's artifact class.
pub proof fn lemma_rejection_writes_nothing_into_the_class_graph(
    request: BundleLoadRequest,
    graph: NamedGraph,
    violations: Seq<String>,
    now_nanos: nat,
    now_secs: nat,
)
    requires
        artifact_class_spec(graph) is Some,
    ensures
        forall|i: int|
            0 <= i < provenance_quads(request, graph, false, violations, 0, now_nanos, now_secs).len()
                ==> (#[trigger] provenance_quads(
                request,
                graph,
                false,
                violations,
                0,
                now_nanos,
                now_secs,
            )[i]).graph != iri_spec(graph),
{
    let run_id = run_id_spec(now_nanos, request.bundle_path@);
    let g = GRAPH_NS@ + "runs/"@ + run_id;
    let activity = RUN_NS@ + "activity/"@ + run_id;
    lemma_record_graphs_are_not_class_graphs(run_id, graph);
    lemma_violation_quads_graph(activity, run_id, g, violations, violations.len() as int);
    let qs = provenance_quads(request, graph, false, violations, 0, now_nanos, now_secs);
    let vq = violation_quads(activity, run_id, g, violations, violations.len() as int);
    assert forall|i: int| 0 <= i < qs.len() implies (#[trigger] qs[i]).graph != iri_spec(graph) by {
        if 10 <= i < 10 + vq.len() {
            assert(qs[i] == vq[i - 10]);
        }
    }
}

/// A validated load leaves its trace in the catalog: among the quads it
/// writes, one record node of the catalog graph carries the bundle's id and
/// the status `conformant`.
pub proof fn lemma_validated_load_records_conformant(
    request: BundleLoadRequest,
    graph: NamedGraph,
    triple_count: nat,
    now_nanos: nat,
    now_secs: nat,
)
    ensures
        ({
            let qs = provenance_quads(request, graph, true, Seq::empty(), triple_count, now_nanos, now_secs);
            exists|i: int, j: int|
                0 <= i < qs.len() && 0 <= j < qs.len() && (#[trigger] qs[i]).subject == (#[trigger] qs[j]).subject
                    && qs[i].graph == iri_spec(NamedGraph::Catalog) && qs[j].graph == iri_spec(
                    NamedGraph::Catalog,
                ) && qs[i].predicate == LOOM_NS@ + "bundleId"@ && qs[i].object == lit_v(request.bundle_path@)
                    && qs[j].predicate == LOOM_NS@ + "shaclStatus"@ && qs[j].object == lit_v("conformant"@)
        }),
{
    let qs = provenance_quads(request, graph, true, Seq::empty(), triple_count, now_nanos, now_secs);
    let run_id = run_id_spec(now_nanos, request.bundle_path@);
    let g = GRAPH_NS@ + "runs/"@ + run_id;
    let activity = RUN_NS@ + "activity/"@ + run_id;
    assert(violation_quads(activity, run_id, g, Seq::<String>::empty(), 0) =~= Seq::<crate::rdf::QuadView>::empty());
    assert(qs[11].subject == qs[14].subject);
}

/// Write, then read: once the catalog records a conformant load of a
/// bundle — whatever else it records for it — the decider state read back
/// from the catalog makes the decider refuse to load that bundle again.
pub proof fn lemma_recorded_load_blocks_reload(statuses: Seq<Seq<char>>, path: Seq<char>, class: Seq<char>)
    requires
        statuses.contains("conformant"@),
        path.len() > 0,
        from_artifact_class_spec(class) is Some,
    ensures
        decide_spec(decider_state_spec(statuses, path), path, class) == DecisionView::Reject(
            INV_BUNDLE_ALREADY_RESIDENT@,
        ),
{
}

} // verus!
