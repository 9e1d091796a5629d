//! The run recorder: each load attempt is a PROV-O activity generating an
//! entity, its verdict appended to the run graph `loom:g/runs/<id>`, and the
//! catalog record (load status and provenance) rides in the same write.
use vstd::prelude::*;

use crate::bundle::{BundleLoadRequest, ProvenanceRecord};
use crate::graph::{iri_spec, qname_spec, NamedGraph};
use crate::ontology::{GRAPH_NS, LOOM_NS, PROV_NS, RDF_NS, RUN_NS, XSD_NS};
use crate::rdf::{copy_term, quad_views, Quad, QuadView, Term, TermView};
use crate::text::{chars_of, concat, decimal, decimal_exec, decimal_u128};

verus! {

/// Whether a character is an ASCII letter or digit.
pub open spec fn is_ascii_alnum(c: char) -> bool {
    ('0' <= c <= '9') || ('a' <= c <= 'z') || ('A' <= c <= 'Z')
}

/// A path with every character that is not an ASCII letter or digit
/// replaced by `-`.
pub open spec fn sanitize_spec(s: Seq<char>) -> Seq<char> {
    s.map_values(|c: char| if is_ascii_alnum(c) { c } else { '-' })
}

/// A path made safe for an identifier.
pub fn sanitize(path: &str) -> (r: String)
    ensures
        r@ == sanitize_spec(path@),
{
    proof {
        reveal_strlit("-");
    }
    let cs = chars_of(path);
    let mut out = String::new();
    let mut i: usize = 0;
    while i < cs.len()
        invariant
            cs@ == path@,
            i <= cs@.len(),
            out@ == sanitize_spec(path@.take(i as int)),
        decreases cs@.len() - i,
    {
        let c = cs[i];
        if ('0' <= c && c <= '9') || ('a' <= c && c <= 'z') || ('A' <= c && c <= 'Z') {
            let piece = path.substring_char(i, i + 1);
            assert(piece@ =~= seq![c]);
            out.append(piece);
        } else {
            proof {
                reveal_strlit("-");
            }
            out.append("-");
            assert("-"@ =~= seq!['-']);
        }
        assert(sanitize_spec(path@.take(i + 1)) =~= sanitize_spec(path@.take(i as int)).push(
            if is_ascii_alnum(c) { c } else { '-' },
        ));
        i = i + 1;
    }
    assert(path@.take(path@.len() as int) =~= path@);
    out
}

/// An IRI term.
pub open spec fn iri_v(s: Seq<char>) -> TermView {
    TermView::Iri(s)
}

/// A simple (string) literal term.
pub open spec fn lit_v(s: Seq<char>) -> TermView {
    TermView::Literal { value: s, datatype: XSD_NS@ + "string"@, language: None }
}

/// A quad.
pub open spec fn quad_v(s: TermView, p: Seq<char>, o: TermView, g: Seq<char>) -> QuadView {
    QuadView { subject: s, predicate: p, object: o, graph: g }
}

/// The run id of a load attempt at a time: the time in nanoseconds, `-`,
/// and the sanitized bundle path.
pub open spec fn run_id_spec(now_nanos: nat, path: Seq<char>) -> Seq<char> {
    decimal(now_nanos) + "-"@ + sanitize_spec(path)
}

/// The verdict literal.
pub open spec fn verdict_spec(validated: bool) -> Seq<char> {
    if validated {
        "conformant"@
    } else {
        "violated"@
    }
}

/// The quads linking violations `0..k` to the activity.
pub open spec fn violation_quads(
    activity: Seq<char>,
    run_id: Seq<char>,
    g: Seq<char>,
    violations: Seq<String>,
    k: int,
) -> Seq<QuadView>
    decreases k,
{
    if k <= 0 {
        Seq::empty()
    } else {
        let v = RUN_NS@ + "violation/"@ + run_id + "/"@ + decimal((k - 1) as nat);
        violation_quads(activity, run_id, g, violations, k - 1) + seq![
            quad_v(iri_v(activity), LOOM_NS@ + "violation"@, iri_v(v), g),
            quad_v(iri_v(v), LOOM_NS@ + "wire"@, lit_v(violations[k - 1]@), g),
        ]
    }
}

/// Every quad one load attempt records: the activity and entity in the run
/// graph, one pair per violation, then the catalog record.
pub open spec fn provenance_quads(
    req: BundleLoadRequest,
    graph: NamedGraph,
    validated: bool,
    violations: Seq<String>,
    triple_count: nat,
    now_nanos: nat,
    now_secs: nat,
) -> Seq<QuadView> {
    let run_id = run_id_spec(now_nanos, req.bundle_path@);
    let g = GRAPH_NS@ + "runs/"@ + run_id;
    let activity = RUN_NS@ + "activity/"@ + run_id;
    let entity = RUN_NS@ + "entity/"@ + run_id;
    let record = RUN_NS@ + "record/"@ + run_id;
    let cat = iri_spec(NamedGraph::Catalog);
    let ty = RDF_NS@ + "type"@;
    let verdict = verdict_spec(validated);
    seq![
        quad_v(iri_v(activity), ty, iri_v(PROV_NS@ + "Activity"@), g),
        quad_v(iri_v(activity), LOOM_NS@ + "check"@, lit_v("shacl-load-gate"@), g),
        quad_v(iri_v(activity), PROV_NS@ + "generated"@, iri_v(entity), g),
        quad_v(iri_v(activity), PROV_NS@ + "endedAtTime"@, lit_v(decimal(now_secs)), g),
        quad_v(iri_v(activity), LOOM_NS@ + "verdict"@, lit_v(verdict), g),
        quad_v(iri_v(entity), ty, iri_v(PROV_NS@ + "Entity"@), g),
        quad_v(iri_v(entity), LOOM_NS@ + "bundleId"@, lit_v(req.bundle_path@), g),
        quad_v(iri_v(entity), LOOM_NS@ + "artifactClass"@, lit_v(req.artifact_class@), g),
        quad_v(iri_v(entity), LOOM_NS@ + "source"@, lit_v(req.source@), g),
        quad_v(iri_v(entity), LOOM_NS@ + "version"@, lit_v(req.version@), g),
    ] + violation_quads(activity, run_id, g, violations, violations.len() as int) + seq![
        quad_v(iri_v(record), ty, iri_v(LOOM_NS@ + "BundleRecord"@), cat),
        quad_v(iri_v(record), LOOM_NS@ + "bundleId"@, lit_v(req.bundle_path@), cat),
        quad_v(iri_v(record), LOOM_NS@ + "artifactClass"@, lit_v(req.artifact_class@), cat),
        quad_v(iri_v(record), LOOM_NS@ + "namedGraph"@, lit_v(qname_spec(graph)), cat),
        quad_v(iri_v(record), LOOM_NS@ + "shaclStatus"@, lit_v(verdict), cat),
        quad_v(
            iri_v(record),
            LOOM_NS@ + "tripleCount"@,
            TermView::Literal { value: decimal(triple_count), datatype: XSD_NS@ + "integer"@, language: None },
            cat,
        ),
        quad_v(iri_v(record), LOOM_NS@ + "run"@, iri_v(activity), cat),
    ]
}

fn iri(s: &str) -> (r: Term)
    ensures
        r@ == iri_v(s@),
{
    Term::Iri(String::from_str(s))
}

fn lit(s: &str) -> (r: Term)
    ensures
        r@ == lit_v(s@),
{
    Term::Literal { value: String::from_str(s), datatype: concat(XSD_NS, "string"), language: None }
}

fn ns(base: &str, term: &str) -> (r: String)
    ensures
        r@ == base@ + term@,
{
    concat(base, term)
}

fn quad(s: &Term, p: String, o: Term, g: &str) -> (r: Quad)
    ensures
        r@ == quad_v(s@, p@, o@, g@),
{
    Quad { subject: copy_term(s), predicate: p, object: o, graph: String::from_str(g) }
}

fn push_quad(out: &mut Vec<Quad>, q: Quad)
    ensures
        quad_views(final(out)@) == quad_views(old(out)@).push(q@),
{
    out.push(q);
    assert(quad_views(out@) =~= quad_views(old(out)@).push(q@));
}

/// Build the provenance quads and the catalog record for one load attempt
/// made at the given time (nanoseconds and seconds since the epoch). The
/// caller owns the atomic write, so a conformant bundle and its record land
/// in one transaction.
pub fn record_load(
    request: &BundleLoadRequest,
    graph: &NamedGraph,
    validated: bool,
    violations: &Vec<String>,
    triple_count: usize,
    now_nanos: u128,
    now_secs: u64,
) -> (r: (ProvenanceRecord, Vec<Quad>))
    ensures
        r.0.activity_id@ == RUN_NS@ + "activity/"@ + run_id_spec(now_nanos as nat, request.bundle_path@),
        r.0.entity_id@ == RUN_NS@ + "entity/"@ + run_id_spec(now_nanos as nat, request.bundle_path@),
        r.0.generated_at@ == decimal(now_secs as nat),
        r.0.validated == validated,
        quad_views(r.1@) == provenance_quads(
            *request,
            *graph,
            validated,
            violations@,
            triple_count as nat,
            now_nanos as nat,
            now_secs as nat,
        ),
{
    let mut run_id = decimal_u128(now_nanos);
    run_id.append("-");
    run_id.append(sanitize(request.bundle_path.as_str()).as_str());
    let run_graph = NamedGraph::Run(run_id.clone());
    let g = run_graph.iri();
    let mut activity_id = concat(RUN_NS, "activity/");
    activity_id.append(run_id.as_str());
    let mut entity_id = concat(RUN_NS, "entity/");
    entity_id.append(run_id.as_str());
    let activity = iri(activity_id.as_str());
    let entity = iri(entity_id.as_str());
    let verdict = if validated {
        "conformant"
    } else {
        "violated"
    };
    let generated_at = decimal_exec(now_secs);
    let ty = ns(RDF_NS, "type");
    let mut quads: Vec<Quad> = Vec::new();
    push_quad(&mut quads, quad(&activity, ty.clone(), iri(ns(PROV_NS, "Activity").as_str()), g.as_str()));
    push_quad(&mut quads, quad(&activity, ns(LOOM_NS, "check"), lit("shacl-load-gate"), g.as_str()));
    push_quad(&mut quads, quad(&activity, ns(PROV_NS, "generated"), iri(entity_id.as_str()), g.as_str()));
    push_quad(&mut quads, quad(&activity, ns(PROV_NS, "endedAtTime"), lit(generated_at.as_str()), g.as_str()));
    push_quad(&mut quads, quad(&activity, ns(LOOM_NS, "verdict"), lit(verdict), g.as_str()));
    push_quad(&mut quads, quad(&entity, ty.clone(), iri(ns(PROV_NS, "Entity").as_str()), g.as_str()));
    push_quad(&mut quads, quad(&entity, ns(LOOM_NS, "bundleId"), lit(request.bundle_path.as_str()), g.as_str()));
    push_quad(&mut quads, quad(&entity, ns(LOOM_NS, "artifactClass"), lit(request.artifact_class.as_str()), g.as_str()));
    push_quad(&mut quads, quad(&entity, ns(LOOM_NS, "source"), lit(request.source.as_str()), g.as_str()));
    push_quad(&mut quads, quad(&entity, ns(LOOM_NS, "version"), lit(request.version.as_str()), g.as_str()));
    let ghost head = quad_views(quads@);
    let mut i: usize = 0;
    while i < violations.len()
        invariant
            i <= violations@.len(),
            run_id@ == run_id_spec(now_nanos as nat, request.bundle_path@),
            g@ == GRAPH_NS@ + "runs/"@ + run_id@,
            activity@ == iri_v(activity_id@),
            activity_id@ == RUN_NS@ + "activity/"@ + run_id@,
            quad_views(quads@) == head + violation_quads(activity_id@, run_id@, g@, violations@, i as int),
        decreases violations@.len() - i,
    {
        let mut v = concat(RUN_NS, "violation/");
        v.append(run_id.as_str());
        v.append("/");
        v.append(decimal_exec(i as u64).as_str());
        push_quad(&mut quads, quad(&activity, ns(LOOM_NS, "violation"), iri(v.as_str()), g.as_str()));
        push_quad(&mut quads, quad(&iri(v.as_str()), ns(LOOM_NS, "wire"), lit(violations[i].as_str()), g.as_str()));
        i = i + 1;
        assert(quad_views(quads@) =~= head + violation_quads(activity_id@, run_id@, g@, violations@, i as int));
    }
    let cat = NamedGraph::Catalog.iri();
    let mut record_id = concat(RUN_NS, "record/");
    record_id.append(run_id.as_str());
    let record = iri(record_id.as_str());
    let count = decimal_exec(triple_count as u64);
    push_quad(&mut quads, quad(&record, ty.clone(), iri(ns(LOOM_NS, "BundleRecord").as_str()), cat.as_str()));
    push_quad(&mut quads, quad(&record, ns(LOOM_NS, "bundleId"), lit(request.bundle_path.as_str()), cat.as_str()));
    push_quad(&mut quads, quad(&record, ns(LOOM_NS, "artifactClass"), lit(request.artifact_class.as_str()), cat.as_str()));
    push_quad(&mut quads, quad(&record, ns(LOOM_NS, "namedGraph"), lit(graph.qname().as_str()), cat.as_str()));
    push_quad(&mut quads, quad(&record, ns(LOOM_NS, "shaclStatus"), lit(verdict), cat.as_str()));
    push_quad(
        &mut quads,
        quad(
            &record,
            ns(LOOM_NS, "tripleCount"),
            Term::Literal { value: count, datatype: concat(XSD_NS, "integer"), language: None },
            cat.as_str(),
        ),
    );
    push_quad(&mut quads, quad(&record, ns(LOOM_NS, "run"), iri(activity_id.as_str()), cat.as_str()));
    assert(quad_views(quads@) =~= provenance_quads(
        *request,
        *graph,
        validated,
        violations@,
        triple_count as nat,
        now_nanos as nat,
        now_secs as nat,
    ));
    (
        ProvenanceRecord { activity_id, entity_id, generated_at, validated },
        quads,
    )
}

} // verus!
