use loom::bundle::{decider_state_from_statuses, BundleError, BundleLoadOutcome, BundleLoadRequest};
use loom::decider::{decide, Decision, LoadBundleCommand, INV_BUNDLE_ALREADY_RESIDENT};
use loom::graph::NamedGraph;
use loom::load_gate::{
    gate_bundle, parse_against_pinned_context, parse_bundle_quads, pinned_context_value,
    place_in_graph, triples_of,
};
use loom::rdf::{Term, Triple};
use loom::shacl::{ShaclError, ShapeSet};

const SHAPES: &str = r#"
@prefix sh: <http://www.w3.org/ns/shacl#> .
@prefix ex: <http://example.com/> .
ex:MotionShape a sh:NodeShape ;
    sh:targetClass ex:Motion ;
    sh:property [ sh:path ex:fallback ; sh:minCount 1 ] .
"#;

const GOOD: &str = r#"{
  "@context": { "ex": "http://example.com/" },
  "@id": "ex:m1",
  "@type": "ex:Motion",
  "ex:fallback": "instant"
}"#;

const BAD: &str = r#"{
  "@context": { "ex": "http://example.com/" },
  "@id": "ex:m1",
  "@type": "ex:Motion"
}"#;

fn request() -> BundleLoadRequest {
    BundleLoadRequest {
        bundle_path: "bundles/motion.jsonld".into(),
        artifact_class: "motion".into(),
        source: "local".into(),
        version: "0.1.0".into(),
    }
}

#[test]
fn bundle_quads_land_in_the_class_graph() {
    let quads = parse_bundle_quads(GOOD, &NamedGraph::Motion).unwrap();
    assert_eq!(quads.len(), 2);
    assert!(quads.iter().all(|q| q.graph == "http://loom.dev/g/motion"));
    assert!(quads.iter().any(|q| q.predicate == "http://example.com/fallback"
        && q.object == Term::Literal {
            value: "instant".into(),
            datatype: "http://www.w3.org/2001/XMLSchema#string".into(),
            language: None,
        }));
}

#[test]
fn malformed_document_is_a_json_ld_error() {
    assert!(matches!(
        parse_bundle_quads("{ not json", &NamedGraph::Motion),
        Err(BundleError::JsonLd(_))
    ));
}

#[test]
fn conformant_bundle_is_written_with_its_record() {
    let shapes = ShapeSet::from_turtle(SHAPES).unwrap();
    let quads = parse_bundle_quads(GOOD, &NamedGraph::Motion).unwrap();
    let (outcome, writes) =
        gate_bundle(&request(), &NamedGraph::Motion, &shapes, quads.clone(), 7, 1).unwrap();
    match outcome {
        BundleLoadOutcome::Loaded(l) => {
            assert_eq!(l.named_graph, "loom:g/motion");
            assert_eq!(l.triple_count, 2);
            assert!(l.provenance.validated);
            assert_eq!(l.provenance.generated_at, "1");
        }
        other => panic!("expected a load, got {other:?}"),
    }
    assert_eq!(writes.len(), 2 + 17);
    assert_eq!(&writes[..2], &quads[..]);
}

#[test]
fn violating_bundle_writes_only_its_verdict() {
    let shapes = ShapeSet::from_turtle(SHAPES).unwrap();
    let quads = parse_bundle_quads(BAD, &NamedGraph::Motion).unwrap();
    let (outcome, writes) =
        gate_bundle(&request(), &NamedGraph::Motion, &shapes, quads, 7, 1).unwrap();
    match outcome {
        BundleLoadOutcome::Rejected(r) => {
            assert_eq!(r.bundle_id, "bundles/motion.jsonld");
            assert_eq!(
                r.shacl_violations,
                vec!["sh:MinCountConstraintComponent on <http://example.com/fallback> (focus http://example.com/m1): expected at least 1 value(s), found 0".to_string()]
            );
        }
        other => panic!("expected a rejection, got {other:?}"),
    }
    assert_eq!(writes.len(), 10 + 2 + 7);
    assert!(writes.iter().all(|q| q.graph != "http://loom.dev/g/motion"));
}

#[test]
fn broken_pattern_writes_nothing() {
    let ttl = r#"
@prefix sh: <http://www.w3.org/ns/shacl#> .
@prefix ex: <http://example.com/> .
ex:S a sh:NodeShape ; sh:targetClass ex:Motion ;
    sh:property [ sh:path ex:fallback ; sh:pattern "[" ] .
"#;
    let shapes = ShapeSet::from_turtle(ttl).unwrap();
    let quads = parse_bundle_quads(GOOD, &NamedGraph::Motion).unwrap();
    assert!(matches!(
        gate_bundle(&request(), &NamedGraph::Motion, &shapes, quads, 7, 1),
        Err(BundleError::Shapes(ShaclError::Pattern(_, _)))
    ));
}

#[test]
fn triples_and_quads_round_trip() {
    let ts = vec![Triple {
        subject: Term::Blank("b0".into()),
        predicate: "http://example.com/p".into(),
        object: Term::Iri("http://example.com/o".into()),
    }];
    let qs = place_in_graph(ts.clone(), &NamedGraph::Catalog);
    assert_eq!(qs[0].graph, "http://loom.dev/g/catalog");
    assert_eq!(triples_of(&qs), ts);
}

#[test]
fn language_tags_survive_parsing() {
    let doc = r#"{
  "@context": { "ex": "http://example.com/" },
  "@id": "ex:m1",
  "ex:label": { "@value": "fondu", "@language": "fr" }
}"#;
    let quads = parse_bundle_quads(doc, &NamedGraph::Motion).unwrap();
    assert_eq!(quads.len(), 1);
    assert_eq!(
        quads[0].object,
        Term::Literal {
            value: "fondu".into(),
            datatype: "http://www.w3.org/1999/02/22-rdf-syntax-ns#langString".into(),
            language: Some("fr".into()),
        }
    );
}

#[test]
fn a_recorded_conformant_load_refuses_the_next_load() {
    let shapes = ShapeSet::from_turtle(SHAPES).unwrap();
    let quads = parse_bundle_quads(GOOD, &NamedGraph::Motion).unwrap();
    let (_, writes) = gate_bundle(&request(), &NamedGraph::Motion, &shapes, quads, 9, 1).unwrap();
    let statuses: Vec<String> = writes
        .iter()
        .filter(|q| q.graph == "http://loom.dev/g/catalog" && q.predicate == "http://loom.dev/ns#shaclStatus")
        .map(|q| match &q.object {
            Term::Literal { value, .. } => value.clone(),
            other => panic!("status is a literal, got {other:?}"),
        })
        .collect();
    assert_eq!(statuses, vec!["conformant".to_string()]);
    let state = decider_state_from_statuses(&statuses, "bundles/motion.jsonld");
    let command = LoadBundleCommand {
        bundle_path: "bundles/motion.jsonld".into(),
        artifact_class: "motion".into(),
    };
    assert_eq!(decide(&state, &command), Decision::Reject(INV_BUNDLE_ALREADY_RESIDENT));
}

#[test]
fn a_carried_context_is_replaced_by_the_pinned_one() {
    let pinned = r#"{"ex": "http://example.com/"}"#;
    let raw = r#"{"@context": {"ex": "http://elsewhere.example/"}, "@id": "ex:m1", "ex:fallback": "instant"}"#;
    let quads = parse_against_pinned_context(raw, pinned, &NamedGraph::Motion).unwrap();
    assert_eq!(quads.len(), 1);
    assert_eq!(quads[0].subject, Term::Iri("http://example.com/m1".into()));
    assert_eq!(quads[0].predicate, "http://example.com/fallback");
    assert_eq!(quads[0].graph, "http://loom.dev/g/motion");
}

#[test]
fn a_bundle_that_is_not_an_object_is_refused() {
    let pinned = r#"{"ex": "http://example.com/"}"#;
    assert!(matches!(
        parse_against_pinned_context("[1, 2]", pinned, &NamedGraph::Motion),
        Err(BundleError::JsonLd(_))
    ));
}

#[test]
fn the_pinned_context_is_read_from_its_document() {
    assert_eq!(
        pinned_context_value(r#"{"x": 1, "@context": {"loom": "http://loom.dev/ns#"}}"#),
        Ok(r#"{"loom":"http://loom.dev/ns#"}"#.to_string())
    );
    assert!(matches!(pinned_context_value(r#"{"x": 1}"#), Err(BundleError::JsonLd(_))));
}
