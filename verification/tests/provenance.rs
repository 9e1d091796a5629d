use loom::bundle::BundleLoadRequest;
use loom::graph::NamedGraph;
use loom::provenance::{record_load, sanitize};
use loom::rdf::Term;

fn request() -> BundleLoadRequest {
    BundleLoadRequest {
        bundle_path: "bundles/tokens.jsonld".into(),
        artifact_class: "tokens".into(),
        source: "reference".into(),
        version: "1".into(),
    }
}

#[test]
fn sanitize_keeps_only_ascii_alphanumerics() {
    assert_eq!(sanitize("bundles/tokens.jsonld"), "bundles-tokens-jsonld");
    assert_eq!(sanitize("Ab9é z"), "Ab9--z");
    assert_eq!(sanitize(""), "");
}

#[test]
fn conformant_load_is_recorded() {
    let (record, quads) = record_load(
        &request(),
        &NamedGraph::Tokens,
        true,
        &vec![],
        42,
        1_700_000_000_123_456_789,
        1_700_000_000,
    );
    let run_id = "1700000000123456789-bundles-tokens-jsonld";
    assert_eq!(record.activity_id, format!("http://loom.dev/run/activity/{run_id}"));
    assert_eq!(record.entity_id, format!("http://loom.dev/run/entity/{run_id}"));
    assert_eq!(record.generated_at, "1700000000");
    assert!(record.validated);
    assert_eq!(quads.len(), 17);
    let run_graph = format!("http://loom.dev/g/runs/{run_id}");
    assert!(quads[..10].iter().all(|q| q.graph == run_graph));
    assert!(quads[10..].iter().all(|q| q.graph == "http://loom.dev/g/catalog"));
    assert_eq!(quads[4].predicate, "http://loom.dev/ns#verdict");
    assert!(matches!(&quads[4].object, Term::Literal { value, .. } if value == "conformant"));
    assert!(matches!(&quads[13].object, Term::Literal { value, .. } if value == "loom:g/tokens"));
    assert!(matches!(
        &quads[15].object,
        Term::Literal { value, datatype, .. } if value == "42" && datatype == "http://www.w3.org/2001/XMLSchema#integer"
    ));
}

#[test]
fn violations_ride_with_the_activity() {
    let violations = vec!["first".to_string(), "second".to_string()];
    let (record, quads) =
        record_load(&request(), &NamedGraph::Tokens, false, &violations, 0, 5, 0);
    assert!(!record.validated);
    assert_eq!(quads.len(), 21);
    assert!(matches!(&quads[4].object, Term::Literal { value, .. } if value == "violated"));
    assert_eq!(
        quads[10].object,
        Term::Iri("http://loom.dev/run/violation/5-bundles-tokens-jsonld/0".into())
    );
    assert!(matches!(&quads[13].object, Term::Literal { value, .. } if value == "second"));
}
