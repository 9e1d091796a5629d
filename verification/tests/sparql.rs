use loom::graph::NamedGraph;
use loom::sparql::SparqlBuilder;

#[test]
fn iri_binding_replaces_every_placeholder() {
    let q = SparqlBuilder::from_query_file("SELECT * WHERE { $s ?p ?o . ?x ?y $s }")
        .bind_iri("s", "http://ex/a")
        .build();
    assert_eq!(q, "SELECT * WHERE { <http://ex/a> ?p ?o . ?x ?y <http://ex/a> }");
}

#[test]
fn graph_binding_uses_the_graph_iri() {
    let q = SparqlBuilder::from_query_file("GRAPH $g { ?s ?p ?o }")
        .bind_graph("g", &NamedGraph::Tokens)
        .build();
    assert_eq!(q, "GRAPH <http://loom.dev/g/tokens> { ?s ?p ?o }");
}

#[test]
fn string_binding_is_quoted_and_escaped() {
    let q = SparqlBuilder::from_query_file("FILTER(?name = $name)")
        .bind_str("name", "say \"hi\" \\o/")
        .build();
    assert_eq!(q, "FILTER(?name = \"say \\\"hi\\\" \\\\o/\")");
}

#[test]
fn query_without_placeholder_is_unchanged() {
    let q = SparqlBuilder::from_query_file("ASK { ?s ?p ?o }").bind_str("x", "v").build();
    assert_eq!(q, "ASK { ?s ?p ?o }");
}

#[test]
fn line_breaks_are_escaped_in_string_literals() {
    let q = SparqlBuilder::from_query_file("FILTER(?v = $v)").bind_str("v", "a\nb\rc").build();
    assert_eq!(q, "FILTER(?v = \"a\\nb\\rc\")");
}
