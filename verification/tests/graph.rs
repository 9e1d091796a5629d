use loom::graph::NamedGraph;
use loom::ontology::ARTIFACT_CLASSES;

#[test]
fn artifact_classes_round_trip() {
    for class in ARTIFACT_CLASSES {
        let g = NamedGraph::from_artifact_class(class).expect("known class resolves");
        assert_eq!(g.artifact_class(), Some(class));
        assert_eq!(g.qname(), format!("loom:g/{class}"));
    }
    assert_eq!(NamedGraph::from_artifact_class("styles"), None);
}

#[test]
fn run_graph_iri() {
    let g = NamedGraph::Run("r1".into());
    assert_eq!(g.iri(), "http://loom.dev/g/runs/r1");
    assert_eq!(g.qname(), "loom:g/runs/r1");
}

#[test]
fn catalog_graph_holds_no_artifact_class() {
    assert_eq!(NamedGraph::Catalog.artifact_class(), None);
    assert_eq!(NamedGraph::Run("r".into()).artifact_class(), None);
    assert_eq!(NamedGraph::Catalog.iri(), "http://loom.dev/g/catalog");
    assert_eq!(NamedGraph::Catalog.qname(), "loom:g/catalog");
    assert_eq!(NamedGraph::ModeContracts.iri(), "http://loom.dev/g/mode-contracts");
}

#[test]
fn class_names_are_case_sensitive() {
    assert_eq!(NamedGraph::from_artifact_class("Tokens"), None);
    assert_eq!(NamedGraph::from_artifact_class(""), None);
    assert_eq!(NamedGraph::from_artifact_class("catalog"), None);
}

#[test]
fn graph_reads_as_its_display_name() {
    assert_eq!(NamedGraph::Tokens.to_string(), "loom:g/tokens");
    assert_eq!(NamedGraph::Run("r9".into()).to_string(), "loom:g/runs/r9");
}
