//! Named graphs — one per artifact class, plus catalog records and run graphs.
use vstd::prelude::*;

use crate::ontology::GRAPH_NS;
use crate::text::{concat, str_eq};

verus! {

/// A named graph in the loom store. The five artifact-class graphs mirror the
/// known artifact classes; `Catalog` holds bundle load records and `Run`
/// holds provenance run graphs (`loom:g/runs/<id>`).
#[derive(Debug, Clone, PartialEq, Eq, Hash)]
pub enum NamedGraph {
    Tokens,
    Machines,
    Reification,
    Motion,
    ModeContracts,
    Catalog,
    Run(String),
}

/// The path segment naming a non-run graph.
pub open spec fn class_segment_spec(g: NamedGraph) -> Seq<char> {
    match g {
        NamedGraph::Tokens => "tokens"@,
        NamedGraph::Machines => "machines"@,
        NamedGraph::Reification => "reification"@,
        NamedGraph::Motion => "motion"@,
        NamedGraph::ModeContracts => "mode-contracts"@,
        NamedGraph::Catalog => "catalog"@,
        NamedGraph::Run(_) => Seq::empty(),
    }
}

/// The graph's IRI in the store.
pub open spec fn iri_spec(g: NamedGraph) -> Seq<char> {
    match g {
        NamedGraph::Run(id) => GRAPH_NS@ + "runs/"@ + id@,
        _ => GRAPH_NS@ + class_segment_spec(g),
    }
}

/// The graph's display name, e.g. `loom:g/tokens`.
pub open spec fn qname_spec(g: NamedGraph) -> Seq<char> {
    match g {
        NamedGraph::Run(id) => "loom:g/runs/"@ + id@,
        _ => "loom:g/"@ + class_segment_spec(g),
    }
}

/// The artifact class held by a graph, if it holds one.
pub open spec fn artifact_class_spec(g: NamedGraph) -> Option<Seq<char>> {
    match g {
        NamedGraph::Catalog => None,
        NamedGraph::Run(_) => None,
        _ => Some(class_segment_spec(g)),
    }
}

/// The graph an artifact class loads into; unknown classes have none.
pub open spec fn from_artifact_class_spec(class: Seq<char>) -> Option<NamedGraph> {
    if class == "tokens"@ {
        Some(NamedGraph::Tokens)
    } else if class == "machines"@ {
        Some(NamedGraph::Machines)
    } else if class == "reification"@ {
        Some(NamedGraph::Reification)
    } else if class == "motion"@ {
        Some(NamedGraph::Motion)
    } else if class == "mode-contracts"@ {
        Some(NamedGraph::ModeContracts)
    } else {
        None
    }
}

impl NamedGraph {
    /// The graph IRI in the store.
    pub fn iri(&self) -> (r: String)
        ensures
            r@ == iri_spec(*self),
    {
        match self {
            NamedGraph::Run(id) => {
                let base = concat(GRAPH_NS, "runs/");
                concat(base.as_str(), id.as_str())
            },
            _ => concat(GRAPH_NS, self.class_segment()),
        }
    }

    /// The display name used across event payloads, e.g. `loom:g/tokens`.
    pub fn qname(&self) -> (r: String)
        ensures
            r@ == qname_spec(*self),
    {
        match self {
            NamedGraph::Run(id) => concat("loom:g/runs/", id.as_str()),
            _ => concat("loom:g/", self.class_segment()),
        }
    }

    /// The display text of the graph: its display name.
    pub fn to_string(&self) -> (r: String)
        ensures
            r@ == qname_spec(*self),
    {
        self.qname()
    }

    /// The artifact class targeted by a bundle load, if this graph holds one.
    pub fn artifact_class(&self) -> (r: Option<&str>)
        ensures
            match r {
                Some(c) => artifact_class_spec(*self) == Some(c@),
                None => artifact_class_spec(*self) is None,
            },
    {
        match self {
            NamedGraph::Catalog => None,
            NamedGraph::Run(_) => None,
            _ => Some(self.class_segment()),
        }
    }

    /// Resolve an artifact class declared on a bundle to its target graph.
    /// Unknown classes return `None`; the caller must reject fail-closed.
    pub fn from_artifact_class(class: &str) -> (r: Option<NamedGraph>)
        ensures
            r == from_artifact_class_spec(class@),
    {
        if str_eq(class, "tokens") {
            Some(NamedGraph::Tokens)
        } else if str_eq(class, "machines") {
            Some(NamedGraph::Machines)
        } else if str_eq(class, "reification") {
            Some(NamedGraph::Reification)
        } else if str_eq(class, "motion") {
            Some(NamedGraph::Motion)
        } else if str_eq(class, "mode-contracts") {
            Some(NamedGraph::ModeContracts)
        } else {
            None
        }
    }

    fn class_segment(&self) -> (r: &str)
        requires
            !(*self is Run),
        ensures
            r@ == class_segment_spec(*self),
    {
        match self {
            NamedGraph::Tokens => "tokens",
            NamedGraph::Machines => "machines",
            NamedGraph::Reification => "reification",
            NamedGraph::Motion => "motion",
            NamedGraph::ModeContracts => "mode-contracts",
            NamedGraph::Catalog => "catalog",
            NamedGraph::Run(_) => "",
        }
    }
}

/// Artifact classes and their graphs correspond one to one: a graph that
/// holds an artifact class is the graph that class resolves to, and a class
/// that resolves to a graph is the class that graph holds.
pub proof fn lemma_artifact_class_round_trip(g: NamedGraph, class: Seq<char>)
    ensures
        artifact_class_spec(g) == Some(class) ==> from_artifact_class_spec(class) == Some(g),
        from_artifact_class_spec(class) == Some(g) ==> artifact_class_spec(g) == Some(class),
{
    reveal_strlit("tokens");
    reveal_strlit("machines");
    reveal_strlit("reification");
    reveal_strlit("motion");
    reveal_strlit("mode-contracts");
    assert("tokens"@.len() == 6 && "machines"@.len() == 8 && "reification"@.len() == 11);
    assert("motion"@.len() == 6 && "mode-contracts"@.len() == 14);
    assert("tokens"@[0] != "motion"@[0]);
}

/// Every graph that holds an artifact class is named `loom:g/<class>`.
pub proof fn lemma_qname_names_the_class(g: NamedGraph)
    ensures
        artifact_class_spec(g) matches Some(c) ==> qname_spec(g) == "loom:g/"@ + c,
{
}

} // verus!
