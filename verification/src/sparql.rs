//! Parameter binding for the maintained query files: the builder only
//! substitutes `$name` placeholders — it never assembles SPARQL text.
use vstd::prelude::*;

use crate::graph::{iri_spec, NamedGraph};
use crate::text::{concat, replace_all, replace_all_exec};

verus! {

/// Binds `$name` placeholders in a maintained query file.
#[derive(Debug, Clone, PartialEq, Eq)]
pub struct SparqlBuilder {
    query: String,
}

/// A placeholder: `$` and the parameter's name.
pub open spec fn placeholder(name: Seq<char>) -> Seq<char> {
    "$"@ + name
}

/// The body of a string literal for a value: backslashes, quotes, line
/// feeds and carriage returns escaped.
pub open spec fn escaped(value: Seq<char>) -> Seq<char> {
    replace_all(
        replace_all(replace_all(replace_all(value, "\\"@, "\\\\"@), "\""@, "\\\""@), "\n"@, "\\n"@),
        "\r"@,
        "\\r"@,
    )
}

/// A string literal for a value: quoted, its body escaped.
pub open spec fn quoted(value: Seq<char>) -> Seq<char> {
    "\""@ + escaped(value) + "\""@
}

impl View for SparqlBuilder {
    type V = Seq<char>;

    closed spec fn view(&self) -> Seq<char> {
        self.query@
    }
}

impl SparqlBuilder {
    /// Start from the contents of a query file.
    pub fn from_query_file(query: &str) -> (r: Self)
        ensures
            r@ == query@,
    {
        SparqlBuilder { query: String::from_str(query) }
    }

    /// Bind `$name` to an IRI (emitted as `<iri>`), everywhere it occurs.
    pub fn bind_iri(self, name: &str, iri: &str) -> (r: Self)
        ensures
            r@ == replace_all(self@, placeholder(name@), "<"@ + iri@ + ">"@),
    {
        let p = concat("$", name);
        let mut v = concat("<", iri);
        v.append(">");
        SparqlBuilder { query: replace_all_exec(self.query.as_str(), p.as_str(), v.as_str()) }
    }

    /// Bind `$name` to the IRI of a named graph.
    pub fn bind_graph(self, name: &str, graph: &NamedGraph) -> (r: Self)
        ensures
            r@ == replace_all(self@, placeholder(name@), "<"@ + iri_spec(*graph) + ">"@),
    {
        let iri = graph.iri();
        self.bind_iri(name, iri.as_str())
    }

    /// Bind `$name` to a string literal (quoted, with backslashes, quotes,
    /// line feeds and carriage returns escaped), everywhere it occurs.
    pub fn bind_str(self, name: &str, value: &str) -> (r: Self)
        ensures
            r@ == replace_all(self@, placeholder(name@), quoted(value@)),
    {
        let once = replace_all_exec(value, "\\", "\\\\");
        let twice = replace_all_exec(once.as_str(), "\"", "\\\"");
        let thrice = replace_all_exec(twice.as_str(), "\n", "\\n");
        let body = replace_all_exec(thrice.as_str(), "\r", "\\r");
        let p = concat("$", name);
        let mut v = concat("\"", body.as_str());
        v.append("\"");
        SparqlBuilder { query: replace_all_exec(self.query.as_str(), p.as_str(), v.as_str()) }
    }

    /// The bound query text.
    pub fn build(self) -> (r: String)
        ensures
            r@ == self@,
    {
        self.query
    }
}

} // verus!
