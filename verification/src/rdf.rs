//! The RDF data the library reasons over: terms and triples, with the
//! subject-and-predicate index that SHACL validation reads.
use vstd::prelude::*;

use crate::text::{concat, contains_str, decimal, opt_view, str_eq, views};

verus! {

/// An RDF term: an IRI, a blank node (by its label), or a literal.
#[derive(Debug, Clone, PartialEq, Eq)]
pub enum Term {
    Iri(String),
    Blank(String),
    /// A literal: its lexical value, its datatype IRI, and its language
    /// tag when it is a language-tagged string.
    Literal { value: String, datatype: String, language: Option<String> },
}

/// An RDF triple. Subjects are IRIs or blank nodes.
#[derive(Debug, Clone, PartialEq, Eq)]
pub struct Triple {
    pub subject: Term,
    pub predicate: String,
    pub object: Term,
}

/// An RDF quad: a triple placed in a named graph (by the graph's IRI).
#[derive(Debug, Clone, PartialEq, Eq)]
pub struct Quad {
    pub subject: Term,
    pub predicate: String,
    pub object: Term,
    pub graph: String,
}

/// The value of a term.
pub enum TermView {
    Iri(Seq<char>),
    Blank(Seq<char>),
    Literal { value: Seq<char>, datatype: Seq<char>, language: Option<Seq<char>> },
}

impl View for Term {
    type V = TermView;

    open spec fn view(&self) -> TermView {
        match self {
            Term::Iri(i) => TermView::Iri(i@),
            Term::Blank(b) => TermView::Blank(b@),
            Term::Literal { value, datatype, language } => TermView::Literal {
                value: value@,
                datatype: datatype@,
                language: opt_view(*language),
            },
        }
    }
}

/// The value of a quad.
pub struct QuadView {
    pub subject: TermView,
    pub predicate: Seq<char>,
    pub object: TermView,
    pub graph: Seq<char>,
}

impl View for Quad {
    type V = QuadView;

    open spec fn view(&self) -> QuadView {
        QuadView {
            subject: self.subject@,
            predicate: self.predicate@,
            object: self.object@,
            graph: self.graph@,
        }
    }
}

/// `ls` with the label of blank node `t` added, when `t` is a blank node
/// whose label `ls` lacks.
pub open spec fn add_blank_label(ls: Seq<Seq<char>>, t: Term) -> Seq<Seq<char>> {
    match t {
        Term::Blank(b) => if ls.contains(b@) {
            ls
        } else {
            ls.push(b@)
        },
        _ => ls,
    }
}

/// The distinct blank node labels of the first `k` triples, in order of
/// first appearance (a triple's subject before its object).
pub open spec fn blank_labels_upto(ts: Seq<Triple>, k: int) -> Seq<Seq<char>>
    decreases k,
{
    if k <= 0 {
        Seq::empty()
    } else {
        add_blank_label(add_blank_label(blank_labels_upto(ts, k - 1), ts[k - 1].subject), ts[k - 1].object)
    }
}

/// The position of label `l` in `ls`, searching from `k`.
pub open spec fn label_index(ls: Seq<Seq<char>>, l: Seq<char>, k: int) -> int
    decreases ls.len() - k,
{
    if k < 0 || k >= ls.len() {
        ls.len() as int
    } else if ls[k] == l {
        k
    } else {
        label_index(ls, l, k + 1)
    }
}

/// A term with a blank node renamed to its number in `ls` (in decimal).
pub open spec fn canonical_term(t: Term, ls: Seq<Seq<char>>) -> TermView {
    match t {
        Term::Blank(b) => TermView::Blank(decimal(label_index(ls, b@, 0) as nat)),
        _ => t@,
    }
}

/// A triple's value with its blank nodes renumbered.
pub type CanonicalTriple = (TermView, Seq<char>, TermView);

/// Triples with their blank nodes renumbered by order of first appearance:
/// what the triples are, whatever labels a parser drew for their blank
/// nodes, so long as it gave one label to each node and distinct labels to
/// distinct nodes.
pub open spec fn canonical(ts: Seq<Triple>) -> Seq<CanonicalTriple> {
    let ls = blank_labels_upto(ts, ts.len() as int);
    ts.map_values(|t: Triple| (canonical_term(t.subject, ls), t.predicate@, canonical_term(t.object, ls)))
}

/// The values of a sequence of quads.
pub open spec fn quad_views(v: Seq<Quad>) -> Seq<QuadView> {
    v.map_values(|q: Quad| q@)
}

/// The key a term is indexed and compared by: an IRI's text, `_:` and a
/// blank node's label, or a literal's lexical value.
pub open spec fn term_key(t: Term) -> Seq<char> {
    match t {
        Term::Iri(i) => i@,
        Term::Blank(b) => "_:"@ + b@,
        Term::Literal { value, .. } => value@,
    }
}

/// The key of a term.
pub fn term_key_exec(t: &Term) -> (r: String)
    ensures
        r@ == term_key(*t),
{
    match t {
        Term::Iri(i) => i.clone(),
        Term::Blank(b) => concat("_:", b.as_str()),
        Term::Literal { value, .. } => value.clone(),
    }
}

/// A copy of a term.
pub fn copy_term(t: &Term) -> (r: Term)
    ensures
        r == *t,
{
    match t {
        Term::Iri(i) => Term::Iri(i.clone()),
        Term::Blank(b) => Term::Blank(b.clone()),
        Term::Literal { value, datatype, language } => Term::Literal {
            value: value.clone(),
            datatype: datatype.clone(),
            language: match language {
                Some(l) => Some(l.clone()),
                None => None,
            },
        },
    }
}

/// The distinct subject keys among the first `k` triples, in order of
/// first appearance.
pub open spec fn subjects_upto(ts: Seq<Triple>, k: int) -> Seq<Seq<char>>
    decreases k,
{
    if k <= 0 {
        Seq::empty()
    } else {
        let prev = subjects_upto(ts, k - 1);
        let s = term_key(ts[k - 1].subject);
        if prev.contains(s) {
            prev
        } else {
            prev.push(s)
        }
    }
}

/// The distinct subject keys of the triples, in order of first appearance.
pub open spec fn subjects(ts: Seq<Triple>) -> Seq<Seq<char>> {
    subjects_upto(ts, ts.len() as int)
}

/// The objects of subject `s` under predicate `p` among the first `k`
/// triples, in triple order.
pub open spec fn objects_upto(ts: Seq<Triple>, s: Seq<char>, p: Seq<char>, k: int) -> Seq<Term>
    decreases k,
{
    if k <= 0 {
        Seq::empty()
    } else {
        let t = ts[k - 1];
        let prev = objects_upto(ts, s, p, k - 1);
        if term_key(t.subject) == s && t.predicate@ == p {
            prev.push(t.object)
        } else {
            prev
        }
    }
}

/// The objects of subject `s` under predicate `p`, in triple order.
pub open spec fn objects(ts: Seq<Triple>, s: Seq<char>, p: Seq<char>) -> Seq<Term> {
    objects_upto(ts, s, p, ts.len() as int)
}

/// The keys of a sequence of terms.
pub open spec fn term_keys(v: Seq<Term>) -> Seq<Seq<char>> {
    v.map_values(|t: Term| term_key(t))
}

/// The distinct subject keys, in order of first appearance.
pub fn subjects_exec(ts: &Vec<Triple>) -> (r: Vec<String>)
    ensures
        views(r@) == subjects(ts@),
{
    let mut out: Vec<String> = Vec::new();
    let mut k: usize = 0;
    while k < ts.len()
        invariant
            k <= ts@.len(),
            views(out@) == subjects_upto(ts@, k as int),
        decreases ts@.len() - k,
    {
        let key = term_key_exec(&ts[k].subject);
        let ghost prev = views(out@);
        if !contains_str(&out, key.as_str()) {
            out.push(key);
            assert(views(out@) =~= prev.push(term_key(ts@[k as int].subject)));
        }
        k = k + 1;
    }
    out
}

/// The objects of subject `s` under predicate `p`, in triple order.
pub fn objects_exec(ts: &Vec<Triple>, s: &str, p: &str) -> (r: Vec<Term>)
    ensures
        r@ == objects(ts@, s@, p@),
{
    let mut out: Vec<Term> = Vec::new();
    let mut k: usize = 0;
    while k < ts.len()
        invariant
            k <= ts@.len(),
            out@ == objects_upto(ts@, s@, p@, k as int),
        decreases ts@.len() - k,
    {
        let key = term_key_exec(&ts[k].subject);
        if str_eq(key.as_str(), s) && str_eq(ts[k].predicate.as_str(), p) {
            out.push(copy_term(&ts[k].object));
        }
        k = k + 1;
    }
    out
}

} // verus!
