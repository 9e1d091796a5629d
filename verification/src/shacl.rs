//! SHACL validation on load: a deliberately small SHACL subset —
//! `sh:targetClass`, `sh:property` with `sh:path`, `sh:minCount`,
//! `sh:maxCount`, `sh:minLength`, `sh:pattern`, `sh:nodeKind` — evaluated
//! over parsed triples. A bundle with any violation is rejected fail-closed.
use vstd::prelude::*;

use oxigraph::io::{RdfFormat, RdfParser};
use oxigraph::model::Term::{BlankNode, Literal, NamedNode};

use crate::ontology::{RDF_NS, SHACL_NS};
use crate::rdf::{canonical, CanonicalTriple, copy_term, objects, objects_exec, subjects, subjects_exec, term_key, term_key_exec, term_keys, Term, Triple};
use crate::text::{concat, opt_view, contains_str, parse_u64, parse_u64_exec, decimal, decimal_exec, lex_le, lex_le_exec, lemma_lex_le_total, lemma_lex_le_transitive, str_eq, views};

verus! {

/// The `regex` crate's `Regex`, carried through as an opaque value.
#[verifier::external_type_specification]
#[verifier::external_body]
pub struct ExRegex(regex::Regex);

/// Whether `regex::Regex::new` accepts `pattern`.
pub uninterp spec fn regex_compiles(pattern: Seq<char>) -> bool;

/// Whether the regex compiled from `pattern` matches somewhere in `haystack`.
pub uninterp spec fn regex_matches(pattern: Seq<char>, haystack: Seq<char>) -> bool;

/// `regex::Regex::new`: compiles `pattern`; the contract claims only that it
/// succeeds exactly when the pattern is one the crate accepts (a fixed
/// property of the pattern text). The error is carried as its display text.
#[verifier::external_body]
fn regex_new(pattern: &str) -> (r: Result<regex::Regex, String>)
    ensures
        r is Ok <==> regex_compiles(pattern@),
{
    regex::Regex::new(pattern).map_err(|e| e.to_string())
}

/// A compiled `sh:pattern`, remembering the text it was compiled from.
pub struct CompiledPattern {
    re: regex::Regex,
    source: Ghost<Seq<char>>,
}

impl View for CompiledPattern {
    type V = Seq<char>;

    /// The pattern text this was compiled from.
    closed spec fn view(&self) -> Seq<char> {
        self.source@
    }
}

impl CompiledPattern {
    /// Compile a pattern; fails exactly when the regex crate rejects it.
    pub fn compile(pattern: &str) -> (r: Result<CompiledPattern, String>)
        ensures
            r is Ok <==> regex_compiles(pattern@),
            r matches Ok(c) ==> c@ == pattern@,
    {
        match regex_new(pattern) {
            Ok(re) => Ok(CompiledPattern { re, source: Ghost(pattern@) }),
            Err(e) => Err(e),
        }
    }
}

/// `regex::Regex::is_match`: whether the pattern matches somewhere in
/// `haystack`. The contract names the result by the pattern text, which
/// `CompiledPattern::compile`, the only constructor, compiled `p.re` from.
#[verifier::external_body]
fn regex_is_match(p: &CompiledPattern, haystack: &str) -> (b: bool)
    ensures
        b == regex_matches(p@, haystack@),
{
    p.re.is_match(haystack)
}

/// The triples oxigraph's Turtle parser reads from a document, in the
/// order it yields them, with blank nodes renumbered by first appearance;
/// `None` when it refuses the document.
pub uninterp spec fn turtle_triples(ttl: Seq<char>) -> Option<Seq<CanonicalTriple>>;

/// oxigraph's Turtle parser (`RdfParser::for_slice` over `RdfFormat::Turtle`),
/// each quad converted to a library triple. The parser is a deterministic
/// function of the text except for the labels it draws for blank nodes: it
/// keeps a label written in the document and draws a fresh random one for
/// each anonymous node, one label per node. So the contract names the
/// triples with blank nodes renumbered by first appearance, taking the
/// labels to be one-to-one. A syntax error is carried as its display text.
#[verifier::external_body]
fn parse_turtle(ttl: &str) -> (r: Result<Vec<Triple>, String>)
    ensures
        match r {
            Ok(ts) => turtle_triples(ttl@) == Some(canonical(ts@)),
            Err(_) => turtle_triples(ttl@) is None,
        },
{
    let term = |t| match t {
        NamedNode(n) => Term::Iri(n.into_string()),
        BlankNode(b) => Term::Blank(b.into_string()),
        Literal(l) => Term::Literal {
            value: l.value().to_string(),
            datatype: l.datatype().as_str().to_string(),
            language: l.language().map(str::to_string),
        },
    };
    RdfParser::from_format(RdfFormat::Turtle).for_slice(ttl.as_bytes())
        .map(|q| q.map(|q| Triple { subject: term(q.subject.into()), predicate: q.predicate.into_string(), object: term(q.object) }))
        .collect::<Result<_, _>>()
        .map_err(|e| e.to_string())
}

/// One property constraint of a node shape.
#[derive(Debug, Clone, PartialEq, Eq)]
pub struct PropertyShape {
    pub path: String,
    pub min_count: Option<u64>,
    pub max_count: Option<u64>,
    pub min_length: Option<u64>,
    pub pattern: Option<String>,
    pub node_kind: Option<String>,
}

/// A node shape: the constraints on every focus of `target_class`.
#[derive(Debug, Clone, PartialEq, Eq)]
pub struct NodeShape {
    pub target_class: String,
    pub properties: Vec<PropertyShape>,
}

/// The value of a property shape.
pub struct PropertyShapeView {
    pub path: Seq<char>,
    pub min_count: Option<u64>,
    pub max_count: Option<u64>,
    pub min_length: Option<u64>,
    pub pattern: Option<Seq<char>>,
    pub node_kind: Option<Seq<char>>,
}

/// The value of a node shape.
pub struct NodeShapeView {
    pub target_class: Seq<char>,
    pub properties: Seq<PropertyShapeView>,
}

impl View for PropertyShape {
    type V = PropertyShapeView;

    open spec fn view(&self) -> PropertyShapeView {
        PropertyShapeView {
            path: self.path@,
            min_count: self.min_count,
            max_count: self.max_count,
            min_length: self.min_length,
            pattern: opt_view(self.pattern),
            node_kind: opt_view(self.node_kind),
        }
    }
}

impl View for NodeShape {
    type V = NodeShapeView;

    open spec fn view(&self) -> NodeShapeView {
        NodeShapeView {
            target_class: self.target_class@,
            properties: self.properties@.map_values(|p: PropertyShape| p@),
        }
    }
}

/// The parsed shapes for one artifact class.
#[derive(Debug, Clone)]
pub struct ShapeSet {
    shapes: Vec<NodeShape>,
}

impl View for ShapeSet {
    type V = Seq<NodeShapeView>;

    closed spec fn view(&self) -> Seq<NodeShapeView> {
        self.shapes@.map_values(|s: NodeShape| s@)
    }
}

/// One violation of a shape constraint, reported fail-closed by the load gate.
#[derive(Debug, Clone, PartialEq, Eq)]
pub struct ShaclViolation {
    pub focus: String,
    pub path: String,
    pub component: String,
    pub message: String,
}

/// The value of a violation.
pub struct ViolationView {
    pub focus: Seq<char>,
    pub path: Seq<char>,
    pub component: Seq<char>,
    pub message: Seq<char>,
}

impl View for ShaclViolation {
    type V = ViolationView;

    open spec fn view(&self) -> ViolationView {
        ViolationView {
            focus: self.focus@,
            path: self.path@,
            component: self.component@,
            message: self.message@,
        }
    }
}

/// The values of a sequence of violations.
pub open spec fn violation_views(v: Seq<ShaclViolation>) -> Seq<ViolationView> {
    v.map_values(|x: ShaclViolation| x@)
}

/// Why shapes could not be had or applied.
#[derive(Debug, Clone, PartialEq, Eq)]
pub enum ShaclError {
    /// No shapes are registered for the artifact class.
    UnknownArtifactClass(String),
    /// The shapes document is malformed.
    ShapesParse(String),
    /// An `sh:pattern` is not a valid regex: the pattern and the regex
    /// crate's message.
    Pattern(String, String),
}

/// The error for a pattern the regex crate rejects.
pub open spec fn pattern_error(e: ShaclError) -> bool {
    match e {
        ShaclError::Pattern(p, _) => !regex_compiles(p@),
        _ => false,
    }
}

/// A term of the SHACL vocabulary.
pub open spec fn sh(term: Seq<char>) -> Seq<char> {
    SHACL_NS@ + term
}

/// `rdf:type`.
pub open spec fn rdf_type() -> Seq<char> {
    RDF_NS@ + "type"@
}

/// The wire form carried by a bundle rejection.
pub open spec fn wire_spec(v: ViolationView) -> Seq<char> {
    v.component + " on <"@ + v.path + "> (focus "@ + v.focus + "): "@ + v.message
}

impl ShaclViolation {
    /// The wire form carried by a bundle rejection:
    /// `<component> on <<path>> (focus <focus>): <message>`.
    pub fn wire(&self) -> (r: String)
        ensures
            r@ == wire_spec(self@),
    {
        let mut r = concat(self.component.as_str(), " on <");
        r.append(self.path.as_str());
        r.append("> (focus ");
        r.append(self.focus.as_str());
        r.append("): ");
        r.append(self.message.as_str());
        r
    }
}

/// Whether `focus` is typed with `class`.
pub open spec fn targeted(ts: Seq<Triple>, focus: Seq<char>, class: Seq<char>) -> bool {
    term_keys(objects(ts, focus, rdf_type())).contains(class)
}

/// Whether a value has the node kind `kind` asks for; unknown kinds accept
/// every value.
pub open spec fn kind_ok(kind: Seq<char>, v: Term) -> bool {
    if kind == sh("IRI"@) {
        v is Iri
    } else if kind == sh("Literal"@) {
        v is Literal
    } else if kind == sh("BlankNodeOrIRI"@) {
        v is Iri || v is Blank
    } else {
        true
    }
}

/// A violation at `focus` on `prop`.
pub open spec fn violation(
    focus: Seq<char>,
    prop: PropertyShapeView,
    component: Seq<char>,
    message: Seq<char>,
) -> Seq<ViolationView> {
    seq![ViolationView { focus, path: prop.path, component, message }]
}

/// The cardinality checks of `prop` on a focus with `count` values.
pub open spec fn count_violations(focus: Seq<char>, prop: PropertyShapeView, count: nat) -> Seq<
    ViolationView,
> {
    (if prop.min_count is Some && count < prop.min_count->0 {
        violation(
            focus,
            prop,
            "sh:MinCountConstraintComponent"@,
            "expected at least "@ + decimal(prop.min_count->0 as nat) + " value(s), found "@
                + decimal(count),
        )
    } else {
        Seq::empty()
    }) + (if prop.max_count is Some && count > prop.max_count->0 {
        violation(
            focus,
            prop,
            "sh:MaxCountConstraintComponent"@,
            "expected at most "@ + decimal(prop.max_count->0 as nat) + " value(s), found "@
                + decimal(count),
        )
    } else {
        Seq::empty()
    })
}

/// The checks of `prop` on one value.
pub open spec fn value_violations(focus: Seq<char>, prop: PropertyShapeView, v: Term) -> Seq<
    ViolationView,
> {
    let lex = term_key(v);
    (if prop.min_length is Some && lex.len() < prop.min_length->0 {
        violation(
            focus,
            prop,
            "sh:MinLengthConstraintComponent"@,
            "value '"@ + lex + "' is shorter than minLength "@ + decimal(
                prop.min_length->0 as nat,
            ),
        )
    } else {
        Seq::empty()
    }) + (if prop.pattern is Some && !regex_matches(prop.pattern->0, lex) {
        violation(
            focus,
            prop,
            "sh:PatternConstraintComponent"@,
            "value '"@ + lex + "' does not match /"@ + prop.pattern->0 + "/"@,
        )
    } else {
        Seq::empty()
    }) + (if prop.node_kind is Some && !kind_ok(prop.node_kind->0, v) {
        violation(
            focus,
            prop,
            "sh:NodeKindConstraintComponent"@,
            "value "@ + lex + " has wrong node kind"@,
        )
    } else {
        Seq::empty()
    })
}

/// The value checks of `prop` on the first `k` values.
pub open spec fn values_violations(
    focus: Seq<char>,
    prop: PropertyShapeView,
    values: Seq<Term>,
    k: int,
) -> Seq<ViolationView>
    decreases k,
{
    if k <= 0 {
        Seq::empty()
    } else {
        values_violations(focus, prop, values, k - 1) + value_violations(focus, prop, values[k - 1])
    }
}

/// Whether `prop` carries a pattern the regex crate rejects.
pub open spec fn bad_pattern(prop: PropertyShapeView) -> bool {
    prop.pattern is Some && !regex_compiles(prop.pattern->0)
}

/// All checks of `prop` on a focus.
pub open spec fn property_violations(ts: Seq<Triple>, focus: Seq<char>, prop: PropertyShapeView) -> Seq<
    ViolationView,
> {
    let values = objects(ts, focus, prop.path);
    count_violations(focus, prop, values.len()) + values_violations(
        focus,
        prop,
        values,
        values.len() as int,
    )
}

/// Whether applying `prop` to a focus meets a rejected pattern: the pattern
/// is compiled for each value, so only a focus with values meets it.
pub open spec fn property_fails(ts: Seq<Triple>, focus: Seq<char>, prop: PropertyShapeView) -> bool {
    bad_pattern(prop) && objects(ts, focus, prop.path).len() > 0
}

/// The checks of the first `k` properties of `shape` on a focus.
pub open spec fn focus_violations(ts: Seq<Triple>, focus: Seq<char>, shape: NodeShapeView, k: int) -> Seq<
    ViolationView,
>
    decreases k,
{
    if k <= 0 {
        Seq::empty()
    } else {
        focus_violations(ts, focus, shape, k - 1) + property_violations(
            ts,
            focus,
            shape.properties[k - 1],
        )
    }
}

/// Whether `e` is the error of the rejected pattern of `prop`, met on
/// `focus`, which has a value at the property's path.
pub open spec fn property_error(ts: Seq<Triple>, focus: Seq<char>, prop: PropertyShapeView, e: ShaclError) -> bool {
    &&& property_fails(ts, focus, prop)
    &&& e matches ShaclError::Pattern(p, _) && prop.pattern == Some(p@)
}

/// Whether `e` is the error of the rejected pattern of a property of
/// `shape`, met on `focus`.
pub open spec fn focus_error(ts: Seq<Triple>, focus: Seq<char>, shape: NodeShapeView, e: ShaclError) -> bool {
    exists|j: int| 0 <= j < shape.properties.len() && #[trigger] property_error(ts, focus, shape.properties[j], e)
}

/// Whether `e` is the error of the rejected pattern of a property of
/// `shape`, met on a subject the shape targets.
pub open spec fn shape_error(ts: Seq<Triple>, shape: NodeShapeView, e: ShaclError) -> bool {
    exists|k: int|
        0 <= k < subjects(ts).len() && targeted(ts, subjects(ts)[k], shape.target_class)
            && #[trigger] focus_error(ts, subjects(ts)[k], shape, e)
}

/// Whether `e` is the error of the rejected pattern of a property of one of
/// `shapes`, met on a subject that shape targets.
pub open spec fn shapes_error(ts: Seq<Triple>, shapes: Seq<NodeShapeView>, e: ShaclError) -> bool {
    exists|i: int| 0 <= i < shapes.len() && #[trigger] shape_error(ts, shapes[i], e)
}

/// Whether one of the first `k` properties of `shape` fails on a focus.
pub open spec fn focus_fails(ts: Seq<Triple>, focus: Seq<char>, shape: NodeShapeView, k: int) -> bool
    decreases k,
{
    if k <= 0 {
        false
    } else {
        focus_fails(ts, focus, shape, k - 1) || property_fails(ts, focus, shape.properties[k - 1])
    }
}

/// The checks of `shape` on the first `k` subjects.
pub open spec fn shape_violations(ts: Seq<Triple>, shape: NodeShapeView, k: int) -> Seq<ViolationView>
    decreases k,
{
    if k <= 0 {
        Seq::empty()
    } else {
        let focus = subjects(ts)[k - 1];
        shape_violations(ts, shape, k - 1) + if targeted(ts, focus, shape.target_class) {
            focus_violations(ts, focus, shape, shape.properties.len() as int)
        } else {
            Seq::empty()
        }
    }
}

/// Whether `shape` fails on one of the first `k` subjects.
pub open spec fn shape_fails(ts: Seq<Triple>, shape: NodeShapeView, k: int) -> bool
    decreases k,
{
    if k <= 0 {
        false
    } else {
        let focus = subjects(ts)[k - 1];
        shape_fails(ts, shape, k - 1) || (targeted(ts, focus, shape.target_class) && focus_fails(
            ts,
            focus,
            shape,
            shape.properties.len() as int,
        ))
    }
}

/// The checks of the first `k` shapes on every subject, in shape order,
/// then subject order, then property and value order.
pub open spec fn all_violations(ts: Seq<Triple>, shapes: Seq<NodeShapeView>, k: int) -> Seq<
    ViolationView,
>
    decreases k,
{
    if k <= 0 {
        Seq::empty()
    } else {
        all_violations(ts, shapes, k - 1) + shape_violations(
            ts,
            shapes[k - 1],
            subjects(ts).len() as int,
        )
    }
}

/// Whether one of the first `k` shapes fails.
pub open spec fn all_fail(ts: Seq<Triple>, shapes: Seq<NodeShapeView>, k: int) -> bool
    decreases k,
{
    if k <= 0 {
        false
    } else {
        all_fail(ts, shapes, k - 1) || shape_fails(ts, shapes[k - 1], subjects(ts).len() as int)
    }
}

/// Whether violations are in wire order.
pub open spec fn wire_sorted(v: Seq<ViolationView>) -> bool {
    forall|i: int, j: int| 0 <= i < j < v.len() ==> lex_le(wire_spec(v[i]), wire_spec(v[j]))
}

fn make_violation(focus: &str, prop: &PropertyShape, component: &str, message: String) -> (r:
    ShaclViolation)
    ensures
        seq![r@] == violation(focus@, prop@, component@, message@),
{
    ShaclViolation {
        focus: String::from_str(focus),
        path: prop.path.clone(),
        component: String::from_str(component),
        message,
    }
}

fn push_all(out: &mut Vec<ShaclViolation>, more: Vec<ShaclViolation>)
    ensures
        violation_views(final(out)@) == violation_views(old(out)@) + violation_views(more@),
{
    let mut more = more;
    out.append(&mut more);
}

/// A copy of a violation.
fn copy_violation(v: &ShaclViolation) -> (r: ShaclViolation)
    ensures
        r@ == v@,
{
    ShaclViolation {
        focus: v.focus.clone(),
        path: v.path.clone(),
        component: v.component.clone(),
        message: v.message.clone(),
    }
}

fn kind_ok_exec(kind: &str, v: &Term) -> (r: bool)
    ensures
        r == kind_ok(kind@, *v),
{
    let iri = concat(SHACL_NS, "IRI");
    let lit = concat(SHACL_NS, "Literal");
    let bni = concat(SHACL_NS, "BlankNodeOrIRI");
    if str_eq(kind, iri.as_str()) {
        matches!(v, Term::Iri(_))
    } else if str_eq(kind, lit.as_str()) {
        matches!(v, Term::Literal { .. })
    } else if str_eq(kind, bni.as_str()) {
        matches!(v, Term::Iri(_) | Term::Blank(_))
    } else {
        true
    }
}

fn check_value(focus: &str, prop: &PropertyShape, v: &Term) -> (r: Result<
    Vec<ShaclViolation>,
    ShaclError,
>)
    ensures
        match r {
            Ok(out) => !bad_pattern(prop@) && violation_views(out@) == value_violations(
                focus@,
                prop@,
                *v,
            ),
            Err(e) => bad_pattern(prop@) && pattern_error(e) && (e matches ShaclError::Pattern(p, _)
                && prop@.pattern == Some(p@)),
        },
{
    let lex = term_key_exec(v);
    let mut out: Vec<ShaclViolation> = Vec::new();
    let ghost part1: Seq<ViolationView>;
    match prop.min_length {
        Some(min) => {
            if (lex.as_str().unicode_len() as u64) < min {
                let mut m = concat("value '", lex.as_str());
                m.append("' is shorter than minLength ");
                let d = decimal_exec(min);
                m.append(d.as_str());
                out.push(make_violation(focus, prop, "sh:MinLengthConstraintComponent", m));
            }
        },
        None => {},
    }
    proof {
        part1 = violation_views(out@);
    }
    match &prop.pattern {
        Some(p) => {
            match CompiledPattern::compile(p.as_str()) {
                Err(msg) => {
                    return Err(ShaclError::Pattern(p.clone(), msg));
                },
                Ok(c) => {
                    if !regex_is_match(&c, lex.as_str()) {
                        let mut m = concat("value '", lex.as_str());
                        m.append("' does not match /");
                        m.append(p.as_str());
                        m.append("/");
                        out.push(make_violation(focus, prop, "sh:PatternConstraintComponent", m));
                    }
                },
            }
        },
        None => {},
    }
    let ghost part2 = violation_views(out@);
    match &prop.node_kind {
        Some(k) => {
            if !kind_ok_exec(k.as_str(), v) {
                let mut m = concat("value ", lex.as_str());
                m.append(" has wrong node kind");
                out.push(make_violation(focus, prop, "sh:NodeKindConstraintComponent", m));
            }
        },
        None => {},
    }
    assert(violation_views(out@) =~= value_violations(focus@, prop@, *v));
    Ok(out)
}

fn check_property(ts: &Vec<Triple>, focus: &str, prop: &PropertyShape) -> (r: Result<
    Vec<ShaclViolation>,
    ShaclError,
>)
    ensures
        match r {
            Ok(out) => !property_fails(ts@, focus@, prop@) && violation_views(out@)
                == property_violations(ts@, focus@, prop@),
            Err(e) => property_error(ts@, focus@, prop@, e) && pattern_error(e),
        },
{
    let values = objects_exec(ts, focus, prop.path.as_str());
    let count = values.len() as u64;
    let mut out: Vec<ShaclViolation> = Vec::new();
    match prop.min_count {
        Some(min) => {
            if count < min {
                let mut m = concat("expected at least ", decimal_exec(min).as_str());
                m.append(" value(s), found ");
                m.append(decimal_exec(count).as_str());
                out.push(make_violation(focus, prop, "sh:MinCountConstraintComponent", m));
            }
        },
        None => {},
    }
    let ghost part1 = violation_views(out@);
    match prop.max_count {
        Some(max) => {
            if count > max {
                let mut m = concat("expected at most ", decimal_exec(max).as_str());
                m.append(" value(s), found ");
                m.append(decimal_exec(count).as_str());
                out.push(make_violation(focus, prop, "sh:MaxCountConstraintComponent", m));
            }
        },
        None => {},
    }
    assert(violation_views(out@) =~= count_violations(focus@, prop@, values@.len()));
    let ghost head = violation_views(out@);
    let mut k: usize = 0;
    while k < values.len()
        invariant
            k <= values@.len(),
            values@ == objects(ts@, focus@, prop@.path),
            violation_views(out@) == head + values_violations(focus@, prop@, values@, k as int),
            k > 0 ==> !bad_pattern(prop@),
        decreases values@.len() - k,
    {
        match check_value(focus, prop, &values[k]) {
            Ok(more) => {
                let ghost before = violation_views(out@);
                push_all(&mut out, more);
                k = k + 1;
                assert(violation_views(out@) =~= head + values_violations(
                    focus@,
                    prop@,
                    values@,
                    k as int,
                ));
            },
            Err(e) => {
                return Err(e);
            },
        }
    }
    Ok(out)
}

fn check_focus(ts: &Vec<Triple>, focus: &str, shape: &NodeShape) -> (r: Result<
    Vec<ShaclViolation>,
    ShaclError,
>)
    ensures
        match r {
            Ok(out) => !focus_fails(ts@, focus@, shape@, shape@.properties.len() as int)
                && violation_views(out@) == focus_violations(
                ts@,
                focus@,
                shape@,
                shape@.properties.len() as int,
            ),
            Err(e) => focus_fails(ts@, focus@, shape@, shape@.properties.len() as int)
                && focus_error(ts@, focus@, shape@, e) && pattern_error(e),
        },
{
    let mut out: Vec<ShaclViolation> = Vec::new();
    let mut k: usize = 0;
    let n = shape.properties.len();
    while k < n
        invariant
            n == shape@.properties.len(),
            k <= n,
            violation_views(out@) == focus_violations(ts@, focus@, shape@, k as int),
            !focus_fails(ts@, focus@, shape@, k as int),
        decreases n - k,
    {
        assert(shape@.properties[k as int] == shape.properties@[k as int]@);
        match check_property(ts, focus, &shape.properties[k]) {
            Ok(more) => {
                push_all(&mut out, more);
                k = k + 1;
            },
            Err(e) => {
                proof {
                    assert(focus_fails(ts@, focus@, shape@, k + 1));
                    lemma_focus_fails_grows(ts@, focus@, shape@, k + 1, n as int);
                    assert(property_error(ts@, focus@, shape@.properties[k as int], e));
                }
                return Err(e);
            },
        }
    }
    Ok(out)
}

proof fn lemma_focus_fails_grows(ts: Seq<Triple>, focus: Seq<char>, shape: NodeShapeView, k: int, n: int)
    requires
        k <= n,
        focus_fails(ts, focus, shape, k),
    ensures
        focus_fails(ts, focus, shape, n),
    decreases n - k,
{
    if k < n {
        lemma_focus_fails_grows(ts, focus, shape, k + 1, n);
    }
}

proof fn lemma_shape_fails_grows(ts: Seq<Triple>, shape: NodeShapeView, k: int, n: int)
    requires
        k <= n,
        shape_fails(ts, shape, k),
    ensures
        shape_fails(ts, shape, n),
    decreases n - k,
{
    if k < n {
        lemma_shape_fails_grows(ts, shape, k + 1, n);
    }
}

proof fn lemma_all_fail_grows(ts: Seq<Triple>, shapes: Seq<NodeShapeView>, k: int, n: int)
    requires
        k <= n,
        all_fail(ts, shapes, k),
    ensures
        all_fail(ts, shapes, n),
    decreases n - k,
{
    if k < n {
        lemma_all_fail_grows(ts, shapes, k + 1, n);
    }
}

fn is_targeted(ts: &Vec<Triple>, focus: &str, class: &str) -> (r: bool)
    ensures
        r == targeted(ts@, focus@, class@),
{
    let ty = concat(RDF_NS, "type");
    let types = objects_exec(ts, focus, ty.as_str());
    let mut i: usize = 0;
    while i < types.len()
        invariant
            i <= types@.len(),
            types@ == objects(ts@, focus@, rdf_type()),
            forall|j: int| 0 <= j < i ==> term_key(types@[j]) != class@,
        decreases types@.len() - i,
    {
        let key = term_key_exec(&types[i]);
        if str_eq(key.as_str(), class) {
            assert(term_keys(types@)[i as int] == class@);
            return true;
        }
        i = i + 1;
    }
    assert forall|j: int| 0 <= j < term_keys(types@).len() implies #[trigger] term_keys(types@)[j]
        != class@ by {
        assert(term_key(types@[j]) != class@);
    }
    false
}

fn check_shape(ts: &Vec<Triple>, subs: &Vec<String>, shape: &NodeShape) -> (r: Result<
    Vec<ShaclViolation>,
    ShaclError,
>)
    requires
        views(subs@) == subjects(ts@),
    ensures
        match r {
            Ok(out) => !shape_fails(ts@, shape@, subjects(ts@).len() as int) && violation_views(
                out@,
            ) == shape_violations(ts@, shape@, subjects(ts@).len() as int),
            Err(e) => shape_fails(ts@, shape@, subjects(ts@).len() as int) && shape_error(ts@, shape@, e)
                && pattern_error(e),
        },
{
    let mut out: Vec<ShaclViolation> = Vec::new();
    let mut k: usize = 0;
    let n = subs.len();
    while k < n
        invariant
            n == subs@.len(),
            views(subs@) == subjects(ts@),
            k <= n,
            violation_views(out@) == shape_violations(ts@, shape@, k as int),
            !shape_fails(ts@, shape@, k as int),
        decreases n - k,
    {
        assert(subjects(ts@)[k as int] == subs@[k as int]@);
        if is_targeted(ts, subs[k].as_str(), shape.target_class.as_str()) {
            match check_focus(ts, subs[k].as_str(), shape) {
                Ok(more) => {
                    push_all(&mut out, more);
                },
                Err(e) => {
                    proof {
                        lemma_shape_fails_grows(ts@, shape@, k + 1, n as int);
                        assert(focus_error(ts@, subjects(ts@)[k as int], shape@, e));
                    }
                    return Err(e);
                },
            }
        } else {
            assert(violation_views(out@) =~= violation_views(out@) + Seq::<ViolationView>::empty());
        }
        k = k + 1;
    }
    Ok(out)
}

pub(crate) proof fn lemma_insert_sorted(s: Seq<ViolationView>, p: int, x: ViolationView)
    requires
        0 <= p <= s.len(),
        wire_sorted(s),
        forall|q: int| 0 <= q < p ==> lex_le(wire_spec(#[trigger] s[q]), wire_spec(x)),
        p < s.len() ==> !lex_le(wire_spec(s[p]), wire_spec(x)),
    ensures
        wire_sorted(s.insert(p, x)),
{
    let t = s.insert(p, x);
    if p < s.len() {
        lemma_lex_le_total(wire_spec(s[p]), wire_spec(x));
    }
    assert forall|i: int, j: int| 0 <= i < j < t.len() implies lex_le(
        wire_spec(t[i]),
        wire_spec(t[j]),
    ) by {
        if i < p && j < p {
            assert(t[i] == s[i] && t[j] == s[j]);
        } else if i < p && j == p {
            assert(t[i] == s[i] && t[j] == x);
        } else if i < p {
            assert(t[i] == s[i] && t[j] == s[j - 1]);
            lemma_lex_le_total(wire_spec(s[p]), wire_spec(x));
            assert(lex_le(wire_spec(s[i]), wire_spec(s[j - 1])));
        } else if i == p {
            assert(t[i] == x && t[j] == s[j - 1]);
            if j - 1 > p {
                lemma_lex_le_transitive(wire_spec(x), wire_spec(s[p]), wire_spec(s[j - 1]));
            }
        } else {
            assert(t[i] == s[i - 1] && t[j] == s[j - 1]);
        }
    }
}

/// Where `x` goes in `s` from index `p` on: before the first violation
/// whose wire form orders after that of `x`.
pub open spec fn wire_insert_pos(s: Seq<ViolationView>, x: ViolationView, p: int) -> int
    decreases s.len() - p,
{
    if p < 0 || p >= s.len() || !lex_le(wire_spec(s[p]), wire_spec(x)) {
        p
    } else {
        wire_insert_pos(s, x, p + 1)
    }
}

/// The first `k` violations of `v` ordered by wire form, stably: each is
/// placed after every earlier one whose wire form orders at or before it.
pub open spec fn by_wire(v: Seq<ViolationView>, k: int) -> Seq<ViolationView>
    decreases k,
{
    if k <= 0 {
        Seq::empty()
    } else {
        let s = by_wire(v, k - 1);
        s.insert(wire_insert_pos(s, v[k - 1], 0), v[k - 1])
    }
}

proof fn lemma_wire_insert_pos(s: Seq<ViolationView>, x: ViolationView, p: int)
    requires
        0 <= p <= s.len(),
        forall|q: int| 0 <= q < p ==> lex_le(wire_spec(#[trigger] s[q]), wire_spec(x)),
    ensures
        wire_insert_pos(s, x, 0) == wire_insert_pos(s, x, p),
    decreases p,
{
    if p > 0 {
        assert(lex_le(wire_spec(s[p - 1]), wire_spec(x)));
        lemma_wire_insert_pos(s, x, p - 1);
    }
}

/// Order violations by wire form; among equal wire forms the input order
/// is kept.
fn sort_by_wire(v: Vec<ShaclViolation>) -> (r: Vec<ShaclViolation>)
    ensures
        violation_views(r@) == by_wire(violation_views(v@), v@.len() as int),
        wire_sorted(violation_views(r@)),
        violation_views(r@).to_multiset() == violation_views(v@).to_multiset(),
{
    let mut out: Vec<ShaclViolation> = Vec::new();
    let mut k: usize = 0;
    assert(violation_views(out@) =~= violation_views(v@.take(0)));
    while k < v.len()
        invariant
            k <= v@.len(),
            violation_views(out@) == by_wire(violation_views(v@), k as int),
            wire_sorted(violation_views(out@)),
            violation_views(out@).to_multiset() == violation_views(v@.take(k as int)).to_multiset(),
        decreases v@.len() - k,
    {
        let x = copy_violation(&v[k]);
        let w = x.wire();
        let mut p: usize = 0;
        while p < out.len() && lex_le_exec(out[p].wire().as_str(), w.as_str())
            invariant
                p <= out@.len(),
                w@ == wire_spec(x@),
                forall|q: int|
                    0 <= q < p ==> lex_le(wire_spec(#[trigger] violation_views(out@)[q]), w@),
            decreases out@.len() - p,
        {
            p = p + 1;
        }
        let ghost before = violation_views(out@);
        proof {
            lemma_insert_sorted(before, p as int, x@);
            lemma_wire_insert_pos(before, x@, p as int);
            assert(x@ == violation_views(v@)[k as int]);
        }
        out.insert(p, x);
        assert(violation_views(out@) =~= before.insert(p as int, x@));
        assert(violation_views(v@.take(k + 1)) =~= violation_views(v@.take(k as int)).push(x@));
        proof {
            vstd::seq_lib::to_multiset_insert(before, p as int, x@);
            vstd::seq_lib::to_multiset_build(violation_views(v@.take(k as int)), x@);
        }
        assert(violation_views(v@.take(k as int)).push(x@).to_multiset() == violation_views(
            v@.take(k as int),
        ).to_multiset().insert(x@));
        k = k + 1;
    }
    assert(v@.take(v@.len() as int) =~= v@);
    out
}

/// The first object of subject `s` under predicate `p`.
pub open spec fn first_object(ts: Seq<Triple>, s: Seq<char>, p: Seq<char>) -> Option<Term> {
    let o = objects(ts, s, p);
    if o.len() > 0 {
        Some(o[0])
    } else {
        None
    }
}

/// The first object under `p`, read as an unsigned integer literal.
pub open spec fn first_u64(ts: Seq<Triple>, s: Seq<char>, p: Seq<char>) -> Option<u64> {
    match first_object(ts, s, p) {
        Some(Term::Literal { value, .. }) => parse_u64(value@),
        _ => None,
    }
}

/// The key of the first object under `p`.
pub open spec fn first_key(ts: Seq<Triple>, s: Seq<char>, p: Seq<char>) -> Option<Seq<char>> {
    match first_object(ts, s, p) {
        Some(t) => Some(term_key(t)),
        None => None,
    }
}

/// The property shape described at subject `key`; it must name a path.
pub open spec fn property_from(ts: Seq<Triple>, key: Seq<char>) -> Result<PropertyShapeView, Seq<char>> {
    match first_key(ts, key, sh("path"@)) {
        None => Err("property shape "@ + key + " has no sh:path"@),
        Some(path) => Ok(
            PropertyShapeView {
                path,
                min_count: first_u64(ts, key, sh("minCount"@)),
                max_count: first_u64(ts, key, sh("maxCount"@)),
                min_length: first_u64(ts, key, sh("minLength"@)),
                pattern: first_key(ts, key, sh("pattern"@)),
                node_kind: first_key(ts, key, sh("nodeKind"@)),
            },
        ),
    }
}

/// The property shapes referenced by the first `k` of `refs`; references
/// to subjects the document does not describe are skipped.
pub open spec fn properties_from(ts: Seq<Triple>, refs: Seq<Term>, k: int) -> Result<
    Seq<PropertyShapeView>,
    Seq<char>,
>
    decreases k,
{
    if k <= 0 {
        Ok(Seq::empty())
    } else {
        match properties_from(ts, refs, k - 1) {
            Err(m) => Err(m),
            Ok(prev) => {
                let key = term_key(refs[k - 1]);
                if !subjects(ts).contains(key) {
                    Ok(prev)
                } else {
                    match property_from(ts, key) {
                        Err(m) => Err(m),
                        Ok(p) => Ok(prev.push(p)),
                    }
                }
            },
        }
    }
}

/// Whether `r` is what reading shapes from Turtle document `ttl` gives: a
/// parse error when the parser refuses it, else the shapes (or the shape
/// error) of its triples, under some labelling of its blank nodes that
/// keeps them apart as the parser does.
pub open spec fn shapes_read(r: Result<ShapeSet, ShaclError>, ttl: Seq<char>) -> bool {
    match turtle_triples(ttl) {
        None => r matches Err(ShaclError::ShapesParse(_)),
        Some(read) => exists|ts: Seq<Triple>| #[trigger] canonical(ts) == read && parse_outcome(r, ts),
    }
}

/// Whether `i` is the first entry of `registry` that registers `class`.
pub open spec fn registered_at(registry: Seq<(String, String)>, class: Seq<char>, i: int) -> bool {
    &&& 0 <= i < registry.len()
    &&& registry[i].0@ == class
    &&& forall|q: int| 0 <= q < i ==> (#[trigger] registry[q]).0@ != class
}

/// Whether subject `s` is typed `sh:NodeShape`.
pub open spec fn is_node_shape(ts: Seq<Triple>, s: Seq<char>) -> bool {
    term_keys(objects(ts, s, rdf_type())).contains(sh("NodeShape"@))
}

/// The node shape described at subject `s`; it must name a target class.
pub open spec fn node_shape_from(ts: Seq<Triple>, s: Seq<char>) -> Result<NodeShapeView, Seq<char>> {
    match first_key(ts, s, sh("targetClass"@)) {
        None => Err("node shape "@ + s + " has no sh:targetClass"@),
        Some(target_class) => {
            let refs = objects(ts, s, sh("property"@));
            match properties_from(ts, refs, refs.len() as int) {
                Err(m) => Err(m),
                Ok(properties) => Ok(NodeShapeView { target_class, properties }),
            }
        },
    }
}

/// The node shapes among the first `k` subjects, in subject order.
pub open spec fn shapes_from(ts: Seq<Triple>, k: int) -> Result<Seq<NodeShapeView>, Seq<char>>
    decreases k,
{
    if k <= 0 {
        Ok(Seq::empty())
    } else {
        match shapes_from(ts, k - 1) {
            Err(m) => Err(m),
            Ok(prev) => {
                let s = subjects(ts)[k - 1];
                if !is_node_shape(ts, s) {
                    Ok(prev)
                } else {
                    match node_shape_from(ts, s) {
                        Err(m) => Err(m),
                        Ok(shape) => Ok(prev.push(shape)),
                    }
                }
            },
        }
    }
}

/// The shapes a shapes document describes.
pub open spec fn shapes_of(ts: Seq<Triple>) -> Result<Seq<NodeShapeView>, Seq<char>> {
    shapes_from(ts, subjects(ts).len() as int)
}

/// What parsing the shapes triples gives, as a library result.
pub open spec fn parse_outcome(r: Result<ShapeSet, ShaclError>, ts: Seq<Triple>) -> bool {
    match r {
        Ok(set) => shapes_of(ts) == Ok::<Seq<NodeShapeView>, Seq<char>>(set@),
        Err(ShaclError::ShapesParse(m)) => shapes_of(ts) == Err::<Seq<NodeShapeView>, Seq<char>>(m@),
        Err(_) => false,
    }
}

proof fn lemma_properties_err_persists(ts: Seq<Triple>, refs: Seq<Term>, k: int, n: int)
    requires
        0 <= k <= n,
        properties_from(ts, refs, k) is Err,
    ensures
        properties_from(ts, refs, n) == properties_from(ts, refs, k),
    decreases n - k,
{
    if k < n {
        lemma_properties_err_persists(ts, refs, k + 1, n);
    }
}

proof fn lemma_shapes_err_persists(ts: Seq<Triple>, k: int, n: int)
    requires
        0 <= k <= n,
        shapes_from(ts, k) is Err,
    ensures
        shapes_from(ts, n) == shapes_from(ts, k),
    decreases n - k,
{
    if k < n {
        lemma_shapes_err_persists(ts, k + 1, n);
    }
}

fn first_object_exec(ts: &Vec<Triple>, s: &str, p: &str) -> (r: Option<Term>)
    ensures
        r == first_object(ts@, s@, p@),
{
    let o = objects_exec(ts, s, p);
    if o.len() > 0 {
        Some(copy_term(&o[0]))
    } else {
        None
    }
}

fn first_key_exec(ts: &Vec<Triple>, s: &str, p: &str) -> (r: Option<String>)
    ensures
        opt_view(r) == first_key(ts@, s@, p@),
{
    match first_object_exec(ts, s, p) {
        Some(t) => Some(term_key_exec(&t)),
        None => None,
    }
}

fn first_u64_exec(ts: &Vec<Triple>, s: &str, p: &str) -> (r: Option<u64>)
    ensures
        r == first_u64(ts@, s@, p@),
{
    match first_object_exec(ts, s, p) {
        Some(Term::Literal { value, .. }) => parse_u64_exec(value.as_str()),
        _ => None,
    }
}

fn property_from_exec(ts: &Vec<Triple>, key: &str) -> (r: Result<PropertyShape, String>)
    ensures
        match r {
            Ok(p) => property_from(ts@, key@) == Ok::<PropertyShapeView, Seq<char>>(p@),
            Err(m) => property_from(ts@, key@) == Err::<PropertyShapeView, Seq<char>>(m@),
        },
{
    match first_key_exec(ts, key, concat(SHACL_NS, "path").as_str()) {
        None => {
            let mut m = concat("property shape ", key);
            m.append(" has no sh:path");
            Err(m)
        },
        Some(path) => Ok(
            PropertyShape {
                path,
                min_count: first_u64_exec(ts, key, concat(SHACL_NS, "minCount").as_str()),
                max_count: first_u64_exec(ts, key, concat(SHACL_NS, "maxCount").as_str()),
                min_length: first_u64_exec(ts, key, concat(SHACL_NS, "minLength").as_str()),
                pattern: first_key_exec(ts, key, concat(SHACL_NS, "pattern").as_str()),
                node_kind: first_key_exec(ts, key, concat(SHACL_NS, "nodeKind").as_str()),
            },
        ),
    }
}

fn node_shape_from_exec(ts: &Vec<Triple>, subs: &Vec<String>, s: &str) -> (r: Result<
    NodeShape,
    String,
>)
    requires
        views(subs@) == subjects(ts@),
    ensures
        match r {
            Ok(n) => node_shape_from(ts@, s@) == Ok::<NodeShapeView, Seq<char>>(n@),
            Err(m) => node_shape_from(ts@, s@) == Err::<NodeShapeView, Seq<char>>(m@),
        },
{
    let target_class = match first_key_exec(ts, s, concat(SHACL_NS, "targetClass").as_str()) {
        None => {
            let mut m = concat("node shape ", s);
            m.append(" has no sh:targetClass");
            return Err(m);
        },
        Some(t) => t,
    };
    let refs = objects_exec(ts, s, concat(SHACL_NS, "property").as_str());
    let mut properties: Vec<PropertyShape> = Vec::new();
    let mut k: usize = 0;
    assert(properties@.map_values(|p: PropertyShape| p@) =~= Seq::<PropertyShapeView>::empty());
    while k < refs.len()
        invariant
            k <= refs@.len(),
            views(subs@) == subjects(ts@),
            refs@ == objects(ts@, s@, sh("property"@)),
            first_key(ts@, s@, sh("targetClass"@)) == Some(target_class@),
            properties_from(ts@, refs@, k as int) == Ok::<Seq<PropertyShapeView>, Seq<char>>(
                properties@.map_values(|p: PropertyShape| p@),
            ),
        decreases refs@.len() - k,
    {
        let key = term_key_exec(&refs[k]);
        let ghost prev = properties_from(ts@, refs@, k as int);
        assert(key@ == term_key(refs@[k as int]));
        if contains_str(subs, key.as_str()) {
            match property_from_exec(ts, key.as_str()) {
                Err(m) => {
                    proof {
                        assert(subjects(ts@).contains(key@));
                        assert(properties_from(ts@, refs@, k + 1) == Err::<Seq<PropertyShapeView>, Seq<char>>(m@));
                        lemma_properties_err_persists(ts@, refs@, k + 1, refs@.len() as int);
                    }
                    return Err(m);
                },
                Ok(p) => {
                    let ghost before = properties@.map_values(|p: PropertyShape| p@);
                    properties.push(p);
                    assert(properties@.map_values(|p: PropertyShape| p@) =~= before.push(p@));
                },
            }
        }
        k = k + 1;
    }
    Ok(NodeShape { target_class, properties })
}

impl ShapeSet {
    /// Read node shapes from the triples of a shapes document: every
    /// `sh:NodeShape` subject, in order of first appearance, with its
    /// `sh:property` constraints.
    pub fn from_triples(ts: &Vec<Triple>) -> (r: Result<ShapeSet, ShaclError>)
        ensures
            parse_outcome(r, ts@),
    {
        let subs = subjects_exec(ts);
        let ns = concat(SHACL_NS, "NodeShape");
        let ty = concat(RDF_NS, "type");
        let mut shapes: Vec<NodeShape> = Vec::new();
        let mut k: usize = 0;
        assert(shapes@.map_values(|s: NodeShape| s@) =~= Seq::<NodeShapeView>::empty());
        while k < subs.len()
            invariant
                k <= subs@.len(),
                views(subs@) == subjects(ts@),
                ns@ == sh("NodeShape"@),
                ty@ == rdf_type(),
                shapes_from(ts@, k as int) == Ok::<Seq<NodeShapeView>, Seq<char>>(
                    shapes@.map_values(|s: NodeShape| s@),
                ),
            decreases subs@.len() - k,
        {
            assert(subjects(ts@)[k as int] == subs@[k as int]@);
            let types = objects_exec(ts, subs[k].as_str(), ty.as_str());
            let mut is_shape = false;
            let mut j: usize = 0;
            while j < types.len()
                invariant
                    j <= types@.len(),
                    is_shape == term_keys(types@).take(j as int).contains(ns@),
                decreases types@.len() - j,
            {
                let key = term_key_exec(&types[j]);
                assert(term_keys(types@).take(j + 1) =~= term_keys(types@).take(j as int).push(key@));
                let ghost pre = term_keys(types@).take(j as int);
                proof {
                    vstd::seq_lib::lemma_seq_contains_after_push(pre, key@, ns@);
                }
                if str_eq(key.as_str(), ns.as_str()) {
                    is_shape = true;
                }
                j = j + 1;
            }
            assert(term_keys(types@).take(types@.len() as int) =~= term_keys(types@));
            if is_shape {
                match node_shape_from_exec(ts, &subs, subs[k].as_str()) {
                    Err(m) => {
                        proof {
                            lemma_shapes_err_persists(ts@, k + 1, subs@.len() as int);
                        }
                        return Err(ShaclError::ShapesParse(m));
                    },
                    Ok(shape) => {
                        let ghost before = shapes@.map_values(|s: NodeShape| s@);
                        shapes.push(shape);
                        assert(shapes@.map_values(|s: NodeShape| s@) =~= before.push(shape@));
                    },
                }
            }
            k = k + 1;
        }
        Ok(ShapeSet { shapes })
    }
}

impl ShapeSet {
    /// Validate parsed bundle triples. Returns every violation found, in
    /// wire order (violations with one wire form keep the order in which
    /// the checks find them); an empty result means the bundle is
    /// conformant and may enter the store. A shape whose `sh:pattern` the
    /// regex crate rejects is an error once it meets a value.
    pub fn validate(&self, data: &Vec<Triple>) -> (r: Result<Vec<ShaclViolation>, ShaclError>)
        ensures
            match r {
                Ok(out) => !all_fail(data@, self@, self@.len() as int) && violation_views(out@)
                    == by_wire(
                    all_violations(data@, self@, self@.len() as int),
                    all_violations(data@, self@, self@.len() as int).len() as int,
                ) && wire_sorted(violation_views(out@)) && violation_views(out@).to_multiset()
                    == all_violations(data@, self@, self@.len() as int).to_multiset(),
                Err(e) => all_fail(data@, self@, self@.len() as int) && shapes_error(data@, self@, e)
                    && pattern_error(e),
            },
    {
        let subs = subjects_exec(data);
        let mut out: Vec<ShaclViolation> = Vec::new();
        let mut k: usize = 0;
        let n = self.shapes.len();
        while k < n
            invariant
                n == self@.len(),
                self@ == self.shapes@.map_values(|s: NodeShape| s@),
                views(subs@) == subjects(data@),
                k <= n,
                violation_views(out@) == all_violations(data@, self@, k as int),
                !all_fail(data@, self@, k as int),
            decreases n - k,
        {
            assert(self@[k as int] == self.shapes@[k as int]@);
            match check_shape(data, &subs, &self.shapes[k]) {
                Ok(more) => {
                    push_all(&mut out, more);
                },
                Err(e) => {
                    proof {
                        lemma_all_fail_grows(data@, self@, k + 1, n as int);
                        assert(shape_error(data@, self@[k as int], e));
                    }
                    return Err(e);
                },
            }
            k = k + 1;
        }
        Ok(sort_by_wire(out))
    }

    /// Parse shapes from a Turtle document (SHACL vocabulary subset). A
    /// document that does not parse, or a shape missing its target class or
    /// a property missing its path, is a `ShapesParse` error. The shapes are
    /// those read from the document's triples, for some labelling of its
    /// blank nodes.
    pub fn from_turtle(ttl: &str) -> (r: Result<ShapeSet, ShaclError>)
        ensures
            r matches Err(e) ==> e is ShapesParse,
            shapes_read(r, ttl@),
    {
        match parse_turtle(ttl) {
            Err(m) => Err(ShaclError::ShapesParse(m)),
            Ok(ts) => {
                let r = ShapeSet::from_triples(&ts);
                proof {
                    if r is Err {
                        assert(parse_outcome(r, ts@));
                    }
                    assert(canonical(ts@) == turtle_triples(ttl@)->0);
                }
                r
            },
        }
    }

    /// Parse the shapes document registered for `artifact_class` — the first
    /// entry naming it — as `from_turtle` does; a class without one is an
    /// `UnknownArtifactClass` error.
    pub fn for_artifact_class(artifact_class: &str, registry: &Vec<(String, String)>) -> (r: Result<
        ShapeSet,
        ShaclError,
    >)
        ensures
            match r {
                Err(ShaclError::UnknownArtifactClass(c)) => c@ == artifact_class@ && forall|i: int|
                    0 <= i < registry@.len() ==> (#[trigger] registry@[i]).0@ != artifact_class@,
                _ => exists|i: int|
                    #[trigger] registered_at(registry@, artifact_class@, i) && shapes_read(r, registry@[i].1@),
            },
    {
        let mut i: usize = 0;
        while i < registry.len()
            invariant
                i <= registry@.len(),
                forall|q: int| 0 <= q < i ==> (#[trigger] registry@[q]).0@ != artifact_class@,
            decreases registry@.len() - i,
        {
            if str_eq(registry[i].0.as_str(), artifact_class) {
                let r = ShapeSet::from_turtle(registry[i].1.as_str());
                assert(registered_at(registry@, artifact_class@, i as int));
                return r;
            }
            i = i + 1;
        }
        Err(ShaclError::UnknownArtifactClass(String::from_str(artifact_class)))
    }
}

/// How many of `vs` are node-kind violations.
pub open spec fn node_kind_reports(vs: Seq<ViolationView>) -> nat
    decreases vs.len(),
{
    if vs.len() == 0 {
        0
    } else {
        node_kind_reports(vs.drop_last()) + if vs.last().component == "sh:NodeKindConstraintComponent"@ {
            1nat
        } else {
            0nat
        }
    }
}

/// How many of `values` satisfy `bad`.
pub open spec fn count_terms(values: Seq<Term>, bad: spec_fn(Term) -> bool) -> nat
    decreases values.len(),
{
    if values.len() == 0 {
        0
    } else {
        count_terms(values.drop_last(), bad) + if bad(values.last()) {
            1nat
        } else {
            0nat
        }
    }
}

proof fn lemma_reports_single(x: ViolationView)
    ensures
        node_kind_reports(seq![x]) == if x.component == "sh:NodeKindConstraintComponent"@ {
            1nat
        } else {
            0nat
        },
{
    assert(seq![x].drop_last() =~= Seq::<ViolationView>::empty());
    assert(node_kind_reports(Seq::<ViolationView>::empty()) == 0);
}

proof fn lemma_reports_add(a: Seq<ViolationView>, b: Seq<ViolationView>)
    ensures
        node_kind_reports(a + b) == node_kind_reports(a) + node_kind_reports(b),
    decreases b.len(),
{
    if b.len() > 0 {
        assert((a + b).drop_last() =~= a + b.drop_last());
        lemma_reports_add(a, b.drop_last());
    } else {
        assert(a + b =~= a);
    }
}

proof fn lemma_other_components()
    ensures
        "sh:NodeKindConstraintComponent"@ != "sh:MinCountConstraintComponent"@,
        "sh:NodeKindConstraintComponent"@ != "sh:MaxCountConstraintComponent"@,
        "sh:NodeKindConstraintComponent"@ != "sh:MinLengthConstraintComponent"@,
        "sh:NodeKindConstraintComponent"@ != "sh:PatternConstraintComponent"@,
{
    reveal_strlit("sh:NodeKindConstraintComponent");
    reveal_strlit("sh:MinCountConstraintComponent");
    reveal_strlit("sh:MaxCountConstraintComponent");
    reveal_strlit("sh:MinLengthConstraintComponent");
    reveal_strlit("sh:PatternConstraintComponent");
    assert("sh:NodeKindConstraintComponent"@ != "sh:MinCountConstraintComponent"@) by {
        assert("sh:NodeKindConstraintComponent"@[3] != "sh:MinCountConstraintComponent"@[3]);
    }
    assert("sh:NodeKindConstraintComponent"@ != "sh:MaxCountConstraintComponent"@) by {
        assert("sh:NodeKindConstraintComponent"@[3] != "sh:MaxCountConstraintComponent"@[3]);
    }
    assert("sh:NodeKindConstraintComponent"@ != "sh:MinLengthConstraintComponent"@) by {
        assert("sh:NodeKindConstraintComponent"@[3] != "sh:MinLengthConstraintComponent"@[3]);
    }
    assert("sh:NodeKindConstraintComponent"@ != "sh:PatternConstraintComponent"@) by {
        assert("sh:NodeKindConstraintComponent"@[3] != "sh:PatternConstraintComponent"@[3]);
    }
}

/// Each value's checks report at most the node-kind violation, and report
/// it exactly when the value misses the property's node kind.
proof fn lemma_values_reports(focus: Seq<char>, prop: PropertyShapeView, values: Seq<Term>, k: int)
    requires
        0 <= k <= values.len(),
    ensures
        node_kind_reports(values_violations(focus, prop, values, k)) == count_terms(
            values.take(k),
            |v: Term| prop.node_kind is Some && !kind_ok(prop.node_kind->0, v),
        ),
    decreases k,
{
    let bad = |v: Term| prop.node_kind is Some && !kind_ok(prop.node_kind->0, v);
    if k == 0 {
        assert(values.take(0) =~= Seq::<Term>::empty());
    } else {
        lemma_values_reports(focus, prop, values, k - 1);
        let v = values[k - 1];
        let lex = term_key(v);
        let a = if prop.min_length is Some && lex.len() < prop.min_length->0 {
            violation(
                focus,
                prop,
                "sh:MinLengthConstraintComponent"@,
                "value '"@ + lex + "' is shorter than minLength "@ + decimal(prop.min_length->0 as nat),
            )
        } else {
            Seq::empty()
        };
        let b = if prop.pattern is Some && !regex_matches(prop.pattern->0, lex) {
            violation(
                focus,
                prop,
                "sh:PatternConstraintComponent"@,
                "value '"@ + lex + "' does not match /"@ + prop.pattern->0 + "/"@,
            )
        } else {
            Seq::empty()
        };
        let c = if prop.node_kind is Some && !kind_ok(prop.node_kind->0, v) {
            violation(focus, prop, "sh:NodeKindConstraintComponent"@, "value "@ + lex + " has wrong node kind"@)
        } else {
            Seq::empty()
        };
        assert(value_violations(focus, prop, v) == a + b + c);
        lemma_other_components();
        lemma_reports_add(a, b);
        lemma_reports_add(a + b, c);
        assert(node_kind_reports(a) == 0) by {
            if a.len() > 0 {
                lemma_reports_single(a[0]);
                assert(a =~= seq![a[0]]);
            }
        }
        assert(node_kind_reports(b) == 0) by {
            if b.len() > 0 {
                lemma_reports_single(b[0]);
                assert(b =~= seq![b[0]]);
            }
        }
        assert(node_kind_reports(c) == if bad(v) { 1nat } else { 0nat }) by {
            if c.len() > 0 {
                lemma_reports_single(c[0]);
                assert(c =~= seq![c[0]]);
            }
        }
        lemma_reports_add(values_violations(focus, prop, values, k - 1), value_violations(focus, prop, v));
        assert(values.take(k).drop_last() =~= values.take(k - 1));
    }
}

/// The node-kind violations of `prop` on a focus: one for each value that
/// misses the node kind, and no other.
proof fn lemma_property_reports(ts: Seq<Triple>, focus: Seq<char>, prop: PropertyShapeView)
    ensures
        node_kind_reports(property_violations(ts, focus, prop)) == count_terms(
            objects(ts, focus, prop.path),
            |v: Term| prop.node_kind is Some && !kind_ok(prop.node_kind->0, v),
        ),
{
    let values = objects(ts, focus, prop.path);
    let cv = count_violations(focus, prop, values.len());
    lemma_values_reports(focus, prop, values, values.len() as int);
    assert(values.take(values.len() as int) =~= values);
    lemma_other_components();
    let a = if prop.min_count is Some && values.len() < prop.min_count->0 {
        violation(
            focus,
            prop,
            "sh:MinCountConstraintComponent"@,
            "expected at least "@ + decimal(prop.min_count->0 as nat) + " value(s), found "@ + decimal(
                values.len(),
            ),
        )
    } else {
        Seq::empty()
    };
    let b = if prop.max_count is Some && values.len() > prop.max_count->0 {
        violation(
            focus,
            prop,
            "sh:MaxCountConstraintComponent"@,
            "expected at most "@ + decimal(prop.max_count->0 as nat) + " value(s), found "@ + decimal(
                values.len(),
            ),
        )
    } else {
        Seq::empty()
    };
    assert(cv == a + b);
    lemma_reports_add(a, b);
    assert(node_kind_reports(a) == 0) by {
        if a.len() > 0 {
            lemma_reports_single(a[0]);
            assert(a =~= seq![a[0]]);
        }
    }
    assert(node_kind_reports(b) == 0) by {
        if b.len() > 0 {
            lemma_reports_single(b[0]);
            assert(b =~= seq![b[0]]);
        }
    }
    lemma_reports_add(cv, values_violations(focus, prop, values, values.len() as int));
}

proof fn lemma_count_terms_ext(values: Seq<Term>, p: spec_fn(Term) -> bool, q: spec_fn(Term) -> bool)
    requires
        forall|v: Term| #[trigger] p(v) == q(v),
    ensures
        count_terms(values, p) == count_terms(values, q),
    decreases values.len(),
{
    if values.len() > 0 {
        lemma_count_terms_ext(values.drop_last(), p, q);
    }
}

proof fn lemma_node_kinds_differ()
    ensures
        sh("IRI"@) != sh("Literal"@),
        sh("IRI"@) != sh("BlankNodeOrIRI"@),
        sh("Literal"@) != sh("BlankNodeOrIRI"@),
{
    reveal_strlit("IRI");
    reveal_strlit("Literal");
    reveal_strlit("BlankNodeOrIRI");
    let n = SHACL_NS@.len() as int;
    assert(sh("IRI"@)[n] != sh("Literal"@)[n]);
    assert(sh("IRI"@)[n] != sh("BlankNodeOrIRI"@)[n]);
    assert(sh("Literal"@)[n] != sh("BlankNodeOrIRI"@)[n]);
}

/// Node-kind law for `sh:IRI`: on a focus, a property whose node kind is
/// `sh:IRI` reports exactly one node-kind violation for each of its values
/// that is not an IRI (a literal or a blank node), and none for an IRI.
pub proof fn lemma_iri_node_kind_reports(ts: Seq<Triple>, focus: Seq<char>, prop: PropertyShapeView)
    requires
        prop.node_kind == Some(sh("IRI"@)),
    ensures
        node_kind_reports(property_violations(ts, focus, prop)) == count_terms(
            objects(ts, focus, prop.path),
            |v: Term| !(v is Iri),
        ),
{
    lemma_property_reports(ts, focus, prop);
    lemma_node_kinds_differ();
    lemma_count_terms_ext(
        objects(ts, focus, prop.path),
        |v: Term| prop.node_kind is Some && !kind_ok(prop.node_kind->0, v),
        |v: Term| !(v is Iri),
    );
}

/// Node-kind law for `sh:Literal`: exactly one node-kind violation for each
/// value that is not a literal (an IRI or a blank node).
pub proof fn lemma_literal_node_kind_reports(ts: Seq<Triple>, focus: Seq<char>, prop: PropertyShapeView)
    requires
        prop.node_kind == Some(sh("Literal"@)),
    ensures
        node_kind_reports(property_violations(ts, focus, prop)) == count_terms(
            objects(ts, focus, prop.path),
            |v: Term| !(v is Literal),
        ),
{
    lemma_property_reports(ts, focus, prop);
    lemma_node_kinds_differ();
    lemma_count_terms_ext(
        objects(ts, focus, prop.path),
        |v: Term| prop.node_kind is Some && !kind_ok(prop.node_kind->0, v),
        |v: Term| !(v is Literal),
    );
}

/// Node-kind law for `sh:BlankNodeOrIRI`: exactly one node-kind violation
/// for each value that is a literal.
pub proof fn lemma_blank_or_iri_node_kind_reports(ts: Seq<Triple>, focus: Seq<char>, prop: PropertyShapeView)
    requires
        prop.node_kind == Some(sh("BlankNodeOrIRI"@)),
    ensures
        node_kind_reports(property_violations(ts, focus, prop)) == count_terms(
            objects(ts, focus, prop.path),
            |v: Term| v is Literal,
        ),
{
    lemma_property_reports(ts, focus, prop);
    lemma_node_kinds_differ();
    lemma_count_terms_ext(
        objects(ts, focus, prop.path),
        |v: Term| prop.node_kind is Some && !kind_ok(prop.node_kind->0, v),
        |v: Term| v is Literal,
    );
}

} // verus!
