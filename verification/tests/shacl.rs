use loom::rdf::{Term, Triple};
use loom::shacl::{CompiledPattern, ShaclError, ShaclViolation, ShapeSet};

const EX: &str = "http://example.com/";
const RDF_TYPE: &str = "http://www.w3.org/1999/02/22-rdf-syntax-ns#type";

const SHAPES: &str = r#"
@prefix sh: <http://www.w3.org/ns/shacl#> .
@prefix ex: <http://example.com/> .
ex:MotionShape a sh:NodeShape ;
    sh:targetClass ex:Motion ;
    sh:property [ sh:path ex:fallback ; sh:minCount 1 ; sh:maxCount 1 ; sh:minLength 2 ] ;
    sh:property [ sh:path ex:name ; sh:pattern "^[a-z]+$" ; sh:nodeKind sh:Literal ] .
"#;

fn iri(local: &str) -> Term {
    Term::Iri(format!("{EX}{local}"))
}

fn lit(value: &str) -> Term {
    Term::Literal {
        value: value.to_string(),
        datatype: "http://www.w3.org/2001/XMLSchema#string".to_string(),
        language: None,
    }
}

fn triple(s: &str, p: &str, o: Term) -> Triple {
    Triple { subject: iri(s), predicate: p.to_string(), object: o }
}

fn typed(s: &str, class: &str) -> Triple {
    Triple { subject: iri(s), predicate: RDF_TYPE.to_string(), object: iri(class) }
}

fn ex(local: &str) -> String {
    format!("{EX}{local}")
}

#[test]
fn conformant_data_has_no_violations() {
    let shapes = ShapeSet::from_turtle(SHAPES).unwrap();
    let data = vec![
        typed("m1", "Motion"),
        triple("m1", &ex("fallback"), lit("instant")),
        triple("m1", &ex("name"), lit("fade")),
    ];
    assert_eq!(shapes.validate(&data), Ok(vec![]));
}

#[test]
fn violations_are_reported_in_wire_order() {
    let shapes = ShapeSet::from_turtle(SHAPES).unwrap();
    let data = vec![typed("m1", "Motion"), triple("m1", &ex("name"), lit("Fade"))];
    let violations = shapes.validate(&data).unwrap();
    assert_eq!(
        violations,
        vec![
            ShaclViolation {
                focus: ex("m1"),
                path: ex("fallback"),
                component: "sh:MinCountConstraintComponent".to_string(),
                message: "expected at least 1 value(s), found 0".to_string(),
            },
            ShaclViolation {
                focus: ex("m1"),
                path: ex("name"),
                component: "sh:PatternConstraintComponent".to_string(),
                message: "value 'Fade' does not match /^[a-z]+$/".to_string(),
            },
        ]
    );
    assert_eq!(
        violations[0].wire(),
        format!(
            "sh:MinCountConstraintComponent on <{}> (focus {}): expected at least 1 value(s), found 0",
            ex("fallback"),
            ex("m1")
        )
    );
}

#[test]
fn max_count_min_length_and_node_kind_are_checked() {
    let shapes = ShapeSet::from_turtle(SHAPES).unwrap();
    let data = vec![
        typed("m1", "Motion"),
        triple("m1", &ex("fallback"), lit("a")),
        triple("m1", &ex("fallback"), lit("instant")),
        triple("m1", &ex("name"), iri("x")),
    ];
    let violations = shapes.validate(&data).unwrap();
    let components: Vec<&str> = violations.iter().map(|v| v.component.as_str()).collect();
    assert_eq!(
        components,
        vec![
            "sh:MaxCountConstraintComponent",
            "sh:MinLengthConstraintComponent",
            "sh:NodeKindConstraintComponent",
            "sh:PatternConstraintComponent",
        ]
    );
    assert_eq!(violations[0].message, "expected at most 1 value(s), found 2");
    assert_eq!(violations[1].message, "value 'a' is shorter than minLength 2");
    assert_eq!(violations[2].message, format!("value {} has wrong node kind", ex("x")));
}

#[test]
fn untargeted_subjects_are_not_checked() {
    let shapes = ShapeSet::from_turtle(SHAPES).unwrap();
    let data = vec![typed("t1", "Token"), triple("t1", &ex("name"), lit("UPPER"))];
    assert_eq!(shapes.validate(&data), Ok(vec![]));
}

#[test]
fn invalid_pattern_is_an_error_once_it_meets_a_value() {
    let ttl = r#"
@prefix sh: <http://www.w3.org/ns/shacl#> .
@prefix ex: <http://example.com/> .
ex:S a sh:NodeShape ; sh:targetClass ex:Motion ;
    sh:property [ sh:path ex:name ; sh:pattern "(" ] .
"#;
    let shapes = ShapeSet::from_turtle(ttl).unwrap();
    let no_value = vec![typed("m1", "Motion")];
    assert_eq!(shapes.validate(&no_value), Ok(vec![]));
    let data = vec![typed("m1", "Motion"), triple("m1", &ex("name"), lit("x"))];
    match shapes.validate(&data) {
        Err(ShaclError::Pattern(p, _)) => assert_eq!(p, "("),
        other => panic!("expected a pattern error, got {other:?}"),
    }
}

#[test]
fn shape_without_target_class_is_a_parse_error() {
    let ttl = r#"
@prefix sh: <http://www.w3.org/ns/shacl#> .
@prefix ex: <http://example.com/> .
ex:S a sh:NodeShape .
"#;
    assert!(matches!(ShapeSet::from_turtle(ttl), Err(ShaclError::ShapesParse(_))));
}

#[test]
fn malformed_turtle_is_a_parse_error() {
    assert!(matches!(
        ShapeSet::from_turtle("this is not turtle ."),
        Err(ShaclError::ShapesParse(_))
    ));
}

#[test]
fn unknown_artifact_class_has_no_shapes() {
    let registry = vec![("motion".to_string(), SHAPES.to_string())];
    assert_eq!(
        ShapeSet::for_artifact_class("styles", &registry).unwrap_err(),
        ShaclError::UnknownArtifactClass("styles".to_string())
    );
    assert!(ShapeSet::for_artifact_class("motion", &registry).is_ok());
}

#[test]
fn shapes_from_triples_directly() {
    let sh = "http://www.w3.org/ns/shacl#";
    let ts = vec![
        Triple {
            subject: iri("S"),
            predicate: RDF_TYPE.to_string(),
            object: Term::Iri(format!("{sh}NodeShape")),
        },
        Triple {
            subject: iri("S"),
            predicate: format!("{sh}targetClass"),
            object: iri("Motion"),
        },
        Triple {
            subject: iri("S"),
            predicate: format!("{sh}property"),
            object: Term::Blank("p".to_string()),
        },
        Triple {
            subject: Term::Blank("p".to_string()),
            predicate: format!("{sh}path"),
            object: iri("fallback"),
        },
        Triple {
            subject: Term::Blank("p".to_string()),
            predicate: format!("{sh}minCount"),
            object: lit("1"),
        },
    ];
    let shapes = ShapeSet::from_triples(&ts).unwrap();
    let violations = shapes.validate(&vec![typed("m2", "Motion")]).unwrap();
    assert_eq!(violations.len(), 1);
    assert_eq!(violations[0].focus, ex("m2"));
    assert_eq!(violations[0].path, ex("fallback"));
}

#[test]
fn pattern_compilation_follows_the_regex_crate() {
    assert!(CompiledPattern::compile("^[a-z]+$").is_ok());
    assert!(CompiledPattern::compile("(").is_err());
}

#[test]
fn validation_ignores_the_order_of_the_triples() {
    let shapes = ShapeSet::from_turtle(SHAPES).unwrap();
    let mut data = vec![
        typed("m1", "Motion"),
        triple("m1", &ex("name"), lit("Fade")),
        typed("m2", "Motion"),
        triple("m2", &ex("fallback"), lit("a")),
        triple("m2", &ex("name"), iri("x")),
    ];
    let first = shapes.validate(&data).unwrap();
    data.reverse();
    assert_eq!(shapes.validate(&data).unwrap(), first);
    assert_eq!(first.len(), 5);
}

#[test]
fn a_repeated_violation_keeps_validation_order_free() {
    let shapes = ShapeSet::from_turtle(SHAPES).unwrap();
    let mut data = vec![
        typed("m1", "Motion"),
        triple("m1", &ex("fallback"), lit("instant")),
        triple("m1", &ex("name"), lit("Fade")),
        triple("m1", &ex("name"), lit("Fade")),
        typed("m2", "Motion"),
    ];
    let first = shapes.validate(&data).unwrap();
    let patterns = first.iter().filter(|v| v.component == "sh:PatternConstraintComponent").count();
    assert_eq!(patterns, 2);
    data.reverse();
    assert_eq!(shapes.validate(&data).unwrap(), first);
    data.swap(0, 3);
    assert_eq!(shapes.validate(&data).unwrap(), first);
}
