//! Validation does not depend on the order of the triples: permuting a
//! bundle's triples permutes the violations found, and where no two
//! violations share a wire form, the reported (wire-ordered) violations are
//! the same.
use vstd::prelude::*;

use crate::text::{lemma_lex_le_antisymmetric, lemma_lex_le_total, lex_le};
use crate::rdf::{objects, objects_upto, subjects, subjects_upto, term_key, term_keys, Term, Triple};
use crate::shacl::{
    all_fail, focus_fails, property_fails, shape_fails,
    all_violations, by_wire, lemma_insert_sorted, wire_insert_pos, wire_sorted, wire_spec, focus_violations, property_violations, shape_violations, targeted, value_violations,
    values_violations, NodeShapeView, PropertyShapeView, ViolationView,
};

verus! {

/// The concatenation of `g(x)` over `xs`, in order.
pub open spec fn flat<A, B>(xs: Seq<A>, g: spec_fn(A) -> Seq<B>) -> Seq<B>
    decreases xs.len(),
{
    if xs.len() == 0 {
        Seq::empty()
    } else {
        flat(xs.drop_last(), g) + g(xs.last())
    }
}

proof fn lemma_flat_add<A, B>(a: Seq<A>, b: Seq<A>, g: spec_fn(A) -> Seq<B>)
    ensures
        flat(a + b, g) == flat(a, g) + flat(b, g),
    decreases b.len(),
{
    if b.len() == 0 {
        assert(a + b =~= a);
        assert(flat(a, g) + flat(b, g) =~= flat(a, g));
    } else {
        lemma_flat_add(a, b.drop_last(), g);
        assert((a + b).drop_last() =~= a + b.drop_last());
        assert((a + b).last() == b.last());
        assert(flat(a + b, g) =~= flat(a, g) + flat(b, g));
    }
}

/// Concatenating over permuted sequences, with functions that agree up to
/// order on every element, gives the same multiset.
pub proof fn lemma_flat_permutation<A, B>(
    xs1: Seq<A>,
    xs2: Seq<A>,
    g1: spec_fn(A) -> Seq<B>,
    g2: spec_fn(A) -> Seq<B>,
)
    requires
        xs1.to_multiset() == xs2.to_multiset(),
        forall|x: A| xs1.contains(x) ==> (#[trigger] g1(x)).to_multiset() == g2(x).to_multiset(),
    ensures
        flat(xs1, g1).to_multiset() == flat(xs2, g2).to_multiset(),
    decreases xs1.len(),
{
    broadcast use vstd::seq_lib::group_to_multiset_ensures;
    broadcast use vstd::seq_lib::lemma_multiset_commutative;

    if xs1.len() == 0 {
        assert(xs1.to_multiset().len() == xs1.len());
        assert(xs2.to_multiset().len() == xs2.len());
        assert(xs2.len() == 0);
        assert(flat(xs1, g1) =~= Seq::<B>::empty());
        assert(flat(xs2, g2) =~= Seq::<B>::empty());
    } else {
        let x = xs1.last();
        let rest1 = xs1.drop_last();
        assert(xs1 =~= rest1.push(x));
        assert(xs1.contains(x));
        assert(xs2.to_multiset().count(x) > 0);
        assert(xs2.contains(x));
        let i = choose|i: int| 0 <= i < xs2.len() && xs2[i] == x;
        let rest2 = xs2.remove(i);
        assert(rest2.to_multiset() == xs2.to_multiset().remove(x));
        assert(rest1.to_multiset() =~= rest2.to_multiset());
        assert forall|y: A| rest1.contains(y) implies (#[trigger] g1(y)).to_multiset() == g2(y).to_multiset() by {
            let j = choose|j: int| 0 <= j < rest1.len() && rest1[j] == y;
            assert(xs1[j] == y);
        }
        lemma_flat_permutation(rest1, rest2, g1, g2);
        let pre = xs2.take(i);
        let post = xs2.skip(i + 1);
        assert(xs2 =~= pre + seq![x] + post);
        assert(rest2 =~= pre + post);
        lemma_flat_add(pre + seq![x], post, g2);
        lemma_flat_add(pre, seq![x], g2);
        lemma_flat_add(pre, post, g2);
        assert(seq![x].drop_last() =~= Seq::<A>::empty());
        assert(flat(Seq::<A>::empty(), g2) =~= Seq::<B>::empty());
        assert(seq![x].last() == x);
        assert(flat(seq![x], g2) =~= g2(x));
        assert(flat(xs1, g1) == flat(rest1, g1) + g1(x));
        assert(flat(xs2, g2).to_multiset() =~= flat(pre, g2).to_multiset().add(g2(x).to_multiset()).add(
            flat(post, g2).to_multiset(),
        ));
        assert(flat(rest2, g2).to_multiset() =~= flat(pre, g2).to_multiset().add(flat(post, g2).to_multiset()));
        assert(flat(xs1, g1).to_multiset() =~= flat(rest1, g1).to_multiset().add(g1(x).to_multiset()));
    }
}

/// The object a triple gives for subject `s` and predicate `p`, if any.
pub open spec fn object_of(s: Seq<char>, p: Seq<char>) -> spec_fn(Triple) -> Seq<Term> {
    |t: Triple| if term_key(t.subject) == s && t.predicate@ == p {
        seq![t.object]
    } else {
        Seq::empty()
    }
}

proof fn lemma_objects_flat(ts: Seq<Triple>, s: Seq<char>, p: Seq<char>, k: int)
    requires
        0 <= k <= ts.len(),
    ensures
        objects_upto(ts, s, p, k) == flat(ts.take(k), object_of(s, p)),
    decreases k,
{
    if k == 0 {
        assert(ts.take(0) =~= Seq::<Triple>::empty());
    } else {
        lemma_objects_flat(ts, s, p, k - 1);
        assert(ts.take(k).drop_last() =~= ts.take(k - 1));
        assert(ts.take(k).last() == ts[k - 1]);
        assert(objects_upto(ts, s, p, k) =~= flat(ts.take(k), object_of(s, p)));
    }
}

/// Permuting the triples permutes the objects of every subject and predicate.
proof fn lemma_objects_permutation(ts1: Seq<Triple>, ts2: Seq<Triple>, s: Seq<char>, p: Seq<char>)
    requires
        ts1.to_multiset() == ts2.to_multiset(),
    ensures
        objects(ts1, s, p).to_multiset() == objects(ts2, s, p).to_multiset(),
{
    lemma_objects_flat(ts1, s, p, ts1.len() as int);
    lemma_objects_flat(ts2, s, p, ts2.len() as int);
    assert(ts1.take(ts1.len() as int) =~= ts1);
    assert(ts2.take(ts2.len() as int) =~= ts2);
    lemma_flat_permutation(ts1, ts2, object_of(s, p), object_of(s, p));
}

proof fn lemma_subjects_upto(ts: Seq<Triple>, k: int)
    requires
        0 <= k <= ts.len(),
    ensures
        subjects_upto(ts, k).no_duplicates(),
        forall|x: Seq<char>|
            #[trigger] subjects_upto(ts, k).contains(x) <==> exists|i: int| 0 <= i < k && term_key(ts[i].subject) == x,
    decreases k,
{
    if k > 0 {
        lemma_subjects_upto(ts, k - 1);
        let prev = subjects_upto(ts, k - 1);
        let s = term_key(ts[k - 1].subject);
        assert forall|x: Seq<char>|
            #[trigger] subjects_upto(ts, k).contains(x) <==> exists|i: int| 0 <= i < k && term_key(ts[i].subject) == x by {
            if exists|i: int| 0 <= i < k && term_key(ts[i].subject) == x {
                let i = choose|i: int| 0 <= i < k && term_key(ts[i].subject) == x;
                if i < k - 1 {
                    assert(prev.contains(x));
                } else {
                    assert(x == s);
                }
                if !prev.contains(s) {
                    assert(prev.push(s)[prev.len() as int] == s);
                }
            }
            if subjects_upto(ts, k).contains(x) && !prev.contains(x) {
                let j = choose|j: int| 0 <= j < subjects_upto(ts, k).len() && subjects_upto(ts, k)[j] == x;
                assert(x == s);
            }
            if prev.contains(x) {
                let j = choose|j: int| 0 <= j < prev.len() && prev[j] == x;
                if !prev.contains(s) {
                    assert(prev.push(s)[j] == x);
                }
            }
        }
    }
}

proof fn lemma_no_duplicates_same_elements(a: Seq<Seq<char>>, b: Seq<Seq<char>>)
    requires
        a.no_duplicates(),
        b.no_duplicates(),
        forall|x: Seq<char>| a.contains(x) <==> b.contains(x),
    ensures
        a.to_multiset() == b.to_multiset(),
{
    broadcast use vstd::seq_lib::group_to_multiset_ensures;

    a.lemma_multiset_has_no_duplicates();
    b.lemma_multiset_has_no_duplicates();
    assert forall|x: Seq<char>| a.to_multiset().count(x) == b.to_multiset().count(x) by {
        if a.contains(x) {
            assert(a.to_multiset().contains(x));
            assert(b.to_multiset().contains(x));
        } else {
            assert(!b.contains(x));
        }
    }
    assert(a.to_multiset() =~= b.to_multiset());
}

/// Permuting the triples permutes their distinct subjects.
proof fn lemma_subjects_permutation(ts1: Seq<Triple>, ts2: Seq<Triple>)
    requires
        ts1.to_multiset() == ts2.to_multiset(),
    ensures
        subjects(ts1).to_multiset() == subjects(ts2).to_multiset(),
{
    broadcast use vstd::seq_lib::group_to_multiset_ensures;

    lemma_subjects_upto(ts1, ts1.len() as int);
    lemma_subjects_upto(ts2, ts2.len() as int);
    assert forall|x: Seq<char>| subjects(ts1).contains(x) <==> subjects(ts2).contains(x) by {
        if subjects(ts1).contains(x) {
            let i = choose|i: int| 0 <= i < ts1.len() && term_key(ts1[i].subject) == x;
            assert(ts1.contains(ts1[i]));
            assert(ts1.to_multiset().count(ts1[i]) > 0);
            assert(ts2.to_multiset().count(ts1[i]) > 0);
            assert(ts2.contains(ts1[i]));
            let j = choose|j: int| 0 <= j < ts2.len() && ts2[j] == ts1[i];
            assert(term_key(ts2[j].subject) == x);
        }
        if subjects(ts2).contains(x) {
            let i = choose|i: int| 0 <= i < ts2.len() && term_key(ts2[i].subject) == x;
            assert(ts2.contains(ts2[i]));
            assert(ts2.to_multiset().count(ts2[i]) > 0);
            assert(ts1.to_multiset().count(ts2[i]) > 0);
            assert(ts1.contains(ts2[i]));
            let j = choose|j: int| 0 <= j < ts1.len() && ts1[j] == ts2[i];
            assert(term_key(ts1[j].subject) == x);
        }
    }
    lemma_no_duplicates_same_elements(subjects(ts1), subjects(ts2));
}

proof fn lemma_keys_permutation(o1: Seq<Term>, o2: Seq<Term>, c: Seq<char>)
    requires
        o1.to_multiset() == o2.to_multiset(),
    ensures
        term_keys(o1).contains(c) == term_keys(o2).contains(c),
{
    broadcast use vstd::seq_lib::group_to_multiset_ensures;

    if term_keys(o1).contains(c) {
        let i = choose|i: int| 0 <= i < term_keys(o1).len() && term_keys(o1)[i] == c;
        assert(o1.contains(o1[i]));
        assert(o1.to_multiset().count(o1[i]) > 0);
        assert(o2.contains(o1[i]));
        let j = choose|j: int| 0 <= j < o2.len() && o2[j] == o1[i];
        assert(term_keys(o2)[j] == c);
    }
    if term_keys(o2).contains(c) {
        let i = choose|i: int| 0 <= i < term_keys(o2).len() && term_keys(o2)[i] == c;
        assert(o2.contains(o2[i]));
        assert(o2.to_multiset().count(o2[i]) > 0);
        assert(o1.contains(o2[i]));
        let j = choose|j: int| 0 <= j < o1.len() && o1[j] == o2[i];
        assert(term_keys(o1)[j] == c);
    }
}

/// The checks of a property on one value, as a function of the value.
pub open spec fn value_checks(focus: Seq<char>, prop: PropertyShapeView) -> spec_fn(Term) -> Seq<ViolationView> {
    |v: Term| value_violations(focus, prop, v)
}

proof fn lemma_values_flat(focus: Seq<char>, prop: PropertyShapeView, values: Seq<Term>, k: int)
    requires
        0 <= k <= values.len(),
    ensures
        values_violations(focus, prop, values, k) == flat(values.take(k), value_checks(focus, prop)),
    decreases k,
{
    if k == 0 {
        assert(values.take(0) =~= Seq::<Term>::empty());
    } else {
        lemma_values_flat(focus, prop, values, k - 1);
        assert(values.take(k).drop_last() =~= values.take(k - 1));
        assert(values.take(k).last() == values[k - 1]);
    }
}

proof fn lemma_property_permutation(ts1: Seq<Triple>, ts2: Seq<Triple>, focus: Seq<char>, prop: PropertyShapeView)
    requires
        ts1.to_multiset() == ts2.to_multiset(),
    ensures
        property_violations(ts1, focus, prop).to_multiset() == property_violations(ts2, focus, prop).to_multiset(),
{
    broadcast use vstd::seq_lib::group_to_multiset_ensures;
    broadcast use vstd::seq_lib::lemma_multiset_commutative;

    let v1 = objects(ts1, focus, prop.path);
    let v2 = objects(ts2, focus, prop.path);
    lemma_objects_permutation(ts1, ts2, focus, prop.path);
    assert(v1.len() == v1.to_multiset().len());
    assert(v2.len() == v2.to_multiset().len());
    lemma_values_flat(focus, prop, v1, v1.len() as int);
    lemma_values_flat(focus, prop, v2, v2.len() as int);
    assert(v1.take(v1.len() as int) =~= v1);
    assert(v2.take(v2.len() as int) =~= v2);
    lemma_flat_permutation(v1, v2, value_checks(focus, prop), value_checks(focus, prop));
}

proof fn lemma_focus_permutation(ts1: Seq<Triple>, ts2: Seq<Triple>, focus: Seq<char>, shape: NodeShapeView, k: int)
    requires
        ts1.to_multiset() == ts2.to_multiset(),
    ensures
        focus_violations(ts1, focus, shape, k).to_multiset() == focus_violations(ts2, focus, shape, k).to_multiset(),
    decreases k,
{
    broadcast use vstd::seq_lib::lemma_multiset_commutative;

    if k > 0 {
        lemma_focus_permutation(ts1, ts2, focus, shape, k - 1);
        lemma_property_permutation(ts1, ts2, focus, shape.properties[k - 1]);
    }
}

/// The checks of `shape` on one subject of `ts`, as a function of the subject.
pub open spec fn focus_checks(ts: Seq<Triple>, shape: NodeShapeView) -> spec_fn(Seq<char>) -> Seq<ViolationView> {
    |focus: Seq<char>| if targeted(ts, focus, shape.target_class) {
        focus_violations(ts, focus, shape, shape.properties.len() as int)
    } else {
        Seq::empty()
    }
}

proof fn lemma_shape_flat(ts: Seq<Triple>, shape: NodeShapeView, k: int)
    requires
        0 <= k <= subjects(ts).len(),
    ensures
        shape_violations(ts, shape, k) == flat(subjects(ts).take(k), focus_checks(ts, shape)),
    decreases k,
{
    if k == 0 {
        assert(subjects(ts).take(0) =~= Seq::<Seq<char>>::empty());
    } else {
        lemma_shape_flat(ts, shape, k - 1);
        assert(subjects(ts).take(k).drop_last() =~= subjects(ts).take(k - 1));
        assert(subjects(ts).take(k).last() == subjects(ts)[k - 1]);
    }
}

proof fn lemma_shape_permutation(ts1: Seq<Triple>, ts2: Seq<Triple>, shape: NodeShapeView)
    requires
        ts1.to_multiset() == ts2.to_multiset(),
    ensures
        shape_violations(ts1, shape, subjects(ts1).len() as int).to_multiset() == shape_violations(
            ts2,
            shape,
            subjects(ts2).len() as int,
        ).to_multiset(),
{
    let s1 = subjects(ts1);
    let s2 = subjects(ts2);
    lemma_subjects_permutation(ts1, ts2);
    lemma_shape_flat(ts1, shape, s1.len() as int);
    lemma_shape_flat(ts2, shape, s2.len() as int);
    assert(s1.take(s1.len() as int) =~= s1);
    assert(s2.take(s2.len() as int) =~= s2);
    let g1 = focus_checks(ts1, shape);
    let g2 = focus_checks(ts2, shape);
    assert forall|f: Seq<char>| s1.contains(f) implies (#[trigger] g1(f)).to_multiset() == g2(f).to_multiset() by {
        lemma_objects_permutation(ts1, ts2, f, crate::shacl::rdf_type());
        lemma_keys_permutation(
            objects(ts1, f, crate::shacl::rdf_type()),
            objects(ts2, f, crate::shacl::rdf_type()),
            shape.target_class,
        );
        lemma_focus_permutation(ts1, ts2, f, shape, shape.properties.len() as int);
    }
    lemma_flat_permutation(s1, s2, g1, g2);
}

/// Permuting a bundle's triples permutes the violations every shape finds.
pub proof fn lemma_violations_permute_with_triples(
    ts1: Seq<Triple>,
    ts2: Seq<Triple>,
    shapes: Seq<NodeShapeView>,
    k: int,
)
    requires
        ts1.to_multiset() == ts2.to_multiset(),
    ensures
        all_violations(ts1, shapes, k).to_multiset() == all_violations(ts2, shapes, k).to_multiset(),
    decreases k,
{
    broadcast use vstd::seq_lib::lemma_multiset_commutative;

    if k > 0 {
        lemma_violations_permute_with_triples(ts1, ts2, shapes, k - 1);
        lemma_shape_permutation(ts1, ts2, shapes[k - 1]);
    }
}

proof fn lemma_wire_insert_pos_bounds(s: Seq<ViolationView>, x: ViolationView, p: int)
    requires
        0 <= p <= s.len(),
    ensures
        p <= wire_insert_pos(s, x, p) <= s.len(),
        forall|q: int| p <= q < wire_insert_pos(s, x, p) ==> lex_le(wire_spec(#[trigger] s[q]), wire_spec(x)),
        wire_insert_pos(s, x, p) < s.len() ==> !lex_le(wire_spec(s[wire_insert_pos(s, x, p)]), wire_spec(x)),
    decreases s.len() - p,
{
    if p < s.len() && lex_le(wire_spec(s[p]), wire_spec(x)) {
        lemma_wire_insert_pos_bounds(s, x, p + 1);
    }
}

/// The first `k` violations ordered by wire form are in wire order and are
/// those violations.
proof fn lemma_by_wire(v: Seq<ViolationView>, k: int)
    requires
        0 <= k <= v.len(),
    ensures
        wire_sorted(by_wire(v, k)),
        by_wire(v, k).to_multiset() == v.take(k).to_multiset(),
    decreases k,
{
    broadcast use vstd::seq_lib::group_to_multiset_ensures;

    if k == 0 {
        assert(v.take(0) =~= Seq::<ViolationView>::empty());
        assert(by_wire(v, 0) =~= Seq::<ViolationView>::empty());
    } else {
        lemma_by_wire(v, k - 1);
        let s = by_wire(v, k - 1);
        let x = v[k - 1];
        lemma_wire_insert_pos_bounds(s, x, 0);
        lemma_insert_sorted(s, wire_insert_pos(s, x, 0), x);
        vstd::seq_lib::to_multiset_insert(s, wire_insert_pos(s, x, 0), x);
        assert(v.take(k) =~= v.take(k - 1).push(x));
    }
}

/// Whether a wire form names at most one of the violations in `s`: two
/// entries with one wire form are the same violation.
pub open spec fn wire_determines(s: Seq<ViolationView>) -> bool {
    forall|i: int, j: int|
        #![trigger s[i], s[j]]
        0 <= i < s.len() && 0 <= j < s.len() && wire_spec(s[i]) == wire_spec(s[j]) ==> s[i] == s[j]
}

/// Two sequences in wire order holding the same violations, where a wire
/// form names at most one violation, are the same sequence.
proof fn lemma_wire_sorted_unique(a: Seq<ViolationView>, b: Seq<ViolationView>)
    requires
        wire_sorted(a),
        wire_sorted(b),
        a.to_multiset() == b.to_multiset(),
        wire_determines(a),
    ensures
        a == b,
    decreases a.len(),
{
    broadcast use vstd::seq_lib::group_to_multiset_ensures;

    assert(a.len() == a.to_multiset().len());
    assert(b.len() == b.to_multiset().len());
    if a.len() == 0 {
        assert(a =~= b);
    } else {
        let n = a.len() - 1;
        let x = a[n];
        let y = b[n];
        assert(a.contains(x));
        assert(a.to_multiset().count(x) > 0);
        assert(b.contains(x));
        let i = choose|i: int| 0 <= i < b.len() && b[i] == x;
        assert(b.contains(y));
        assert(b.to_multiset().count(y) > 0);
        assert(a.contains(y));
        let j = choose|j: int| 0 <= j < a.len() && a[j] == y;
        if i < n {
            assert(lex_le(wire_spec(b[i]), wire_spec(b[n])));
        }
        if j < n {
            assert(lex_le(wire_spec(a[j]), wire_spec(a[n])));
        }
        if i < n && j < n {
            lemma_lex_le_antisymmetric(wire_spec(x), wire_spec(y));
            assert(a[j] == a[n]);
        }
        assert(x == y);
        let a0 = a.drop_last();
        assert forall|i: int, j: int|
            0 <= i < a0.len() && 0 <= j < a0.len() && wire_spec(#[trigger] a0[i]) == wire_spec(
                #[trigger] a0[j],
            ) implies a0[i] == a0[j] by {
            assert(a0[i] == a[i] && a0[j] == a[j]);
        }
        let b0 = b.drop_last();
        assert(a =~= a0.push(x));
        assert(b =~= b0.push(x));
        assert(a0.push(x).to_multiset() == a0.to_multiset().insert(x));
        assert(b0.push(x).to_multiset() == b0.to_multiset().insert(x));
        assert forall|z: ViolationView| a0.to_multiset().count(z) == b0.to_multiset().count(z) by {
            broadcast use vstd::multiset::group_multiset_axioms;

            assert(a0.to_multiset().insert(x).count(z) == b0.to_multiset().insert(x).count(z));
        }
        assert(a0.to_multiset() =~= b0.to_multiset());
        lemma_wire_sorted_unique(a0, b0);
        assert(a =~= b);
    }
}

/// Validation does not depend on the order of a bundle's triples: for two
/// orderings of the same triples, a rejected pattern is met for both or for
/// neither, and the violations the shapes find, put in wire order — what
/// `ShapeSet::validate` returns — are the same, wherever a wire form names
/// at most one violation (a violation found twice included). Two different
/// violations with one wire form keep the order the checks find them in,
/// which follows the triples.
pub proof fn lemma_validation_ignores_triple_order(
    ts1: Seq<Triple>,
    ts2: Seq<Triple>,
    shapes: Seq<NodeShapeView>,
)
    requires
        ts1.to_multiset() == ts2.to_multiset(),
        wire_determines(all_violations(ts1, shapes, shapes.len() as int)),
    ensures
        all_fail(ts1, shapes, shapes.len() as int) == all_fail(ts2, shapes, shapes.len() as int),
        by_wire(
            all_violations(ts1, shapes, shapes.len() as int),
            all_violations(ts1, shapes, shapes.len() as int).len() as int,
        ) == by_wire(
            all_violations(ts2, shapes, shapes.len() as int),
            all_violations(ts2, shapes, shapes.len() as int).len() as int,
        ),
{
    broadcast use vstd::seq_lib::group_to_multiset_ensures;

    let n = shapes.len() as int;
    lemma_failure_ignores_triple_order(ts1, ts2, shapes, n);
    let v1 = all_violations(ts1, shapes, n);
    let v2 = all_violations(ts2, shapes, n);
    lemma_violations_permute_with_triples(ts1, ts2, shapes, n);
    assert(v1.len() == v1.to_multiset().len());
    assert(v2.len() == v2.to_multiset().len());
    lemma_by_wire(v1, v1.len() as int);
    lemma_by_wire(v2, v2.len() as int);
    assert(v1.take(v1.len() as int) =~= v1);
    assert(v2.take(v2.len() as int) =~= v2);
    let a = by_wire(v1, v1.len() as int);
    let b = by_wire(v2, v2.len() as int);
    lemma_wire_determines_permutation(v1, a);
    lemma_wire_sorted_unique(a, b);
}

/// A permutation of `v` keeps `wire_determines`.
proof fn lemma_wire_determines_permutation(v: Seq<ViolationView>, a: Seq<ViolationView>)
    requires
        a.to_multiset() == v.to_multiset(),
        wire_determines(v),
    ensures
        wire_determines(a),
{
    broadcast use vstd::seq_lib::group_to_multiset_ensures;

    assert forall|i: int, j: int|
        #![trigger a[i], a[j]]
        0 <= i < a.len() && 0 <= j < a.len() && wire_spec(a[i]) == wire_spec(a[j]) implies a[i] == a[j] by {
        assert(a.to_multiset().count(a[i]) > 0);
        assert(a.to_multiset().count(a[j]) > 0);
        let p = choose|p: int| 0 <= p < v.len() && v[p] == a[i];
        let q = choose|q: int| 0 <= q < v.len() && v[q] == a[j];
        assert(v[p] == v[q]);
    }
}

proof fn lemma_focus_fails_iff(ts: Seq<Triple>, focus: Seq<char>, shape: NodeShapeView, k: int)
    ensures
        focus_fails(ts, focus, shape, k) <==> exists|j: int|
            0 <= j < k && #[trigger] property_fails(ts, focus, shape.properties[j]),
    decreases k,
{
    if k > 0 {
        lemma_focus_fails_iff(ts, focus, shape, k - 1);
    }
}

proof fn lemma_shape_fails_iff(ts: Seq<Triple>, shape: NodeShapeView, k: int)
    ensures
        shape_fails(ts, shape, k) <==> exists|i: int|
            0 <= i < k && targeted(ts, subjects(ts)[i], shape.target_class) && #[trigger] focus_fails(
                ts,
                subjects(ts)[i],
                shape,
                shape.properties.len() as int,
            ),
    decreases k,
{
    if k > 0 {
        lemma_shape_fails_iff(ts, shape, k - 1);
    }
}

proof fn lemma_focus_fails_permutation(ts1: Seq<Triple>, ts2: Seq<Triple>, focus: Seq<char>, shape: NodeShapeView)
    requires
        ts1.to_multiset() == ts2.to_multiset(),
    ensures
        focus_fails(ts1, focus, shape, shape.properties.len() as int) == focus_fails(
            ts2,
            focus,
            shape,
            shape.properties.len() as int,
        ),
{
    broadcast use vstd::seq_lib::group_to_multiset_ensures;

    let m = shape.properties.len() as int;
    lemma_focus_fails_iff(ts1, focus, shape, m);
    lemma_focus_fails_iff(ts2, focus, shape, m);
    assert forall|j: int| 0 <= j < m implies #[trigger] property_fails(ts1, focus, shape.properties[j])
        == property_fails(ts2, focus, shape.properties[j]) by {
        let path = shape.properties[j].path;
        lemma_objects_permutation(ts1, ts2, focus, path);
        assert(objects(ts1, focus, path).len() == objects(ts1, focus, path).to_multiset().len());
        assert(objects(ts2, focus, path).len() == objects(ts2, focus, path).to_multiset().len());
    }
    if focus_fails(ts1, focus, shape, m) {
        let j = choose|j: int| 0 <= j < m && #[trigger] property_fails(ts1, focus, shape.properties[j]);
        assert(property_fails(ts2, focus, shape.properties[j]));
    }
    if focus_fails(ts2, focus, shape, m) {
        let j = choose|j: int| 0 <= j < m && #[trigger] property_fails(ts2, focus, shape.properties[j]);
        assert(property_fails(ts1, focus, shape.properties[j]) == property_fails(ts2, focus, shape.properties[j]));
    }
}

proof fn lemma_shape_fails_permutation(ts1: Seq<Triple>, ts2: Seq<Triple>, shape: NodeShapeView)
    requires
        ts1.to_multiset() == ts2.to_multiset(),
    ensures
        shape_fails(ts1, shape, subjects(ts1).len() as int) == shape_fails(ts2, shape, subjects(ts2).len() as int),
{
    broadcast use vstd::seq_lib::group_to_multiset_ensures;

    let s1 = subjects(ts1);
    let s2 = subjects(ts2);
    let m = shape.properties.len() as int;
    lemma_shape_fails_iff(ts1, shape, s1.len() as int);
    lemma_shape_fails_iff(ts2, shape, s2.len() as int);
    lemma_subjects_permutation(ts1, ts2);
    assert forall|f: Seq<char>|
        s1.contains(f) || s2.contains(f) implies (targeted(ts1, f, shape.target_class) && focus_fails(ts1, f, shape, m))
        == (targeted(ts2, f, shape.target_class) && focus_fails(ts2, f, shape, m)) by {
        lemma_objects_permutation(ts1, ts2, f, crate::shacl::rdf_type());
        lemma_keys_permutation(
            objects(ts1, f, crate::shacl::rdf_type()),
            objects(ts2, f, crate::shacl::rdf_type()),
            shape.target_class,
        );
        lemma_focus_fails_permutation(ts1, ts2, f, shape);
    }
    if shape_fails(ts1, shape, s1.len() as int) {
        let i = choose|i: int|
            0 <= i < s1.len() && targeted(ts1, s1[i], shape.target_class) && #[trigger] focus_fails(ts1, s1[i], shape, m);
        assert(s1.contains(s1[i]));
        assert(s1.to_multiset().count(s1[i]) > 0);
        assert(s2.contains(s1[i]));
        let j = choose|j: int| 0 <= j < s2.len() && s2[j] == s1[i];
        assert(focus_fails(ts2, s2[j], shape, m));
    }
    if shape_fails(ts2, shape, s2.len() as int) {
        let i = choose|i: int|
            0 <= i < s2.len() && targeted(ts2, s2[i], shape.target_class) && #[trigger] focus_fails(ts2, s2[i], shape, m);
        assert(s2.contains(s2[i]));
        assert(s2.to_multiset().count(s2[i]) > 0);
        assert(s1.contains(s2[i]));
        let j = choose|j: int| 0 <= j < s1.len() && s1[j] == s2[i];
        assert(focus_fails(ts1, s1[j], shape, m));
    }
}

/// Permuting a bundle's triples leaves whether validation meets a rejected
/// pattern unchanged.
pub proof fn lemma_failure_ignores_triple_order(ts1: Seq<Triple>, ts2: Seq<Triple>, shapes: Seq<NodeShapeView>, k: int)
    requires
        ts1.to_multiset() == ts2.to_multiset(),
    ensures
        all_fail(ts1, shapes, k) == all_fail(ts2, shapes, k),
    decreases k,
{
    if k > 0 {
        lemma_failure_ignores_triple_order(ts1, ts2, shapes, k - 1);
        lemma_shape_fails_permutation(ts1, ts2, shapes[k - 1]);
    }
}

} // verus!
