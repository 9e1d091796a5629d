//! The token graph and its resolution oracle: every component token must
//! resolve through the semantic tier to a primitive, with no cycle and no
//! dangling reference.
use vstd::prelude::*;

use crate::text::{contains_str, lex_le, lex_le_exec, str_eq, views};

verus! {

/// One token row from the store.
#[derive(Debug, Clone, PartialEq, Eq)]
pub struct TokenRow {
    pub token: String,
    pub tier: String,
    pub binds: Option<String>,
    pub component: Option<String>,
}

/// An incoherence in the token graph — fails validation.
#[derive(Debug, Clone, PartialEq, Eq)]
pub enum TokenIncoherence {
    /// A binds edge points at a token that does not exist.
    Dangling { token: String, missing: String },
    /// The resolution path revisits a token.
    Cycle { tokens: Vec<String> },
    /// A component token never reaches a primitive through the semantic tier.
    NoSemanticPath { token: String },
}

/// The mathematical value of an incoherence.
pub enum IncoherenceView {
    Dangling { token: Seq<char>, missing: Seq<char> },
    Cycle { tokens: Seq<Seq<char>> },
    NoSemanticPath { token: Seq<char> },
}

impl View for TokenIncoherence {
    type V = IncoherenceView;

    open spec fn view(&self) -> IncoherenceView {
        match self {
            TokenIncoherence::Dangling { token, missing } => IncoherenceView::Dangling {
                token: token@,
                missing: missing@,
            },
            TokenIncoherence::Cycle { tokens } => IncoherenceView::Cycle { tokens: views(tokens@) },
            TokenIncoherence::NoSemanticPath { token } => IncoherenceView::NoSemanticPath {
                token: token@,
            },
        }
    }
}

/// The values of a sequence of incoherences.
pub open spec fn incoherence_views(v: Seq<TokenIncoherence>) -> Seq<IncoherenceView> {
    v.map_values(|i: TokenIncoherence| i@)
}

/// The last row among the first `k` whose token is `id`.
pub open spec fn lookup_upto(rows: Seq<TokenRow>, id: Seq<char>, k: int) -> Option<int>
    decreases k,
{
    if k <= 0 {
        None
    } else if rows[k - 1].token@ == id {
        Some(k - 1)
    } else {
        lookup_upto(rows, id, k - 1)
    }
}

/// The row a token id resolves to: the last row that declares it.
pub open spec fn lookup(rows: Seq<TokenRow>, id: Seq<char>) -> Option<int> {
    lookup_upto(rows, id, rows.len() as int)
}

/// Every row that binds a token no row declares, in row order.
pub open spec fn dangling_upto(rows: Seq<TokenRow>, k: int) -> Seq<IncoherenceView>
    decreases k,
{
    if k <= 0 {
        Seq::empty()
    } else {
        let r = rows[k - 1];
        dangling_upto(rows, k - 1) + match r.binds {
            Some(t) => if lookup(rows, t@) is None {
                seq![IncoherenceView::Dangling { token: r.token@, missing: t@ }]
            } else {
                Seq::empty()
            },
            None => Seq::empty(),
        }
    }
}

/// The resolution walk from a component token `root`: `path` holds the
/// tokens visited so far, `through` whether a semantic token was passed,
/// `cur` the row reached last.
pub open spec fn component_walk(
    rows: Seq<TokenRow>,
    root: Seq<char>,
    path: Seq<Seq<char>>,
    through: bool,
    cur: int,
) -> Seq<IncoherenceView>
    decreases rows.len() + 1 - path.len(),
{
    if path.len() > rows.len() || !(0 <= cur < rows.len()) {
        Seq::empty()
    } else {
        match rows[cur].binds {
            None => seq![IncoherenceView::NoSemanticPath { token: root }],
            Some(t) => match lookup(rows, t@) {
                None => Seq::empty(),
                Some(n) => {
                    let tok = rows[n].token@;
                    if path.contains(tok) {
                        seq![IncoherenceView::Cycle { tokens: path.push(tok) }]
                    } else if rows[n].tier@ == "semantic"@ {
                        component_walk(rows, root, path.push(tok), true, n)
                    } else if rows[n].tier@ == "primitive"@ {
                        if through {
                            Seq::empty()
                        } else {
                            seq![IncoherenceView::NoSemanticPath { token: root }]
                        }
                    } else {
                        component_walk(rows, root, path.push(tok), through, n)
                    }
                },
            },
        }
    }
}

/// The incoherences found walking every component row among the first `k`.
pub open spec fn component_upto(rows: Seq<TokenRow>, k: int) -> Seq<IncoherenceView>
    decreases k,
{
    if k <= 0 {
        Seq::empty()
    } else {
        let r = rows[k - 1];
        component_upto(rows, k - 1) + if r.tier@ == "component"@ {
            component_walk(rows, r.token@, seq![r.token@], false, k - 1)
        } else {
            Seq::empty()
        }
    }
}

/// Whether `root` orders at or before every token in `path`.
pub open spec fn least_of(root: Seq<char>, path: Seq<Seq<char>>) -> bool {
    forall|j: int| 0 <= j < path.len() ==> lex_le(root, #[trigger] path[j])
}

/// The walk from a semantic token `root` looking for a cycle back to it; a
/// cycle is reported once, from its least member.
pub open spec fn semantic_walk(
    rows: Seq<TokenRow>,
    root: Seq<char>,
    path: Seq<Seq<char>>,
    cur: int,
) -> Seq<IncoherenceView>
    decreases rows.len() + 1 - path.len(),
{
    if path.len() > rows.len() || !(0 <= cur < rows.len()) {
        Seq::empty()
    } else {
        match rows[cur].binds {
            None => Seq::empty(),
            Some(t) => match lookup(rows, t@) {
                None => Seq::empty(),
                Some(n) => {
                    let tok = rows[n].token@;
                    if path.contains(tok) {
                        if tok == root && least_of(root, path) {
                            seq![IncoherenceView::Cycle { tokens: path.push(tok) }]
                        } else {
                            Seq::empty()
                        }
                    } else {
                        semantic_walk(rows, root, path.push(tok), n)
                    }
                },
            },
        }
    }
}

/// The cycles found walking every semantic row among the first `k`.
pub open spec fn semantic_upto(rows: Seq<TokenRow>, k: int) -> Seq<IncoherenceView>
    decreases k,
{
    if k <= 0 {
        Seq::empty()
    } else {
        let r = rows[k - 1];
        semantic_upto(rows, k - 1) + if r.tier@ == "semantic"@ {
            semantic_walk(rows, r.token@, seq![r.token@], k - 1)
        } else {
            Seq::empty()
        }
    }
}

/// The verdict of the token-resolution oracle: dangling edges in row order,
/// then the component walks, then the semantic cycles.
pub open spec fn token_resolution(rows: Seq<TokenRow>) -> Seq<IncoherenceView> {
    dangling_upto(rows, rows.len() as int) + component_upto(rows, rows.len() as int)
        + semantic_upto(rows, rows.len() as int)
}

/// Some row declares token `t`.
pub open spec fn declared(rows: Seq<TokenRow>, t: Seq<char>) -> bool {
    exists|k: int| 0 <= k < rows.len() && (#[trigger] rows[k]).token@ == t
}

/// Every token of `path` is declared by some row.
pub open spec fn all_declared(rows: Seq<TokenRow>, path: Seq<Seq<char>>) -> bool {
    forall|j: int| 0 <= j < path.len() ==> declared(rows, #[trigger] path[j])
}

proof fn lemma_lookup_upto(rows: Seq<TokenRow>, id: Seq<char>, k: int)
    requires
        k <= rows.len(),
    ensures
        lookup_upto(rows, id, k) matches Some(n) ==> 0 <= n < k && rows[n].token@ == id,
        lookup_upto(rows, id, k) is None ==> forall|j: int|
            0 <= j < k ==> #[trigger] rows[j].token@ != id,
    decreases k,
{
    if k > 0 {
        lemma_lookup_upto(rows, id, k - 1);
    }
}

/// A walk's path holds distinct tokens that rows declare, so it is never
/// longer than the rows.
proof fn lemma_path_bounded(rows: Seq<TokenRow>, path: Seq<Seq<char>>)
    requires
        path.no_duplicates(),
        all_declared(rows, path),
    ensures
        path.len() <= rows.len(),
{
    let toks = rows.map_values(|r: TokenRow| r.token@);
    assert forall|x: Seq<char>| path.to_set().contains(x) implies toks.to_set().contains(x) by {
        let j = choose|j: int| 0 <= j < path.len() && path[j] == x;
        assert(declared(rows, path[j]));
        let k = choose|k: int| 0 <= k < rows.len() && (#[trigger] rows[k]).token@ == path[j];
        assert(toks[k] == x);
    }
    path.unique_seq_to_set();
    toks.lemma_cardinality_of_set();
    vstd::seq_lib::seq_to_set_is_finite(toks);
    vstd::set_lib::lemma_len_subset(path.to_set(), toks.to_set());
}

fn find_token(rows: &Vec<TokenRow>, id: &str) -> (r: Option<usize>)
    ensures
        match r {
            Some(k) => lookup(rows@, id@) == Some(k as int),
            None => lookup(rows@, id@) is None,
        },
{
    let mut k = rows.len();
    while k > 0
        invariant
            k <= rows@.len(),
            lookup(rows@, id@) == lookup_upto(rows@, id@, k as int),
        decreases k,
    {
        if str_eq(rows[k - 1].token.as_str(), id) {
            return Some(k - 1);
        }
        k = k - 1;
    }
    None
}

fn walk_component(rows: &Vec<TokenRow>, i: usize) -> (r: Option<TokenIncoherence>)
    requires
        i < rows@.len(),
    ensures
        component_walk(rows@, rows@[i as int].token@, seq![rows@[i as int].token@], false, i as int)
            == match r {
            Some(x) => seq![x@],
            None => Seq::<IncoherenceView>::empty(),
        },
{
    let ghost root = rows@[i as int].token@;
    let mut path: Vec<String> = Vec::new();
    path.push(rows[i].token.clone());
    let mut through = false;
    let mut cur: usize = i;
    assert(views(path@) =~= seq![root]);
    proof {
        lemma_path_bounded(rows@, views(path@));
    }
    loop
        invariant
            cur < rows@.len(),
            i < rows@.len(),
            root == rows@[i as int].token@,
            views(path@).no_duplicates(),
            all_declared(rows@, views(path@)),
            path@.len() <= rows@.len(),
            component_walk(rows@, root, views(path@), through, cur as int)
                == component_walk(rows@, root, seq![root], false, i as int),
        decreases rows@.len() - path@.len(),
    {
        let ghost vp = views(path@);
        match &rows[cur].binds {
            None => {
                return Some(TokenIncoherence::NoSemanticPath { token: rows[i].token.clone() });
            },
            Some(target) => {
                match find_token(rows, target.as_str()) {
                    None => {
                        return None;
                    },
                    Some(n) => {
                        proof {
                            lemma_lookup_upto(rows@, target@, rows@.len() as int);
                        }
                        let tok = rows[n].token.clone();
                        if contains_str(&path, tok.as_str()) {
                            path.push(tok);
                            assert(views(path@) =~= vp.push(rows@[n as int].token@));
                            return Some(TokenIncoherence::Cycle { tokens: path });
                        }
                        path.push(tok);
                        assert(views(path@) =~= vp.push(rows@[n as int].token@));
                        proof {
                            assert forall|j: int|
                                0 <= j < views(path@).len() implies declared(
                                rows@,
                                #[trigger] views(path@)[j],
                            ) by {
                                if j < vp.len() {
                                    assert(views(path@)[j] == vp[j]);
                                } else {
                                    assert(rows@[n as int].token@ == views(path@)[j]);
                                }
                            }
                            lemma_path_bounded(rows@, views(path@));
                        }
                        if str_eq(rows[n].tier.as_str(), "semantic") {
                            through = true;
                            cur = n;
                        } else if str_eq(rows[n].tier.as_str(), "primitive") {
                            if through {
                                return None;
                            } else {
                                return Some(
                                    TokenIncoherence::NoSemanticPath { token: rows[i].token.clone() },
                                );
                            }
                        } else {
                            cur = n;
                        }
                    },
                }
            },
        }
    }
}

fn is_least(root: &str, path: &Vec<String>) -> (r: bool)
    ensures
        r == least_of(root@, views(path@)),
{
    let mut j: usize = 0;
    while j < path.len()
        invariant
            j <= path@.len(),
            forall|q: int| 0 <= q < j ==> lex_le(root@, #[trigger] views(path@)[q]),
        decreases path@.len() - j,
    {
        if !lex_le_exec(root, path[j].as_str()) {
            assert(views(path@)[j as int] == path@[j as int]@);
            return false;
        }
        assert(views(path@)[j as int] == path@[j as int]@);
        j = j + 1;
    }
    true
}

fn walk_semantic(rows: &Vec<TokenRow>, i: usize) -> (r: Option<TokenIncoherence>)
    requires
        i < rows@.len(),
    ensures
        semantic_walk(rows@, rows@[i as int].token@, seq![rows@[i as int].token@], i as int) == match r {
            Some(x) => seq![x@],
            None => Seq::<IncoherenceView>::empty(),
        },
{
    let ghost root = rows@[i as int].token@;
    let mut path: Vec<String> = Vec::new();
    path.push(rows[i].token.clone());
    let mut cur: usize = i;
    assert(views(path@) =~= seq![root]);
    proof {
        lemma_path_bounded(rows@, views(path@));
    }
    loop
        invariant
            cur < rows@.len(),
            i < rows@.len(),
            root == rows@[i as int].token@,
            views(path@).no_duplicates(),
            all_declared(rows@, views(path@)),
            path@.len() <= rows@.len(),
            semantic_walk(rows@, root, views(path@), cur as int) == semantic_walk(
                rows@,
                root,
                seq![root],
                i as int,
            ),
        decreases rows@.len() - path@.len(),
    {
        let ghost vp = views(path@);
        match &rows[cur].binds {
            None => {
                return None;
            },
            Some(target) => {
                match find_token(rows, target.as_str()) {
                    None => {
                        return None;
                    },
                    Some(n) => {
                        proof {
                            lemma_lookup_upto(rows@, target@, rows@.len() as int);
                        }
                        let tok = rows[n].token.clone();
                        if contains_str(&path, tok.as_str()) {
                            if str_eq(tok.as_str(), rows[i].token.as_str()) && is_least(
                                rows[i].token.as_str(),
                                &path,
                            ) {
                                path.push(tok);
                                assert(views(path@) =~= vp.push(rows@[n as int].token@));
                                return Some(TokenIncoherence::Cycle { tokens: path });
                            }
                            return None;
                        }
                        path.push(tok);
                        assert(views(path@) =~= vp.push(rows@[n as int].token@));
                        proof {
                            assert forall|j: int|
                                0 <= j < views(path@).len() implies declared(
                                rows@,
                                #[trigger] views(path@)[j],
                            ) by {
                                if j < vp.len() {
                                    assert(views(path@)[j] == vp[j]);
                                } else {
                                    assert(rows@[n as int].token@ == views(path@)[j]);
                                }
                            }
                            lemma_path_bounded(rows@, views(path@));
                        }
                        cur = n;
                    },
                }
            },
        }
    }
}

/// The token-resolution oracle: pure judge over queried rows.
pub fn judge_token_resolution(rows: &Vec<TokenRow>) -> (r: Vec<TokenIncoherence>)
    ensures
        incoherence_views(r@) == token_resolution(rows@),
{
    let n = rows.len();
    let mut out: Vec<TokenIncoherence> = Vec::new();
    let mut k: usize = 0;
    while k < n
        invariant
            n == rows@.len(),
            k <= n,
            incoherence_views(out@) == dangling_upto(rows@, k as int),
        decreases n - k,
    {
        let ghost before = out@;
        match &rows[k].binds {
            Some(target) => {
                if find_token(rows, target.as_str()).is_none() {
                    out.push(
                        TokenIncoherence::Dangling {
                            token: rows[k].token.clone(),
                            missing: target.clone(),
                        },
                    );
                }
            },
            None => {},
        }
        k = k + 1;
        assert(incoherence_views(out@) =~= dangling_upto(rows@, k as int));
    }
    let ghost part1 = out@;
    k = 0;
    while k < n
        invariant
            n == rows@.len(),
            k <= n,
            incoherence_views(out@) == dangling_upto(rows@, n as int) + component_upto(
                rows@,
                k as int,
            ),
        decreases n - k,
    {
        let ghost prev = incoherence_views(out@);
        if str_eq(rows[k].tier.as_str(), "component") {
            match walk_component(rows, k) {
                Some(x) => {
                    out.push(x);
                    assert(incoherence_views(out@) =~= prev + seq![x@]);
                },
                None => {
                    assert(incoherence_views(out@) =~= prev + Seq::<IncoherenceView>::empty());
                },
            }
        } else {
            assert(incoherence_views(out@) =~= prev + Seq::<IncoherenceView>::empty());
        }
        k = k + 1;
        assert(incoherence_views(out@) =~= dangling_upto(rows@, n as int) + component_upto(
            rows@,
            k as int,
        ));
    }
    k = 0;
    while k < n
        invariant
            n == rows@.len(),
            k <= n,
            incoherence_views(out@) == dangling_upto(rows@, n as int) + component_upto(
                rows@,
                n as int,
            ) + semantic_upto(rows@, k as int),
        decreases n - k,
    {
        let ghost prev = incoherence_views(out@);
        if str_eq(rows[k].tier.as_str(), "semantic") {
            match walk_semantic(rows, k) {
                Some(x) => {
                    out.push(x);
                    assert(incoherence_views(out@) =~= prev + seq![x@]);
                },
                None => {
                    assert(incoherence_views(out@) =~= prev + Seq::<IncoherenceView>::empty());
                },
            }
        } else {
            assert(incoherence_views(out@) =~= prev + Seq::<IncoherenceView>::empty());
        }
        k = k + 1;
        assert(incoherence_views(out@) =~= dangling_upto(rows@, n as int) + component_upto(
            rows@,
            n as int,
        ) + semantic_upto(rows@, k as int));
    }
    out
}

/// The dangling edges found among the first `j` rows are a prefix of those
/// found among the first `k`.
proof fn lemma_dangling_grows(rows: Seq<TokenRow>, j: int, k: int)
    requires
        0 <= j <= k <= rows.len(),
    ensures
        dangling_upto(rows, j).len() <= dangling_upto(rows, k).len(),
    decreases k - j,
{
    if j < k {
        lemma_dangling_grows(rows, j, k - 1);
    }
}

/// A coherent token graph — one the oracle finds nothing wrong with — has
/// no dangling edge: every token a row binds is declared by some row.
pub proof fn lemma_coherent_graph_has_no_dangling_edge(rows: Seq<TokenRow>)
    requires
        token_resolution(rows).len() == 0,
    ensures
        forall|k: int|
            0 <= k < rows.len() && (#[trigger] rows[k]).binds is Some ==> declared(
                rows,
                rows[k].binds->0@,
            ),
{
    let n = rows.len() as int;
    assert(dangling_upto(rows, n).len() == 0);
    assert forall|k: int| 0 <= k < rows.len() && (#[trigger] rows[k]).binds is Some implies declared(
        rows,
        rows[k].binds->0@,
    ) by {
        let t = rows[k].binds->0;
        lemma_dangling_grows(rows, k + 1, n);
        lemma_lookup_upto(rows, t@, n);
        if lookup(rows, t@) is None {
            assert(dangling_upto(rows, k + 1).len() == dangling_upto(rows, k).len() + 1);
        } else {
            let m = lookup(rows, t@)->0;
            assert(rows[m].token@ == t@);
        }
    }
}


/// A resolution chain from row `c[0]`: each row of `c` binds the token the
/// next row declares (the row a token id resolves to), and no token occurs
/// twice.
pub open spec fn binds_chain(rows: Seq<TokenRow>, c: Seq<int>) -> bool {
    &&& c.len() >= 1
    &&& forall|j: int| 0 <= j < c.len() ==> 0 <= #[trigger] c[j] < rows.len()
    &&& forall|j: int|
        0 <= j < c.len() - 1 ==> ((#[trigger] rows[c[j]]).binds matches Some(t) && lookup(rows, t@)
            == Some(c[j + 1]))
    &&& chain_tokens(rows, c).no_duplicates()
}

/// The tokens of the rows of a chain.
pub open spec fn chain_tokens(rows: Seq<TokenRow>, c: Seq<int>) -> Seq<Seq<char>> {
    c.map_values(|x: int| rows[x].token@)
}

/// Whether a semantic row occurs among `c[1..=j]`.
spec fn passes_semantic(rows: Seq<TokenRow>, c: Seq<int>, j: int) -> bool {
    exists|q: int| 1 <= q <= j && (#[trigger] rows[c[q]]).tier@ == "semantic"@
}

/// Walking a chain whose rows after the first are not primitive: the walk
/// from the first row is the walk from row `c[m]`, with the tokens so far as
/// its path.
proof fn lemma_walk_along_chain(rows: Seq<TokenRow>, c: Seq<int>, m: int)
    requires
        binds_chain(rows, c),
        0 <= m < c.len(),
        forall|j: int| 1 <= j <= m ==> (#[trigger] rows[c[j]]).tier@ != "primitive"@,
    ensures
        component_walk(rows, rows[c[0]].token@, seq![rows[c[0]].token@], false, c[0])
            == component_walk(
            rows,
            rows[c[0]].token@,
            chain_tokens(rows, c).take(m + 1),
            passes_semantic(rows, c, m),
            c[m],
        ),
    decreases m,
{
    let toks = chain_tokens(rows, c);
    let root = rows[c[0]].token@;
    if m == 0 {
        assert(toks.take(1) =~= seq![root]);
        assert(!passes_semantic(rows, c, 0));
    } else {
        lemma_walk_along_chain(rows, c, m - 1);
        let path = toks.take(m);
        assert(0 <= c[m - 1] < rows.len());
        assert(0 <= c[m] < rows.len());
        let t = rows[c[m - 1]].binds->0;
        assert(lookup(rows, t@) == Some(c[m]));
        assert(toks[m] == rows[c[m]].token@);
        assert(path.push(toks[m]) =~= toks.take(m + 1));
        assert(!path.contains(toks[m])) by {
            if path.contains(toks[m]) {
                let q = choose|q: int| 0 <= q < path.len() && path[q] == toks[m];
                assert(toks[q] == toks[m]);
            }
        }
        // The path is no longer than the rows: its tokens are distinct and declared.
        assert forall|q: int| 0 <= q < path.len() implies declared(rows, #[trigger] path[q]) by {
            assert(path[q] == rows[c[q]].token@);
            assert(0 <= c[q] < rows.len());
        }
        assert(path.no_duplicates()) by {
            assert forall|a: int, b: int| 0 <= a < path.len() && 0 <= b < path.len() && a != b implies path[a]
                != path[b] by {
                assert(path[a] == toks[a] && path[b] == toks[b]);
            }
        }
        lemma_path_bounded(rows, path);
        if rows[c[m]].tier@ == "semantic"@ {
            assert(passes_semantic(rows, c, m)) by {
                assert(rows[c[m]].tier@ == "semantic"@);
            }
        } else {
            assert(passes_semantic(rows, c, m) == passes_semantic(rows, c, m - 1)) by {
                if passes_semantic(rows, c, m) {
                    let q = choose|q: int| 1 <= q <= m && (#[trigger] rows[c[q]]).tier@ == "semantic"@;
                    assert(q != m);
                }
                if passes_semantic(rows, c, m - 1) {
                    let q = choose|q: int| 1 <= q <= m - 1 && (#[trigger] rows[c[q]]).tier@ == "semantic"@;
                    assert(1 <= q <= m);
                }
            }
        }
    }
}

/// A component token whose chain ends at a row that binds nothing, before
/// reaching a primitive, never resolves through the semantic tier to a
/// primitive: the oracle reports `NoSemanticPath` for it — whether or not
/// the chain passed a semantic token.
pub proof fn lemma_dead_end_has_no_semantic_path(rows: Seq<TokenRow>, c: Seq<int>)
    requires
        binds_chain(rows, c),
        rows[c[0]].tier@ == "component"@,
        forall|j: int| 1 <= j < c.len() ==> (#[trigger] rows[c[j]]).tier@ != "primitive"@,
        rows[c[c.len() - 1]].binds is None,
    ensures
        token_resolution(rows).contains(IncoherenceView::NoSemanticPath { token: rows[c[0]].token@ }),
{
    let m = c.len() - 1;
    let toks = chain_tokens(rows, c);
    lemma_walk_along_chain(rows, c, m);
    assert(0 <= c[m] < rows.len());
    let path = toks.take(m + 1);
    assert forall|q: int| 0 <= q < path.len() implies declared(rows, #[trigger] path[q]) by {
        assert(path[q] == rows[c[q]].token@);
        assert(0 <= c[q] < rows.len());
    }
    assert(path.no_duplicates()) by {
        assert forall|a: int, b: int| 0 <= a < path.len() && 0 <= b < path.len() && a != b implies path[a]
            != path[b] by {
            assert(path[a] == toks[a] && path[b] == toks[b]);
        }
    }
    lemma_path_bounded(rows, path);
    lemma_component_upto_holds(rows, c[0], rows.len() as int);
}

/// A component token whose chain reaches a primitive without passing a
/// semantic token skips the semantic tier: the oracle reports
/// `NoSemanticPath` for it.
pub proof fn lemma_semantic_tier_is_not_skipped(rows: Seq<TokenRow>, c: Seq<int>)
    requires
        binds_chain(rows, c),
        c.len() >= 2,
        rows[c[0]].tier@ == "component"@,
        forall|j: int| 1 <= j < c.len() - 1 ==> (#[trigger] rows[c[j]]).tier@ != "primitive"@
            && rows[c[j]].tier@ != "semantic"@,
        rows[c[c.len() - 1]].tier@ == "primitive"@,
    ensures
        token_resolution(rows).contains(IncoherenceView::NoSemanticPath { token: rows[c[0]].token@ }),
{
    let m = c.len() - 2;
    let toks = chain_tokens(rows, c);
    lemma_walk_along_chain(rows, c, m);
    assert(!passes_semantic(rows, c, m));
    assert(0 <= c[m] < rows.len());
    assert(0 <= c[m + 1] < rows.len());
    let path = toks.take(m + 1);
    assert forall|q: int| 0 <= q < path.len() implies declared(rows, #[trigger] path[q]) by {
        assert(path[q] == rows[c[q]].token@);
        assert(0 <= c[q] < rows.len());
    }
    assert(path.no_duplicates()) by {
        assert forall|a: int, b: int| 0 <= a < path.len() && 0 <= b < path.len() && a != b implies path[a]
            != path[b] by {
            assert(path[a] == toks[a] && path[b] == toks[b]);
        }
    }
    lemma_path_bounded(rows, path);
    let t = rows[c[m]].binds->0;
    assert(lookup(rows, t@) == Some(c[m + 1]));
    assert(toks[m + 1] == rows[c[m + 1]].token@);
    assert(!path.contains(toks[m + 1])) by {
        if path.contains(toks[m + 1]) {
            let q = choose|q: int| 0 <= q < path.len() && path[q] == toks[m + 1];
            assert(toks[q] == toks[m + 1]);
        }
    }
    assert(rows[c[m + 1]].tier@ != "semantic"@) by {
        reveal_strlit("primitive");
        reveal_strlit("semantic");
        assert("primitive"@[0] != "semantic"@[0]);
    }
    lemma_component_upto_holds(rows, c[0], rows.len() as int);
}

/// What the walk from component row `i` finds is among the incoherences of
/// the component walks of every prefix that holds row `i`.
proof fn lemma_component_upto_holds(rows: Seq<TokenRow>, i: int, k: int)
    requires
        0 <= i < k <= rows.len(),
        rows[i].tier@ == "component"@,
        component_walk(rows, rows[i].token@, seq![rows[i].token@], false, i).len() == 1,
    ensures
        component_upto(rows, k).contains(
            component_walk(rows, rows[i].token@, seq![rows[i].token@], false, i)[0],
        ),
        k == rows.len() ==> token_resolution(rows).contains(
            component_walk(rows, rows[i].token@, seq![rows[i].token@], false, i)[0],
        ),
    decreases k,
{
    let w = component_walk(rows, rows[i].token@, seq![rows[i].token@], false, i);
    let n = rows.len() as int;
    if k - 1 == i {
        let prev = component_upto(rows, k - 1);
        assert(component_upto(rows, k) == prev + w);
        assert(component_upto(rows, k)[prev.len() as int] == w[0]);
    } else {
        lemma_component_upto_holds(rows, i, k - 1);
        let prev = component_upto(rows, k - 1);
        let q = choose|q: int| 0 <= q < prev.len() && prev[q] == w[0];
        assert(component_upto(rows, k)[q] == w[0]);
    }
    if k == n {
        let d = dangling_upto(rows, n);
        let cu = component_upto(rows, n);
        let q = choose|q: int| 0 <= q < cu.len() && cu[q] == w[0];
        assert(token_resolution(rows)[d.len() + q] == w[0]);
    }
}

} // verus!
