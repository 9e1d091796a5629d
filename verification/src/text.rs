//! Character-sequence utilities shared by the whole library.
use vstd::prelude::*;

verus! {

/// The characters of an optional string.
pub open spec fn opt_view(o: Option<String>) -> Option<Seq<char>> {
    match o {
        Some(s) => Some(s@),
        None => None,
    }
}

/// The characters of each string in a sequence.
pub open spec fn views(v: Seq<String>) -> Seq<Seq<char>> {
    v.map_values(|s: String| s@)
}

/// Whether some string of `v` holds the characters of `s`.
pub fn contains_str(v: &Vec<String>, s: &str) -> (r: bool)
    ensures
        r == views(v@).contains(s@),
{
    let mut i: usize = 0;
    while i < v.len()
        invariant
            i <= v@.len(),
            forall|j: int| 0 <= j < i ==> v@[j]@ != s@,
        decreases v@.len() - i,
    {
        if str_eq(v[i].as_str(), s) {
            assert(views(v@)[i as int] == s@);
            return true;
        }
        i = i + 1;
    }
    assert forall|j: int| 0 <= j < views(v@).len() implies #[trigger] views(v@)[j] != s@ by {
        assert(v@[j]@ != s@);
    }
    false
}

/// Characters of a string slice, one by one.
pub fn chars_of(s: &str) -> (v: Vec<char>)
    ensures
        v@ == s@,
{
    let n = s.unicode_len();
    let mut v: Vec<char> = Vec::new();
    let mut i: usize = 0;
    while i < n
        invariant
            n == s@.len(),
            i <= n,
            v@ == s@.take(i as int),
        decreases n - i,
    {
        v.push(s.get_char(i));
        i = i + 1;
        assert(v@ =~= s@.take(i as int));
    }
    assert(v@ =~= s@);
    v
}

/// Whether two string slices hold the same characters.
pub fn str_eq(a: &str, b: &str) -> (r: bool)
    ensures
        r == (a@ == b@),
{
    let n = a.unicode_len();
    let m = b.unicode_len();
    if n != m {
        return false;
    }
    let mut i: usize = 0;
    while i < n
        invariant
            n == a@.len(),
            m == b@.len(),
            n == m,
            i <= n,
            forall|j: int| 0 <= j < i ==> a@[j] == b@[j],
        decreases n - i,
    {
        if a.get_char(i) != b.get_char(i) {
            return false;
        }
        i = i + 1;
    }
    assert(a@ =~= b@);
    true
}

/// The concatenation of two string slices.
pub fn concat(a: &str, b: &str) -> (r: String)
    ensures
        r@ == a@ + b@,
{
    let mut r = String::from_str(a);
    r.append(b);
    r
}


/// Every leftmost, non-overlapping occurrence of `from` in `s` replaced by
/// `to`, scanning left to right; an empty `from` matches before every
/// character and at the end.
pub open spec fn replace_all(s: Seq<char>, from: Seq<char>, to: Seq<char>) -> Seq<char>
    decreases s.len(),
{
    if from.len() == 0 {
        if s.len() == 0 {
            to
        } else {
            to + seq![s[0]] + replace_all(s.skip(1), from, to)
        }
    } else if s.len() < from.len() {
        s
    } else if s.take(from.len() as int) == from {
        to + replace_all(s.skip(from.len() as int), from, to)
    } else {
        seq![s[0]] + replace_all(s.skip(1), from, to)
    }
}

fn matches_at(cs: &Vec<char>, fs: &Vec<char>, i: usize) -> (r: bool)
    requires
        i + fs@.len() <= cs@.len(),
    ensures
        r == (cs@.subrange(i as int, i + fs@.len()) == fs@),
{
    let m = fs.len();
    let n = cs.len();
    let mut k: usize = 0;
    while k < m
        invariant
            m == fs@.len(),
            n == cs@.len(),
            i + m <= cs@.len(),
            k <= m,
            forall|j: int| 0 <= j < k ==> cs@[i + j] == fs@[j],
        decreases m - k,
    {
        if cs[i + k] != fs[k] {
            assert(cs@.subrange(i as int, i + m)[k as int] != fs@[k as int]);
            return false;
        }
        k = k + 1;
    }
    assert(cs@.subrange(i as int, i + m) =~= fs@);
    true
}

/// `s` with every occurrence of `from` replaced by `to`, as `str::replace` does.
pub fn replace_all_exec(s: &str, from: &str, to: &str) -> (r: String)
    ensures
        r@ == replace_all(s@, from@, to@),
{
    let cs = chars_of(s);
    let fs = chars_of(from);
    let n = cs.len();
    let m = fs.len();
    let mut out = String::new();
    let mut i: usize = 0;
    assert(s@.skip(0) =~= s@);
    if m == 0 {
        while i < n
            invariant
                n == s@.len(),
                cs@ == s@,
                m == 0,
                from@.len() == 0,
                i <= n,
                out@ + replace_all(s@.skip(i as int), from@, to@) == replace_all(s@, from@, to@),
            decreases n - i,
        {
            let ghost rest = s@.skip(i as int);
            assert(rest[0] == s@[i as int]);
            assert(rest.skip(1) =~= s@.skip(i + 1));
            let c = s.substring_char(i, i + 1);
            assert(c@ =~= seq![rest[0]]);
            out.append(to);
            out.append(c);
            i = i + 1;
            assert(out@ + replace_all(s@.skip(i as int), from@, to@) =~= replace_all(s@, from@, to@));
        }
        out.append(to);
        assert(s@.skip(n as int) =~= Seq::<char>::empty());
        return out;
    }
    while i < n
        invariant
            n == s@.len(),
            cs@ == s@,
            fs@ == from@,
            m == from@.len(),
            m > 0,
            i <= n,
            out@ + replace_all(s@.skip(i as int), from@, to@) == replace_all(s@, from@, to@),
        decreases n - i,
    {
        let ghost rest = s@.skip(i as int);
        if m <= n && i <= n - m && matches_at(&cs, &fs, i) {
            assert(rest.take(m as int) =~= s@.subrange(i as int, i + m));
            assert(rest.skip(m as int) =~= s@.skip(i + m));
            out.append(to);
            i = i + m;
            assert(out@ + replace_all(s@.skip(i as int), from@, to@) =~= replace_all(s@, from@, to@));
        } else {
            if m <= n && i <= n - m {
                assert(rest.take(m as int) =~= s@.subrange(i as int, i + m));
            }
            assert(rest[0] == s@[i as int]);
            assert(rest.skip(1) =~= s@.skip(i + 1));
            let c = s.substring_char(i, i + 1);
            assert(c@ =~= seq![rest[0]]);
            out.append(c);
            i = i + 1;
            assert(out@ + replace_all(s@.skip(i as int), from@, to@) =~= replace_all(s@, from@, to@));
        }
    }
    assert(s@.skip(n as int) =~= Seq::<char>::empty());
    out
}

/// Lexicographic order on characters by code point — the order `String`'s
/// `Ord` gives, since UTF-8 bytes order as code points do.
pub open spec fn lex_le(a: Seq<char>, b: Seq<char>) -> bool
    decreases a.len(),
{
    if a.len() == 0 {
        true
    } else if b.len() == 0 {
        false
    } else if (a[0] as u32) < (b[0] as u32) {
        true
    } else if (a[0] as u32) == (b[0] as u32) {
        lex_le(a.skip(1), b.skip(1))
    } else {
        false
    }
}

/// Any two sequences are ordered one way or the other.
pub proof fn lemma_lex_le_total(a: Seq<char>, b: Seq<char>)
    ensures
        lex_le(a, b) || lex_le(b, a),
    decreases a.len(),
{
    if a.len() > 0 && b.len() > 0 && (a[0] as u32) == (b[0] as u32) {
        lemma_lex_le_total(a.skip(1), b.skip(1));
    }
}

/// The order is transitive.
pub proof fn lemma_lex_le_transitive(a: Seq<char>, b: Seq<char>, c: Seq<char>)
    requires
        lex_le(a, b),
        lex_le(b, c),
    ensures
        lex_le(a, c),
    decreases a.len(),
{
    if a.len() > 0 && b.len() > 0 && c.len() > 0 && (a[0] as u32) == (b[0] as u32) && (b[0] as u32)
        == (c[0] as u32) {
        lemma_lex_le_transitive(a.skip(1), b.skip(1), c.skip(1));
    }
}

/// Characters with the same code point are the same character.
pub proof fn lemma_char_injective(x: char, y: char)
    requires
        (x as u32) == (y as u32),
    ensures
        x == y,
{
}

/// Sequences that order each way are equal.
pub proof fn lemma_lex_le_antisymmetric(a: Seq<char>, b: Seq<char>)
    requires
        lex_le(a, b),
        lex_le(b, a),
    ensures
        a == b,
    decreases a.len(),
{
    if a.len() > 0 && b.len() > 0 {
        assert((a[0] as u32) == (b[0] as u32));
        lemma_char_injective(a[0], b[0]);
        lemma_lex_le_antisymmetric(a.skip(1), b.skip(1));
        assert(a =~= seq![a[0]] + a.skip(1));
        assert(b =~= seq![b[0]] + b.skip(1));
    } else {
        assert(a.len() == 0 && b.len() == 0);
        assert(a =~= b);
    }
}

/// The Unicode lowercase mapping of a string, as `str::to_lowercase`
/// gives it (locale independent; context sensitive for a final sigma).
pub uninterp spec fn lowercase(s: Seq<char>) -> Seq<char>;

/// `str::to_lowercase`: the string's Unicode lowercase mapping (context
/// sensitive where Unicode says so, as for a final sigma). The contract
/// names the result as a function of the input characters alone.
#[verifier::external_body]
pub(crate) fn to_lowercase(s: &str) -> (r: String)
    ensures
        r@ == lowercase(s@),
{
    s.to_lowercase()
}

/// Whether `a` orders at or before `b`.
pub fn lex_le_exec(a: &str, b: &str) -> (r: bool)
    ensures
        r == lex_le(a@, b@),
{
    let ac = chars_of(a);
    let bc = chars_of(b);
    let n = ac.len();
    let m = bc.len();
    let mut i: usize = 0;
    assert(a@.skip(0) =~= a@);
    assert(b@.skip(0) =~= b@);
    while i < n && i < m && (ac[i] as u32) == (bc[i] as u32)
        invariant
            ac@ == a@,
            bc@ == b@,
            n == a@.len(),
            m == b@.len(),
            i <= n,
            i <= m,
            lex_le(a@.skip(i as int), b@.skip(i as int)) == lex_le(a@, b@),
        decreases n - i,
    {
        assert(a@.skip(i as int).skip(1) =~= a@.skip(i + 1));
        assert(b@.skip(i as int).skip(1) =~= b@.skip(i + 1));
        i = i + 1;
    }
    if i == n {
        true
    } else if i == m {
        false
    } else {
        assert(a@.skip(i as int)[0] == a@[i as int]);
        assert(b@.skip(i as int)[0] == b@[i as int]);
        (ac[i] as u32) < (bc[i] as u32)
    }
}

/// The decimal digit character for `d < 10`.
pub open spec fn digit_char(d: nat) -> char {
    (48 + d) as char
}

/// The decimal representation of `n`, most significant digit first, with no
/// leading zeros — what `to_string` gives for an unsigned integer.
pub open spec fn decimal(n: nat) -> Seq<char>
    decreases n,
{
    if n < 10 {
        seq![digit_char(n)]
    } else {
        decimal(n / 10) + seq![digit_char(n % 10)]
    }
}

fn digit_str(d: u64) -> (r: &'static str)
    requires
        d < 10,
    ensures
        r@ == seq![digit_char(d as nat)],
{
    proof {
        reveal_strlit("0");
        reveal_strlit("1");
        reveal_strlit("2");
        reveal_strlit("3");
        reveal_strlit("4");
        reveal_strlit("5");
        reveal_strlit("6");
        reveal_strlit("7");
        reveal_strlit("8");
        reveal_strlit("9");
    }
    let r = if d == 0 {
        "0"
    } else if d == 1 {
        "1"
    } else if d == 2 {
        "2"
    } else if d == 3 {
        "3"
    } else if d == 4 {
        "4"
    } else if d == 5 {
        "5"
    } else if d == 6 {
        "6"
    } else if d == 7 {
        "7"
    } else if d == 8 {
        "8"
    } else {
        "9"
    };
    assert(r@ =~= seq![digit_char(d as nat)]);
    r
}

/// The decimal representation of `n`.
pub fn decimal_exec(n: u64) -> (r: String)
    ensures
        r@ == decimal(n as nat),
    decreases n,
{
    if n < 10 {
        String::from_str(digit_str(n))
    } else {
        let mut s = decimal_exec(n / 10);
        s.append(digit_str(n % 10));
        s
    }
}

/// The decimal representation of a 128-bit `n`.
pub fn decimal_u128(n: u128) -> (r: String)
    ensures
        r@ == decimal(n as nat),
    decreases n,
{
    if n < 10 {
        String::from_str(digit_str(n as u64))
    } else {
        let mut s = decimal_u128(n / 10);
        s.append(digit_str((n % 10) as u64));
        s
    }
}

/// Whether every character is an ASCII decimal digit.
pub open spec fn all_digits(s: Seq<char>) -> bool {
    forall|i: int| 0 <= i < s.len() ==> '0' <= #[trigger] s[i] <= '9'
}

/// The value of a string of decimal digits.
pub open spec fn digits_value(s: Seq<char>) -> nat
    decreases s.len(),
{
    if s.len() == 0 {
        0
    } else {
        digits_value(s.drop_last()) * 10 + ((s.last() as nat) - 48) as nat
    }
}

/// What `str::parse::<u64>` gives: an optional `+`, then one or more decimal
/// digits whose value fits in 64 bits.
pub open spec fn parse_u64(s: Seq<char>) -> Option<u64> {
    let d = if s.len() > 0 && s[0] == '+' {
        s.skip(1)
    } else {
        s
    };
    if d.len() > 0 && all_digits(d) && digits_value(d) <= u64::MAX {
        Some(digits_value(d) as u64)
    } else {
        None
    }
}

proof fn lemma_digits_value_grows(s: Seq<char>, k: int)
    requires
        0 <= k <= s.len(),
        all_digits(s),
    ensures
        digits_value(s.take(k)) <= digits_value(s),
    decreases s.len() - k,
{
    if k == s.len() {
        assert(s.take(k) =~= s);
    } else {
        lemma_digits_value_grows(s, k + 1);
        assert('0' <= s[k]);
        assert(s.take(k + 1).drop_last() =~= s.take(k));
        assert(s.take(k + 1).last() == s[k]);
    }
}

/// Parse an unsigned 64-bit decimal integer.
#[verifier::rlimit(40)]
pub fn parse_u64_exec(s: &str) -> (r: Option<u64>)
    ensures
        r == parse_u64(s@),
{
    let cs = chars_of(s);
    let n = cs.len();
    let mut i: usize = 0;
    if n > 0 && cs[0] == '+' {
        i = 1;
    }
    let ghost start = i as int;
    let ghost d = s@.skip(start);
    assert(s@.skip(0) =~= s@);
    if i == n {
        return None;
    }
    let mut val: u64 = 0;
    while i < n
        invariant
            cs@ == s@,
            n == s@.len(),
            start <= i <= n,
            start < n,
            (start == 1 && s@.len() > 0 && s@[0] == '+') || (start == 0 && !(s@.len() > 0
                && s@[0] == '+')),
            d == s@.skip(start),
            d == (if s@.len() > 0 && s@[0] == '+' {
                s@.skip(1)
            } else {
                s@
            }),
            all_digits(s@.subrange(start, i as int)),
            val as nat == digits_value(s@.subrange(start, i as int)),
        decreases n - i,
    {
        let c = cs[i];
        if c < '0' || c > '9' {
            assert(s@[i as int] == c);
            assert(d[i - start] == c);
            assert(!all_digits(d));
            return None;
        }
        let dv = (c as u64) - 48;
        assert(s@.subrange(start, i + 1).drop_last() =~= s@.subrange(start, i as int));
        if val > (u64::MAX - dv) / 10 {
            proof {
                assert(digits_value(s@.subrange(start, i + 1)) > u64::MAX);
                if all_digits(d) {
                    assert(d.take(i + 1 - start) =~= s@.subrange(start, i + 1));
                    lemma_digits_value_grows(d, i + 1 - start);
                    assert(digits_value(d) > u64::MAX);
                }
                assert(parse_u64(s@) is None);
            }
            return None;
        }
        val = val * 10 + dv;
        i = i + 1;
    }
    assert(s@.subrange(start, n as int) =~= d);
    Some(val)
}

/// Strictly increasing in lexicographic order — the order a `BTreeSet` of
/// strings iterates in, with no repeats.
pub open spec fn strictly_sorted(s: Seq<Seq<char>>) -> bool {
    forall|i: int, j: int|
        #![trigger s[i], s[j]]
        0 <= i < j < s.len() ==> lex_le(s[i], s[j]) && s[i] != s[j]
}

pub proof fn lemma_insert_to_set<A>(s: Seq<A>, p: int, x: A)
    requires
        0 <= p <= s.len(),
    ensures
        s.insert(p, x).to_set() == s.to_set().insert(x),
{
    let t = s.insert(p, x);
    assert forall|y: A| t.to_set().contains(y) <==> s.to_set().insert(x).contains(y) by {
        if t.to_set().contains(y) {
            let i = choose|i: int| 0 <= i < t.len() && t[i] == y;
            if i < p {
                assert(s[i] == y);
            } else if i > p {
                assert(s[i - 1] == y);
            }
        }
        if s.to_set().contains(y) {
            let i = choose|i: int| 0 <= i < s.len() && s[i] == y;
            if i < p {
                assert(t[i] == y);
            } else {
                assert(t[i + 1] == y);
            }
        }
        if y == x {
            assert(t[p] == y);
        }
    }
    assert(t.to_set() =~= s.to_set().insert(x));
}

/// Inserting `x` where every earlier item orders strictly before it and
/// the item at the position (if any) orders at or after it and differs,
/// keeps a strictly sorted sequence strictly sorted, and `x` was absent.
pub proof fn lemma_sorted_insert_position(s: Seq<Seq<char>>, p: int, x: Seq<char>)
    requires
        0 <= p <= s.len(),
        strictly_sorted(s),
        forall|q: int| 0 <= q < p ==> lex_le(#[trigger] s[q], x) && s[q] != x,
        p < s.len() ==> !(lex_le(s[p], x) && s[p] != x),
        p < s.len() ==> s[p] != x,
    ensures
        strictly_sorted(s.insert(p, x)),
        !s.contains(x),
{
    if p < s.len() {
        lemma_lex_le_total(s[p], x);
    }
    assert forall|q: int| p <= q < s.len() implies lex_le(x, #[trigger] s[q]) && s[q] != x by {
        if q > p {
            lemma_lex_le_transitive(x, s[p], s[q]);
            if s[q] == x {
                lemma_lex_le_antisymmetric(s[p], x);
            }
        }
    }
    let t = s.insert(p, x);
    assert(t.len() == s.len() + 1);
    assert forall|i: int, j: int| 0 <= i < j < t.len() implies lex_le(t[i], t[j]) && t[i] != t[j] by {
        if j < p {
            assert(t[i] == s[i] && t[j] == s[j]);
        } else if j == p {
            assert(t[i] == s[i] && t[j] == x);
            assert(lex_le(s[i], x) && s[i] != x);
        } else if i < p {
            assert(t[i] == s[i] && t[j] == s[j - 1]);
            assert(lex_le(s[i], s[j - 1]) && s[i] != s[j - 1]);
        } else if i == p {
            assert(t[i] == x && t[j] == s[j - 1]);
            assert(lex_le(x, s[j - 1]) && s[j - 1] != x);
        } else {
            assert(t[i] == s[i - 1] && t[j] == s[j - 1]);
            assert(lex_le(s[i - 1], s[j - 1]) && s[i - 1] != s[j - 1]);
        }
    }
}

/// Add `x` to a strictly sorted vector of strings, keeping it strictly
/// sorted — a `BTreeSet` insertion.
pub fn sorted_insert(v: &mut Vec<String>, x: String)
    requires
        strictly_sorted(views(old(v)@)),
    ensures
        strictly_sorted(views(final(v)@)),
        views(final(v)@).to_set() == views(old(v)@).to_set().insert(x@),
{
    let ghost s = views(v@);
    let mut p: usize = 0;
    while p < v.len() && lex_le_exec(v[p].as_str(), x.as_str()) && !str_eq(v[p].as_str(), x.as_str())
        invariant
            p <= v@.len(),
            views(v@) == s,
            s == views(old(v)@),
            strictly_sorted(s),
            forall|q: int| 0 <= q < p ==> lex_le(#[trigger] s[q], x@) && s[q] != x@,
        decreases v@.len() - p,
    {
        p = p + 1;
    }
    if p < v.len() && str_eq(v[p].as_str(), x.as_str()) {
        assert(s.to_set().insert(x@) =~= s.to_set()) by {
            assert(s[p as int] == x@);
        }
        return;
    }
    proof {
        lemma_sorted_insert_position(s, p as int, x@);
        lemma_insert_to_set(s, p as int, x@);
    }
    let ghost xv = x@;
    v.insert(p, x);
    assert(views(v@) =~= s.insert(p as int, xv));
}

/// The distinct strings of `items`, strictly sorted — what collecting into
/// a `BTreeSet` gives.
pub fn string_set(items: &Vec<String>) -> (r: Vec<String>)
    ensures
        strictly_sorted(views(r@)),
        views(r@).to_set() == views(items@).to_set(),
{
    let mut r: Vec<String> = Vec::new();
    let mut k: usize = 0;
    assert(views(r@).to_set() =~= views(items@.take(0)).to_set());
    while k < items.len()
        invariant
            k <= items@.len(),
            strictly_sorted(views(r@)),
            views(r@).to_set() == views(items@.take(k as int)).to_set(),
        decreases items@.len() - k,
    {
        sorted_insert(&mut r, items[k].clone());
        assert(views(items@.take(k + 1)) =~= views(items@.take(k as int)).push(items@[k as int]@));
        proof {
            lemma_insert_to_set(views(items@.take(k as int)), k as int, items@[k as int]@);
            assert(views(items@.take(k as int)).insert(k as int, items@[k as int]@) =~= views(
                items@.take(k as int),
            ).push(items@[k as int]@));
        }
        k = k + 1;
    }
    assert(items@.take(items@.len() as int) =~= items@);
    r
}

} // verus!
