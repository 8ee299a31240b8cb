//! Character-level text utilities shared by the code generators: identifier
//! sanitising, lexicographic ordering of strings (the order `String` has in
//! Rust, by code point), sorting, joining and decimal rendering.
use vstd::prelude::*;
use vstd::multiset::Multiset;

verus! {

/// Characters kept verbatim by [`sanitize_identifier`]: ASCII letters, digits and `_`.
pub open spec fn is_ident_char(c: char) -> bool {
    ('a' <= c && c <= 'z') || ('A' <= c && c <= 'Z') || ('0' <= c && c <= '9') || c == '_'
}

pub open spec fn is_ascii_digit(c: char) -> bool {
    '0' <= c && c <= '9'
}

/// The views of a sequence of strings.
pub open spec fn views(s: Seq<String>) -> Seq<Seq<char>> {
    s.map_values(|x: String| x@)
}

// ------------------------------------------------------------------
// Building strings
// ------------------------------------------------------------------

/// Appends one character to a string (`String::push`).
#[verifier::external_body]
pub(crate) fn push_char(s: &mut String, c: char)
    ensures
        final(s)@ == old(s)@.push(c),
{
    s.push(c);
}

/// Appends a string to another.
pub fn push_str(s: &mut String, t: &str)
    ensures
        final(s)@ == old(s)@ + t@,
{
    s.append(t);
}

/// A fresh owned copy of a string slice.
pub fn owned(t: &str) -> (r: String)
    ensures
        r@ == t@,
{
    String::from_str(t)
}

/// The characters of a string slice, in order.
pub fn chars_of(s: &str) -> (v: Vec<char>)
    ensures
        v@ == s@,
{
    let n = s.unicode_len();
    let mut v: Vec<char> = Vec::new();
    let mut i: usize = 0;
    while i < n
        invariant
            n == s@.len(),
            i <= n,
            v@ == s@.take(i as int),
        decreases n - i,
    {
        let c = s.get_char(i);
        v.push(c);
        i = i + 1;
        assert(v@ =~= s@.take(i as int));
    }
    assert(v@ =~= s@);
    v
}

/// A string made of the given characters.
pub fn string_of(v: &Vec<char>) -> (s: String)
    ensures
        s@ == v@,
{
    let mut s = String::new();
    let mut i: usize = 0;
    while i < v.len()
        invariant
            i <= v.len(),
            s@ == v@.take(i as int),
        decreases v.len() - i,
    {
        push_char(&mut s, v[i]);
        i = i + 1;
        assert(s@ =~= v@.take(i as int));
    }
    assert(v@.take(v.len() as int) =~= v@);
    s
}

/// Whether two strings are equal.
pub fn str_eq(a: &str, b: &str) -> (r: bool)
    ensures
        r == (a@ == b@),
{
    let x = chars_of(a);
    let y = chars_of(b);
    if x.len() != y.len() {
        return false;
    }
    let mut i: usize = 0;
    while i < x.len()
        invariant
            x@ == a@,
            y@ == b@,
            x.len() == y.len(),
            i <= x.len(),
            forall|k: int| 0 <= k < i ==> x@[k] == y@[k],
        decreases x.len() - i,
    {
        if x[i] != y[i] {
            return false;
        }
        i = i + 1;
    }
    assert(x@ =~= y@);
    true
}

// ------------------------------------------------------------------
// Identifiers
// ------------------------------------------------------------------

pub open spec fn sanitize_char(c: char) -> char {
    if is_ident_char(c) {
        c
    } else {
        '_'
    }
}

/// A Python identifier fragment: every character outside `[A-Za-z0-9_]` is
/// replaced by `_`, a leading digit gets a `_` in front, and the empty string
/// becomes `_`.
pub open spec fn sanitized(s: Seq<char>) -> Seq<char> {
    if s.len() == 0 {
        seq!['_']
    } else if is_ascii_digit(s[0]) {
        seq!['_'] + s.map_values(|c: char| sanitize_char(c))
    } else {
        s.map_values(|c: char| sanitize_char(c))
    }
}

/// A sanitized name is a Python identifier: not empty, not starting with
/// a digit, and made of ASCII letters, digits and `_` only.
pub proof fn law_sanitized_is_identifier(s: Seq<char>)
    ensures
        sanitized(s).len() > 0,
        !is_ascii_digit(sanitized(s)[0]),
        forall|i: int| 0 <= i < sanitized(s).len() ==> is_ident_char(#[trigger] sanitized(s)[i]),
{
    if s.len() > 0 && !is_ascii_digit(s[0]) {
        assert(sanitized(s)[0] == sanitize_char(s[0]));
    }
    if s.len() > 0 && is_ascii_digit(s[0]) {
        assert forall|i: int| 0 <= i < sanitized(s).len() implies is_ident_char(#[trigger] sanitized(s)[i]) by {
            if i > 0 {
                assert(sanitized(s)[i] == sanitize_char(s[i - 1]));
            }
        }
    }
}

pub fn is_ident_char_exec(c: char) -> (b: bool)
    ensures
        b == is_ident_char(c),
{
    ('a' <= c && c <= 'z') || ('A' <= c && c <= 'Z') || ('0' <= c && c <= '9') || c == '_'
}

/// Sanitize a string into a Python identifier fragment.
pub fn sanitize_identifier(s: &str) -> (r: String)
    ensures
        r@ == sanitized(s@),
{
    let cs = chars_of(s);
    let mut out = String::new();
    let mut i: usize = 0;
    let ghost lead: Seq<char> = if cs@.len() > 0 && is_ascii_digit(cs@[0]) {
        seq!['_']
    } else {
        Seq::empty()
    };
    while i < cs.len()
        invariant
            cs@ == s@,
            i <= cs.len(),
            lead == (if cs@.len() > 0 && is_ascii_digit(cs@[0]) {
                seq!['_']
            } else {
                Seq::<char>::empty()
            }),
            i > 0 ==> out@ == lead + cs@.take(i as int).map_values(|c: char| sanitize_char(c)),
            i == 0 ==> out@.len() == 0,
        decreases cs.len() - i,
    {
        let c = cs[i];
        if i == 0 && '0' <= c && c <= '9' {
            push_char(&mut out, '_');
        }
        if is_ident_char_exec(c) {
            push_char(&mut out, c);
        } else {
            push_char(&mut out, '_');
        }
        i = i + 1;
        assert(out@ =~= lead + cs@.take(i as int).map_values(|c: char| sanitize_char(c)));
    }
    if cs.len() == 0 {
        push_char(&mut out, '_');
        assert(out@ =~= seq!['_']);
    } else {
        assert(cs@.take(cs.len() as int) =~= cs@);
        assert(out@ =~= sanitized(s@));
    }
    out
}

/// Sanitizing keeps every ASCII letter, digit and `_` in place and turns
/// every other character into `_`, one for one; a leading digit gets one
/// `_` in front, and the empty name becomes `_`. The task variable is `t_`
/// followed by the sanitized id.
pub proof fn law_sanitize_keeps_identifier_chars(s: Seq<char>)
    ensures
        s.len() == 0 ==> sanitized(s) == seq!['_'],
        s.len() > 0 ==> ({
            let off: int = if is_ascii_digit(s[0]) {
                1
            } else {
                0
            };
            &&& sanitized(s).len() == s.len() + off
            &&& off == 1 ==> sanitized(s)[0] == '_'
            &&& forall|i: int|
                0 <= i < s.len() ==> #[trigger] sanitized(s)[i + off] == if is_ident_char(s[i]) {
                    s[i]
                } else {
                    '_'
                }
        }),
        python_var(s) == seq!['t', '_'] + sanitized(s),
{
    if s.len() > 0 {
        if is_ascii_digit(s[0]) {
            assert forall|i: int| 0 <= i < s.len() implies #[trigger] sanitized(s)[i + 1] == if is_ident_char(s[i]) {
                s[i]
            } else {
                '_'
            } by {
                assert(sanitized(s)[i + 1] == s.map_values(|c: char| sanitize_char(c))[i]);
            }
        }
    }
}

/// The Python variable that holds a DAG task: `t_` followed by the sanitized id.
pub open spec fn python_var(task_id: Seq<char>) -> Seq<char> {
    seq!['t', '_'] + sanitized(task_id)
}

pub fn python_var_name(task_id: &str) -> (r: String)
    ensures
        r@ == python_var(task_id@),
{
    let mut r = String::new();
    push_char(&mut r, 't');
    push_char(&mut r, '_');
    let s = sanitize_identifier(task_id);
    push_str(&mut r, s.as_str());
    assert(r@ =~= python_var(task_id@));
    r
}

// ------------------------------------------------------------------
// Lexicographic order
// ------------------------------------------------------------------

/// Strict lexicographic order by code point: the order of `String` in Rust.
pub open spec fn lex_lt(a: Seq<char>, b: Seq<char>) -> bool
    decreases a.len(),
{
    if a.len() == 0 {
        b.len() > 0
    } else if b.len() == 0 {
        false
    } else if a[0] != b[0] {
        a[0] < b[0]
    } else {
        lex_lt(a.skip(1), b.skip(1))
    }
}

pub open spec fn lex_le(a: Seq<char>, b: Seq<char>) -> bool {
    !lex_lt(b, a)
}

pub proof fn lemma_lex_irreflexive(a: Seq<char>)
    ensures
        !lex_lt(a, a),
    decreases a.len(),
{
    if a.len() > 0 {
        lemma_lex_irreflexive(a.skip(1));
    }
}

pub proof fn lemma_lex_total(a: Seq<char>, b: Seq<char>)
    ensures
        a != b ==> (lex_lt(a, b) || lex_lt(b, a)),
        !(lex_lt(a, b) && lex_lt(b, a)),
    decreases a.len(),
{
    if a.len() > 0 && b.len() > 0 {
        if a[0] == b[0] {
            lemma_lex_total(a.skip(1), b.skip(1));
            if a.skip(1) =~= b.skip(1) {
                assert(a =~= seq![a[0]] + a.skip(1));
                assert(b =~= seq![b[0]] + b.skip(1));
            }
        }
    } else if a.len() == 0 && b.len() == 0 {
        assert(a =~= b);
    }
}

pub proof fn lemma_lex_transitive(a: Seq<char>, b: Seq<char>, c: Seq<char>)
    requires
        lex_lt(a, b),
        lex_lt(b, c),
    ensures
        lex_lt(a, c),
    decreases a.len(),
{
    if a.len() > 0 && b.len() > 0 && c.len() > 0 {
        if a[0] == b[0] && b[0] == c[0] {
            lemma_lex_transitive(a.skip(1), b.skip(1), c.skip(1));
        }
    }
}

pub proof fn lemma_lex_le_transitive(a: Seq<char>, b: Seq<char>, c: Seq<char>)
    requires
        lex_le(a, b),
        lex_le(b, c),
    ensures
        lex_le(a, c),
{
    lemma_lex_total(a, b);
    lemma_lex_total(b, c);
    lemma_lex_total(a, c);
    if lex_lt(c, a) {
        if a == b {
            assert(lex_lt(c, b));
        } else if b == c {
            assert(lex_lt(b, a));
        } else {
            lemma_lex_transitive(c, a, b);
        }
    }
}

proof fn lemma_lex_step(a: Seq<char>, b: Seq<char>, i: int)
    requires
        0 <= i < a.len(),
        i < b.len(),
        a[i] == b[i],
    ensures
        lex_lt(a.skip(i), b.skip(i)) == lex_lt(a.skip(i + 1), b.skip(i + 1)),
{
    assert(a.skip(i).skip(1) =~= a.skip(i + 1));
    assert(b.skip(i).skip(1) =~= b.skip(i + 1));
}

/// Whether `a` sorts strictly before `b`.
pub fn str_lt(a: &str, b: &str) -> (r: bool)
    ensures
        r == lex_lt(a@, b@),
{
    let x = chars_of(a);
    let y = chars_of(b);
    let mut i: usize = 0;
    assert(x@.skip(0) =~= x@);
    assert(y@.skip(0) =~= y@);
    while i < x.len() && i < y.len()
        invariant
            x@ == a@,
            y@ == b@,
            i <= x.len(),
            i <= y.len(),
            lex_lt(a@, b@) == lex_lt(x@.skip(i as int), y@.skip(i as int)),
        decreases x.len() - i,
    {
        if x[i] != y[i] {
            let r = x[i] < y[i];
            assert(x@.skip(i as int)[0] == x@[i as int]);
            assert(y@.skip(i as int)[0] == y@[i as int]);
            return r;
        }
        proof {
            lemma_lex_step(x@, y@, i as int);
        }
        i = i + 1;
    }
    i < y.len()
}

// ------------------------------------------------------------------
// Sorting
// ------------------------------------------------------------------

/// Non-decreasing in lexicographic order.
pub open spec fn sorted(s: Seq<Seq<char>>) -> bool {
    forall|i: int, j: int| 0 <= i < j < s.len() ==> lex_le(s[i], s[j])
}

/// Strictly increasing in lexicographic order (so free of duplicates).
pub open spec fn strictly_sorted(s: Seq<Seq<char>>) -> bool {
    forall|i: int, j: int| 0 <= i < j < s.len() ==> lex_lt(s[i], s[j])
}

/// Two lists in strictly increasing order with the same elements are equal.
pub proof fn lemma_sorted_names_unique(x: Seq<Seq<char>>, y: Seq<Seq<char>>)
    requires
        strictly_sorted(x),
        strictly_sorted(y),
        x.to_set() == y.to_set(),
    ensures
        x == y,
    decreases x.len() + y.len(),
{
    if x.len() == 0 || y.len() == 0 {
        if x.len() > 0 {
            assert(x.to_set().contains(x[0]));
        }
        if y.len() > 0 {
            assert(y.to_set().contains(y[0]));
        }
        assert(x =~= y);
    } else {
        assert(x.to_set().contains(x[0]));
        assert(y.to_set().contains(y[0]));
        assert(y.contains(x[0]));
        assert(x.contains(y[0]));
        let p = choose|p: int| 0 <= p < y.len() && y[p] == x[0];
        let q = choose|q: int| 0 <= q < x.len() && x[q] == y[0];
        if p > 0 {
            assert(lex_lt(y[0], y[p]));
            if q > 0 {
                assert(lex_lt(x[0], x[q]));
                lemma_lex_total(x[0], y[0]);
            } else {
                lemma_lex_irreflexive(y[0]);
            }
        }
        assert(x[0] == y[0]);
        let xt = x.subrange(1, x.len() as int);
        let yt = y.subrange(1, y.len() as int);
        assert forall|a: int, b: int| 0 <= a < b < xt.len() implies lex_lt(xt[a], xt[b]) by {
            assert(xt[a] == x[a + 1]);
            assert(xt[b] == x[b + 1]);
        }
        assert forall|a: int, b: int| 0 <= a < b < yt.len() implies lex_lt(yt[a], yt[b]) by {
            assert(yt[a] == y[a + 1]);
            assert(yt[b] == y[b + 1]);
        }
        assert(xt.to_set() =~= yt.to_set()) by {
            assert forall|n: Seq<char>| xt.to_set().contains(n) implies yt.to_set().contains(n) by {
                let a = choose|a: int| 0 <= a < xt.len() && xt[a] == n;
                assert(x[a + 1] == n);
                assert(lex_lt(x[0], n));
                lemma_lex_irreflexive(n);
                assert(x.to_set().contains(n));
                assert(y.contains(n));
                let b = choose|b: int| 0 <= b < y.len() && y[b] == n;
                assert(b != 0);
                assert(yt[b - 1] == n);
            }
            assert forall|n: Seq<char>| yt.to_set().contains(n) implies xt.to_set().contains(n) by {
                let a = choose|a: int| 0 <= a < yt.len() && yt[a] == n;
                assert(y[a + 1] == n);
                assert(lex_lt(y[0], n));
                lemma_lex_irreflexive(n);
                assert(y.to_set().contains(n));
                assert(x.contains(n));
                let b = choose|b: int| 0 <= b < x.len() && x[b] == n;
                assert(b != 0);
                assert(xt[b - 1] == n);
            }
        }
        lemma_sorted_names_unique(xt, yt);
        assert(x =~= seq![x[0]] + xt);
        assert(y =~= seq![y[0]] + yt);
    }
}

/// Lists of strings with the same elements have views with the same
/// elements.
pub proof fn lemma_views_same_elements(a: Seq<String>, b: Seq<String>)
    requires
        a.to_multiset() == b.to_multiset(),
    ensures
        views(a).to_multiset() == views(b).to_multiset(),
    decreases a.len(),
{
    broadcast use vstd::seq_lib::group_to_multiset_ensures;
    broadcast use vstd::multiset::group_multiset_axioms;
    if a.len() == 0 {
        assert(b.to_multiset().len() == 0);
        assert(b.len() == 0);
        assert(views(a) =~= views(b));
    } else {
        let x = a.last();
        assert(a.to_multiset().count(x) > 0) by {
            assert(a =~= a.drop_last().push(x));
        }
        assert(b.to_multiset().count(x) > 0);
        assert(b.contains(x));
        let k = choose|k: int| 0 <= k < b.len() && b[k] == x;
        let a2 = a.drop_last();
        let b2 = b.remove(k);
        assert(a =~= a2.push(x));
        assert(a.to_multiset() =~= a2.to_multiset().insert(x));
        assert(b2.to_multiset() =~= b.to_multiset().remove(x));
        assert(a2.to_multiset() =~= b2.to_multiset());
        lemma_views_same_elements(a2, b2);
        assert(views(a) =~= views(a2).push(x@));
        assert(views(a).to_multiset() =~= views(a2).to_multiset().insert(x@));
        assert(views(b2) =~= views(b).remove(k));
        assert(views(b)[k] == x@);
        assert(views(b2).to_multiset() =~= views(b).to_multiset().remove(x@));
        assert(views(b).to_multiset().count(x@) > 0);
    }
}

/// Two lists in non-decreasing order with the same elements are equal.
pub proof fn lemma_sorted_same_elements(x: Seq<Seq<char>>, y: Seq<Seq<char>>)
    requires
        sorted(x),
        sorted(y),
        x.to_multiset() == y.to_multiset(),
    ensures
        x == y,
{
    let leq = |a: Seq<char>, b: Seq<char>| lex_le(a, b);
    assert forall|a: Seq<char>| #[trigger] leq(a, a) by {
        lemma_lex_irreflexive(a);
    }
    assert forall|a: Seq<char>, b: Seq<char>| #[trigger] leq(a, b) && #[trigger] leq(b, a) implies a == b by {
        lemma_lex_total(a, b);
    }
    assert forall|a: Seq<char>, b: Seq<char>, c: Seq<char>| #[trigger] leq(a, b) && #[trigger] leq(b, c) implies leq(a, c) by {
        lemma_lex_le_transitive(a, b, c);
    }
    assert forall|a: Seq<char>, b: Seq<char>| #[trigger] leq(a, b) || #[trigger] leq(b, a) by {
        lemma_lex_total(a, b);
    }
    assert(vstd::relations::total_ordering(leq));
    assert(vstd::relations::sorted_by(x, leq));
    assert(vstd::relations::sorted_by(y, leq));
    vstd::seq_lib::lemma_sorted_unique(x, y, leq);
}

/// Index of a least element of `v` (the first one among equals).
fn index_of_least(v: &Vec<String>) -> (k: usize)
    requires
        v.len() > 0,
    ensures
        k < v.len(),
        forall|j: int| 0 <= j < v.len() ==> lex_le(v@[k as int]@, v@[j]@),
        forall|j: int| 0 <= j < k ==> lex_lt(v@[k as int]@, v@[j]@),
{
    let mut k: usize = 0;
    let mut i: usize = 1;
    proof {
        lemma_lex_irreflexive(v@[0]@);
    }
    while i < v.len()
        invariant
            0 < i <= v.len(),
            k < i,
            forall|j: int| 0 <= j < i ==> lex_le(v@[k as int]@, v@[j]@),
            forall|j: int| 0 <= j < k ==> lex_lt(v@[k as int]@, v@[j]@),
        decreases v.len() - i,
    {
        if str_lt(v[i].as_str(), v[k].as_str()) {
            proof {
                assert forall|j: int| 0 <= j < i + 1 implies lex_le(v@[i as int]@, v@[j]@) by {
                    if j < i {
                        lemma_lex_total(v@[i as int]@, v@[k as int]@);
                        lemma_lex_total(v@[i as int]@, v@[j]@);
                        if lex_lt(v@[j]@, v@[i as int]@) {
                            lemma_lex_le_transitive(v@[k as int]@, v@[j]@, v@[i as int]@);
                            lemma_lex_total(v@[j]@, v@[i as int]@);
                        }
                    } else {
                        lemma_lex_irreflexive(v@[i as int]@);
                    }
                }
                assert forall|j: int| 0 <= j < i implies lex_lt(v@[i as int]@, v@[j]@) by {
                    lemma_lex_total(v@[i as int]@, v@[j]@);
                    lemma_lex_total(v@[k as int]@, v@[j]@);
                    if !lex_lt(v@[i as int]@, v@[j]@) {
                        if v@[i as int]@ == v@[j]@ {
                        } else {
                            lemma_lex_transitive(v@[j]@, v@[i as int]@, v@[k as int]@);
                        }
                    }
                }
            }
            k = i;
        }
        i = i + 1;
    }
    k
}

/// The strings of `v` in non-decreasing lexicographic order (a stable sort).
pub fn sort_strings(v: Vec<String>) -> (r: Vec<String>)
    ensures
        sorted(views(r@)),
        r@.to_multiset() == v@.to_multiset(),
        r.len() == v.len(),
{
    broadcast use vstd::seq_lib::group_seq_properties;
    let mut rest = v;
    let mut out: Vec<String> = Vec::new();
    let ghost orig = rest@;
    while rest.len() > 0
        invariant
            sorted(views(out@)),
            out@.to_multiset().add(rest@.to_multiset()) == orig.to_multiset(),
            out.len() + rest.len() == orig.len(),
            forall|i: int, j: int|
                0 <= i < out.len() && 0 <= j < rest.len() ==> lex_le(out@[i]@, rest@[j]@),
        decreases rest.len(),
    {
        let k = index_of_least(&rest);
        let ghost before = rest@;
        let ghost old_out = out@;
        let m = rest.remove(k);
        proof {
            before.to_multiset_ensures();
            out@.to_multiset_ensures();
            assert(out@.push(m).to_multiset() =~= out@.to_multiset().insert(m));
            assert(before.remove(k as int).to_multiset() =~= before.to_multiset().remove(before[k as int]));
            assert(before.to_multiset().count(m) > 0) by {
                assert(before.contains(m));
            }
            assert forall|j: int| 0 <= j < rest.len() implies lex_le(m@, rest@[j]@) by {
                if j < k {
                    assert(rest@[j] == before[j]);
                } else {
                    assert(rest@[j] == before[j + 1]);
                }
            }
        }
        out.push(m);
        proof {
            assert(out@.to_multiset().add(rest@.to_multiset()) =~= orig.to_multiset());
            assert forall|i: int, j: int| 0 <= i < j < out.len() implies lex_le(
                views(out@)[i],
                views(out@)[j],
            ) by {
                assert(views(out@)[i] == out@[i]@);
                assert(views(out@)[j] == out@[j]@);
                if j == out.len() - 1 {
                    assert(out@[i] == old_out[i]);
                    assert(out@[j] == before[k as int]);
                    assert(lex_le(old_out[i]@, before[k as int]@));
                } else {
                    assert(out@[i] == old_out[i]);
                    assert(out@[j] == old_out[j]);
                    assert(views(old_out)[i] == old_out[i]@);
                    assert(views(old_out)[j] == old_out[j]@);
                }
            }
            assert forall|i: int, j: int|
                0 <= i < out.len() && 0 <= j < rest.len() implies lex_le(
                out@[i]@,
                rest@[j]@,
            ) by {
                if i < out.len() - 1 {
                    if j < k {
                        assert(rest@[j] == before[j]);
                    } else {
                        assert(rest@[j] == before[j + 1]);
                    }
                }
            }
        }
    }
    proof {
        assert(rest@.to_multiset() =~= Multiset::empty());
        assert(out@.to_multiset().add(Multiset::empty()) =~= out@.to_multiset());
    }
    out
}

/// The distinct strings of `v`, in strictly increasing order (what collecting
/// into a `BTreeSet` and back yields).
pub fn sorted_set(v: Vec<String>) -> (r: Vec<String>)
    ensures
        strictly_sorted(views(r@)),
        forall|x: Seq<char>| views(r@).contains(x) <==> views(v@).contains(x),
{
    broadcast use vstd::seq_lib::group_seq_properties;
    let ghost orig = v@;
    let s = sort_strings(v);
    proof {
        s@.to_multiset_ensures();
        orig.to_multiset_ensures();
        assert forall|x: Seq<char>| views(s@).contains(x) <==> views(orig).contains(x) by {
            if views(s@).contains(x) {
                let i = choose|i: int| 0 <= i < views(s@).len() && views(s@)[i] == x;
                assert(s@.contains(s@[i]));
                assert(s@.to_multiset().count(s@[i]) > 0);
                assert(orig.contains(s@[i]));
                let j = choose|j: int| 0 <= j < orig.len() && orig[j] == s@[i];
                assert(views(orig)[j] == x);
            }
            if views(orig).contains(x) {
                let i = choose|i: int| 0 <= i < views(orig).len() && views(orig)[i] == x;
                assert(orig.contains(orig[i]));
                assert(orig.to_multiset().count(orig[i]) > 0);
                assert(s@.contains(orig[i]));
                let j = choose|j: int| 0 <= j < s@.len() && s@[j] == orig[i];
                assert(views(s@)[j] == x);
            }
        }
    }
    let mut out: Vec<String> = Vec::new();
    let mut i: usize = 0;
    while i < s.len()
        invariant
            i <= s.len(),
            sorted(views(s@)),
            strictly_sorted(views(out@)),
            forall|x: Seq<char>| views(out@).contains(x) <==> views(s@).take(i as int).contains(x),
            out.len() > 0 ==> i > 0 && out@[out.len() - 1]@ == s@[i - 1]@,
        decreases s.len() - i,
    {
        let dup = out.len() > 0 && str_eq(out[out.len() - 1].as_str(), s[i].as_str());
        let ghost prev = out@;
        if !dup {
            proof {
                if out.len() > 0 {
                    lemma_lex_total(s@[i - 1]@, s@[i as int]@);
                    assert(lex_le(views(s@)[i - 1], views(s@)[i as int]));
                    assert(views(prev)[prev.len() - 1] == prev[prev.len() - 1]@);
                    assert(lex_lt(views(prev)[prev.len() - 1], s@[i as int]@));
                }
            }
            out.push(s[i].clone());
            proof {
                assert forall|a: int, b: int| 0 <= a < b < out.len() implies lex_lt(
                    views(out@)[a],
                    views(out@)[b],
                ) by {
                    if b == out.len() - 1 {
                        let p = out.len() - 2;
                        assert(out@[p] == prev[p]);
                        assert(views(out@)[b] == s@[i as int]@);
                        assert(views(out@)[p] == views(prev)[p]);
                        assert(lex_lt(views(prev)[p], s@[i as int]@));
                        if a < p {
                            assert(views(out@)[a] == views(prev)[a]);
                            assert(lex_lt(views(prev)[a], views(prev)[p]));
                            lemma_lex_transitive(views(prev)[a], views(prev)[p], s@[i as int]@);
                        }
                    } else {
                        assert(views(out@)[a] == views(prev)[a]);
                        assert(views(out@)[b] == views(prev)[b]);
                    }
                }
                assert(views(out@) =~= views(prev).push(s@[i as int]@));
            }
        }
        proof {
            assert(views(s@).take(i + 1) =~= views(s@).take(i as int).push(s@[i as int]@));
            let t0 = views(s@).take(i as int);
            let t1 = views(s@).take(i + 1);
            assert forall|x: Seq<char>| views(out@).contains(x) <==> t1.contains(x) by {
                if dup {
                    assert(views(out@) == views(prev));
                    assert(views(prev)[prev.len() - 1] == s@[i as int]@);
                    if t1.contains(x) {
                        let q = choose|q: int| 0 <= q < t1.len() && t1[q] == x;
                        if q < i {
                            assert(t0[q] == x);
                            assert(t0.contains(x));
                        } else {
                            assert(views(prev).contains(x));
                        }
                    }
                    if views(out@).contains(x) {
                        assert(t0.contains(x));
                        let q = choose|q: int| 0 <= q < t0.len() && t0[q] == x;
                        assert(t1[q] == x);
                    }
                } else {
                    assert(views(out@) =~= views(prev).push(s@[i as int]@));
                    if t1.contains(x) {
                        let q = choose|q: int| 0 <= q < t1.len() && t1[q] == x;
                        if q < i {
                            assert(t0[q] == x);
                            assert(t0.contains(x));
                            assert(views(prev).contains(x));
                            let w = choose|w: int| 0 <= w < views(prev).len() && views(prev)[w] == x;
                            assert(views(out@)[w] == x);
                        } else {
                            assert(views(out@)[prev.len() as int] == x);
                        }
                    }
                    if views(out@).contains(x) {
                        let w = choose|w: int| 0 <= w < views(out@).len() && views(out@)[w] == x;
                        if w < prev.len() {
                            assert(views(prev)[w] == x);
                            assert(views(prev).contains(x));
                            assert(t0.contains(x));
                            let q = choose|q: int| 0 <= q < t0.len() && t0[q] == x;
                            assert(t1[q] == x);
                        } else {
                            assert(t1[i as int] == x);
                        }
                    }
                }
            }
        }
        i = i + 1;
    }
    assert(views(s@).take(s.len() as int) =~= views(s@));
    out
}

// ------------------------------------------------------------------
// Joining
// ------------------------------------------------------------------

/// The parts joined with `sep` between consecutive parts.
pub open spec fn joined(parts: Seq<Seq<char>>, sep: Seq<char>) -> Seq<char>
    decreases parts.len(),
{
    if parts.len() == 0 {
        Seq::empty()
    } else if parts.len() == 1 {
        parts[0]
    } else {
        joined(parts.drop_last(), sep) + sep + parts.last()
    }
}

/// `t` occurs in `s` as a run of consecutive characters.
#[verifier::opaque]
pub open spec fn contains_text(s: Seq<char>, t: Seq<char>) -> bool {
    exists|i: int| 0 <= i && i + t.len() <= s.len() && #[trigger] s.subrange(i, i + t.len()) == t
}

/// Each part of a joined text occurs in it.
pub proof fn lemma_joined_contains_part(parts: Seq<Seq<char>>, sep: Seq<char>, k: int)
    requires
        0 <= k < parts.len(),
    ensures
        contains_text(joined(parts, sep), parts[k]),
    decreases parts.len(),
{
    reveal(contains_text);
    let t = parts[k];
    if parts.len() == 1 {
        let i: int = 0;
        assert(joined(parts, sep).subrange(i, i + t.len()) =~= t);
    } else {
        let front = joined(parts.drop_last(), sep);
        let whole = joined(parts, sep);
        assert(whole == front + sep + parts.last());
        if k == parts.len() - 1 {
            let i = (front + sep).len() as int;
            assert(whole.subrange(i, i + t.len()) =~= t);
        } else {
            assert(parts.drop_last()[k] == t);
            lemma_joined_contains_part(parts.drop_last(), sep, k);
            let i = choose|i: int| 0 <= i && i + t.len() <= front.len() && #[trigger] front.subrange(i, i + t.len()) == t;
            assert(whole.subrange(i, i + t.len()) =~= front.subrange(i, i + t.len()));
        }
    }
}

/// Text inside text inside `s` is inside `s`.
pub proof fn lemma_contains_text_trans(s: Seq<char>, t: Seq<char>, u: Seq<char>)
    requires
        contains_text(s, t),
        contains_text(t, u),
    ensures
        contains_text(s, u),
{
    reveal(contains_text);
    let i = choose|i: int| 0 <= i && i + t.len() <= s.len() && #[trigger] s.subrange(i, i + t.len()) == t;
    let j = choose|j: int| 0 <= j && j + u.len() <= t.len() && #[trigger] t.subrange(j, j + u.len()) == u;
    let k = i + j;
    assert(s.subrange(k, k + u.len()) =~= t.subrange(j, j + u.len()));
}

/// The middle of a concatenation occurs in it.
pub proof fn lemma_contains_middle(a: Seq<char>, b: Seq<char>, c: Seq<char>)
    ensures
        contains_text(a + b + c, b),
{
    reveal(contains_text);
    let i = a.len() as int;
    assert((a + b + c).subrange(i, i + b.len()) =~= b);
}

/// `parts.join(sep)`.
pub fn join(parts: &Vec<String>, sep: &str) -> (r: String)
    ensures
        r@ == joined(views(parts@), sep@),
{
    let mut out = String::new();
    let mut i: usize = 0;
    while i < parts.len()
        invariant
            i <= parts.len(),
            out@ == joined(views(parts@).take(i as int), sep@),
        decreases parts.len() - i,
    {
        if i > 0 {
            push_str(&mut out, sep);
        }
        push_str(&mut out, parts[i].as_str());
        proof {
            let t = views(parts@).take(i + 1);
            assert(t.drop_last() =~= views(parts@).take(i as int));
            if i == 0 {
                assert(joined(views(parts@).take(0), sep@) =~= Seq::empty());
                assert(out@ =~= t[0]);
            }
        }
        i = i + 1;
    }
    assert(views(parts@).take(parts.len() as int) =~= views(parts@));
    out
}

// ------------------------------------------------------------------
// Decimal numbers
// ------------------------------------------------------------------

pub open spec fn digit_char(d: nat) -> char {
    if d == 0 { '0' }
    else if d == 1 { '1' }
    else if d == 2 { '2' }
    else if d == 3 { '3' }
    else if d == 4 { '4' }
    else if d == 5 { '5' }
    else if d == 6 { '6' }
    else if d == 7 { '7' }
    else if d == 8 { '8' }
    else { '9' }
}

/// The decimal digits of `n`, most significant first, with no leading zeros
/// (`0` is `"0"`).
pub open spec fn decimal(n: nat) -> Seq<char>
    decreases n,
{
    if n < 10 {
        seq![digit_char(n)]
    } else {
        decimal(n / 10).push(digit_char(n % 10))
    }
}

fn digit_char_exec(d: u64) -> (c: char)
    requires
        d < 10,
    ensures
        c == digit_char(d as nat),
{
    if d == 0 { '0' }
    else if d == 1 { '1' }
    else if d == 2 { '2' }
    else if d == 3 { '3' }
    else if d == 4 { '4' }
    else if d == 5 { '5' }
    else if d == 6 { '6' }
    else if d == 7 { '7' }
    else if d == 8 { '8' }
    else { '9' }
}

/// `n.to_string()` for an unsigned integer.
pub fn u64_to_decimal(n: u64) -> (r: String)
    ensures
        r@ == decimal(n as nat),
    decreases n,
{
    if n < 10 {
        let mut r = String::new();
        push_char(&mut r, digit_char_exec(n));
        assert(r@ =~= decimal(n as nat));
        r
    } else {
        let mut r = u64_to_decimal(n / 10);
        push_char(&mut r, digit_char_exec(n % 10));
        r
    }
}

// ------------------------------------------------------------------
// Slices of character vectors
// ------------------------------------------------------------------

/// The string made of `cs[from..to]`.
pub fn string_of_range(cs: &Vec<char>, from: usize, to: usize) -> (s: String)
    requires
        from <= to <= cs.len(),
    ensures
        s@ == cs@.subrange(from as int, to as int),
{
    let mut s = String::new();
    let mut i: usize = from;
    while i < to
        invariant
            from <= i <= to <= cs.len(),
            s@ == cs@.subrange(from as int, i as int),
        decreases to - i,
    {
        push_char(&mut s, cs[i]);
        i = i + 1;
        assert(s@ =~= cs@.subrange(from as int, i as int));
    }
    s
}

/// `s` starts with `p`.
pub open spec fn has_prefix(s: Seq<char>, p: Seq<char>) -> bool {
    p.len() <= s.len() && s.take(p.len() as int) == p
}

/// Whether `cs[from..]` starts with `lit`.
pub fn starts_with_at(cs: &Vec<char>, from: usize, lit: &str) -> (r: bool)
    requires
        from <= cs.len(),
    ensures
        r == has_prefix(cs@.skip(from as int), lit@),
{
    let p = chars_of(lit);
    if p.len() > cs.len() - from {
        return false;
    }
    let mut i: usize = 0;
    while i < p.len()
        invariant
            p@ == lit@,
            from + p.len() <= cs.len(),
            i <= p.len(),
            forall|k: int| 0 <= k < i ==> cs@[from + k] == p@[k],
        decreases p.len() - i,
    {
        if cs[from + i] != p[i] {
            assert(cs@.skip(from as int).take(p.len() as int)[i as int] != p@[i as int]);
            return false;
        }
        i = i + 1;
    }
    assert(cs@.skip(from as int).take(p.len() as int) =~= p@);
    true
}

/// Position of the first `c` in `cs[from..]`, counted from `from`.
pub fn find_char_from(cs: &Vec<char>, from: usize, c: char) -> (r: Option<usize>)
    requires
        from <= cs.len(),
    ensures
        match r {
            Some(i) => cs@.skip(from as int).index_of_first(c) == Some(i as int),
            None => cs@.skip(from as int).index_of_first(c) is None,
        },
{
    let ghost t = cs@.skip(from as int);
    let mut i: usize = from;
    while i < cs.len()
        invariant
            from <= i <= cs.len(),
            t == cs@.skip(from as int),
            forall|k: int| 0 <= k < i - from ==> t[k] != c,
        decreases cs.len() - i,
    {
        if cs[i] == c {
            proof {
                t.index_of_first_ensures(c);
                assert(t[(i - from) as int] == c);
                assert(t.contains(c));
            }
            return Some(i - from);
        }
        i = i + 1;
    }
    proof {
        t.index_of_first_ensures(c);
        if t.contains(c) {
            let k = choose|k: int| 0 <= k < t.len() && t[k] == c;
            assert(t[k] != c);
        }
    }
    None
}

} // verus!
