//! The JSON documents that job configurations are made of, and the
//! operations the tool performs on them: lookup, the provider-config
//! deep merge, key-by-key comparison, and rendering as compact JSON text
//! or as a Python literal.
//!
//! Objects keep their entries in strictly increasing key order, the order
//! of the map that backs a JSON object; numbers keep the text they are
//! written with.
use vstd::prelude::*;
use crate::text::{digit_char, lex_lt, lemma_lex_irreflexive, lemma_lex_total, lemma_lex_transitive, owned, push_str, str_eq, str_lt, strictly_sorted};

verus! {

/// A JSON value.
pub enum Json {
    Null,
    Bool(bool),
    /// A number, held as its canonical JSON text (`42`, `-1`, `0.5`).
    Number(String),
    Str(String),
    Array(Vec<Json>),
    /// Entries in strictly increasing key order.
    Object(Vec<(String, Json)>),
}

/// The mathematical value of a [`Json`].
pub enum JsonV {
    Null,
    Bool(bool),
    Number(Seq<char>),
    Str(Seq<char>),
    Array(Seq<JsonV>),
    Object(Seq<(Seq<char>, JsonV)>),
}

pub open spec fn json_view(j: Json) -> JsonV
    decreases j, 0nat,
{
    match j {
        Json::Null => JsonV::Null,
        Json::Bool(b) => JsonV::Bool(b),
        Json::Number(n) => JsonV::Number(n@),
        Json::Str(s) => JsonV::Str(s@),
        Json::Array(v) => JsonV::Array(items_view(v@, v@.len())),
        Json::Object(v) => JsonV::Object(entries_view(v@, v@.len())),
    }
}

/// Views of the first `n` items.
pub open spec fn items_view(s: Seq<Json>, n: nat) -> Seq<JsonV>
    decreases s, n,
{
    if n == 0 || n > s.len() {
        Seq::empty()
    } else {
        items_view(s, (n - 1) as nat).push(json_view(s[n - 1]))
    }
}

/// Views of the first `n` entries.
pub open spec fn entries_view(s: Seq<(String, Json)>, n: nat) -> Seq<(Seq<char>, JsonV)>
    decreases s, n,
{
    if n == 0 || n > s.len() {
        Seq::empty()
    } else {
        entries_view(s, (n - 1) as nat).push((s[n - 1].0@, json_view(s[n - 1].1)))
    }
}

impl View for Json {
    type V = JsonV;

    open spec fn view(&self) -> JsonV {
        json_view(*self)
    }
}

pub proof fn lemma_items_view(s: Seq<Json>, n: nat)
    requires
        n <= s.len(),
    ensures
        items_view(s, n).len() == n,
        forall|i: int| 0 <= i < n ==> #[trigger] items_view(s, n)[i] == json_view(s[i]),
    decreases n,
{
    if n > 0 {
        lemma_items_view(s, (n - 1) as nat);
    }
}

pub proof fn lemma_entries_view(s: Seq<(String, Json)>, n: nat)
    requires
        n <= s.len(),
    ensures
        entries_view(s, n).len() == n,
        forall|i: int|
            0 <= i < n ==> #[trigger] entries_view(s, n)[i] == (s[i].0@, json_view(s[i].1)),
    decreases n,
{
    if n > 0 {
        lemma_entries_view(s, (n - 1) as nat);
    }
}

/// The keys of object entries.
pub open spec fn keys_of(es: Seq<(Seq<char>, JsonV)>) -> Seq<Seq<char>> {
    es.map_values(|e: (Seq<char>, JsonV)| e.0)
}

/// Objects, at every depth, keep their keys in strictly increasing order.
pub open spec fn wf(j: JsonV) -> bool
    decreases j, 0nat,
{
    match j {
        JsonV::Array(xs) => items_wf(xs, xs.len()),
        JsonV::Object(es) => strictly_sorted(keys_of(es)) && entries_wf(es, es.len()),
        _ => true,
    }
}

pub open spec fn items_wf(xs: Seq<JsonV>, n: nat) -> bool
    decreases xs, n,
{
    if n == 0 || n > xs.len() {
        true
    } else {
        items_wf(xs, (n - 1) as nat) && wf(xs[n - 1])
    }
}

pub open spec fn entries_wf(es: Seq<(Seq<char>, JsonV)>, n: nat) -> bool
    decreases es, n,
{
    if n == 0 || n > es.len() {
        true
    } else {
        entries_wf(es, (n - 1) as nat) && wf(es[n - 1].1)
    }
}

pub proof fn lemma_items_wf(xs: Seq<JsonV>, n: nat)
    requires
        n <= xs.len(),
    ensures
        items_wf(xs, n) <==> forall|i: int| 0 <= i < n ==> #[trigger] wf(xs[i]),
    decreases n,
{
    if n > 0 {
        lemma_items_wf(xs, (n - 1) as nat);
        assert(items_wf(xs, n) == (items_wf(xs, (n - 1) as nat) && wf(xs[n - 1])));
        if forall|i: int| 0 <= i < n ==> #[trigger] wf(xs[i]) {
            assert(wf(xs[n - 1]));
        }
    }
}

pub proof fn lemma_entries_wf(es: Seq<(Seq<char>, JsonV)>, n: nat)
    requires
        n <= es.len(),
    ensures
        entries_wf(es, n) <==> forall|i: int| 0 <= i < n ==> #[trigger] wf(es[i].1),
    decreases n,
{
    if n > 0 {
        lemma_entries_wf(es, (n - 1) as nat);
        assert(entries_wf(es, n) == (entries_wf(es, (n - 1) as nat) && wf(es[n - 1].1)));
        if forall|i: int| 0 <= i < n ==> #[trigger] wf(es[i].1) {
            assert(wf(es[n - 1].1));
        }
    }
}

/// The value under `key` in object entries.
pub open spec fn lookup(es: Seq<(Seq<char>, JsonV)>, key: Seq<char>) -> Option<JsonV>
    decreases es.len(),
{
    if es.len() == 0 {
        None
    } else if es[0].0 == key {
        Some(es[0].1)
    } else {
        lookup(es.skip(1), key)
    }
}

/// `j.get(key)`: the member `key` when `j` is an object holding it.
pub open spec fn get_member(j: JsonV, key: Seq<char>) -> Option<JsonV> {
    match j {
        JsonV::Object(es) => lookup(es, key),
        _ => None,
    }
}

/// A deep copy.
pub fn clone_json(j: &Json) -> (r: Json)
    ensures
        r@ == j@,
    decreases j,
{
    match j {
        Json::Null => Json::Null,
        Json::Bool(b) => Json::Bool(*b),
        Json::Number(n) => Json::Number(n.clone()),
        Json::Str(s) => Json::Str(s.clone()),
        Json::Array(v) => {
            let mut out: Vec<Json> = Vec::new();
            let mut i: usize = 0;
            while i < v.len()
                invariant
                    *j == Json::Array(*v),
                    i <= v.len(),
                    out.len() == i,
                    forall|k: int| 0 <= k < i ==> json_view(#[trigger] out@[k]) == json_view(v@[k]),
                decreases v.len() - i,
            {
                proof {
                    assert(*j == Json::Array(*v));
                    assert(decreases_to!(*j => (*j)->Array_0));
                    assert(decreases_to!(*v => v@));
                    assert(decreases_to!(v@ => v@[i as int]));
                }
                out.push(clone_json(&v[i]));
                i = i + 1;
            }
            proof {
                lemma_items_view(out@, out@.len());
                lemma_items_view(v@, v@.len());
                assert(items_view(out@, out@.len()) =~= items_view(v@, v@.len()));
            }
            Json::Array(out)
        },
        Json::Object(v) => {
            let mut out: Vec<(String, Json)> = Vec::new();
            let mut i: usize = 0;
            while i < v.len()
                invariant
                    *j == Json::Object(*v),
                    i <= v.len(),
                    out.len() == i,
                    forall|k: int|
                        0 <= k < i ==> (#[trigger] out@[k]).0@ == v@[k].0@ && json_view(out@[k].1)
                            == json_view(v@[k].1),
                decreases v.len() - i,
            {
                proof {
                    assert(*j == Json::Object(*v));
                    assert(decreases_to!(*j => (*j)->Object_0));
                    assert(decreases_to!(*v => v@));
                    assert(decreases_to!(v@ => v@[i as int]));
                    assert(decreases_to!(v@[i as int] => v@[i as int].1));
                }
                let c = clone_json(&v[i].1);
                out.push((v[i].0.clone(), c));
                i = i + 1;
            }
            proof {
                lemma_entries_view(out@, out@.len());
                lemma_entries_view(v@, v@.len());
                assert(entries_view(out@, out@.len()) =~= entries_view(v@, v@.len()));
            }
            Json::Object(out)
        },
    }
}

// ------------------------------------------------------------------
// Provider-config merge
// ------------------------------------------------------------------

/// `base` with `over` laid on top: objects merge key by key, recursively;
/// a `null` override keeps `base`; anything else in `over` replaces `base`
/// wholesale (arrays included).
pub open spec fn merged(base: JsonV, over: JsonV) -> JsonV
    decreases over, 0nat,
{
    match over {
        JsonV::Object(o) => match base {
            JsonV::Object(b) => JsonV::Object(merge_entries(b, o)),
            _ => over,
        },
        JsonV::Null => base,
        _ => over,
    }
}

/// Key-ordered merge of two entry lists; on a shared key the values merge.
pub open spec fn merge_entries(
    b: Seq<(Seq<char>, JsonV)>,
    o: Seq<(Seq<char>, JsonV)>,
) -> Seq<(Seq<char>, JsonV)>
    decreases o, b.len(),
{
    if b.len() == 0 {
        o
    } else if o.len() == 0 {
        b
    } else if b[0].0 == o[0].0 {
        seq![(b[0].0, merged(b[0].1, o[0].1))] + merge_entries(
            b.subrange(1, b.len() as int),
            o.subrange(1, o.len() as int),
        )
    } else if lex_lt(b[0].0, o[0].0) {
        seq![b[0]] + merge_entries(b.subrange(1, b.len() as int), o)
    } else {
        seq![o[0]] + merge_entries(b, o.subrange(1, o.len() as int))
    }
}

/// Merge provider-level defaults with job-level overrides: the provider
/// config is the base and the job-level block wins on conflicts, key by key
/// through nested objects; arrays and scalars are replaced wholesale, and a
/// `null` override leaves the defaults as they are.
pub fn merge_provider_config(provider_defaults: &Json, job_overrides: &Json) -> (r: Json)
    requires
        wf(provider_defaults@),
        wf(job_overrides@),
    ensures
        r@ == merged(provider_defaults@, job_overrides@),
        wf(r@),
    decreases job_overrides,
{
    proof {
        law_merge_keeps_wf(provider_defaults@, job_overrides@);
    }
    match job_overrides {
        Json::Object(o) => match provider_defaults {
            Json::Object(b) => {
                let ghost bv = entries_view(b@, b@.len());
                let ghost ov = entries_view(o@, o@.len());
                proof {
                    lemma_entries_view(b@, b@.len());
                    lemma_entries_view(o@, o@.len());
                    assert(bv.subrange(0, bv.len() as int) =~= bv);
                    assert(ov.subrange(0, ov.len() as int) =~= ov);
                    lemma_entries_wf(bv, bv.len());
                    lemma_entries_wf(ov, ov.len());
                }
                let mut out: Vec<(String, Json)> = Vec::new();
                let mut i: usize = 0;
                let mut j: usize = 0;
                proof {
                    assert(entries_view(out@, 0) =~= Seq::<(Seq<char>, JsonV)>::empty());
                }
                while i < b.len() || j < o.len()
                    invariant
                        *job_overrides == Json::Object(*o),
                        bv == entries_view(b@, b@.len()),
                        ov == entries_view(o@, o@.len()),
                        bv.len() == b.len(),
                        ov.len() == o.len(),
                        forall|k: int| 0 <= k < b.len() ==> #[trigger] bv[k] == (b@[k].0@, json_view(b@[k].1)),
                        forall|k: int| 0 <= k < o.len() ==> #[trigger] ov[k] == (o@[k].0@, json_view(o@[k].1)),
                        forall|k: int| 0 <= k < bv.len() ==> wf(#[trigger] bv[k].1),
                        forall|k: int| 0 <= k < ov.len() ==> wf(#[trigger] ov[k].1),
                        i <= b.len(),
                        j <= o.len(),
                        merge_entries(bv, ov) == entries_view(out@, out@.len()) + merge_entries(
                            bv.subrange(i as int, bv.len() as int),
                            ov.subrange(j as int, ov.len() as int),
                        ),
                    decreases b.len() + o.len() - i - j,
                {
                    let ghost bs = bv.subrange(i as int, bv.len() as int);
                    let ghost os = ov.subrange(j as int, ov.len() as int);
                    let ghost before = out@;
                    proof {
                        lemma_entries_view(out@, out@.len());
                    }
                    let take_both = i < b.len() && j < o.len() && str_eq(
                        b[i].0.as_str(),
                        o[j].0.as_str(),
                    );
                    if take_both {
                        proof {
                            assert(decreases_to!(*job_overrides => (*job_overrides)->Object_0));
                            assert(decreases_to!(*o => o@));
                            assert(decreases_to!(o@ => o@[j as int]));
                            assert(decreases_to!(o@[j as int] => o@[j as int].1));
                            assert(bv[i as int].1 == json_view(b@[i as int].1));
                            assert(ov[j as int].1 == json_view(o@[j as int].1));
                        }
                        let m = merge_provider_config(&b[i].1, &o[j].1);
                        out.push((b[i].0.clone(), m));
                        proof {
                            assert(bs[0] == bv[i as int]);
                            assert(os[0] == ov[j as int]);
                            assert(bs.subrange(1, bs.len() as int) =~= bv.subrange(i + 1, bv.len() as int));
                            assert(os.subrange(1, os.len() as int) =~= ov.subrange(j + 1, ov.len() as int));
                        }
                        i = i + 1;
                        j = j + 1;
                    } else if j == o.len() || (i < b.len() && str_lt(b[i].0.as_str(), o[j].0.as_str())) {
                        let c = clone_json(&b[i].1);
                        out.push((b[i].0.clone(), c));
                        proof {
                            assert(bs[0] == bv[i as int]);
                            assert(bs.subrange(1, bs.len() as int) =~= bv.subrange(i + 1, bv.len() as int));
                            if j == o.len() {
                                assert(os.len() == 0);
                                assert(merge_entries(bs, os) == bs);
                                assert(merge_entries(bs.subrange(1, bs.len() as int), os) == bs.subrange(1, bs.len() as int));
                                assert(bs =~= seq![bs[0]] + bs.subrange(1, bs.len() as int));
                            } else {
                                assert(os[0] == ov[j as int]);
                            }
                        }
                        i = i + 1;
                    } else {
                        let c = clone_json(&o[j].1);
                        out.push((o[j].0.clone(), c));
                        proof {
                            assert(os[0] == ov[j as int]);
                            assert(os.subrange(1, os.len() as int) =~= ov.subrange(j + 1, ov.len() as int));
                            if i == b.len() {
                                assert(bs.len() == 0);
                                assert(os =~= seq![os[0]] + os.subrange(1, os.len() as int));
                            } else {
                                assert(bs[0] == bv[i as int]);
                            }
                        }
                        j = j + 1;
                    }
                    proof {
                        lemma_entries_view(out@, out@.len());
                        assert(entries_view(out@, out@.len()) =~= entries_view(before, before.len()).push(
                            (out@[out.len() - 1].0@, json_view(out@[out.len() - 1].1)),
                        ));
                    }
                }
                proof {
                    assert(bv.subrange(i as int, bv.len() as int).len() == 0);
                    assert(ov.subrange(j as int, ov.len() as int).len() == 0);
                    assert(entries_view(out@, out@.len()) + Seq::<(Seq<char>, JsonV)>::empty() =~= entries_view(out@, out@.len()));
                }
                Json::Object(out)
            },
            _ => clone_json(job_overrides),
        },
        Json::Null => clone_json(provider_defaults),
        _ => clone_json(job_overrides),
    }
}

/// `j.get(key)`.
pub fn get<'a>(j: &'a Json, key: &str) -> (r: Option<&'a Json>)
    ensures
        match get_member(j@, key@) {
            Some(v) => r matches Some(x) && x@ == v,
            None => r is None,
        },
{
    match j {
        Json::Object(es) => {
            let ghost ev = entries_view(es@, es@.len());
            proof {
                lemma_entries_view(es@, es@.len());
                assert(ev.subrange(0, ev.len() as int) =~= ev);
            }
            let mut i: usize = 0;
            while i < es.len()
                invariant
                    *j == Json::Object(*es),
                    ev == entries_view(es@, es@.len()),
                    ev.len() == es.len(),
                    forall|k: int| 0 <= k < es.len() ==> #[trigger] ev[k] == (es@[k].0@, json_view(es@[k].1)),
                    i <= es.len(),
                    lookup(ev, key@) == lookup(ev.subrange(i as int, ev.len() as int), key@),
                decreases es.len() - i,
            {
                let ghost rest = ev.subrange(i as int, ev.len() as int);
                assert(rest[0] == ev[i as int]);
                if str_eq(es[i].0.as_str(), key) {
                    return Some(&es[i].1);
                }
                assert(rest.skip(1) =~= ev.subrange(i + 1, ev.len() as int));
                i = i + 1;
            }
            None
        },
        _ => None,
    }
}

/// The string in `j`, when `j` is a string.
pub open spec fn as_str_of(j: JsonV) -> Option<Seq<char>> {
    match j {
        JsonV::Str(s) => Some(s),
        _ => None,
    }
}

/// `v.as_str()`.
pub fn as_str(j: &Json) -> (r: Option<&str>)
    ensures
        match as_str_of(j@) {
            Some(s) => r matches Some(x) && x@ == s,
            None => r is None,
        },
{
    match j {
        Json::Str(s) => Some(s.as_str()),
        _ => None,
    }
}

/// The string member `key` of `j`: `j.get(key).and_then(as_str)`.
pub open spec fn str_member(j: JsonV, key: Seq<char>) -> Option<Seq<char>> {
    match get_member(j, key) {
        Some(v) => as_str_of(v),
        None => None,
    }
}

pub fn get_str<'a>(j: &'a Json, key: &str) -> (r: Option<&'a str>)
    ensures
        match str_member(j@, key@) {
            Some(s) => r matches Some(x) && x@ == s,
            None => r is None,
        },
{
    match get(j, key) {
        Some(v) => as_str(v),
        None => None,
    }
}

/// `es` with `key` set to `v`: replaced in place when present, otherwise
/// inserted at its place in key order.
pub open spec fn set_entry(
    es: Seq<(Seq<char>, JsonV)>,
    key: Seq<char>,
    v: JsonV,
) -> Seq<(Seq<char>, JsonV)>
    decreases es.len(),
{
    if es.len() == 0 {
        seq![(key, v)]
    } else if es[0].0 == key {
        seq![(key, v)] + es.skip(1)
    } else if lex_lt(key, es[0].0) {
        seq![(key, v)] + es
    } else {
        seq![es[0]] + set_entry(es.skip(1), key, v)
    }
}

/// Sets `key` to `v` in object entries.
pub fn insert_entry(es: &mut Vec<(String, Json)>, key: String, v: Json)
    ensures
        entries_view(final(es)@, final(es)@.len()) == set_entry(
            entries_view(old(es)@, old(es)@.len()),
            key@,
            v@,
        ),
{
    {
        {
            let ghost ev = entries_view(es@, es@.len());
            proof {
                lemma_entries_view(es@, es@.len());
            }
            let mut i: usize = 0;
            proof {
                assert(ev.skip(0) =~= ev);
                assert(ev.take(0) + ev =~= ev);
            }
            while i < es.len()
                invariant
                    ev == entries_view(es@, es@.len()),
                    ev.len() == es.len(),
                    forall|k: int| 0 <= k < es.len() ==> #[trigger] ev[k] == (es@[k].0@, json_view(es@[k].1)),
                    i <= es.len(),
                    set_entry(ev, key@, v@) == ev.take(i as int) + set_entry(ev.skip(i as int), key@, v@),
                ensures
                    i <= es.len(),
                    set_entry(ev, key@, v@) == ev.take(i as int) + set_entry(ev.skip(i as int), key@, v@),
                    i == es.len() || ev[i as int].0 == key@ || lex_lt(key@, ev[i as int].0),
                decreases es.len() - i,
            {
                let ghost rest = ev.skip(i as int);
                assert(rest[0] == ev[i as int]);
                if str_eq(es[i].0.as_str(), key.as_str()) || str_lt(key.as_str(), es[i].0.as_str()) {
                    break;
                }
                assert(rest.skip(1) =~= ev.skip(i + 1));
                assert(ev.take(i + 1) =~= ev.take(i as int) + seq![ev[i as int]]);
                i = i + 1;
            }
            let ghost before = es@;
            let ghost rest = ev.skip(i as int);
            if i < es.len() {
                assert(rest[0] == ev[i as int]);
            }
            if i < es.len() && str_eq(es[i].0.as_str(), key.as_str()) {
                es.set(i, (key, v));
                proof {
                    lemma_entries_view(es@, es@.len());
                    assert(entries_view(es@, es@.len()) =~= ev.take(i as int) + seq![(key@, v@)] + ev.skip(i + 1));
                    assert(ev.skip(i as int).skip(1) =~= ev.skip(i + 1));
                }
            } else {
                es.insert(i, (key, v));
                proof {
                    lemma_entries_view(es@, es@.len());
                    assert(entries_view(es@, es@.len()) =~= ev.take(i as int) + seq![(key@, v@)] + ev.skip(i as int));
                    if i == ev.len() {
                        assert(ev.skip(i as int) =~= Seq::<(Seq<char>, JsonV)>::empty());
                    }
                }
            }
        }
    }
}

/// Every value of a list of named documents is well formed.
pub open spec fn all_wf(es: Seq<(String, Json)>) -> bool {
    forall|i: int| 0 <= i < es.len() ==> wf(#[trigger] es[i].1@)
}

/// In well-formed JSON every member is well formed.
pub proof fn lemma_member_wf(j: JsonV, key: Seq<char>)
    requires
        wf(j),
    ensures
        get_member(j, key) matches Some(v) ==> wf(v),
{
    match j {
        JsonV::Object(es) => {
            lemma_entries_wf(es, es.len());
            lemma_lookup_wf(es, key);
        },
        _ => {},
    }
}

proof fn lemma_lookup_wf(es: Seq<(Seq<char>, JsonV)>, key: Seq<char>)
    requires
        forall|i: int| 0 <= i < es.len() ==> wf(#[trigger] es[i].1),
    ensures
        lookup(es, key) matches Some(v) ==> wf(v),
    decreases es.len(),
{
    if es.len() > 0 && es[0].0 != key {
        let t = es.skip(1);
        assert forall|i: int| 0 <= i < t.len() implies wf(#[trigger] t[i].1) by {
            assert(t[i] == es[i + 1]);
        }
        lemma_lookup_wf(t, key);
    }
}

/// Setting a key keeps object entries well formed: keys stay in strictly
/// increasing order and every value stays well formed.
pub proof fn lemma_set_entry_wf(es: Seq<(Seq<char>, JsonV)>, key: Seq<char>, v: JsonV)
    requires
        strictly_sorted(keys_of(es)),
        forall|i: int| 0 <= i < es.len() ==> wf(#[trigger] es[i].1),
        wf(v),
    ensures
        strictly_sorted(keys_of(set_entry(es, key, v))),
        forall|i: int| 0 <= i < set_entry(es, key, v).len() ==> wf(#[trigger] set_entry(es, key, v)[i].1),
        forall|i: int|
            0 <= i < set_entry(es, key, v).len() ==> #[trigger] set_entry(es, key, v)[i].0 == key
                || keys_of(es).contains(set_entry(es, key, v)[i].0),
    decreases es.len(),
{
    let r = set_entry(es, key, v);
    if es.len() == 0 {
    } else if es[0].0 == key {
        let t = es.skip(1);
        assert(r == seq![(key, v)] + t);
        assert forall|i: int| 0 <= i < r.len() implies #[trigger] r[i].0 == key || keys_of(es).contains(r[i].0) by {
            if i > 0 {
                assert(r[i] == es[i]);
                assert(keys_of(es)[i] == es[i].0);
            }
        }
        assert forall|i: int| 0 <= i < r.len() implies wf(#[trigger] r[i].1) by {
            if i > 0 {
                assert(r[i] == es[i]);
            }
        }
        assert(keys_of(r) =~= keys_of(es));
    } else if lex_lt(key, es[0].0) {
        assert(r == seq![(key, v)] + es);
        let kr = keys_of(r);
        let ke = keys_of(es);
        assert forall|i: int, j: int| 0 <= i < j < kr.len() implies lex_lt(kr[i], kr[j]) by {
            assert(kr[j] == ke[j - 1]);
            if i == 0 {
                assert(kr[0] == key);
                assert(ke[0] == es[0].0);
                if j - 1 > 0 {
                    lemma_lex_transitive(key, ke[0], ke[j - 1]);
                }
            } else {
                assert(kr[i] == ke[i - 1]);
            }
        }
        assert forall|i: int| 0 <= i < r.len() implies #[trigger] r[i].0 == key || keys_of(es).contains(r[i].0) by {
            if i > 0 {
                assert(r[i] == es[i - 1]);
                assert(keys_of(es)[i - 1] == es[i - 1].0);
            }
        }
        assert forall|i: int| 0 <= i < r.len() implies wf(#[trigger] r[i].1) by {
            if i > 0 {
                assert(r[i] == es[i - 1]);
            }
        }
    } else {
        let t = es.skip(1);
        lemma_sorted_tail(es);
        assert(t == es.subrange(1, es.len() as int));
        assert forall|i: int| 0 <= i < t.len() implies wf(#[trigger] t[i].1) by {
            assert(t[i] == es[i + 1]);
        }
        lemma_set_entry_wf(t, key, v);
        let rest = set_entry(t, key, v);
        assert(r == seq![es[0]] + rest);
        lemma_lex_total(key, es[0].0);
        let ke = keys_of(es);
        assert(ke[0] == es[0].0);
        assert forall|i: int| 0 <= i < rest.len() implies lex_lt(es[0].0, #[trigger] rest[i].0) by {
            let k = rest[i].0;
            if k != key {
                assert(keys_of(t).contains(k));
                let q = choose|q: int| 0 <= q < keys_of(t).len() && keys_of(t)[q] == k;
                assert(ke[q + 1] == k);
            }
        }
        let kr = keys_of(r);
        let kt = keys_of(rest);
        assert forall|i: int, j: int| 0 <= i < j < kr.len() implies lex_lt(kr[i], kr[j]) by {
            assert(kr[j] == kt[j - 1]);
            assert(kt[j - 1] == rest[j - 1].0);
            if i == 0 {
                assert(kr[0] == es[0].0);
            } else {
                assert(kr[i] == kt[i - 1]);
            }
        }
        assert forall|i: int| 0 <= i < r.len() implies #[trigger] r[i].0 == key || keys_of(es).contains(r[i].0) by {
            if i == 0 {
            } else {
                assert(r[i] == rest[i - 1]);
                let k = rest[i - 1].0;
                if k != key {
                    let q = choose|q: int| 0 <= q < keys_of(t).len() && keys_of(t)[q] == k;
                    assert(ke[q + 1] == k);
                }
            }
        }
        assert forall|i: int| 0 <= i < r.len() implies wf(#[trigger] r[i].1) by {
            if i > 0 {
                assert(r[i] == rest[i - 1]);
            }
        }
    }
}

/// The config handed to a provider: the provider defaults merged with the
/// job's `<job_type>` block, plus the job's `_aws` block copied in when the
/// result is an object.
pub open spec fn provider_config(defaults: JsonV, full: JsonV, job_type: Seq<char>) -> JsonV {
    let over = match get_member(full, job_type) {
        Some(v) => v,
        None => JsonV::Null,
    };
    let m = merged(defaults, over);
    match (get_member(full, "_aws"@), m) {
        (Some(aws), JsonV::Object(es)) => JsonV::Object(set_entry(es, "_aws"@, aws)),
        _ => m,
    }
}

/// Build the config passed to a provider: provider defaults merged with
/// the job's `<job_type>:` block, with the per-job `_aws` block injected.
pub fn build_provider_config(provider_defaults: &Json, full_config: &Json, job_type: &str) -> (r: Json)
    requires
        wf(provider_defaults@),
        wf(full_config@),
    ensures
        r@ == provider_config(provider_defaults@, full_config@, job_type@),
{
    proof {
        lemma_member_wf(full_config@, job_type@);
    }
    let job_overrides = match get(full_config, job_type) {
        Some(v) => clone_json(v),
        None => Json::Null,
    };
    let m = merge_provider_config(provider_defaults, &job_overrides);
    match get(full_config, "_aws") {
        Some(aws) => match m {
            Json::Object(es) => {
                let mut es = es;
                let a = clone_json(aws);
                insert_entry(&mut es, owned("_aws"), a);
                Json::Object(es)
            },
            other => other,
        },
        None => m,
    }
}

// ------------------------------------------------------------------
// Laws of the merge
// ------------------------------------------------------------------

/// What the merge keeps under one key: the override's value, merged into
/// the default's value when both have one.
pub open spec fn merged_member(d: Option<JsonV>, o: Option<JsonV>) -> Option<JsonV> {
    match (d, o) {
        (Some(x), Some(y)) => Some(merged(x, y)),
        (None, Some(y)) => Some(y),
        (x, None) => x,
    }
}

pub proof fn lemma_sorted_tail(es: Seq<(Seq<char>, JsonV)>)
    requires
        strictly_sorted(keys_of(es)),
        es.len() > 0,
    ensures
        strictly_sorted(keys_of(es.subrange(1, es.len() as int))),
        keys_of(es.subrange(1, es.len() as int)) == keys_of(es).subrange(1, es.len() as int),
{
    assert(keys_of(es.subrange(1, es.len() as int)) =~= keys_of(es).subrange(1, es.len() as int));
    let t = keys_of(es.subrange(1, es.len() as int));
    assert forall|i: int, j: int| 0 <= i < j < t.len() implies lex_lt(t[i], t[j]) by {
        assert(t[i] == keys_of(es)[i + 1]);
        assert(t[j] == keys_of(es)[j + 1]);
    }
}

/// In strictly sorted entries, a key below the first key is absent.
pub proof fn lemma_lookup_below(es: Seq<(Seq<char>, JsonV)>, k: Seq<char>)
    requires
        strictly_sorted(keys_of(es)),
        es.len() > 0,
        lex_lt(k, es[0].0),
    ensures
        lookup(es, k) is None,
    decreases es.len(),
{
    lemma_lex_irreflexive(k);
    let t = es.subrange(1, es.len() as int);
    assert(es.skip(1) == t);
    if t.len() > 0 {
        lemma_sorted_tail(es);
        assert(keys_of(es)[0] == es[0].0);
        assert(keys_of(es)[1] == es[1].0);
        assert(lex_lt(es[0].0, es[1].0));
        lemma_lex_transitive(k, es[0].0, es[1].0);
        assert(t[0] == es[1]);
        lemma_lookup_below(t, k);
    }
}

pub proof fn lemma_lookup_cons(x: (Seq<char>, JsonV), rest: Seq<(Seq<char>, JsonV)>, k: Seq<char>)
    ensures
        lookup(seq![x] + rest, k) == if x.0 == k {
            Some(x.1)
        } else {
            lookup(rest, k)
        },
{
    assert((seq![x] + rest).skip(1) =~= rest);
}

/// Merging objects is merging them key by key: under every key the result
/// holds the override's value, merged into the default's value when both
/// have one, and the default's value when only the default has one.
pub proof fn law_merge_lookup(
    b: Seq<(Seq<char>, JsonV)>,
    o: Seq<(Seq<char>, JsonV)>,
    k: Seq<char>,
)
    requires
        strictly_sorted(keys_of(b)),
        strictly_sorted(keys_of(o)),
    ensures
        lookup(merge_entries(b, o), k) == merged_member(lookup(b, k), lookup(o, k)),
    decreases o, b.len(),
{
    if b.len() == 0 {
    } else if o.len() == 0 {
    } else {
        let bt = b.subrange(1, b.len() as int);
        let ot = o.subrange(1, o.len() as int);
        assert(b.skip(1) == bt);
        assert(o.skip(1) == ot);
        lemma_sorted_tail(b);
        lemma_sorted_tail(o);
        assert(keys_of(b)[0] == b[0].0);
        assert(keys_of(o)[0] == o[0].0);
        if b[0].0 == o[0].0 {
            law_merge_lookup(bt, ot, k);
            lemma_lookup_cons((b[0].0, merged(b[0].1, o[0].1)), merge_entries(bt, ot), k);
        } else if lex_lt(b[0].0, o[0].0) {
            law_merge_lookup(bt, o, k);
            lemma_lookup_cons(b[0], merge_entries(bt, o), k);
            if k == b[0].0 {
                lemma_lookup_below(o, k);
            }
        } else {
            lemma_lex_total(b[0].0, o[0].0);
            law_merge_lookup(b, ot, k);
            lemma_lookup_cons(o[0], merge_entries(b, ot), k);
            if k == o[0].0 {
                lemma_lookup_below(b, k);
            }
        }
    }
}

/// The provider-config merge, key by key: a key only in the defaults keeps
/// the default; a key only in the overrides takes the override; under a key
/// in both, a `null` override keeps the default, two objects merge
/// recursively, and any other override replaces the default.
pub proof fn law_merge_cases(b: Seq<(Seq<char>, JsonV)>, o: Seq<(Seq<char>, JsonV)>, k: Seq<char>)
    requires
        strictly_sorted(keys_of(b)),
        strictly_sorted(keys_of(o)),
    ensures
        lookup(o, k) is None ==> lookup(merge_entries(b, o), k) == lookup(b, k),
        lookup(b, k) is None ==> lookup(merge_entries(b, o), k) == lookup(o, k),
        (lookup(b, k) is Some && lookup(o, k) == Some(JsonV::Null)) ==> lookup(merge_entries(b, o), k) == lookup(b, k),
        (lookup(b, k) is Some && lookup(o, k) is Some && !(lookup(o, k)->Some_0 is Null) && !(lookup(o, k)->Some_0 is Object))
            ==> lookup(merge_entries(b, o), k) == lookup(o, k),
        (lookup(b, k) is Some && lookup(o, k) is Some && lookup(b, k)->Some_0 is Object && lookup(o, k)->Some_0 is Object)
            ==> lookup(merge_entries(b, o), k) == Some(
            JsonV::Object(merge_entries(lookup(b, k)->Some_0->Object_0, lookup(o, k)->Some_0->Object_0)),
        ),
        (lookup(b, k) is Some && !(lookup(b, k)->Some_0 is Object) && lookup(o, k) is Some && lookup(o, k)->Some_0 is Object)
            ==> lookup(merge_entries(b, o), k) == lookup(o, k),
{
    law_merge_lookup(b, o, k);
}

/// A `null` override leaves the defaults as they are.
pub proof fn law_merge_null_keeps_defaults(d: JsonV)
    ensures
        merged(d, JsonV::Null) == d,
{
}

/// Every key of a merged entry list is a key of one of the two inputs.
proof fn lemma_merge_keys(b: Seq<(Seq<char>, JsonV)>, o: Seq<(Seq<char>, JsonV)>)
    ensures
        forall|i: int|
            0 <= i < merge_entries(b, o).len() ==> keys_of(b).contains(
                #[trigger] merge_entries(b, o)[i].0,
            ) || keys_of(o).contains(merge_entries(b, o)[i].0),
    decreases o, b.len(),
{
    let m = merge_entries(b, o);
    if b.len() == 0 {
        assert forall|i: int| 0 <= i < m.len() implies keys_of(b).contains(#[trigger] m[i].0)
            || keys_of(o).contains(m[i].0) by {
            assert(keys_of(o)[i] == m[i].0);
        }
    } else if o.len() == 0 {
        assert forall|i: int| 0 <= i < m.len() implies keys_of(b).contains(#[trigger] m[i].0)
            || keys_of(o).contains(m[i].0) by {
            assert(keys_of(b)[i] == m[i].0);
        }
    } else {
        let bt = b.subrange(1, b.len() as int);
        let ot = o.subrange(1, o.len() as int);
        let (rb, ro) = if b[0].0 == o[0].0 {
            (bt, ot)
        } else if lex_lt(b[0].0, o[0].0) {
            (bt, o)
        } else {
            (b, ot)
        };
        lemma_merge_keys(rb, ro);
        let rest = merge_entries(rb, ro);
        assert forall|i: int| 0 <= i < m.len() implies keys_of(b).contains(#[trigger] m[i].0)
            || keys_of(o).contains(m[i].0) by {
            if i == 0 {
                assert(keys_of(b)[0] == b[0].0);
                assert(keys_of(o)[0] == o[0].0);
            } else {
                assert(m[i] == rest[i - 1]);
                let key = rest[i - 1].0;
                if keys_of(rb).contains(key) {
                    let q = choose|q: int| 0 <= q < keys_of(rb).len() && keys_of(rb)[q] == key;
                    if rb == bt {
                        assert(keys_of(b)[q + 1] == key);
                    } else {
                        assert(keys_of(b)[q] == key);
                    }
                } else {
                    let q = choose|q: int| 0 <= q < keys_of(ro).len() && keys_of(ro)[q] == key;
                    if ro == ot {
                        assert(keys_of(o)[q + 1] == key);
                    } else {
                        assert(keys_of(o)[q] == key);
                    }
                }
            }
        }
    }
}

/// In strictly sorted keys, every key is at least the first one.
proof fn lemma_first_is_least(es: Seq<(Seq<char>, JsonV)>, key: Seq<char>)
    requires
        strictly_sorted(keys_of(es)),
        keys_of(es).contains(key),
    ensures
        key == es[0].0 || lex_lt(es[0].0, key),
{
    let q = choose|q: int| 0 <= q < keys_of(es).len() && keys_of(es)[q] == key;
    assert(keys_of(es)[0] == es[0].0);
    if q > 0 {
        assert(lex_lt(keys_of(es)[0], keys_of(es)[q]));
    }
}

/// The merge keeps objects well formed: when both inputs have their keys in
/// strictly increasing order at every depth, so does the result.
pub proof fn law_merge_keeps_wf(base: JsonV, over: JsonV)
    requires
        wf(base),
        wf(over),
    ensures
        wf(merged(base, over)),
    decreases over, 0nat,
{
    match over {
        JsonV::Object(o) => match base {
            JsonV::Object(b) => {
                lemma_entries_wf(b, b.len());
                lemma_entries_wf(o, o.len());
                lemma_merge_entries_wf(b, o);
                let m = merge_entries(b, o);
                lemma_entries_wf(m, m.len());
            },
            _ => {},
        },
        _ => {},
    }
}

proof fn lemma_merge_entries_wf(b: Seq<(Seq<char>, JsonV)>, o: Seq<(Seq<char>, JsonV)>)
    requires
        strictly_sorted(keys_of(b)),
        strictly_sorted(keys_of(o)),
        forall|i: int| 0 <= i < b.len() ==> #[trigger] wf(b[i].1),
        forall|i: int| 0 <= i < o.len() ==> #[trigger] wf(o[i].1),
    ensures
        strictly_sorted(keys_of(merge_entries(b, o))),
        forall|i: int| 0 <= i < merge_entries(b, o).len() ==> #[trigger] wf(merge_entries(b, o)[i].1),
    decreases o, b.len(),
{
    if b.len() == 0 || o.len() == 0 {
    } else {
        let bt = b.subrange(1, b.len() as int);
        let ot = o.subrange(1, o.len() as int);
        lemma_sorted_tail(b);
        lemma_sorted_tail(o);
        assert(keys_of(b)[0] == b[0].0);
        assert(keys_of(o)[0] == o[0].0);
        let (x, rb, ro) = if b[0].0 == o[0].0 {
            assert(wf(b[0].1));
            assert(wf(o[0].1));
            law_merge_keeps_wf(b[0].1, o[0].1);
            ((b[0].0, merged(b[0].1, o[0].1)), bt, ot)
        } else if lex_lt(b[0].0, o[0].0) {
            (b[0], bt, o)
        } else {
            lemma_lex_total(b[0].0, o[0].0);
            (o[0], b, ot)
        };
        assert forall|i: int| 0 <= i < rb.len() implies #[trigger] wf(rb[i].1) by {
            if rb == bt {
                assert(rb[i] == b[i + 1]);
            } else {
                assert(rb[i] == b[i]);
            }
        }
        assert forall|i: int| 0 <= i < ro.len() implies #[trigger] wf(ro[i].1) by {
            if ro == ot {
                assert(ro[i] == o[i + 1]);
            } else {
                assert(ro[i] == o[i]);
            }
        }
        lemma_merge_entries_wf(rb, ro);
        lemma_merge_keys(rb, ro);
        let rest = merge_entries(rb, ro);
        let m = merge_entries(b, o);
        assert(m == seq![x] + rest);
        // every key after the first is above it
        assert forall|i: int| 0 <= i < rest.len() implies lex_lt(x.0, #[trigger] rest[i].0) by {
            let key = rest[i].0;
            if keys_of(rb).contains(key) {
                if rb.len() > 0 {
                    lemma_first_is_least(rb, key);
                }
                if rb == bt {
                    assert(keys_of(b)[1] == b[1].0);
                    assert(lex_lt(keys_of(b)[0], keys_of(b)[1]));
                    if key != b[1].0 {
                        lemma_lex_transitive(b[0].0, b[1].0, key);
                    }
                    if x.0 != b[0].0 {
                        lemma_lex_transitive(x.0, b[0].0, key);
                    }
                } else {
                    // rb == b and the head came from o, below b[0]
                    if key != b[0].0 {
                        lemma_lex_transitive(x.0, b[0].0, key);
                    }
                }
            } else {
                assert(keys_of(ro).contains(key));
                if ro.len() > 0 {
                    lemma_first_is_least(ro, key);
                }
                if ro == ot {
                    assert(keys_of(o)[1] == o[1].0);
                    assert(lex_lt(keys_of(o)[0], keys_of(o)[1]));
                    if key != o[1].0 {
                        lemma_lex_transitive(o[0].0, o[1].0, key);
                    }
                    if x.0 != o[0].0 {
                        lemma_lex_transitive(x.0, o[0].0, key);
                    }
                } else {
                    if key != o[0].0 {
                        lemma_lex_transitive(x.0, o[0].0, key);
                    }
                }
            }
        }
        let km = keys_of(m);
        let kr = keys_of(rest);
        assert forall|i: int, j: int| 0 <= i < j < km.len() implies lex_lt(km[i], km[j]) by {
            assert(km[j] == kr[j - 1]);
            assert(kr[j - 1] == rest[j - 1].0);
            if i == 0 {
                assert(km[0] == x.0);
            } else {
                assert(km[i] == kr[i - 1]);
            }
        }
        assert forall|i: int| 0 <= i < m.len() implies #[trigger] wf(m[i].1) by {
            if i > 0 {
                assert(m[i] == rest[i - 1]);
            }
        }
    }
}

// ------------------------------------------------------------------
// Equality
// ------------------------------------------------------------------

/// `a == b` on JSON values.
pub fn json_eq(a: &Json, b: &Json) -> (r: bool)
    ensures
        r == (a@ == b@),
    decreases a,
{
    match (a, b) {
        (Json::Null, Json::Null) => true,
        (Json::Bool(x), Json::Bool(y)) => *x == *y,
        (Json::Number(x), Json::Number(y)) => str_eq(x.as_str(), y.as_str()),
        (Json::Str(x), Json::Str(y)) => str_eq(x.as_str(), y.as_str()),
        (Json::Array(x), Json::Array(y)) => {
            proof {
                lemma_items_view(x@, x@.len());
                lemma_items_view(y@, y@.len());
            }
            if x.len() != y.len() {
                return false;
            }
            let mut i: usize = 0;
            while i < x.len()
                invariant
                    *a == Json::Array(*x),
                    *b == Json::Array(*y),
                    items_view(x@, x@.len()).len() == x.len(),
                    items_view(y@, y@.len()).len() == y.len(),
                    forall|k: int| 0 <= k < x.len() ==> #[trigger] items_view(x@, x@.len())[k] == json_view(x@[k]),
                    forall|k: int| 0 <= k < y.len() ==> #[trigger] items_view(y@, y@.len())[k] == json_view(y@[k]),
                    x.len() == y.len(),
                    i <= x.len(),
                    forall|k: int| 0 <= k < i ==> json_view(#[trigger] x@[k]) == json_view(y@[k]),
                decreases x.len() - i,
            {
                proof {
                    assert(decreases_to!(*a => (*a)->Array_0));
                    assert(decreases_to!(*x => x@));
                    assert(decreases_to!(x@ => x@[i as int]));
                }
                if !json_eq(&x[i], &y[i]) {
                    proof {
                        assert(items_view(x@, x@.len())[i as int] != items_view(y@, y@.len())[i as int]);
                    }
                    return false;
                }
                i = i + 1;
            }
            proof {
                assert(items_view(x@, x@.len()) =~= items_view(y@, y@.len()));
            }
            true
        },
        (Json::Object(x), Json::Object(y)) => {
            proof {
                lemma_entries_view(x@, x@.len());
                lemma_entries_view(y@, y@.len());
            }
            if x.len() != y.len() {
                return false;
            }
            let mut i: usize = 0;
            while i < x.len()
                invariant
                    *a == Json::Object(*x),
                    *b == Json::Object(*y),
                    entries_view(x@, x@.len()).len() == x.len(),
                    entries_view(y@, y@.len()).len() == y.len(),
                    forall|k: int| 0 <= k < x.len() ==> #[trigger] entries_view(x@, x@.len())[k] == (x@[k].0@, json_view(x@[k].1)),
                    forall|k: int| 0 <= k < y.len() ==> #[trigger] entries_view(y@, y@.len())[k] == (y@[k].0@, json_view(y@[k].1)),
                    x.len() == y.len(),
                    i <= x.len(),
                    forall|k: int|
                        0 <= k < i ==> (#[trigger] x@[k]).0@ == y@[k].0@ && json_view(x@[k].1)
                            == json_view(y@[k].1),
                decreases x.len() - i,
            {
                if !str_eq(x[i].0.as_str(), y[i].0.as_str()) {
                    proof {
                        assert(entries_view(x@, x@.len())[i as int] != entries_view(y@, y@.len())[i as int]);
                    }
                    return false;
                }
                proof {
                    assert(decreases_to!(*a => (*a)->Object_0));
                    assert(decreases_to!(*x => x@));
                    assert(decreases_to!(x@ => x@[i as int]));
                    assert(decreases_to!(x@[i as int] => x@[i as int].1));
                }
                if !json_eq(&x[i].1, &y[i].1) {
                    proof {
                        assert(entries_view(x@, x@.len())[i as int] != entries_view(y@, y@.len())[i as int]);
                    }
                    return false;
                }
                i = i + 1;
            }
            proof {
                assert(entries_view(x@, x@.len()) =~= entries_view(y@, y@.len()));
            }
            true
        },
        _ => false,
    }
}

// ------------------------------------------------------------------
// Compact JSON text
// ------------------------------------------------------------------

/// A lowercase hexadecimal digit.
pub open spec fn hex_digit(d: nat) -> char {
    if d < 10 {
        digit_char(d)
    } else if d == 10 {
        'a'
    } else if d == 11 {
        'b'
    } else if d == 12 {
        'c'
    } else if d == 13 {
        'd'
    } else if d == 14 {
        'e'
    } else {
        'f'
    }
}

/// How one character is written inside a JSON string: `"` and `\` behind a
/// backslash, the five short escapes, `\u00XX` (lowercase hex) for the other
/// control characters below U+0020, and every other character as it is.
pub open spec fn escaped_char(c: char) -> Seq<char> {
    if c == '"' {
        seq!['\\', '"']
    } else if c == '\\' {
        seq!['\\', '\\']
    } else if c == '\u{08}' {
        seq!['\\', 'b']
    } else if c == '\u{0C}' {
        seq!['\\', 'f']
    } else if c == '\n' {
        seq!['\\', 'n']
    } else if c == '\r' {
        seq!['\\', 'r']
    } else if c == '\t' {
        seq!['\\', 't']
    } else if (c as nat) < 0x20 {
        seq!['\\', 'u', '0', '0', hex_digit((c as nat) / 16), hex_digit((c as nat) % 16)]
    } else {
        seq![c]
    }
}

/// The characters of `s`, each escaped.
pub open spec fn escaped(s: Seq<char>) -> Seq<char>
    decreases s.len(),
{
    if s.len() == 0 {
        Seq::empty()
    } else {
        escaped(s.drop_last()) + escaped_char(s.last())
    }
}

/// The JSON text of a string: the escaped characters in double quotes.
pub open spec fn json_string_text(s: Seq<char>) -> Seq<char> {
    seq!['"'] + escaped(s) + seq!['"']
}

/// Quotes a string as a JSON string literal (`serde_json::to_string`).
/// Serializing a `str` writes into a `Vec<u8>` and cannot fail; the text is
/// the string in double quotes with serde_json's escapes (its `ESCAPE` table
/// and `write_char_escape`), as `json_string_text` states them.
#[verifier::external_body]
pub(crate) fn json_quote(s: &str) -> (r: String)
    ensures
        r@ == json_string_text(s@),
{
    match serde_json::to_string(s) {
        Ok(t) => t,
        Err(_) => String::new(),
    }
}

/// Compact JSON text, as `Value::to_string` writes it: no whitespace,
/// members in key order.
pub open spec fn compact(j: JsonV) -> Seq<char>
    decreases j, 0nat,
{
    match j {
        JsonV::Null => "null"@,
        JsonV::Bool(b) => if b {
            "true"@
        } else {
            "false"@
        },
        JsonV::Number(t) => t,
        JsonV::Str(s) => json_string_text(s),
        JsonV::Array(xs) => "["@ + compact_items(xs, xs.len()) + "]"@,
        JsonV::Object(es) => "{"@ + compact_entries(es, es.len()) + "}"@,
    }
}

pub open spec fn compact_items(xs: Seq<JsonV>, n: nat) -> Seq<char>
    decreases xs, n,
{
    if n == 0 || n > xs.len() {
        Seq::empty()
    } else if n == 1 {
        compact(xs[0])
    } else {
        compact_items(xs, (n - 1) as nat) + ","@ + compact(xs[n - 1])
    }
}

pub open spec fn compact_entries(es: Seq<(Seq<char>, JsonV)>, n: nat) -> Seq<char>
    decreases es, n,
{
    if n == 0 || n > es.len() {
        Seq::empty()
    } else if n == 1 {
        json_string_text(es[0].0) + ":"@ + compact(es[0].1)
    } else {
        compact_entries(es, (n - 1) as nat) + ","@ + json_string_text(es[n - 1].0) + ":"@
            + compact(es[n - 1].1)
    }
}

/// `v.to_string()`: compact JSON text.
pub fn to_compact(j: &Json) -> (r: String)
    ensures
        r@ == compact(j@),
    decreases j,
{
    match j {
        Json::Null => owned("null"),
        Json::Bool(b) => if *b {
            owned("true")
        } else {
            owned("false")
        },
        Json::Number(t) => t.clone(),
        Json::Str(s) => json_quote(s.as_str()),
        Json::Array(v) => {
            let ghost xs = items_view(v@, v@.len());
            proof {
                lemma_items_view(v@, v@.len());
            }
            let mut out = owned("[");
            let mut i: usize = 0;
            while i < v.len()
                invariant
                    *j == Json::Array(*v),
                    xs == items_view(v@, v@.len()),
                    xs.len() == v.len(),
                    forall|k: int| 0 <= k < v.len() ==> #[trigger] xs[k] == json_view(v@[k]),
                    i <= v.len(),
                    out@ == "["@ + compact_items(xs, i as nat),
                decreases v.len() - i,
            {
                if i > 0 {
                    push_str(&mut out, ",");
                }
                proof {
                    assert(decreases_to!(*j => (*j)->Array_0));
                    assert(decreases_to!(*v => v@));
                    assert(decreases_to!(v@ => v@[i as int]));
                }
                let t = to_compact(&v[i]);
                push_str(&mut out, t.as_str());
                proof {
                    if i == 0 {
                        assert(compact_items(xs, 0) =~= Seq::<char>::empty());
                    }
                    assert(out@ =~= "["@ + compact_items(xs, (i + 1) as nat));
                }
                i = i + 1;
            }
            push_str(&mut out, "]");
            out
        },
        Json::Object(v) => {
            let ghost es = entries_view(v@, v@.len());
            proof {
                lemma_entries_view(v@, v@.len());
            }
            let mut out = owned("{");
            let mut i: usize = 0;
            while i < v.len()
                invariant
                    *j == Json::Object(*v),
                    es == entries_view(v@, v@.len()),
                    es.len() == v.len(),
                    forall|k: int| 0 <= k < v.len() ==> #[trigger] es[k] == (v@[k].0@, json_view(v@[k].1)),
                    i <= v.len(),
                    out@ == "{"@ + compact_entries(es, i as nat),
                decreases v.len() - i,
            {
                if i > 0 {
                    push_str(&mut out, ",");
                }
                let key = json_quote(v[i].0.as_str());
                push_str(&mut out, key.as_str());
                push_str(&mut out, ":");
                proof {
                    assert(decreases_to!(*j => (*j)->Object_0));
                    assert(decreases_to!(*v => v@));
                    assert(decreases_to!(v@ => v@[i as int]));
                    assert(decreases_to!(v@[i as int] => v@[i as int].1));
                }
                let t = to_compact(&v[i].1);
                push_str(&mut out, t.as_str());
                proof {
                    if i == 0 {
                        assert(compact_entries(es, 0) =~= Seq::<char>::empty());
                    }
                    assert(out@ =~= "{"@ + compact_entries(es, (i + 1) as nat));
                }
                i = i + 1;
            }
            push_str(&mut out, "}");
            out
        },
    }
}

} // verus!
