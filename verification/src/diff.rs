//! Manifest-versus-state comparison: which keys of a job's configuration
//! changed since it was deployed, and which jobs are to be created,
//! modified or deleted.
use vstd::prelude::*;
use crate::json::{lemma_lookup_below, lemma_sorted_tail, compact, entries_view, json_eq, lemma_entries_view, lookup, json_view, keys_of, to_compact, Json, JsonV};
use crate::text::{lex_lt, lemma_lex_irreflexive, lemma_lex_total, owned, str_eq, str_lt, strictly_sorted};

verus! {

/// One changed key: its name, the old value's text and the new value's text.
pub type Change = (String, (String, String));

pub open spec fn change_view(c: Change) -> (Seq<char>, (Seq<char>, Seq<char>)) {
    (c.0@, (c.1.0@, c.1.1@))
}

pub open spec fn changes_view(s: Seq<Change>) -> Seq<(Seq<char>, (Seq<char>, Seq<char>))> {
    s.map_values(|c: Change| change_view(c))
}

/// `e` put in its key order into key-ordered changes, replacing a change
/// of the same key.
pub open spec fn insert_change(
    cs: Seq<(Seq<char>, (Seq<char>, Seq<char>))>,
    e: (Seq<char>, (Seq<char>, Seq<char>)),
) -> Seq<(Seq<char>, (Seq<char>, Seq<char>))>
    decreases cs.len(),
{
    if cs.len() == 0 {
        seq![e]
    } else if cs.last().0 == e.0 {
        cs.drop_last().push(e)
    } else if lex_lt(cs.last().0, e.0) {
        cs.push(e)
    } else {
        insert_change(cs.drop_last(), e).push(cs.last())
    }
}

/// Puts a change in its key order into key-ordered changes, replacing a
/// change of the same key.
pub fn insert_change_exec(cs: Vec<Change>, e: Change) -> (r: Vec<Change>)
    ensures
        changes_view(r@) == insert_change(changes_view(cs@), change_view(e)),
    decreases cs.len(),
{
    let mut cs = cs;
    if cs.len() == 0 {
        let mut v: Vec<Change> = Vec::new();
        v.push(e);
        proof {
            assert(changes_view(v@) =~= seq![change_view(e)]);
        }
        return v;
    }
    let ghost all = changes_view(cs@);
    let last = cs.pop().unwrap();
    proof {
        assert(all.drop_last() =~= changes_view(cs@));
        assert(all.last() == change_view(last));
    }
    if str_eq(last.0.as_str(), e.0.as_str()) {
        let ghost before = cs@;
        cs.push(e);
        proof {
            assert(changes_view(cs@) =~= changes_view(before).push(change_view(e)));
        }
        cs
    } else if str_lt(last.0.as_str(), e.0.as_str()) {
        let ghost before = cs@;
        cs.push(last);
        let ghost mid = cs@;
        cs.push(e);
        proof {
            assert(changes_view(mid) =~= all);
            assert(changes_view(cs@) =~= all.push(change_view(e)));
        }
        cs
    } else {
        let mut r = insert_change_exec(cs, e);
        let ghost before = r@;
        r.push(last);
        proof {
            assert(changes_view(r@) =~= changes_view(before).push(change_view(last)));
        }
        r
    }
}

/// The changes in key order, one per key, a later change of a key
/// replacing an earlier one: how a map keyed by name holds them.
pub open spec fn by_key(cs: Seq<(Seq<char>, (Seq<char>, Seq<char>))>) -> Seq<(Seq<char>, (Seq<char>, Seq<char>))>
    decreases cs.len(),
{
    if cs.len() == 0 {
        Seq::empty()
    } else {
        insert_change(by_key(cs.drop_last()), cs.last())
    }
}

/// The keys of changes.
pub open spec fn change_keys(cs: Seq<(Seq<char>, (Seq<char>, Seq<char>))>) -> Seq<Seq<char>> {
    cs.map_values(|c: (Seq<char>, (Seq<char>, Seq<char>))| c.0)
}

proof fn lemma_insert_change_sorted(cs: Seq<(Seq<char>, (Seq<char>, Seq<char>))>, e: (Seq<char>, (Seq<char>, Seq<char>)))
    requires
        strictly_sorted(change_keys(cs)),
    ensures
        strictly_sorted(change_keys(insert_change(cs, e))),
        forall|k: Seq<char>|
            #![trigger change_keys(insert_change(cs, e)).contains(k)]
            #![trigger change_keys(cs).contains(k)]
            change_keys(insert_change(cs, e)).contains(k) <==> (change_keys(cs).contains(k) || k == e.0),
    decreases cs.len(),
{
    let r = insert_change(cs, e);
    let kc = change_keys(cs);
    let kr = change_keys(r);
    if cs.len() == 0 {
        assert(kr =~= seq![e.0]);
        assert forall|k: Seq<char>| kr.contains(k) <==> (kc.contains(k) || k == e.0) by {
            if kr.contains(k) {
                assert(kr[0] == k);
            }
            if k == e.0 {
                assert(kr[0] == k);
            }
        }
    } else {
        let init = cs.drop_last();
        let last = cs.last();
        let ki = change_keys(init);
        assert(ki =~= kc.drop_last());
        assert(kc[kc.len() - 1] == last.0);
        assert forall|a: int, b: int| 0 <= a < b < ki.len() implies lex_lt(ki[a], ki[b]) by {
            assert(ki[a] == kc[a]);
            assert(ki[b] == kc[b]);
        }
        if last.0 == e.0 {
            assert(r == init.push(e));
            assert(kr =~= ki.push(e.0));
            assert forall|a: int, b: int| 0 <= a < b < kr.len() implies lex_lt(kr[a], kr[b]) by {
                assert(kr[a] == kc[a]);
                assert(kr[b] == kc[b]);
            }
            assert forall|k: Seq<char>| kr.contains(k) <==> (kc.contains(k) || k == e.0) by {
                if kr.contains(k) {
                    let q = choose|q: int| 0 <= q < kr.len() && kr[q] == k;
                    assert(kc[q] == k);
                }
                if kc.contains(k) {
                    let q = choose|q: int| 0 <= q < kc.len() && kc[q] == k;
                    assert(kr[q] == k);
                }
                if k == e.0 {
                    assert(kr[kr.len() - 1] == k);
                }
            }
        } else if lex_lt(last.0, e.0) {
            assert(r == cs.push(e));
            assert(kr =~= kc.push(e.0));
            assert forall|a: int, b: int| 0 <= a < b < kr.len() implies lex_lt(kr[a], kr[b]) by {
                if b == kr.len() - 1 && a < b {
                    if a < kc.len() - 1 {
                        assert(lex_lt(kc[a], kc[kc.len() - 1]));
                        crate::text::lemma_lex_transitive(kc[a], last.0, e.0);
                    }
                }
            }
            assert forall|k: Seq<char>| kr.contains(k) <==> (kc.contains(k) || k == e.0) by {
                if kr.contains(k) {
                    let q = choose|q: int| 0 <= q < kr.len() && kr[q] == k;
                    if q < kc.len() {
                        assert(kc[q] == k);
                    }
                }
                if kc.contains(k) {
                    let q = choose|q: int| 0 <= q < kc.len() && kc[q] == k;
                    assert(kr[q] == k);
                }
                if k == e.0 {
                    assert(kr[kr.len() - 1] == k);
                }
            }
        } else {
            lemma_lex_total(last.0, e.0);
            lemma_insert_change_sorted(init, e);
            let m = insert_change(init, e);
            let km = change_keys(m);
            assert(r == m.push(last));
            assert(kr =~= km.push(last.0));
            assert forall|a: int| 0 <= a < km.len() implies lex_lt(#[trigger] km[a], last.0) by {
                let k = km[a];
                assert(km.contains(k));
                if k != e.0 {
                    assert(ki.contains(k));
                    let q = choose|q: int| 0 <= q < ki.len() && ki[q] == k;
                    assert(kc[q] == k);
                    assert(lex_lt(kc[q], kc[kc.len() - 1]));
                }
            }
            assert forall|a: int, b: int| 0 <= a < b < kr.len() implies lex_lt(kr[a], kr[b]) by {
                if b == kr.len() - 1 {
                    assert(kr[a] == km[a]);
                } else {
                    assert(kr[a] == km[a]);
                    assert(kr[b] == km[b]);
                }
            }
            assert forall|k: Seq<char>| kr.contains(k) <==> (kc.contains(k) || k == e.0) by {
                if kr.contains(k) {
                    let q = choose|q: int| 0 <= q < kr.len() && kr[q] == k;
                    if q < km.len() {
                        assert(km[q] == k);
                        assert(km.contains(k));
                        if k != e.0 {
                            assert(ki.contains(k));
                            let p = choose|p: int| 0 <= p < ki.len() && ki[p] == k;
                            assert(ki[p] == kc[p]);
                            assert(kc[p] == k);
                        }
                    } else {
                        assert(kc[kc.len() - 1] == k);
                    }
                }
                if kc.contains(k) {
                    let q = choose|q: int| 0 <= q < kc.len() && kc[q] == k;
                    if q < kc.len() - 1 {
                        assert(ki[q] == k);
                        assert(ki.contains(k));
                        assert(km.contains(k));
                        let p = choose|p: int| 0 <= p < km.len() && km[p] == k;
                        assert(kr[p] == k);
                    } else {
                        assert(kr[kr.len() - 1] == k);
                    }
                }
                if k == e.0 {
                    assert(km.contains(k));
                    let p = choose|p: int| 0 <= p < km.len() && km[p] == k;
                    assert(kr[p] == k);
                }
            }
        }
    }
}

/// Changes as a plan prints them: in strictly increasing key order, so one
/// line per key, and with exactly the keys that changed.
pub proof fn law_changes_print_by_key(cs: Seq<(Seq<char>, (Seq<char>, Seq<char>))>)
    ensures
        strictly_sorted(change_keys(by_key(cs))),
        forall|k: Seq<char>| change_keys(by_key(cs)).contains(k) <==> change_keys(cs).contains(k),
    decreases cs.len(),
{
    if cs.len() > 0 {
        law_changes_print_by_key(cs.drop_last());
        lemma_insert_change_sorted(by_key(cs.drop_last()), cs.last());
        let kc = change_keys(cs);
        assert(change_keys(cs.drop_last()) =~= kc.drop_last());
        assert(by_key(cs) == insert_change(by_key(cs.drop_last()), cs.last()));
        assert(kc[kc.len() - 1] == cs.last().0);
        assert forall|k: Seq<char>| change_keys(by_key(cs)).contains(k) <==> kc.contains(k) by {
            assert(change_keys(by_key(cs)).contains(k) <==> (change_keys(by_key(cs.drop_last())).contains(k) || k == cs.last().0));
            assert(change_keys(by_key(cs.drop_last())).contains(k) <==> change_keys(cs.drop_last()).contains(k));
            if k == cs.last().0 {
                assert(kc.contains(k));
            }
            if kc.contains(k) {
                let q = choose|q: int| 0 <= q < kc.len() && kc[q] == k;
                if q < kc.len() - 1 {
                    assert(kc.drop_last()[q] == k);
                }
            }
            if change_keys(cs.drop_last()).contains(k) {
                let q = choose|q: int| 0 <= q < kc.len() - 1 && kc.drop_last()[q] == k;
                assert(kc[q] == k);
            }
        }
    } else {
        assert(change_keys(by_key(cs)) =~= Seq::<Seq<char>>::empty());
    }
}

/// The changes in key order, one per key.
pub fn changes_by_key(cs: &Vec<Change>) -> (r: Vec<Change>)
    ensures
        changes_view(r@) == by_key(changes_view(cs@)),
{
    let mut out: Vec<Change> = Vec::new();
    let mut i: usize = 0;
    proof {
        assert(changes_view(cs@).take(0) =~= Seq::<(Seq<char>, (Seq<char>, Seq<char>))>::empty());
        assert(changes_view(out@) =~= Seq::<(Seq<char>, (Seq<char>, Seq<char>))>::empty());
    }
    while i < cs.len()
        invariant
            i <= cs.len(),
            changes_view(out@) == by_key(changes_view(cs@).take(i as int)),
        decreases cs.len() - i,
    {
        let c = &cs[i];
        let e: Change = (c.0.clone(), (c.1.0.clone(), c.1.1.clone()));
        proof {
            assert(change_view(e) == changes_view(cs@)[i as int]);
            assert(changes_view(cs@).take(i + 1).drop_last() =~= changes_view(cs@).take(i as int));
        }
        out = insert_change_exec(out, e);
        i = i + 1;
    }
    proof {
        assert(changes_view(cs@).take(cs.len() as int) =~= changes_view(cs@));
    }
    out
}


/// The change reported for a key held as `old` before and `new` now
/// (`None`: absent). A key absent before counts as `null` before; a key
/// absent now is reported with the text `null`.
pub open spec fn change_of(old: Option<JsonV>, new: Option<JsonV>) -> Option<(Seq<char>, Seq<char>)> {
    match new {
        Some(v) => {
            let x = match old {
                Some(a) => a,
                None => JsonV::Null,
            };
            if x != v {
                Some((compact(x), compact(v)))
            } else {
                None
            }
        },
        None => match old {
            Some(a) => Some((compact(a), "null"@)),
            None => None,
        },
    }
}

/// The entry for key `k` when `c` is a change, nothing otherwise.
pub open spec fn entry_for(k: Seq<char>, c: Option<(Seq<char>, Seq<char>)>) -> Seq<(Seq<char>, (Seq<char>, Seq<char>))> {
    match c {
        Some(p) => seq![(k, p)],
        None => Seq::empty(),
    }
}

/// The changes between two key-ordered entry lists, in key order.
pub open spec fn diff_entries(
    o: Seq<(Seq<char>, JsonV)>,
    n: Seq<(Seq<char>, JsonV)>,
) -> Seq<(Seq<char>, (Seq<char>, Seq<char>))>
    decreases o.len() + n.len(),
{
    if o.len() == 0 && n.len() == 0 {
        Seq::empty()
    } else if o.len() == 0 || (n.len() > 0 && !(o[0].0 == n[0].0) && !lex_lt(o[0].0, n[0].0)) {
        entry_for(n[0].0, change_of(None, Some(n[0].1))) + diff_entries(o, n.subrange(1, n.len() as int))
    } else if n.len() == 0 || lex_lt(o[0].0, n[0].0) {
        entry_for(o[0].0, change_of(Some(o[0].1), None)) + diff_entries(o.subrange(1, o.len() as int), n)
    } else {
        entry_for(o[0].0, change_of(Some(o[0].1), Some(n[0].1))) + diff_entries(
            o.subrange(1, o.len() as int),
            n.subrange(1, n.len() as int),
        )
    }
}

/// The changed keys of two JSON values, with the old and new values as
/// compact JSON text: nothing unless both are objects.
pub open spec fn json_changes(old: JsonV, new: JsonV) -> Seq<(Seq<char>, (Seq<char>, Seq<char>))> {
    match (old, new) {
        (JsonV::Object(o), JsonV::Object(n)) => diff_entries(o, n),
        _ => Seq::empty(),
    }
}

/// Compare two JSON objects: every key added, modified or deleted, in key
/// order, with its old and new values as compact JSON text. A key present
/// before and absent now is reported with `null` as its new value.
pub fn compare_json(old: &Json, new: &Json) -> (r: Vec<Change>)
    ensures
        changes_view(r@) == json_changes(old@, new@),
{
    match (old, new) {
        (Json::Object(o), Json::Object(n)) => {
            let ghost ov = entries_view(o@, o@.len());
            let ghost nv = entries_view(n@, n@.len());
            proof {
                lemma_entries_view(o@, o@.len());
                lemma_entries_view(n@, n@.len());
                assert(ov.subrange(0, ov.len() as int) =~= ov);
                assert(nv.subrange(0, nv.len() as int) =~= nv);
            }
            let mut out: Vec<Change> = Vec::new();
            let mut i: usize = 0;
            let mut j: usize = 0;
            while i < o.len() || j < n.len()
                invariant
                    ov == entries_view(o@, o@.len()),
                    nv == entries_view(n@, n@.len()),
                    ov.len() == o.len(),
                    nv.len() == n.len(),
                    forall|k: int| 0 <= k < o.len() ==> #[trigger] ov[k] == (o@[k].0@, json_view(o@[k].1)),
                    forall|k: int| 0 <= k < n.len() ==> #[trigger] nv[k] == (n@[k].0@, json_view(n@[k].1)),
                    i <= o.len(),
                    j <= n.len(),
                    diff_entries(ov, nv) == changes_view(out@) + diff_entries(
                        ov.subrange(i as int, ov.len() as int),
                        nv.subrange(j as int, nv.len() as int),
                    ),
                decreases o.len() + n.len() - i - j,
            {
                let ghost os = ov.subrange(i as int, ov.len() as int);
                let ghost ns = nv.subrange(j as int, nv.len() as int);
                let ghost before = out@;
                let same = i < o.len() && j < n.len() && str_eq(o[i].0.as_str(), n[j].0.as_str());
                let old_first = !same && (j == n.len() || (i < o.len() && str_lt(o[i].0.as_str(), n[j].0.as_str())));
                if same {
                    proof {
                        assert(os[0] == ov[i as int]);
                        assert(ns[0] == nv[j as int]);
                        assert(os.subrange(1, os.len() as int) =~= ov.subrange(i + 1, ov.len() as int));
                        assert(ns.subrange(1, ns.len() as int) =~= nv.subrange(j + 1, nv.len() as int));
                    }
                    proof {
                        lemma_lex_irreflexive(os[0].0);
                        assert(diff_entries(os, ns) == entry_for(os[0].0, change_of(Some(os[0].1), Some(ns[0].1)))
                            + diff_entries(os.subrange(1, os.len() as int), ns.subrange(1, ns.len() as int)));
                    }
                    if !json_eq(&o[i].1, &n[j].1) {
                        let a = to_compact(&o[i].1);
                        let b = to_compact(&n[j].1);
                        out.push((o[i].0.clone(), (a, b)));
                    }
                    i = i + 1;
                    j = j + 1;
                } else if old_first {
                    proof {
                        assert(os[0] == ov[i as int]);
                        assert(os.subrange(1, os.len() as int) =~= ov.subrange(i + 1, ov.len() as int));
                        if j < n.len() {
                            assert(ns[0] == nv[j as int]);
                        }
                        assert(diff_entries(os, ns) == entry_for(os[0].0, change_of(Some(os[0].1), None))
                            + diff_entries(os.subrange(1, os.len() as int), ns));
                    }
                    let a = to_compact(&o[i].1);
                    out.push((o[i].0.clone(), (a, owned("null"))));
                    i = i + 1;
                } else {
                    proof {
                        assert(ns[0] == nv[j as int]);
                        assert(ns.subrange(1, ns.len() as int) =~= nv.subrange(j + 1, nv.len() as int));
                        if i < o.len() {
                            assert(os[0] == ov[i as int]);
                        }
                        assert(diff_entries(os, ns) == entry_for(ns[0].0, change_of(None, Some(ns[0].1)))
                            + diff_entries(os, ns.subrange(1, ns.len() as int)));
                    }
                    let is_null = match &n[j].1 {
                        Json::Null => true,
                        _ => false,
                    };
                    if !is_null {
                        let b = to_compact(&n[j].1);
                        out.push((n[j].0.clone(), (owned("null"), b)));
                    }
                    j = j + 1;
                }
                proof {
                    if out@.len() > before.len() {
                        assert(out@ == before.push(out@[before.len() as int]));
                        assert(changes_view(out@) =~= changes_view(before) + seq![change_view(out@[before.len() as int])]);
                    } else {
                        assert(out@ == before);
                    }
                    assert forall|x: Seq<(Seq<char>, (Seq<char>, Seq<char>))>, y: Seq<(Seq<char>, (Seq<char>, Seq<char>))>, z: Seq<(Seq<char>, (Seq<char>, Seq<char>))>|
                        #![trigger x + y + z] x + (y + z) == x + y + z by {
                        assert(x + (y + z) =~= x + y + z);
                    }
                }
            }
            proof {
                assert(ov.subrange(i as int, ov.len() as int).len() == 0);
                assert(nv.subrange(j as int, nv.len() as int).len() == 0);
                assert(changes_view(out@) + Seq::<(Seq<char>, (Seq<char>, Seq<char>))>::empty() =~= changes_view(out@));
            }
            out
        },
        _ => Vec::new(),
    }
}

/// The change recorded under key `k`, if any.
pub open spec fn change_at(cs: Seq<(Seq<char>, (Seq<char>, Seq<char>))>, k: Seq<char>) -> Option<(Seq<char>, Seq<char>)>
    decreases cs.len(),
{
    if cs.len() == 0 {
        None
    } else if cs[0].0 == k {
        Some(cs[0].1)
    } else {
        change_at(cs.skip(1), k)
    }
}

proof fn lemma_change_at_concat(
    a: Seq<(Seq<char>, (Seq<char>, Seq<char>))>,
    b: Seq<(Seq<char>, (Seq<char>, Seq<char>))>,
    k: Seq<char>,
)
    requires
        a.len() <= 1,
    ensures
        change_at(a + b, k) == if a.len() == 1 && a[0].0 == k {
            Some(a[0].1)
        } else {
            change_at(b, k)
        },
{
    if a.len() == 1 {
        assert((a + b).skip(1) =~= b);
    } else {
        assert(a + b =~= b);
    }
}

proof fn lemma_head_not_in_tail(es: Seq<(Seq<char>, JsonV)>)
    requires
        strictly_sorted(keys_of(es)),
        es.len() > 0,
    ensures
        lookup(es.subrange(1, es.len() as int), es[0].0) is None,
{
    let t = es.subrange(1, es.len() as int);
    if t.len() > 0 {
        lemma_sorted_tail(es);
        assert(keys_of(es)[0] == es[0].0);
        assert(keys_of(es)[1] == es[1].0);
        assert(t[0] == es[1]);
        lemma_lookup_below(t, es[0].0);
    }
}

/// Comparing two objects reports, under every key, exactly the change of
/// that key's value: added keys against `null`, deleted keys with `null`
/// as their new text, unchanged keys not at all.
pub proof fn law_changes_per_key(
    o: Seq<(Seq<char>, JsonV)>,
    n: Seq<(Seq<char>, JsonV)>,
    k: Seq<char>,
)
    requires
        strictly_sorted(keys_of(o)),
        strictly_sorted(keys_of(n)),
    ensures
        change_at(diff_entries(o, n), k) == change_of(lookup(o, k), lookup(n, k)),
    decreases o.len() + n.len(),
{
    if o.len() == 0 && n.len() == 0 {
    } else {
        if o.len() > 0 {
            lemma_sorted_tail(o);
            assert(keys_of(o)[0] == o[0].0);
            assert(o.skip(1) == o.subrange(1, o.len() as int));
        }
        if n.len() > 0 {
            lemma_sorted_tail(n);
            assert(keys_of(n)[0] == n[0].0);
            assert(n.skip(1) == n.subrange(1, n.len() as int));
        }
        if o.len() == 0 || (n.len() > 0 && !(o[0].0 == n[0].0) && !lex_lt(o[0].0, n[0].0)) {
            let nt = n.subrange(1, n.len() as int);
            law_changes_per_key(o, nt, k);
            lemma_change_at_concat(entry_for(n[0].0, change_of(None, Some(n[0].1))), diff_entries(o, nt), k);
            if k == n[0].0 {
                lemma_head_not_in_tail(n);
                if o.len() > 0 {
                    lemma_lex_total(o[0].0, n[0].0);
                    lemma_lookup_below(o, k);
                }
            }
        } else if n.len() == 0 || lex_lt(o[0].0, n[0].0) {
            let ot = o.subrange(1, o.len() as int);
            law_changes_per_key(ot, n, k);
            lemma_change_at_concat(entry_for(o[0].0, change_of(Some(o[0].1), None)), diff_entries(ot, n), k);
            if k == o[0].0 {
                lemma_head_not_in_tail(o);
                if n.len() > 0 {
                    lemma_lookup_below(n, k);
                }
            }
        } else {
            let ot = o.subrange(1, o.len() as int);
            let nt = n.subrange(1, n.len() as int);
            law_changes_per_key(ot, nt, k);
            lemma_change_at_concat(entry_for(o[0].0, change_of(Some(o[0].1), Some(n[0].1))), diff_entries(ot, nt), k);
            if k == o[0].0 {
                lemma_head_not_in_tail(o);
                lemma_head_not_in_tail(n);
            }
        }
    }
}

proof fn lemma_change_at_found(cs: Seq<(Seq<char>, (Seq<char>, Seq<char>))>, k: Seq<char>)
    ensures
        change_at(cs, k) matches Some(p) ==> cs.contains((k, p)),
        change_at(cs, k) is None ==> forall|i: int| 0 <= i < cs.len() ==> (#[trigger] cs[i]).0 != k,
    decreases cs.len(),
{
    if cs.len() > 0 {
        lemma_change_at_found(cs.skip(1), k);
        if cs[0].0 == k {
            assert(cs[0] == (k, cs[0].1));
        } else {
            if change_at(cs, k) is Some {
                let p = change_at(cs, k)->Some_0;
                let q = choose|q: int| 0 <= q < cs.skip(1).len() && cs.skip(1)[q] == (k, p);
                assert(cs[q + 1] == (k, p));
            } else {
                assert forall|i: int| 0 <= i < cs.len() implies (#[trigger] cs[i]).0 != k by {
                    if i > 0 {
                        assert(cs[i] == cs.skip(1)[i - 1]);
                    }
                }
            }
        }
    }
}

/// What comparing a job's deployed configuration with its configuration now
/// reports for each key, for objects with sorted keys:
/// - a key added with a non-null value is reported as changed from `null`
///   to the new value's compact text;
/// - a key whose value changed is reported with both values' compact text;
/// - a key removed is reported with its old value and `null`;
/// - a key with the same value before and now, a key in neither, and a key
///   added as `null` are not reported.
pub proof fn law_compare_reports_each_changed_key(o: Seq<(Seq<char>, JsonV)>, n: Seq<(Seq<char>, JsonV)>, k: Seq<char>)
    requires
        strictly_sorted(keys_of(o)),
        strictly_sorted(keys_of(n)),
    ensures
        ({
            let cs = json_changes(JsonV::Object(o), JsonV::Object(n));
            &&& (lookup(o, k) is None && lookup(n, k) is Some && lookup(n, k)->Some_0 != JsonV::Null) ==> cs.contains(
                (k, ("null"@, compact(lookup(n, k)->Some_0))),
            )
            &&& (lookup(o, k) is Some && lookup(n, k) is Some && lookup(o, k)->Some_0 != lookup(n, k)->Some_0) ==> cs.contains(
                (k, (compact(lookup(o, k)->Some_0), compact(lookup(n, k)->Some_0))),
            )
            &&& (lookup(o, k) is Some && lookup(n, k) is None) ==> cs.contains((k, (compact(lookup(o, k)->Some_0), "null"@)))
            &&& (lookup(o, k) == lookup(n, k) || (lookup(o, k) is None && lookup(n, k) == Some(JsonV::Null))) ==> forall|i: int|
                0 <= i < cs.len() ==> (#[trigger] cs[i]).0 != k
        }),
{
    law_changes_per_key(o, n, k);
    lemma_change_at_found(diff_entries(o, n), k);
}

/// An object compared with itself has no changes.
pub proof fn law_no_changes_against_itself(o: Seq<(Seq<char>, JsonV)>)
    ensures
        diff_entries(o, o) == Seq::<(Seq<char>, (Seq<char>, Seq<char>))>::empty(),
    decreases o.len(),
{
    if o.len() > 0 {
        lemma_lex_irreflexive(o[0].0);
        law_no_changes_against_itself(o.subrange(1, o.len() as int));
        assert(entry_for(o[0].0, change_of(Some(o[0].1), Some(o[0].1))) =~= Seq::<(Seq<char>, (Seq<char>, Seq<char>))>::empty());
        assert(diff_entries(o, o) =~= Seq::<(Seq<char>, (Seq<char>, Seq<char>))>::empty());
    }
}

} // verus!
