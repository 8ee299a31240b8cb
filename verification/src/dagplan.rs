//! Which DAGs are to be created, modified or deleted, and what changed in
//! a modified one.
use vstd::prelude::*;
use crate::diff::{change_of, change_view, changes_view, entry_for, insert_change, insert_change_exec, Change};
use crate::json::{compact, entries_view, get, get_member, json_eq, lemma_entries_view, to_compact, Json, JsonV};
use crate::plan::{diff_view, diffs_view, DiffKindV, DiffType, JobDiff, JobDiffV};
use crate::text::{join, joined, lex_lt, owned, str_eq, str_lt, views};

verus! {

/// A DAG of the project with the hash of its generated file.
pub struct ProposedDag {
    pub name: String,
    /// The DAG's Airflow settings as JSON.
    pub config: Json,
    /// Its tasks in order.
    pub tasks: Vec<String>,
    pub hash: String,
}

/// A DAG as it was last deployed.
pub struct DeployedDag {
    pub name: String,
    pub config: Json,
    pub tasks: Vec<String>,
    pub hash: String,
}

/// The changes of the keys of the new settings, in their order: a key
/// whose value differs from the old one (or is new and not null).
pub open spec fn key_changes(old: JsonV, n: Seq<(Seq<char>, JsonV)>) -> Seq<(Seq<char>, (Seq<char>, Seq<char>))>
    decreases n.len(),
{
    if n.len() == 0 {
        Seq::empty()
    } else {
        key_changes(old, n.drop_last()) + entry_for(n.last().0, change_of(get_member(old, n.last().0), Some(n.last().1)))
    }
}

/// What changed in a DAG: its settings' keys that are new or differ (keys
/// that are gone are not reported), and its task list, joined by commas,
/// under `tasks`.
pub open spec fn dag_changes(
    old_config: JsonV,
    new_config: JsonV,
    old_tasks: Seq<Seq<char>>,
    new_tasks: Seq<Seq<char>>,
) -> Seq<(Seq<char>, (Seq<char>, Seq<char>))> {
    let cs = match (old_config, new_config) {
        (JsonV::Object(_), JsonV::Object(n)) => key_changes(old_config, n),
        _ => Seq::empty(),
    };
    let a = joined(old_tasks, ","@);
    let b = joined(new_tasks, ","@);
    if a != b {
        insert_change(cs, ("tasks"@, (a, b)))
    } else {
        cs
    }
}

fn change_for_key(before_cfg: &Json, k: &String, v: &Json, out: &mut Vec<Change>)
    ensures
        changes_view(final(out)@) == changes_view(old(out)@) + entry_for(k@, change_of(get_member(before_cfg@, k@), Some(v@))),
{
    let ghost before = out@;
    match get(before_cfg, k.as_str()) {
        Some(x) => {
            if !json_eq(x, v) {
                let c: Change = (k.clone(), (to_compact(x), to_compact(v)));
                out.push(c);
                proof {
                    assert(out@ == before.push(c));
                    assert(changes_view(out@) =~= changes_view(before).push(change_view(c)));
                }
            } else {
                proof {
                    assert(changes_view(out@) =~= changes_view(before) + entry_for(k@, change_of(get_member(before_cfg@, k@), Some(v@))));
                }
            }
        },
        None => {
            let is_null = match v {
                Json::Null => true,
                _ => false,
            };
            if !is_null {
                let c: Change = (k.clone(), (owned("null"), to_compact(v)));
                out.push(c);
                proof {
                    assert(out@ == before.push(c));
                    assert(changes_view(out@) =~= changes_view(before).push(change_view(c)));
                }
            } else {
                proof {
                    assert(changes_view(out@) =~= changes_view(before) + entry_for(k@, change_of(get_member(before_cfg@, k@), Some(v@))));
                }
            }
        },
    }
}

/// What changed between a deployed DAG and the same DAG now.
pub fn compare_dag_config(old: &DeployedDag, new: &ProposedDag) -> (r: Vec<Change>)
    ensures
        changes_view(r@) == dag_changes(old.config@, new.config@, views(old.tasks@), views(new.tasks@)),
{
    let mut out: Vec<Change> = Vec::new();
    match (&old.config, &new.config) {
        (Json::Object(_), Json::Object(n)) => {
            let ghost nv = entries_view(n@, n@.len());
            let mut i: usize = 0;
            proof {
                lemma_entries_view(n@, n@.len());
            }
            while i < n.len()
                invariant
                    i <= n.len(),
                    new.config == Json::Object(*n),
                    changes_view(out@) == key_changes(old.config@, entries_view(n@, i as nat)),
                decreases n.len() - i,
            {
                change_for_key(&old.config, &n[i].0, &n[i].1, &mut out);
                proof {
                    assert(entries_view(n@, (i + 1) as nat).drop_last() =~= entries_view(n@, i as nat));
                }
                i = i + 1;
            }
        },
        _ => {},
    }
    let a = join(&old.tasks, ",");
    let b = join(&new.tasks, ",");
    if !str_eq(a.as_str(), b.as_str()) {
        let k = owned("tasks");
        let e: Change = (k, (a, b));
        out = insert_change_exec(out, e);
    }
    out
}

proof fn lemma_key_changes_has(old: JsonV, n: Seq<(Seq<char>, JsonV)>, i: int)
    requires
        0 <= i < n.len(),
        change_of(get_member(old, n[i].0), Some(n[i].1)) is Some,
    ensures
        key_changes(old, n).contains((n[i].0, change_of(get_member(old, n[i].0), Some(n[i].1))->Some_0)),
    decreases n.len(),
{
    let e = (n[i].0, change_of(get_member(old, n[i].0), Some(n[i].1))->Some_0);
    let before = key_changes(old, n.drop_last());
    let here = entry_for(n.last().0, change_of(get_member(old, n.last().0), Some(n.last().1)));
    assert(key_changes(old, n) == before + here);
    if i == n.len() - 1 {
        assert(here[0] == e);
        assert((before + here)[before.len() as int] == e);
    } else {
        assert(n.drop_last()[i] == n[i]);
        lemma_key_changes_has(old, n.drop_last(), i);
        let q = choose|q: int| 0 <= q < before.len() && before[q] == e;
        assert((before + here)[q] == e);
    }
}

proof fn lemma_insert_change_has(
    cs: Seq<(Seq<char>, (Seq<char>, Seq<char>))>,
    e: (Seq<char>, (Seq<char>, Seq<char>)),
    x: (Seq<char>, (Seq<char>, Seq<char>)),
)
    ensures
        insert_change(cs, e).contains(e),
        cs.contains(x) && x.0 != e.0 ==> insert_change(cs, e).contains(x),
    decreases cs.len(),
{
    let r = insert_change(cs, e);
    if cs.len() == 0 {
        assert(r[0] == e);
    } else if cs.last().0 == e.0 {
        assert(r == cs.drop_last().push(e));
        assert(r[r.len() - 1] == e);
        if cs.contains(x) && x.0 != e.0 {
            let q = choose|q: int| 0 <= q < cs.len() && cs[q] == x;
            assert(q < cs.len() - 1);
            assert(r[q] == x);
        }
    } else if lex_lt(cs.last().0, e.0) {
        assert(r == cs.push(e));
        assert(r[r.len() - 1] == e);
        if cs.contains(x) {
            let q = choose|q: int| 0 <= q < cs.len() && cs[q] == x;
            assert(r[q] == x);
        }
    } else {
        lemma_insert_change_has(cs.drop_last(), e, x);
        let m = insert_change(cs.drop_last(), e);
        assert(r == m.push(cs.last()));
        let p = choose|p: int| 0 <= p < m.len() && m[p] == e;
        assert(r[p] == e);
        if cs.contains(x) && x.0 != e.0 {
            let q = choose|q: int| 0 <= q < cs.len() && cs[q] == x;
            if q == cs.len() - 1 {
                assert(r[r.len() - 1] == x);
            } else {
                assert(cs.drop_last()[q] == x);
                let p2 = choose|p2: int| 0 <= p2 < m.len() && m[p2] == x;
                assert(r[p2] == x);
            }
        }
    }
}

/// What comparing a deployed DAG with the same DAG now reports: every
/// setting key (other than `tasks`) added with a non-null value, as a change
/// from `null` to the new value's compact text; every setting key whose
/// value changed, with both values' compact text; and the task list, joined
/// by commas, when it changed.
pub proof fn law_dag_changes_report_each_change(
    old: JsonV,
    n: Seq<(Seq<char>, JsonV)>,
    old_tasks: Seq<Seq<char>>,
    new_tasks: Seq<Seq<char>>,
    i: int,
)
    requires
        old is Object,
        0 <= i < n.len(),
        n[i].0 != "tasks"@,
    ensures
        ({
            let cs = dag_changes(old, JsonV::Object(n), old_tasks, new_tasks);
            &&& (get_member(old, n[i].0) is None && n[i].1 != JsonV::Null) ==> cs.contains(
                (n[i].0, ("null"@, compact(n[i].1))),
            )
            &&& (get_member(old, n[i].0) is Some && get_member(old, n[i].0)->Some_0 != n[i].1) ==> cs.contains(
                (n[i].0, (compact(get_member(old, n[i].0)->Some_0), compact(n[i].1))),
            )
            &&& joined(old_tasks, ","@) != joined(new_tasks, ","@) ==> cs.contains(
                ("tasks"@, (joined(old_tasks, ","@), joined(new_tasks, ","@))),
            )
        }),
{
    let kc = key_changes(old, n);
    let t = ("tasks"@, (joined(old_tasks, ","@), joined(new_tasks, ","@)));
    if change_of(get_member(old, n[i].0), Some(n[i].1)) is Some {
        lemma_key_changes_has(old, n, i);
        let x = (n[i].0, change_of(get_member(old, n[i].0), Some(n[i].1))->Some_0);
        lemma_insert_change_has(kc, t, x);
    } else {
        lemma_insert_change_has(kc, t, t);
    }
}

/// The deployed DAG of that name, found from the end of the list.
pub open spec fn deployed_dag_named(ds: Seq<DeployedDag>, n: Seq<char>) -> Option<DeployedDag>
    decreases ds.len(),
{
    if ds.len() == 0 {
        None
    } else if ds.last().name@ == n {
        Some(ds.last())
    } else {
        deployed_dag_named(ds.drop_last(), n)
    }
}

/// The plan entry of a DAG of the project.
pub open spec fn dag_entry(d: ProposedDag, ds: Seq<DeployedDag>) -> Seq<JobDiffV> {
    match deployed_dag_named(ds, d.name@) {
        Some(x) => if x.hash@ != d.hash@ {
            seq![
                JobDiffV {
                    name: d.name@,
                    kind: DiffKindV::Modify(dag_changes(x.config@, d.config@, views(x.tasks@), views(d.tasks@))),
                    old_hash: Some(x.hash@),
                    new_hash: Some(d.hash@),
                },
            ]
        } else {
            Seq::empty()
        },
        None => seq![JobDiffV { name: d.name@, kind: DiffKindV::Create, old_hash: None, new_hash: Some(d.hash@) }],
    }
}

pub open spec fn dag_entries(dags: Seq<ProposedDag>, ds: Seq<DeployedDag>) -> Seq<JobDiffV>
    decreases dags.len(),
{
    if dags.len() == 0 {
        Seq::empty()
    } else {
        dag_entries(dags.drop_last(), ds) + dag_entry(dags.last(), ds)
    }
}

pub open spec fn has_dag_named(dags: Seq<ProposedDag>, n: Seq<char>) -> bool {
    exists|i: int| 0 <= i < dags.len() && (#[trigger] dags[i]).name@ == n
}

/// Deployed DAGs the project no longer has, in the order given.
pub open spec fn dag_deletes(ds: Seq<DeployedDag>, dags: Seq<ProposedDag>) -> Seq<JobDiffV>
    decreases ds.len(),
{
    if ds.len() == 0 {
        Seq::empty()
    } else {
        dag_deletes(ds.drop_last(), dags) + if has_dag_named(dags, ds.last().name@) {
            Seq::empty()
        } else {
            seq![JobDiffV { name: ds.last().name@, kind: DiffKindV::Delete, old_hash: Some(ds.last().hash@), new_hash: None }]
        }
    }
}

fn find_deployed_dag(ds: &Vec<DeployedDag>, n: &str) -> (r: Option<usize>)
    ensures
        match r {
            Some(i) => i < ds@.len() && deployed_dag_named(ds@, n@) == Some(ds@[i as int]),
            None => deployed_dag_named(ds@, n@) is None,
        },
{
    let mut k: usize = ds.len();
    proof {
        assert(ds@.take(ds@.len() as int) =~= ds@);
    }
    while k > 0
        invariant
            k <= ds.len(),
            deployed_dag_named(ds@, n@) == deployed_dag_named(ds@.take(k as int), n@),
        decreases k,
    {
        proof {
            assert(ds@.take(k as int).drop_last() =~= ds@.take(k - 1));
            assert(ds@.take(k as int).last() == ds@[k - 1]);
        }
        if str_eq(ds[k - 1].name.as_str(), n) {
            return Some(k - 1);
        }
        k = k - 1;
    }
    None
}

fn has_dag(dags: &Vec<ProposedDag>, n: &str) -> (r: bool)
    ensures
        r == has_dag_named(dags@, n@),
{
    let mut i: usize = 0;
    while i < dags.len()
        invariant
            i <= dags.len(),
            forall|k: int| 0 <= k < i ==> dags@[k].name@ != n@,
        decreases dags.len() - i,
    {
        if str_eq(dags[i].name.as_str(), n) {
            proof {
                assert(dags@[i as int].name@ == n@);
            }
            return true;
        }
        i = i + 1;
    }
    false
}

/// The plan of the DAGs against what is deployed: each DAG of the project
/// in order (created, or modified when its hash changed), then each
/// deployed DAG the project no longer has.
pub fn dag_diffs(dags: &Vec<ProposedDag>, deployed: &Vec<DeployedDag>) -> (r: Vec<JobDiff>)
    ensures
        diffs_view(r@) == dag_entries(dags@, deployed@) + dag_deletes(deployed@, dags@),
{
    let mut out: Vec<JobDiff> = Vec::new();
    let mut i: usize = 0;
    while i < dags.len()
        invariant
            i <= dags.len(),
            diffs_view(out@) == dag_entries(dags@.take(i as int), deployed@),
        decreases dags.len() - i,
    {
        let d = &dags[i];
        let ghost before = out@;
        match find_deployed_dag(deployed, d.name.as_str()) {
            Some(k) => {
                let x = &deployed[k];
                if !str_eq(x.hash.as_str(), d.hash.as_str()) {
                    let e = JobDiff {
                        name: d.name.clone(),
                        diff_type: DiffType::Modify { changes: compare_dag_config(x, d) },
                        old_hash: Some(x.hash.clone()),
                        new_hash: Some(d.hash.clone()),
                    };
                    out.push(e);
                    proof {
                        assert(diffs_view(out@) =~= diffs_view(before).push(diff_view(e)));
                    }
                } else {
                    proof {
                        assert(dag_entry(*d, deployed@) =~= Seq::<JobDiffV>::empty());
                        assert(diffs_view(out@) =~= diffs_view(before) + dag_entry(*d, deployed@));
                    }
                }
            },
            None => {
                let e = JobDiff { name: d.name.clone(), diff_type: DiffType::Create, old_hash: None, new_hash: Some(d.hash.clone()) };
                out.push(e);
                proof {
                    assert(diffs_view(out@) =~= diffs_view(before).push(diff_view(e)));
                }
            },
        }
        proof {
            assert(dags@.take(i + 1).drop_last() =~= dags@.take(i as int));
            assert(dags@.take(i + 1).last() == dags@[i as int]);
        }
        i = i + 1;
    }
    proof {
        assert(dags@.take(dags@.len() as int) =~= dags@);
    }
    let ghost head = diffs_view(out@);
    let mut j: usize = 0;
    while j < deployed.len()
        invariant
            j <= deployed.len(),
            diffs_view(out@) == head + dag_deletes(deployed@.take(j as int), dags@),
        decreases deployed.len() - j,
    {
        let x = &deployed[j];
        let ghost before = out@;
        if !has_dag(dags, x.name.as_str()) {
            let e = JobDiff { name: x.name.clone(), diff_type: DiffType::Delete, old_hash: Some(x.hash.clone()), new_hash: None };
            out.push(e);
            proof {
                assert(diffs_view(out@) =~= diffs_view(before).push(diff_view(e)));
            }
        }
        proof {
            assert(deployed@.take(j + 1).drop_last() =~= deployed@.take(j as int));
            assert(deployed@.take(j + 1).last() == deployed@[j as int]);
            assert(diffs_view(out@) =~= head + dag_deletes(deployed@.take(j + 1), dags@));
        }
        j = j + 1;
    }
    proof {
        assert(deployed@.take(deployed@.len() as int) =~= deployed@);
    }
    out
}

} // verus!
