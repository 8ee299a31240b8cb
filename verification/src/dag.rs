//! Grouping jobs into Airflow DAGs: which DAG directory a job belongs to,
//! how its `depends_on` names resolve to tasks of the same DAG, which task
//! may carry DAG-level overrides, and what each DAG is called.
//!
//! A path is held as its components (`["/", "projects", "orders"]`).
use vstd::prelude::*;
use crate::airflow::{AirflowJobBlock, AirflowSection};
use crate::text::{join, joined, owned, push_str, sanitized, sanitize_identifier, sorted_set, str_eq, strictly_sorted, views};

verus! {

// ------------------------------------------------------------------
// Paths
// ------------------------------------------------------------------

/// `p` starts with the components of `a`.
pub open spec fn path_starts_with(p: Seq<Seq<char>>, a: Seq<Seq<char>>) -> bool {
    a.len() <= p.len() && p.take(a.len() as int) == a
}

/// `ancestor` is a proper ancestor of `descendant`.
pub open spec fn strict_ancestor(ancestor: Seq<Seq<char>>, descendant: Seq<Seq<char>>) -> bool {
    descendant != ancestor && path_starts_with(descendant, ancestor)
}

pub fn same_components(a: &Vec<String>, b: &Vec<String>) -> (r: bool)
    ensures
        r == (views(a@) == views(b@)),
{
    if a.len() != b.len() {
        proof {
            assert(views(a@).len() != views(b@).len());
        }
        return false;
    }
    let mut i: usize = 0;
    while i < a.len()
        invariant
            a.len() == b.len(),
            i <= a.len(),
            forall|k: int| 0 <= k < i ==> a@[k]@ == b@[k]@,
        decreases a.len() - i,
    {
        if !str_eq(a[i].as_str(), b[i].as_str()) {
            proof {
                assert(views(a@)[i as int] != views(b@)[i as int]);
            }
            return false;
        }
        i = i + 1;
    }
    proof {
        assert(views(a@) =~= views(b@));
    }
    true
}

fn path_has_prefix(p: &Vec<String>, a: &Vec<String>) -> (r: bool)
    ensures
        r == path_starts_with(views(p@), views(a@)),
{
    if a.len() > p.len() {
        return false;
    }
    let mut i: usize = 0;
    while i < a.len()
        invariant
            a.len() <= p.len(),
            i <= a.len(),
            forall|k: int| 0 <= k < i ==> p@[k]@ == a@[k]@,
        decreases a.len() - i,
    {
        if !str_eq(p[i].as_str(), a[i].as_str()) {
            proof {
                assert(views(p@).take(a.len() as int)[i as int] != views(a@)[i as int]);
            }
            return false;
        }
        i = i + 1;
    }
    proof {
        assert(views(p@).take(a.len() as int) =~= views(a@));
    }
    true
}

/// Whether `ancestor` lies strictly above `descendant`.
pub fn is_strict_ancestor(ancestor: &Vec<String>, descendant: &Vec<String>) -> (r: bool)
    ensures
        r == strict_ancestor(views(ancestor@), views(descendant@)),
{
    !same_components(descendant, ancestor) && path_has_prefix(descendant, ancestor)
}

/// The shortest prefix of `p` that `PathBuf::pop` reaches: the root
/// component when the path is absolute, the empty path otherwise.
pub open spec fn min_prefix(p: Seq<Seq<char>>) -> int {
    if p.len() > 0 && p[0] == "/"@ {
        1
    } else {
        0
    }
}

/// The paths `set` holds.
pub open spec fn holds_path(set: Seq<Vec<String>>, p: Seq<Seq<char>>) -> bool {
    exists|i: int| 0 <= i < set.len() && views(#[trigger] set[i]@) == p
}

/// The longest prefix of `start` (`start` itself first, then its parent and
/// so on up to its root) that `set` holds, as a prefix length.
pub open spec fn nearest_len(start: Seq<Seq<char>>, set: Seq<Vec<String>>, len: int) -> Option<int>
    decreases len,
{
    if len < min_prefix(start) || len > start.len() {
        None
    } else if holds_path(set, start.take(len)) {
        Some(len)
    } else if len == min_prefix(start) {
        None
    } else {
        nearest_len(start, set, len - 1)
    }
}

fn set_holds(set: &Vec<Vec<String>>, p: &Vec<String>) -> (r: bool)
    ensures
        r == holds_path(set@, views(p@)),
{
    let mut i: usize = 0;
    while i < set.len()
        invariant
            i <= set.len(),
            forall|k: int| 0 <= k < i ==> views(#[trigger] set@[k]@) != views(p@),
        decreases set.len() - i,
    {
        if same_components(&set[i], p) {
            return true;
        }
        i = i + 1;
    }
    false
}

/// The nearest directory at or above `start` that `set` holds: `start`,
/// then its parent, and so on up to the root.
pub fn nearest_ancestor_in(start: &Vec<String>, set: &Vec<Vec<String>>) -> (r: Option<Vec<String>>)
    ensures
        match nearest_len(views(start@), set@, start@.len() as int) {
            Some(n) => r matches Some(p) && views(p@) == views(start@).take(n),
            None => r is None,
        },
{
    let ghost s = views(start@);
    let mut current: Vec<String> = start.clone();
    proof {
        assert(views(current@) =~= s.take(s.len() as int));
    }
    let floor: usize = if start.len() > 0 && str_eq(start[0].as_str(), "/") {
        1
    } else {
        0
    };
    proof {
        reveal_strlit("/");
        if start.len() > 0 {
            assert(s[0] == start@[0]@);
        }
    }
    loop
        invariant
            s == views(start@),
            floor == min_prefix(s),
            floor <= current.len() <= start.len(),
            views(current@) == s.take(current.len() as int),
            nearest_len(s, set@, start@.len() as int) == nearest_len(s, set@, current.len() as int),
        decreases current.len(),
    {
        if set_holds(set, &current) {
            return Some(current);
        }
        if current.len() == floor {
            return None;
        }
        let _ = current.pop();
        proof {
            assert(views(current@) =~= s.take(current.len() as int));
        }
    }
}

// ------------------------------------------------------------------
// Jobs of a DAG
// ------------------------------------------------------------------

/// A job as DAG grouping sees it.
pub struct DagJob {
    /// Full job name (with any path-derived prefix).
    pub name: String,
    /// The name the job file declares, before prefixing.
    pub base_name: String,
    /// The directory the job file lives in.
    pub dir: Vec<String>,
    pub airflow: Option<AirflowJobBlock>,
}

pub open spec fn job_names(jobs: Seq<DagJob>) -> Seq<Seq<char>> {
    jobs.map_values(|j: DagJob| j.name@)
}

/// Whether a section sets any field that belongs to the whole DAG.
pub open spec fn dag_level(s: AirflowSection) -> bool {
    s.schedule is Some || s.owner is Some || s.retries is Some || s.dags_bucket is Some
        || s.dags_prefix is Some
}

/// Whether a section sets schedule, owner, retries, dags_bucket or dags_prefix.
pub fn section_has_dag_level_fields(s: &AirflowSection) -> (r: bool)
    ensures
        r == dag_level(*s),
{
    s.schedule.is_some() || s.owner.is_some() || s.retries.is_some() || s.dags_bucket.is_some()
        || s.dags_prefix.is_some()
}

pub open spec fn overrides_dag_level(j: DagJob) -> bool {
    j.airflow matches Some(b) && dag_level(b.overrides)
}

/// The names of the jobs that override DAG-level fields, in order.
pub open spec fn overriding(jobs: Seq<DagJob>) -> Seq<Seq<char>>
    decreases jobs.len(),
{
    if jobs.len() == 0 {
        Seq::empty()
    } else if overrides_dag_level(jobs.last()) {
        overriding(jobs.drop_last()).push(jobs.last().name@)
    } else {
        overriding(jobs.drop_last())
    }
}

/// At most one task of a DAG may declare DAG-level overrides. The error
/// names the first two that do.
pub fn enforce_single_dag_level_override(jobs: &Vec<DagJob>) -> (r: Result<(), (String, String)>)
    ensures
        match r {
            Ok(()) => overriding(jobs@).len() <= 1,
            Err((a, b)) => overriding(jobs@).len() >= 2 && a@ == overriding(jobs@)[0] && b@ == overriding(jobs@)[1],
        },
{
    let mut seen: Option<String> = None;
    let mut i: usize = 0;
    while i < jobs.len()
        invariant
            i <= jobs.len(),
            overriding(jobs@.take(i as int)).len() <= 1,
            match seen {
                Some(x) => overriding(jobs@.take(i as int)).len() == 1 && x@ == overriding(jobs@.take(i as int))[0],
                None => overriding(jobs@.take(i as int)).len() == 0,
            },
        decreases jobs.len() - i,
    {
        proof {
            assert(jobs@.take(i + 1).drop_last() =~= jobs@.take(i as int));
            assert(jobs@.take(i + 1).last() == jobs@[i as int]);
        }
        let flagged = match &jobs[i].airflow {
            Some(b) => section_has_dag_level_fields(&b.overrides),
            None => false,
        };
        if flagged {
            match &seen {
                Some(prev) => {
                    proof {
                        lemma_overriding_prefix(jobs@, i as int + 1, jobs@.len() as int);
                        assert(jobs@.take(jobs@.len() as int) =~= jobs@);
                    }
                    return Err((prev.clone(), jobs[i].name.clone()));
                },
                None => {},
            }
            seen = Some(jobs[i].name.clone());
        }
        i = i + 1;
    }
    proof {
        assert(jobs@.take(jobs@.len() as int) =~= jobs@);
    }
    Ok(())
}

proof fn lemma_overriding_prefix(jobs: Seq<DagJob>, i: int, j: int)
    requires
        0 <= i <= j <= jobs.len(),
    ensures
        overriding(jobs.take(i)).len() <= overriding(jobs.take(j)).len(),
        forall|k: int| 0 <= k < overriding(jobs.take(i)).len() ==> #[trigger] overriding(jobs.take(j))[k] == overriding(jobs.take(i))[k],
    decreases j - i,
{
    if i < j {
        lemma_overriding_prefix(jobs, i, j - 1);
        assert(jobs.take(j).drop_last() =~= jobs.take(j - 1));
    }
}

// ------------------------------------------------------------------
// Resolving depends_on
// ------------------------------------------------------------------

/// A job reachable by its short name: it has one, and it differs from the
/// full name.
pub open spec fn has_short_name(j: DagJob) -> bool {
    j.base_name@.len() > 0 && j.base_name@ != j.name@
}

/// The full names of the jobs whose short name is `short`, in job order.
pub open spec fn short_matches(jobs: Seq<DagJob>, short: Seq<char>) -> Seq<Seq<char>>
    decreases jobs.len(),
{
    if jobs.len() == 0 {
        Seq::empty()
    } else if has_short_name(jobs.last()) && jobs.last().base_name@ == short {
        short_matches(jobs.drop_last(), short).push(jobs.last().name@)
    } else {
        short_matches(jobs.drop_last(), short)
    }
}

/// The entry of `index` under `key`.
pub open spec fn index_get(index: Seq<(String, Vec<String>)>, key: Seq<char>) -> Option<Seq<Seq<char>>>
    decreases index.len(),
{
    if index.len() == 0 {
        None
    } else if index[0].0@ == key {
        Some(views(index[0].1@))
    } else {
        index_get(index.skip(1), key)
    }
}

/// An index from short name to the full names that carry it.
pub open spec fn indexes(index: Seq<(String, Vec<String>)>, jobs: Seq<DagJob>) -> bool {
    forall|k: Seq<char>| #[trigger] index_get(index, k) == if short_matches(jobs, k).len() > 0 {
        Some(short_matches(jobs, k))
    } else {
        None
    }
}

proof fn lemma_index_get_push(index: Seq<(String, Vec<String>)>, e: (String, Vec<String>), k: Seq<char>)
    ensures
        index_get(index.push(e), k) == match index_get(index, k) {
            Some(v) => Some(v),
            None => if e.0@ == k {
                Some(views(e.1@))
            } else {
                None
            },
        },
    decreases index.len(),
{
    assert(index.push(e)[index.len() as int] == e);
    if index.len() > 0 {
        assert(index.push(e)[0] == index[0]);
        assert(index.push(e).skip(1) =~= index.skip(1).push(e));
        lemma_index_get_push(index.skip(1), e, k);
    } else {
        assert(index.push(e)[0] == e);
        assert(index.push(e).skip(1) =~= Seq::<(String, Vec<String>)>::empty());
        assert(index_get(Seq::<(String, Vec<String>)>::empty(), k) is None);
        assert(index_get(index, k) is None);
    }
}

proof fn lemma_index_get_update(index: Seq<(String, Vec<String>)>, p: int, e: (String, Vec<String>), k: Seq<char>)
    requires
        0 <= p < index.len(),
        e.0@ == index[p].0@,
        forall|q: int| 0 <= q < p ==> #[trigger] index[q].0@ != index[p].0@,
    ensures
        index_get(index.update(p, e), k) == if k == e.0@ {
            Some(views(e.1@))
        } else {
            index_get(index, k)
        },
    decreases index.len(),
{
    if p > 0 {
        assert(index.update(p, e).skip(1) =~= index.skip(1).update(p - 1, e));
        assert forall|q: int| 0 <= q < p - 1 implies #[trigger] index.skip(1)[q].0@ != index.skip(1)[p - 1].0@ by {
            assert(index[q + 1].0@ != index[p].0@);
        }
        lemma_index_get_update(index.skip(1), p - 1, e, k);
    } else {
        assert(index.update(p, e).skip(1) =~= index.skip(1));
    }
}

proof fn lemma_index_get_found(index: Seq<(String, Vec<String>)>, k: Seq<char>) -> (p: int)
    requires
        index_get(index, k) is Some,
    ensures
        0 <= p < index.len(),
        index[p].0@ == k,
        index_get(index, k) == Some(views(index[p].1@)),
        forall|q: int| 0 <= q < p ==> #[trigger] index[q].0@ != k,
    decreases index.len(),
{
    if index[0].0@ == k {
        0
    } else {
        let p = lemma_index_get_found(index.skip(1), k);
        assert forall|q: int| 0 <= q < p + 1 implies #[trigger] index[q].0@ != k by {
            if q > 0 {
                assert(index[q] == index.skip(1)[q - 1]);
            }
        }
        p + 1
    }
}

proof fn lemma_index_get_at(index: Seq<(String, Vec<String>)>, p: int, k: Seq<char>)
    requires
        0 <= p < index.len(),
        index[p].0@ == k,
        forall|q: int| 0 <= q < p ==> #[trigger] index[q].0@ != k,
    ensures
        index_get(index, k) == Some(views(index[p].1@)),
    decreases p,
{
    if p > 0 {
        assert forall|q: int| 0 <= q < p - 1 implies #[trigger] index.skip(1)[q].0@ != k by {
            assert(index[q + 1].0@ != k);
        }
        lemma_index_get_at(index.skip(1), p - 1, k);
    }
}

fn index_position(index: &Vec<(String, Vec<String>)>, key: &str) -> (r: Option<usize>)
    ensures
        match r {
            Some(p) => p < index.len() && index@[p as int].0@ == key@ && forall|q: int| 0 <= q < p ==> #[trigger] index@[q].0@ != key@,
            None => index_get(index@, key@) is None,
        },
{
    let mut i: usize = 0;
    while i < index.len()
        invariant
            i <= index.len(),
            forall|q: int| 0 <= q < i ==> #[trigger] index@[q].0@ != key@,
        decreases index.len() - i,
    {
        if str_eq(index[i].0.as_str(), key) {
            return Some(i);
        }
        i = i + 1;
    }
    proof {
        if index_get(index@, key@) is Some {
            let p = lemma_index_get_found(index@, key@);
            assert(index@[p].0@ != key@);
        }
    }
    None
}

/// Map each short name to the full names of the DAG's jobs that carry it.
/// Only jobs whose short name is set and differs from the full name are
/// indexed.
pub fn build_short_name_index(jobs: &Vec<DagJob>) -> (r: Vec<(String, Vec<String>)>)
    ensures
        indexes(r@, jobs@),
{
    let mut index: Vec<(String, Vec<String>)> = Vec::new();
    let mut i: usize = 0;
    while i < jobs.len()
        invariant
            i <= jobs.len(),
            indexes(index@, jobs@.take(i as int)),
        decreases jobs.len() - i,
    {
        let ghost before = index@;
        proof {
            assert(jobs@.take(i + 1).drop_last() =~= jobs@.take(i as int));
            assert(jobs@.take(i + 1).last() == jobs@[i as int]);
        }
        let j = &jobs[i];
        let qualifies = j.base_name.unicode_len() > 0 && !str_eq(j.base_name.as_str(), j.name.as_str());
        if qualifies {
            match index_position(&index, j.base_name.as_str()) {
                Some(p) => {
                    let mut names = index[p].1.clone();
                    names.push(j.name.clone());
                    let key = index[p].0.clone();
                    let ghost e = (key, names);
                    index.set(p, (key, names));
                    proof {
                        assert(index@ == before.update(p as int, e));
                        assert forall|k: Seq<char>| #[trigger] index_get(index@, k) == if short_matches(jobs@.take(i + 1), k).len() > 0 {
                            Some(short_matches(jobs@.take(i + 1), k))
                        } else {
                            None
                        } by {
                            lemma_index_get_update(before, p as int, e, k);
                            assert(index_get(before, k) == if short_matches(jobs@.take(i as int), k).len() > 0 {
                                Some(short_matches(jobs@.take(i as int), k))
                            } else {
                                None
                            });
                            if k == e.0@ {
                                lemma_index_get_at(before, p as int, k);
                                assert(views(e.1@) =~= views(before[p as int].1@).push(j.name@));
                            }
                        }
                    }
                },
                None => {
                    let mut names: Vec<String> = Vec::new();
                    names.push(j.name.clone());
                    let key = j.base_name.clone();
                    let ghost e = (key, names);
                    index.push((key, names));
                    proof {
                        assert forall|k: Seq<char>| #[trigger] index_get(index@, k) == if short_matches(jobs@.take(i + 1), k).len() > 0 {
                            Some(short_matches(jobs@.take(i + 1), k))
                        } else {
                            None
                        } by {
                            lemma_index_get_push(before, e, k);
                            assert(index_get(before, k) == if short_matches(jobs@.take(i as int), k).len() > 0 {
                                Some(short_matches(jobs@.take(i as int), k))
                            } else {
                                None
                            });
                            if k == e.0@ {
                                assert(short_matches(jobs@.take(i as int), k).len() == 0);
                                assert(views(e.1@) =~= seq![j.name@]);
                                assert(short_matches(jobs@.take(i + 1), k) =~= seq![j.name@]);
                            }
                        }
                    }
                },
            }
        } else {
            proof {
                assert forall|k: Seq<char>| #[trigger] index_get(index@, k) == if short_matches(jobs@.take(i + 1), k).len() > 0 {
                    Some(short_matches(jobs@.take(i + 1), k))
                } else {
                    None
                } by {
                    assert(index_get(before, k) == if short_matches(jobs@.take(i as int), k).len() > 0 {
                        Some(short_matches(jobs@.take(i as int), k))
                    } else {
                        None
                    });
                }
            }
        }
        i = i + 1;
    }
    proof {
        assert(jobs@.take(jobs@.len() as int) =~= jobs@);
    }
    index
}

/// Why a `depends_on` entry does not name a task of the DAG.
pub enum DepError {
    /// The task names itself.
    SelfDependency,
    /// The short name resolves to the task itself.
    SelfViaShortName,
    /// No task of the DAG has this name.
    NotInDag,
    /// The short name matches several tasks of the DAG (listed).
    Ambiguous(Vec<String>),
    /// The name is a job of another DAG.
    CrossDag,
}

/// [`DepError`] with its names as text.
pub enum DepFailure {
    SelfDependency,
    SelfViaShortName,
    NotInDag,
    Ambiguous(Seq<Seq<char>>),
    CrossDag,
}

impl View for DepError {
    type V = DepFailure;

    open spec fn view(&self) -> DepFailure {
        match *self {
            DepError::SelfDependency => DepFailure::SelfDependency,
            DepError::SelfViaShortName => DepFailure::SelfViaShortName,
            DepError::NotInDag => DepFailure::NotInDag,
            DepError::Ambiguous(m) => DepFailure::Ambiguous(views(m@)),
            DepError::CrossDag => DepFailure::CrossDag,
        }
    }
}

/// The names of `ms` that are tasks of the DAG, in order.
pub open spec fn in_dag(ms: Seq<Seq<char>>, ids: Seq<Seq<char>>) -> Seq<Seq<char>>
    decreases ms.len(),
{
    if ms.len() == 0 {
        Seq::empty()
    } else if ids.contains(ms.last()) {
        in_dag(ms.drop_last(), ids).push(ms.last())
    } else {
        in_dag(ms.drop_last(), ids)
    }
}

/// The full names carrying short name `short`, if any.
pub open spec fn short_lookup(jobs: Seq<DagJob>, short: Seq<char>) -> Option<Seq<Seq<char>>> {
    if short_matches(jobs, short).len() > 0 {
        Some(short_matches(jobs, short))
    } else {
        None
    }
}

/// What `dep`, listed in `depends_on` of `task`, names: a task of the DAG
/// (`ids`) by full name, or by a short name that one task of the DAG alone
/// carries (`found`: the full names carrying `dep` as short name).
/// `all_jobs` are the jobs of the whole project.
pub open spec fn dep_resolution(
    dep: Seq<char>,
    task: Seq<char>,
    ids: Seq<Seq<char>>,
    found: Option<Seq<Seq<char>>>,
    all_jobs: Seq<Seq<char>>,
) -> Result<Seq<char>, DepFailure> {
    if dep == task {
        Err(DepFailure::SelfDependency)
    } else if ids.contains(dep) {
        Ok(dep)
    } else {
        match found {
            Some(ms) => {
                let f = in_dag(ms, ids);
                if f.len() == 1 {
                    if f[0] == task {
                        Err(DepFailure::SelfViaShortName)
                    } else {
                        Ok(f[0])
                    }
                } else if f.len() == 0 {
                    Err(DepFailure::NotInDag)
                } else {
                    Err(DepFailure::Ambiguous(f))
                }
            },
            None => if all_jobs.contains(dep) {
                Err(DepFailure::CrossDag)
            } else {
                Err(DepFailure::NotInDag)
            },
        }
    }
}

fn contains_name(v: &Vec<String>, x: &str) -> (r: bool)
    ensures
        r == views(v@).contains(x@),
{
    let mut i: usize = 0;
    while i < v.len()
        invariant
            i <= v.len(),
            forall|k: int| 0 <= k < i ==> v@[k]@ != x@,
        decreases v.len() - i,
    {
        if str_eq(v[i].as_str(), x) {
            proof {
                assert(views(v@)[i as int] == x@);
            }
            return true;
        }
        i = i + 1;
    }
    proof {
        if views(v@).contains(x@) {
            let k = choose|k: int| 0 <= k < views(v@).len() && #[trigger] views(v@)[k] == x@;
            assert(v@[k]@ == x@);
        }
    }
    false
}

/// Resolve one `depends_on` entry of `task_name` to the full name of a task
/// of the DAG (`task_ids`), through the short-name `index` when it is no
/// full name; `all_jobs` are all jobs of the project.
pub fn resolve_dep(
    dep: &str,
    task_name: &str,
    task_ids: &Vec<String>,
    index: &Vec<(String, Vec<String>)>,
    all_jobs: &Vec<String>,
) -> (r: Result<String, DepError>)
    ensures
        match (r, dep_resolution(dep@, task_name@, views(task_ids@), index_get(index@, dep@), views(all_jobs@))) {
            (Ok(x), Ok(y)) => x@ == y,
            (Err(e), Err(f)) => e@ == f,
            _ => false,
        },
{
    if str_eq(dep, task_name) {
        return Err(DepError::SelfDependency);
    }
    if contains_name(task_ids, dep) {
        return Ok(owned(dep));
    }
    match index_position(index, dep) {
        Some(p) => {
            proof {
                lemma_index_get_at(index@, p as int, dep@);
            }
            let ms = &index[p].1;
            let mut f: Vec<String> = Vec::new();
            let mut i: usize = 0;
            while i < ms.len()
                invariant
                    i <= ms.len(),
                    views(f@) == in_dag(views(ms@).take(i as int), views(task_ids@)),
                decreases ms.len() - i,
            {
                proof {
                    assert(views(ms@).take(i + 1).drop_last() =~= views(ms@).take(i as int));
                    assert(views(ms@).take(i + 1).last() == ms@[i as int]@);
                }
                if contains_name(task_ids, ms[i].as_str()) {
                    f.push(ms[i].clone());
                    proof {
                        assert(views(f@) =~= in_dag(views(ms@).take(i as int), views(task_ids@)).push(ms@[i as int]@));
                    }
                }
                i = i + 1;
            }
            proof {
                assert(views(ms@).take(ms.len() as int) =~= views(ms@));
            }
            if f.len() == 1 {
                proof {
                    assert(views(f@)[0] == f@[0]@);
                }
                if str_eq(f[0].as_str(), task_name) {
                    Err(DepError::SelfViaShortName)
                } else {
                    Ok(f[0].clone())
                }
            } else if f.len() == 0 {
                Err(DepError::NotInDag)
            } else {
                Err(DepError::Ambiguous(f))
            }
        },
        None => {
            if contains_name(all_jobs, dep) {
                Err(DepError::CrossDag)
            } else {
                Err(DepError::NotInDag)
            }
        },
    }
}

/// The message of a failed `depends_on` entry `dep` of `task`, in the DAG
/// whose directory displays as `dag_dir`.
pub open spec fn dep_error_text(e: DepFailure, task: Seq<char>, dag_dir: Seq<char>, dep: Seq<char>) -> Seq<char> {
    let head = "task '"@ + task + "' in DAG at '"@ + dag_dir + "' "@;
    match e {
        DepFailure::SelfDependency => head + "depends on itself"@,
        DepFailure::SelfViaShortName => head + "depends on itself (via short name '"@ + dep + "')"@,
        DepFailure::NotInDag => head + "depends_on '"@ + dep + "', which is not a task in this DAG"@,
        DepFailure::Ambiguous(m) => head + "depends_on '"@ + dep + "' which is ambiguous \u{2014} matches: "@
            + joined(m, ", "@) + ". Use the full name to disambiguate."@,
        DepFailure::CrossDag => head + "has cross-DAG depends_on '"@ + dep
            + "' \u{2014} cross-DAG dependencies are not supported"@,
    }
}

impl DepError {
    /// The message for this failure of entry `dep` of `task` in the DAG at
    /// `dag_dir`.
    pub fn message(&self, task: &str, dag_dir: &str, dep: &str) -> (m: String)
        ensures
            m@ == dep_error_text(self@, task@, dag_dir@, dep@),
    {
        let mut m = owned("task '");
        push_str(&mut m, task);
        push_str(&mut m, "' in DAG at '");
        push_str(&mut m, dag_dir);
        push_str(&mut m, "' ");
        match self {
            DepError::SelfDependency => {
                push_str(&mut m, "depends on itself");
            },
            DepError::SelfViaShortName => {
                push_str(&mut m, "depends on itself (via short name '");
                push_str(&mut m, dep);
                push_str(&mut m, "')");
            },
            DepError::NotInDag => {
                push_str(&mut m, "depends_on '");
                push_str(&mut m, dep);
                push_str(&mut m, "', which is not a task in this DAG");
            },
            DepError::Ambiguous(v) => {
                push_str(&mut m, "depends_on '");
                push_str(&mut m, dep);
                push_str(&mut m, "' which is ambiguous \u{2014} matches: ");
                let listed = join(v, ", ");
                push_str(&mut m, listed.as_str());
                push_str(&mut m, ". Use the full name to disambiguate.");
            },
            DepError::CrossDag => {
                push_str(&mut m, "has cross-DAG depends_on '");
                push_str(&mut m, dep);
                push_str(&mut m, "' \u{2014} cross-DAG dependencies are not supported");
            },
        }
        proof {
            assert(m@ =~= dep_error_text(self@, task@, dag_dir@, dep@));
        }
        m
    }
}

/// The resolutions of a list of `depends_on` entries, stopping at the first
/// failing entry (returned with its failure).
pub open spec fn resolve_list(
    deps: Seq<Seq<char>>,
    task: Seq<char>,
    ids: Seq<Seq<char>>,
    jobs: Seq<DagJob>,
    all_jobs: Seq<Seq<char>>,
) -> Result<Seq<Seq<char>>, (Seq<char>, DepFailure)>
    decreases deps.len(),
{
    if deps.len() == 0 {
        Ok(Seq::empty())
    } else {
        match resolve_list(deps.drop_last(), task, ids, jobs, all_jobs) {
            Err(e) => Err(e),
            Ok(v) => match dep_resolution(deps.last(), task, ids, short_lookup(jobs, deps.last()), all_jobs) {
                Ok(x) => Ok(v.push(x)),
                Err(f) => Err((deps.last(), f)),
            },
        }
    }
}

/// The `depends_on` entries of a job (none without an `airflow:` block).
pub open spec fn declared_deps(j: DagJob) -> Seq<Seq<char>> {
    match j.airflow {
        Some(b) => views(b.depends_on@),
        None => Seq::empty(),
    }
}

/// Resolution of the `depends_on` of the first `n` jobs, in job order,
/// stopping at the first failure: the failing job, entry and failure.
/// Short names are looked up among all of `jobs`.
pub open spec fn resolve_jobs(
    jobs: Seq<DagJob>,
    n: int,
    ids: Seq<Seq<char>>,
    all_jobs: Seq<Seq<char>>,
) -> Result<Seq<Seq<Seq<char>>>, (Seq<char>, Seq<char>, DepFailure)>
    decreases n,
{
    if n <= 0 || n > jobs.len() {
        Ok(Seq::empty())
    } else {
        match resolve_jobs(jobs, n - 1, ids, all_jobs) {
            Err(e) => Err(e),
            Ok(v) => match resolve_list(declared_deps(jobs[n - 1]), jobs[n - 1].name@, ids, jobs, all_jobs) {
                Ok(x) => Ok(v.push(x)),
                Err((d, f)) => Err((jobs[n - 1].name@, d, f)),
            },
        }
    }
}

proof fn lemma_list_err_stays(
    deps: Seq<Seq<char>>,
    k: int,
    j: int,
    task: Seq<char>,
    ids: Seq<Seq<char>>,
    jobs: Seq<DagJob>,
    all: Seq<Seq<char>>,
)
    requires
        0 <= k <= j <= deps.len(),
        resolve_list(deps.take(k), task, ids, jobs, all) is Err,
    ensures
        resolve_list(deps.take(j), task, ids, jobs, all) == resolve_list(deps.take(k), task, ids, jobs, all),
    decreases j - k,
{
    if k < j {
        lemma_list_err_stays(deps, k, j - 1, task, ids, jobs, all);
        assert(deps.take(j).drop_last() =~= deps.take(j - 1));
    }
}

proof fn lemma_jobs_err_stays(jobs: Seq<DagJob>, k: int, j: int, ids: Seq<Seq<char>>, all: Seq<Seq<char>>)
    requires
        0 <= k <= j <= jobs.len(),
        resolve_jobs(jobs, k, ids, all) is Err,
    ensures
        resolve_jobs(jobs, j, ids, all) == resolve_jobs(jobs, k, ids, all),
    decreases j - k,
{
    if k < j {
        lemma_jobs_err_stays(jobs, k, j - 1, ids, all);
    }
}

/// The job, entry and failure that stopped `depends_on` resolution.
pub struct DepFailureAt {
    pub task: String,
    pub dep: String,
    pub error: DepError,
}

/// Resolve and check every `depends_on` entry of the DAG's `jobs` (whose
/// sorted names are `task_ids`): the upstream tasks of each job, in job
/// order, each list sorted and free of duplicates.
pub fn resolve_all_depends_on(
    jobs: &Vec<DagJob>,
    task_ids: &Vec<String>,
    all_jobs: &Vec<String>,
) -> (r: Result<Vec<Vec<String>>, DepFailureAt>)
    ensures
        match (r, resolve_jobs(jobs@, jobs@.len() as int, views(task_ids@), views(all_jobs@))) {
            (Ok(v), Ok(w)) => v@.len() == w.len() && forall|t: int| 0 <= t < w.len() ==> {
                &&& strictly_sorted(views(#[trigger] v@[t]@))
                &&& forall|x: Seq<char>| views(v@[t]@).contains(x) <==> w[t].contains(x)
            },
            (Err(e), Err((t, d, f))) => e.task@ == t && e.dep@ == d && e.error@ == f,
            _ => false,
        },
{
    let index = build_short_name_index(jobs);
    let ghost w_ids = views(task_ids@);
    let ghost all = views(all_jobs@);
    let mut out: Vec<Vec<String>> = Vec::new();
    let mut i: usize = 0;
    while i < jobs.len()
        invariant
            i <= jobs.len(),
            w_ids == views(task_ids@),
            all == views(all_jobs@),
            indexes(index@, jobs@),
            resolve_jobs(jobs@, i as int, w_ids, all) matches Ok(w) && out@.len() == w.len()
                && forall|t: int| 0 <= t < w.len() ==> {
                    &&& strictly_sorted(views(#[trigger] out@[t]@))
                    &&& forall|x: Seq<char>| views(out@[t]@).contains(x) <==> w[t].contains(x)
                },
        decreases jobs.len() - i,
    {
        let ghost prev = resolve_jobs(jobs@, i as int, w_ids, all)->Ok_0;
        let job = &jobs[i];
        let ghost declared = declared_deps(jobs@[i as int]);
        let mut deps: Vec<String> = Vec::new();
        match &job.airflow {
            Some(block) => {
                let ds = &block.depends_on;
                let mut k: usize = 0;
                proof {
                    assert(views(deps@) =~= Seq::<Seq<char>>::empty());
                    assert(views(ds@).take(0) =~= Seq::<Seq<char>>::empty());
                    assert(declared == views(ds@));
                }
                while k < ds.len()
                    invariant
                        k <= ds.len(),
                        i < jobs.len(),
                        declared == views(ds@),
                        declared == declared_deps(jobs@[i as int]),
                        *job == jobs@[i as int],
                        job.airflow == Some(*block),
                        *ds == block.depends_on,
                        w_ids == views(task_ids@),
                        all == views(all_jobs@),
                        indexes(index@, jobs@),
                        resolve_jobs(jobs@, i as int, w_ids, all) == Ok::<Seq<Seq<Seq<char>>>, (Seq<char>, Seq<char>, DepFailure)>(prev),
                        resolve_list(views(ds@).take(k as int), job.name@, w_ids, jobs@, all)
                            == Ok::<Seq<Seq<char>>, (Seq<char>, DepFailure)>(views(deps@)),
                    decreases ds.len() - k,
                {
                    proof {
                        assert(views(ds@).take(k + 1).drop_last() =~= views(ds@).take(k as int));
                        assert(views(ds@).take(k + 1).last() == ds@[k as int]@);
                        assert(index_get(index@, ds@[k as int]@) == short_lookup(jobs@, ds@[k as int]@));
                    }
                    match resolve_dep(ds[k].as_str(), job.name.as_str(), task_ids, &index, all_jobs) {
                        Ok(x) => {
                            let ghost before = deps@;
                            deps.push(x);
                            proof {
                                assert(views(deps@) =~= views(before).push(x@));
                            }
                        },
                        Err(e) => {
                            proof {
                                assert(resolve_list(views(ds@).take(k + 1), job.name@, w_ids, jobs@, all)
                                    == Err::<Seq<Seq<char>>, (Seq<char>, DepFailure)>((ds@[k as int]@, e@)));
                                lemma_list_err_stays(views(ds@), k as int + 1, ds@.len() as int, job.name@, w_ids, jobs@, all);
                                assert(views(ds@).take(ds@.len() as int) =~= views(ds@));
                                assert(resolve_list(declared, jobs@[i as int].name@, w_ids, jobs@, all)
                                    == Err::<Seq<Seq<char>>, (Seq<char>, DepFailure)>((ds@[k as int]@, e@)));
                                assert(resolve_jobs(jobs@, i + 1, w_ids, all)
                                    == Err::<Seq<Seq<Seq<char>>>, (Seq<char>, Seq<char>, DepFailure)>((job.name@, ds@[k as int]@, e@)));
                                lemma_jobs_err_stays(jobs@, i as int + 1, jobs@.len() as int, w_ids, all);
                            }
                            return Err(DepFailureAt { task: job.name.clone(), dep: ds[k].clone(), error: e });
                        },
                    }
                    k = k + 1;
                }
                proof {
                    assert(views(ds@).take(ds.len() as int) =~= views(ds@));
                }
            },
            None => {
                proof {
                    assert(views(deps@) =~= Seq::<Seq<char>>::empty());
                    assert(declared =~= Seq::<Seq<char>>::empty());
                }
            },
        }
        let ghost dv = views(deps@);
        proof {
            assert(resolve_list(declared, jobs@[i as int].name@, w_ids, jobs@, all) == Ok::<Seq<Seq<char>>, (Seq<char>, DepFailure)>(dv));
            assert(resolve_jobs(jobs@, i + 1, w_ids, all) == Ok::<Seq<Seq<Seq<char>>>, (Seq<char>, Seq<char>, DepFailure)>(prev.push(dv)));
        }
        let ghost old_out = out@;
        let sorted = sorted_set(deps);
        out.push(sorted);
        proof {
            let w2 = resolve_jobs(jobs@, i + 1, w_ids, all)->Ok_0;
            assert(w2 == prev.push(dv));
            assert forall|t: int| 0 <= t < w2.len() implies {
                &&& strictly_sorted(views(#[trigger] out@[t]@))
                &&& forall|x: Seq<char>| views(out@[t]@).contains(x) <==> w2[t].contains(x)
            } by {
                if t < prev.len() {
                    assert(w2[t] == prev[t]);
                    assert(out@[t] == old_out[t]);
                }
            }
        }
        i = i + 1;
    }
    Ok(out)
}

// ------------------------------------------------------------------
// Naming and orphans
// ------------------------------------------------------------------

/// The name of a DAG: the sanitized project name and the sanitized name of
/// the DAG's directory (`dag` when the directory has no final name).
pub open spec fn dag_name_of(project: Seq<char>, dir_name: Option<Seq<char>>) -> Seq<char> {
    sanitized(project) + "_"@ + sanitized(
        match dir_name {
            Some(n) => n,
            None => "dag"@,
        },
    )
}

/// `"{project}_{dir}"`, both sanitized into Python identifier fragments.
pub fn dag_name(project: &str, dir_name: Option<&str>) -> (r: String)
    ensures
        r@ == dag_name_of(project@, match dir_name {
            Some(n) => Some(n@),
            None => None,
        }),
{
    let mut r = sanitize_identifier(project);
    push_str(&mut r, "_");
    let d = match dir_name {
        Some(n) => sanitize_identifier(n),
        None => sanitize_identifier("dag"),
    };
    push_str(&mut r, d.as_str());
    r
}

/// The final component of a directory, as `Path::file_name` gives it: none
/// for the root or a trailing `..`.
pub open spec fn dir_file_name(p: Seq<Seq<char>>) -> Option<Seq<char>> {
    if p.len() > 0 && p.last() != "/"@ && p.last() != ".."@ {
        Some(p.last())
    } else {
        None
    }
}

/// The final component of a directory.
pub fn file_name_of(p: &Vec<String>) -> (r: Option<&str>)
    ensures
        match dir_file_name(views(p@)) {
            Some(n) => r matches Some(x) && x@ == n,
            None => r is None,
        },
{
    if p.len() == 0 {
        return None;
    }
    let last = p[p.len() - 1].as_str();
    proof {
        assert(views(p@).last() == last@);
    }
    if str_eq(last, "/") || str_eq(last, "..") {
        None
    } else {
        Some(last)
    }
}

/// The message for a job with an `airflow:` block outside every DAG.
pub open spec fn orphan_message(job: Seq<char>) -> Seq<char> {
    "Job \""@ + job + "\" has an airflow: block but is not inside a DAG directory (no ancestor dag.yaml found). Remove the airflow: block or add a dag.yaml."@
}

/// The jobs, in order, that carry an `airflow:` block but are no task of
/// any DAG.
pub open spec fn orphans(jobs: Seq<DagJob>, dag_tasks: Seq<Seq<char>>) -> Seq<(Seq<char>, Seq<char>)>
    decreases jobs.len(),
{
    if jobs.len() == 0 {
        Seq::empty()
    } else if jobs.last().airflow is Some && !dag_tasks.contains(jobs.last().name@) {
        orphans(jobs.drop_last(), dag_tasks).push((jobs.last().name@, orphan_message(jobs.last().name@)))
    } else {
        orphans(jobs.drop_last(), dag_tasks)
    }
}

pub open spec fn pairs_view(v: Seq<(String, String)>) -> Seq<(Seq<char>, Seq<char>)> {
    v.map_values(|p: (String, String)| (p.0@, p.1@))
}

/// Every job with an `airflow:` block that lies outside all DAG directories,
/// with its error message. `dag_tasks` are the tasks of all DAGs.
pub fn validate_orphan_airflow_blocks(jobs: &Vec<DagJob>, dag_tasks: &Vec<String>) -> (r: Vec<(String, String)>)
    ensures
        pairs_view(r@) == orphans(jobs@, views(dag_tasks@)),
{
    let mut errors: Vec<(String, String)> = Vec::new();
    let mut i: usize = 0;
    while i < jobs.len()
        invariant
            i <= jobs.len(),
            pairs_view(errors@) == orphans(jobs@.take(i as int), views(dag_tasks@)),
        decreases jobs.len() - i,
    {
        proof {
            assert(jobs@.take(i + 1).drop_last() =~= jobs@.take(i as int));
            assert(jobs@.take(i + 1).last() == jobs@[i as int]);
        }
        let j = &jobs[i];
        if j.airflow.is_some() && !contains_name(dag_tasks, j.name.as_str()) {
            let mut m = owned("Job \"");
            push_str(&mut m, j.name.as_str());
            push_str(&mut m, "\" has an airflow: block but is not inside a DAG directory (no ancestor dag.yaml found). Remove the airflow: block or add a dag.yaml.");
            let ghost before = errors@;
            errors.push((j.name.clone(), m));
            proof {
                assert(pairs_view(errors@) =~= pairs_view(before).push((j.name@, orphan_message(j.name@))));
            }
        }
        i = i + 1;
    }
    proof {
        assert(jobs@.take(jobs@.len() as int) =~= jobs@);
    }
    errors
}

/// A resource recorded for a deployed job: its type and identifier.
pub struct Resource {
    pub kind: String,
    pub id: String,
}

/// The identifier of the first resource of type `s3_object`.
pub open spec fn first_s3_object(rs: Seq<Resource>) -> Option<Seq<char>>
    decreases rs.len(),
{
    if rs.len() == 0 {
        None
    } else if rs[0].kind@ == "s3_object"@ {
        Some(rs[0].id@)
    } else {
        first_s3_object(rs.skip(1))
    }
}

/// The script location of each job that has one, in job order.
pub open spec fn script_locations(states: Seq<(String, Vec<Resource>)>) -> Seq<(Seq<char>, Seq<char>)>
    decreases states.len(),
{
    if states.len() == 0 {
        Seq::empty()
    } else {
        let rest = script_locations(states.drop_last());
        match first_s3_object(states.last().1@) {
            Some(id) => rest.push((states.last().0@, id)),
            None => rest,
        }
    }
}

fn find_s3_object(rs: &Vec<Resource>) -> (r: Option<String>)
    ensures
        match first_s3_object(rs@) {
            Some(id) => r matches Some(x) && x@ == id,
            None => r is None,
        },
{
    let mut i: usize = 0;
    proof {
        assert(rs@.skip(0) =~= rs@);
    }
    while i < rs.len()
        invariant
            i <= rs.len(),
            first_s3_object(rs@) == first_s3_object(rs@.skip(i as int)),
        decreases rs.len() - i,
    {
        proof {
            assert(rs@.skip(i as int).skip(1) =~= rs@.skip(i + 1));
            assert(rs@.skip(i as int)[0] == rs@[i as int]);
        }
        if str_eq(rs[i].kind.as_str(), "s3_object") {
            return Some(rs[i].id.clone());
        }
        i = i + 1;
    }
    None
}

/// The Glue script URI persisted for each job: the identifier of its first
/// `s3_object` resource. Jobs without one are left out.
pub fn script_locations_from_state(states: &Vec<(String, Vec<Resource>)>) -> (r: Vec<(String, String)>)
    ensures
        pairs_view(r@) == script_locations(states@),
{
    let mut out: Vec<(String, String)> = Vec::new();
    let mut i: usize = 0;
    while i < states.len()
        invariant
            i <= states.len(),
            pairs_view(out@) == script_locations(states@.take(i as int)),
        decreases states.len() - i,
    {
        proof {
            assert(states@.take(i + 1).drop_last() =~= states@.take(i as int));
            assert(states@.take(i + 1).last() == states@[i as int]);
        }
        let ghost before = out@;
        match find_s3_object(&states[i].1) {
            Some(id) => {
                out.push((states[i].0.clone(), id));
                proof {
                    assert(pairs_view(out@) =~= pairs_view(before).push((states@[i as int].0@, out@.last().1@)));
                }
            },
            None => {},
        }
        i = i + 1;
    }
    proof {
        assert(states@.take(states@.len() as int) =~= states@);
    }
    out
}

} // verus!
