//! Grouping the jobs of a project into DAGs: every directory holding a
//! `dag.yaml` marker is a DAG, and a job belongs to the nearest such
//! directory at or above its own.
use vstd::prelude::*;
use crate::dag::{dag_name, dag_name_of, dir_file_name, enforce_single_dag_level_override, file_name_of, job_names, nearest_ancestor_in, nearest_len, overriding, resolve_all_depends_on, resolve_jobs, same_components, strict_ancestor, DagJob, DepFailureAt};
use crate::text::{joined, lemma_lex_total, lemma_sorted_names_unique, lex_lt, str_eq, str_lt, strictly_sorted, views};
use crate::topo::{cycle_message, greedy_order, is_next, is_ready, law_order_is_deterministic, leftover, names_of, numbered_deps, stuck, topo_sort};

verus! {

// ------------------------------------------------------------------
// Directory order
// ------------------------------------------------------------------

/// Path order: component by component.
pub open spec fn path_lt(a: Seq<Seq<char>>, b: Seq<Seq<char>>) -> bool
    decreases a.len(),
{
    if a.len() == 0 {
        b.len() > 0
    } else if b.len() == 0 {
        false
    } else if a[0] != b[0] {
        lex_lt(a[0], b[0])
    } else {
        path_lt(a.skip(1), b.skip(1))
    }
}

fn path_less(a: &Vec<String>, b: &Vec<String>) -> (r: bool)
    ensures
        r == path_lt(views(a@), views(b@)),
{
    let ghost x = views(a@);
    let ghost y = views(b@);
    let mut i: usize = 0;
    proof {
        assert(x.skip(0) =~= x);
        assert(y.skip(0) =~= y);
    }
    while i < a.len() && i < b.len()
        invariant
            x == views(a@),
            y == views(b@),
            i <= a.len(),
            i <= b.len(),
            path_lt(x, y) == path_lt(x.skip(i as int), y.skip(i as int)),
        decreases a.len() - i,
    {
        proof {
            assert(x.skip(i as int)[0] == a@[i as int]@);
            assert(y.skip(i as int)[0] == b@[i as int]@);
            assert(x.skip(i as int).skip(1) =~= x.skip(i + 1));
            assert(y.skip(i as int).skip(1) =~= y.skip(i + 1));
        }
        if !str_eq(a[i].as_str(), b[i].as_str()) {
            return str_lt(a[i].as_str(), b[i].as_str());
        }
        i = i + 1;
    }
    i < b.len()
}

/// `x` placed after every directory that does not come after it.
pub open spec fn insert_dir(s: Seq<Seq<Seq<char>>>, x: Seq<Seq<char>>) -> Seq<Seq<Seq<char>>>
    decreases s.len(),
{
    if s.len() == 0 {
        seq![x]
    } else if path_lt(x, s.last()) {
        insert_dir(s.drop_last(), x).push(s.last())
    } else {
        s.push(x)
    }
}

/// The directories in path order.
pub open spec fn sort_dirs(s: Seq<Seq<Seq<char>>>) -> Seq<Seq<Seq<char>>>
    decreases s.len(),
{
    if s.len() == 0 {
        Seq::empty()
    } else {
        insert_dir(sort_dirs(s.drop_last()), s.last())
    }
}

pub open spec fn dirs_view(s: Seq<Vec<String>>) -> Seq<Seq<Seq<char>>> {
    s.map_values(|d: Vec<String>| views(d@))
}

fn clone_dir(d: &Vec<String>) -> (r: Vec<String>)
    ensures
        views(r@) == views(d@),
{
    let mut out: Vec<String> = Vec::new();
    let mut i: usize = 0;
    while i < d.len()
        invariant
            i <= d.len(),
            views(out@) == views(d@).take(i as int),
        decreases d.len() - i,
    {
        let c = d[i].clone();
        proof {
            assert(c@ == d@[i as int]@);
        }
        let ghost before = out@;
        out.push(c);
        proof {
            assert(out@ == before.push(c));
            assert(views(out@) =~= views(before).push(c@));
            assert(views(out@) =~= views(d@).take(i + 1));
        }
        i = i + 1;
    }
    proof {
        assert(views(d@).take(d@.len() as int) =~= views(d@));
    }
    out
}

fn insert_dir_exec(s: Vec<Vec<String>>, x: Vec<String>) -> (r: Vec<Vec<String>>)
    ensures
        dirs_view(r@) == insert_dir(dirs_view(s@), views(x@)),
    decreases s.len(),
{
    let mut s = s;
    let ghost all = dirs_view(s@);
    if s.len() == 0 {
        let mut v: Vec<Vec<String>> = Vec::new();
        v.push(x);
        proof {
            assert(dirs_view(v@) =~= seq![views(x@)]);
        }
        return v;
    }
    let last = s.pop().unwrap();
    proof {
        assert(all.drop_last() =~= dirs_view(s@));
        assert(all.last() == views(last@));
    }
    if path_less(&x, &last) {
        let mut r = insert_dir_exec(s, x);
        let ghost before = r@;
        r.push(last);
        proof {
            assert(dirs_view(r@) =~= dirs_view(before).push(views(last@)));
        }
        r
    } else {
        s.push(last);
        let ghost mid = s@;
        s.push(x);
        proof {
            assert(dirs_view(mid) =~= all);
            assert(dirs_view(s@) =~= all.push(views(x@)));
        }
        s
    }
}

/// The directories sorted in path order.
pub fn sort_dag_dirs(dirs: &Vec<Vec<String>>) -> (r: Vec<Vec<String>>)
    ensures
        dirs_view(r@) == sort_dirs(dirs_view(dirs@)),
{
    let ghost all = dirs_view(dirs@);
    let mut out: Vec<Vec<String>> = Vec::new();
    let mut i: usize = 0;
    proof {
        assert(all.take(0) =~= Seq::<Seq<Seq<char>>>::empty());
        assert(dirs_view(out@) =~= Seq::<Seq<Seq<char>>>::empty());
    }
    while i < dirs.len()
        invariant
            i <= dirs.len(),
            all == dirs_view(dirs@),
            dirs_view(out@) == sort_dirs(all.take(i as int)),
        decreases dirs.len() - i,
    {
        let x = clone_dir(&dirs[i]);
        proof {
            assert(all.take(i + 1).drop_last() =~= all.take(i as int));
            assert(all.take(i + 1).last() == views(dirs@[i as int]@));
        }
        out = insert_dir_exec(out, x);
        i = i + 1;
    }
    proof {
        assert(all.take(all.len() as int) =~= all);
    }
    out
}

// ------------------------------------------------------------------
// Nested DAG directories
// ------------------------------------------------------------------

/// Some DAG directory lies inside another.
pub open spec fn has_nested(dirs: Seq<Seq<Seq<char>>>) -> bool {
    exists|i: int, j: int| 0 <= i < dirs.len() && 0 <= j < dirs.len() && strict_ancestor(#[trigger] dirs[i], #[trigger] dirs[j])
}

/// A DAG directory inside another: `(inner, outer)`, checking the pairs in
/// order.
pub fn find_nested(dirs: &Vec<Vec<String>>) -> (r: Option<(usize, usize)>)
    ensures
        match r {
            Some((inner, outer)) => inner < dirs.len() && outer < dirs.len() && strict_ancestor(
                views(dirs@[outer as int]@),
                views(dirs@[inner as int]@),
            ),
            None => !has_nested(dirs_view(dirs@)),
        },
{
    let ghost ds = dirs_view(dirs@);
    let mut i: usize = 0;
    while i < dirs.len()
        invariant
            i <= dirs.len(),
            ds == dirs_view(dirs@),
            forall|a: int, b: int|
                0 <= a < dirs.len() && 0 <= b < dirs.len() && (a < i || b < i) ==> !strict_ancestor(
                    #[trigger] ds[a],
                    #[trigger] ds[b],
                ),
        decreases dirs.len() - i,
    {
        let mut j: usize = i + 1;
        while j < dirs.len()
            invariant
                i < dirs.len(),
                i + 1 <= j <= dirs.len(),
                ds == dirs_view(dirs@),
                forall|a: int, b: int|
                    0 <= a < dirs.len() && 0 <= b < dirs.len() && (a < i || b < i) ==> !strict_ancestor(
                        #[trigger] ds[a],
                        #[trigger] ds[b],
                    ),
                forall|b: int| i < b < j ==> !strict_ancestor(ds[i as int], #[trigger] ds[b]) && !strict_ancestor(
                    ds[b],
                    ds[i as int],
                ),
            decreases dirs.len() - j,
        {
            if crate::dag::is_strict_ancestor(&dirs[i], &dirs[j]) {
                return Some((j, i));
            }
            if crate::dag::is_strict_ancestor(&dirs[j], &dirs[i]) {
                return Some((i, j));
            }
            j = j + 1;
        }
        proof {
            assert(!strict_ancestor(ds[i as int], ds[i as int]));
        }
        i = i + 1;
    }
    proof {
        assert forall|a: int, b: int| 0 <= a < ds.len() && 0 <= b < ds.len() implies !strict_ancestor(#[trigger] ds[a], #[trigger] ds[b]) by {
            assert(a < dirs.len());
        }
    }
    None
}

// ------------------------------------------------------------------
// Jobs in order of name, and the jobs of each DAG
// ------------------------------------------------------------------

/// `x` placed after every job whose name does not come after its own.
pub open spec fn insert_job(s: Seq<DagJob>, x: DagJob) -> Seq<DagJob>
    decreases s.len(),
{
    if s.len() == 0 {
        seq![x]
    } else if lex_lt(x.name@, s.last().name@) {
        insert_job(s.drop_last(), x).push(s.last())
    } else {
        s.push(x)
    }
}

/// The jobs in order of name.
pub open spec fn sort_jobs(s: Seq<DagJob>) -> Seq<DagJob>
    decreases s.len(),
{
    if s.len() == 0 {
        Seq::empty()
    } else {
        insert_job(sort_jobs(s.drop_last()), s.last())
    }
}

/// No two jobs share a name.
pub open spec fn unique_names(s: Seq<DagJob>) -> bool {
    forall|i: int, j: int| 0 <= i < j < s.len() ==> s[i].name@ != s[j].name@
}

proof fn lemma_insert_job(s: Seq<DagJob>, x: DagJob)
    requires
        strictly_sorted(job_names(s)),
        !job_names(s).contains(x.name@),
    ensures
        strictly_sorted(job_names(insert_job(s, x))),
        job_names(insert_job(s, x)).to_set() == job_names(s).to_set().insert(x.name@),
    decreases s.len(),
{
    if s.len() == 0 {
        assert(job_names(seq![x]) =~= Seq::<Seq<char>>::empty().push(x.name@));
        Seq::<Seq<char>>::empty().lemma_push_to_set_commute(x.name@);
        assert(job_names(s) =~= Seq::<Seq<char>>::empty());
        assert(Seq::<Seq<char>>::empty().to_set() =~= Set::<Seq<char>>::empty());
    } else if lex_lt(x.name@, s.last().name@) {
        let t = s.drop_last();
        assert(job_names(t) =~= job_names(s).drop_last());
        assert forall|a: int, b: int| 0 <= a < b < job_names(t).len() implies lex_lt(job_names(t)[a], job_names(t)[b]) by {
            assert(job_names(t)[a] == job_names(s)[a]);
            assert(job_names(t)[b] == job_names(s)[b]);
        }
        assert(!job_names(t).contains(x.name@)) by {
            if job_names(t).contains(x.name@) {
                let q = choose|q: int| 0 <= q < job_names(t).len() && job_names(t)[q] == x.name@;
                assert(job_names(s)[q] == x.name@);
            }
        }
        lemma_insert_job(t, x);
        let r = insert_job(t, x);
        let e = s.last();
        assert(job_names(r.push(e)) =~= job_names(r).push(e.name@));
        assert forall|k: int| 0 <= k < job_names(r).len() implies lex_lt(#[trigger] job_names(r)[k], e.name@) by {
            let n = job_names(r)[k];
            assert(job_names(r).contains(n));
            assert(job_names(r).to_set().contains(n));
            if n == x.name@ {
            } else {
                assert(job_names(t).to_set().contains(n));
                let q = choose|q: int| 0 <= q < job_names(t).len() && job_names(t)[q] == n;
                assert(job_names(s)[q] == n);
                assert(job_names(s)[s.len() - 1] == e.name@);
            }
        }
        assert(job_names(s) =~= job_names(t).push(e.name@));
        assert(job_names(r.push(e)).to_set() =~= job_names(s).to_set().insert(x.name@)) by {
            assert forall|n: Seq<char>| job_names(r.push(e)).to_set().contains(n) <==> job_names(s).to_set().insert(x.name@).contains(n) by {
                if job_names(r.push(e)).contains(n) {
                    let q = choose|q: int| 0 <= q < job_names(r.push(e)).len() && job_names(r.push(e))[q] == n;
                    if q < job_names(r).len() {
                        assert(job_names(r).contains(n));
                        assert(job_names(r).to_set().contains(n));
                        if n != x.name@ {
                            assert(job_names(t).to_set().contains(n));
                            assert(job_names(t).contains(n));
                            let w = choose|w: int| 0 <= w < job_names(t).len() && job_names(t)[w] == n;
                            assert(job_names(s)[w] == n);
                        }
                    } else {
                        assert(job_names(s)[s.len() - 1] == n);
                    }
                }
                if job_names(s).to_set().insert(x.name@).contains(n) {
                    if n == x.name@ {
                        assert(job_names(r).to_set().contains(n));
                        assert(job_names(r).contains(n));
                        let w = choose|w: int| 0 <= w < job_names(r).len() && job_names(r)[w] == n;
                        assert(job_names(r.push(e))[w] == n);
                    } else {
                        assert(job_names(s).contains(n));
                        let w = choose|w: int| 0 <= w < job_names(s).len() && job_names(s)[w] == n;
                        if w < t.len() {
                            assert(job_names(t)[w] == n);
                            assert(job_names(t).to_set().contains(n));
                            assert(job_names(r).to_set().contains(n));
                            assert(job_names(r).contains(n));
                            let u = choose|u: int| 0 <= u < job_names(r).len() && job_names(r)[u] == n;
                            assert(job_names(r.push(e))[u] == n);
                        } else {
                            assert(job_names(r.push(e))[job_names(r).len() as int] == n);
                        }
                    }
                }
            }
        }
    } else {
        assert(job_names(s.push(x)) =~= job_names(s).push(x.name@));
        assert forall|a: int, b: int| 0 <= a < b < job_names(s.push(x)).len() implies lex_lt(job_names(s.push(x))[a], job_names(s.push(x))[b]) by {
            if b == s.len() {
                let n = job_names(s)[a];
                assert(n != x.name@);
                lemma_lex_total(x.name@, s.last().name@);
                if a < s.len() - 1 {
                    assert(job_names(s)[s.len() - 1] == s.last().name@);
                    assert(lex_lt(job_names(s)[a], job_names(s)[s.len() - 1]));
                    lemma_lex_total(s.last().name@, x.name@);
                    if s.last().name@ == x.name@ {
                        assert(job_names(s)[s.len() - 1] == x.name@);
                    }
                    crate::text::lemma_lex_transitive(n, s.last().name@, x.name@);
                } else {
                    assert(job_names(s)[s.len() - 1] == n);
                    lemma_lex_total(n, x.name@);
                }
            }
        }
        job_names(s).lemma_push_to_set_commute(x.name@);
    }
}

/// Jobs with distinct names come out in strictly increasing name order,
/// with the same names.
pub proof fn law_jobs_sorted_by_name(s: Seq<DagJob>)
    requires
        unique_names(s),
    ensures
        strictly_sorted(job_names(sort_jobs(s))),
        job_names(sort_jobs(s)).to_set() == job_names(s).to_set(),
    decreases s.len(),
{
    if s.len() == 0 {
        assert(job_names(sort_jobs(s)) =~= Seq::<Seq<char>>::empty());
    } else {
        let t = s.drop_last();
        assert(unique_names(t));
        law_jobs_sorted_by_name(t);
        assert(job_names(s) =~= job_names(t).push(s.last().name@));
        assert(!job_names(sort_jobs(t)).contains(s.last().name@)) by {
            if job_names(sort_jobs(t)).contains(s.last().name@) {
                assert(job_names(sort_jobs(t)).to_set().contains(s.last().name@));
                assert(job_names(t).to_set().contains(s.last().name@));
                assert(job_names(t).contains(s.last().name@));
                let q = choose|q: int| 0 <= q < job_names(t).len() && job_names(t)[q] == s.last().name@;
                assert(s[q].name@ == s[s.len() - 1].name@);
            }
        }
        lemma_insert_job(sort_jobs(t), s.last());
        job_names(t).lemma_push_to_set_commute(s.last().name@);
    }
}

fn insert_job_exec(s: Vec<DagJob>, x: DagJob) -> (r: Vec<DagJob>)
    ensures
        r@ == insert_job(s@, x),
    decreases s.len(),
{
    let mut s = s;
    let ghost all = s@;
    if s.len() == 0 {
        let mut v: Vec<DagJob> = Vec::new();
        v.push(x);
        proof {
            assert(v@ =~= seq![x]);
        }
        return v;
    }
    let last = s.pop().unwrap();
    proof {
        assert(all.drop_last() =~= s@);
    }
    if str_lt(x.name.as_str(), last.name.as_str()) {
        let mut r = insert_job_exec(s, x);
        r.push(last);
        r
    } else {
        s.push(last);
        proof {
            assert(s@ =~= all);
        }
        s.push(x);
        s
    }
}

/// The jobs in order of name.
pub fn sort_jobs_by_name(jobs: Vec<DagJob>) -> (r: Vec<DagJob>)
    ensures
        r@ == sort_jobs(jobs@),
{
    let ghost all = jobs@;
    let mut rest = jobs;
    let n = rest.len();
    let mut out: Vec<DagJob> = Vec::new();
    let mut m: usize = 0;
    proof {
        assert(all.skip(0) =~= all);
        assert(all.take(0) =~= Seq::<DagJob>::empty());
    }
    while m < n
        invariant
            n == all.len(),
            m <= n,
            rest@ == all.skip(m as int),
            out@ == sort_jobs(all.take(m as int)),
        decreases n - m,
    {
        let x = rest.remove(0);
        proof {
            assert(x == all[m as int]);
            assert(rest@ =~= all.skip(m + 1));
            assert(all.take(m + 1).drop_last() =~= all.take(m as int));
        }
        out = insert_job_exec(out, x);
        m = m + 1;
    }
    proof {
        assert(all.take(n as int) =~= all);
    }
    out
}

/// A job belongs to DAG directory `d` when `d` is the nearest directory of
/// `dirs` at or above its own.
pub open spec fn assigned_to(j: DagJob, dirs: Seq<Vec<String>>, d: Seq<Seq<char>>) -> bool {
    match nearest_len(views(j.dir@), dirs, j.dir@.len() as int) {
        Some(n) => views(j.dir@).take(n) == d,
        None => false,
    }
}

/// The jobs of `s` that belong to `d`, in order.
pub open spec fn group(s: Seq<DagJob>, dirs: Seq<Vec<String>>, d: Seq<Seq<char>>) -> Seq<DagJob>
    decreases s.len(),
{
    if s.len() == 0 {
        Seq::empty()
    } else {
        group(s.drop_last(), dirs, d) + if assigned_to(s.last(), dirs, d) {
            seq![s.last()]
        } else {
            Seq::empty()
        }
    }
}

/// The first position of `d` in `os` (its length when absent).
pub open spec fn first_idx(os: Seq<Seq<Seq<char>>>, d: Seq<Seq<char>>) -> int
    decreases os.len(),
{
    if os.len() == 0 {
        0
    } else if os[0] == d {
        0
    } else {
        1 + first_idx(os.subrange(1, os.len() as int), d)
    }
}

proof fn lemma_first_idx(os: Seq<Seq<Seq<char>>>, d: Seq<Seq<char>>, k: int)
    requires
        0 <= k <= os.len(),
        forall|i: int| 0 <= i < k ==> os[i] != d,
        k == os.len() || os[k] == d,
    ensures
        first_idx(os, d) == k,
    decreases os.len(),
{
    if os.len() > 0 && k > 0 {
        let t = os.subrange(1, os.len() as int);
        assert forall|i: int| 0 <= i < k - 1 implies t[i] != d by {
            assert(t[i] == os[i + 1]);
        }
        if k < os.len() {
            assert(t[k - 1] == os[k]);
        }
        lemma_first_idx(t, d, k - 1);
    }
}

proof fn lemma_first_idx_hit(os: Seq<Seq<Seq<char>>>, d: Seq<Seq<char>>)
    requires
        first_idx(os, d) < os.len(),
    ensures
        os[first_idx(os, d)] == d,
        forall|i: int| 0 <= i < first_idx(os, d) ==> os[i] != d,
        0 <= first_idx(os, d),
    decreases os.len(),
{
    if os.len() > 0 && os[0] != d {
        let t = os.subrange(1, os.len() as int);
        lemma_first_idx_hit(t, d);
        assert forall|i: int| 0 <= i < first_idx(os, d) implies os[i] != d by {
            if i > 0 {
                assert(os[i] == t[i - 1]);
            }
        }
    }
}

proof fn lemma_first_idx_miss(os: Seq<Seq<Seq<char>>>, d: Seq<Seq<char>>)
    requires
        first_idx(os, d) >= os.len(),
    ensures
        forall|i: int| 0 <= i < os.len() ==> os[i] != d,
    decreases os.len(),
{
    if os.len() > 0 {
        let t = os.subrange(1, os.len() as int);
        lemma_first_idx_miss(t, d);
        assert forall|i: int| 0 <= i < os.len() implies os[i] != d by {
            if i > 0 {
                assert(os[i] == t[i - 1]);
            }
        }
    }
}

/// The jobs a directory gets: those that belong to it, for its first
/// occurrence among the DAG directories (a repeated directory gets none).
pub open spec fn dir_jobs(s: Seq<DagJob>, dirs: Seq<Vec<String>>, os: Seq<Seq<Seq<char>>>, k: int) -> Seq<DagJob> {
    if first_idx(os, os[k]) == k {
        group(s, dirs, os[k])
    } else {
        Seq::empty()
    }
}

fn first_match(order: &Vec<Vec<String>>, p: &Vec<String>) -> (r: usize)
    ensures
        r as int == first_idx(dirs_view(order@), views(p@)),
        r <= order.len(),
{
    let ghost os = dirs_view(order@);
    let mut i: usize = 0;
    while i < order.len()
        invariant
            os == dirs_view(order@),
            i <= order.len(),
            forall|q: int| 0 <= q < i ==> os[q] != views(p@),
        decreases order.len() - i,
    {
        if same_components(&order[i], p) {
            proof {
                lemma_first_idx(os, views(p@), i as int);
            }
            return i;
        }
        i = i + 1;
    }
    proof {
        lemma_first_idx(os, views(p@), os.len() as int);
    }
    i
}

/// Deal the jobs (in order) out to the DAG directories of `order`.
fn partition(jobs: Vec<DagJob>, set: &Vec<Vec<String>>, order: &Vec<Vec<String>>) -> (r: Vec<Vec<DagJob>>)
    ensures
        r@.len() == order@.len(),
        forall|k: int| 0 <= k < order@.len() ==> (#[trigger] r@[k])@ == dir_jobs(jobs@, set@, dirs_view(order@), k),
{
    let ghost os = dirs_view(order@);
    let ghost all = jobs@;
    let mut groups: Vec<Vec<DagJob>> = Vec::new();
    let mut g: usize = 0;
    while g < order.len()
        invariant
            g <= order.len(),
            groups@.len() == g,
            forall|k: int| 0 <= k < g ==> (#[trigger] groups@[k])@ == Seq::<DagJob>::empty(),
        decreases order.len() - g,
    {
        groups.push(Vec::new());
        g = g + 1;
    }
    let mut rest = jobs;
    let n = rest.len();
    let mut m: usize = 0;
    proof {
        assert(all.skip(0) =~= all);
        assert forall|k: int| 0 <= k < order@.len() implies (#[trigger] groups@[k])@ == dir_jobs(all.take(0), set@, os, k) by {
            assert(all.take(0) =~= Seq::<DagJob>::empty());
        }
    }
    while m < n
        invariant
            n == all.len(),
            m <= n,
            os == dirs_view(order@),
            rest@ == all.skip(m as int),
            groups@.len() == order@.len(),
            forall|k: int| 0 <= k < order@.len() ==> (#[trigger] groups@[k])@ == dir_jobs(all.take(m as int), set@, os, k),
        decreases n - m,
    {
        let x = rest.remove(0);
        let ghost before = groups@;
        proof {
            assert(x == all[m as int]);
            assert(rest@ =~= all.skip(m + 1));
            assert(all.take(m + 1).drop_last() =~= all.take(m as int));
            assert(all.take(m + 1).last() == x);
        }
        let found = nearest_ancestor_in(&x.dir, set);
        let mut placed = false;
        match found {
            Some(p) => {
                let k = first_match(order, &p);
                proof {
                    assert forall|q: int| 0 <= q < os.len() implies assigned_to(x, set@, #[trigger] os[q]) == (os[q] == views(p@)) by {}
                }
                if k < order.len() {
                    proof {
                        lemma_first_idx_hit(os, views(p@));
                    }
                    let mut gk = groups.remove(k);
                    gk.push(x);
                    groups.insert(k, gk);
                    placed = true;
                    proof {
                        assert forall|q: int| 0 <= q < order@.len() implies (#[trigger] groups@[q])@ == dir_jobs(all.take(m + 1), set@, os, q) by {
                            if q == k {
                                assert(os[q] == views(p@));
                                assert(first_idx(os, os[q]) == q);
                                assert(assigned_to(all.take(m + 1).last(), set@, os[q]));
                                assert(groups@[q]@ == before[q]@.push(x));
                            } else {
                                assert(groups@[q] == before[q]);
                                if first_idx(os, os[q]) == q {
                                    assert(os[q] != os[k as int]);
                                    assert(!assigned_to(x, set@, os[q]));
                                    assert(group(all.take(m + 1), set@, os[q]) =~= group(all.take(m as int), set@, os[q]));
                                }
                            }
                        }
                    }
                } else {
                    proof {
                        lemma_first_idx_miss(os, views(p@));
                        assert forall|q: int| 0 <= q < order@.len() implies (#[trigger] groups@[q])@ == dir_jobs(all.take(m + 1), set@, os, q) by {
                            if first_idx(os, os[q]) == q {
                                assert(!assigned_to(x, set@, os[q]));
                                assert(group(all.take(m + 1), set@, os[q]) =~= group(all.take(m as int), set@, os[q]));
                            }
                        }
                    }
                }
            },
            None => {
                proof {
                    assert forall|q: int| 0 <= q < order@.len() implies (#[trigger] groups@[q])@ == dir_jobs(all.take(m + 1), set@, os, q) by {
                        assert(!assigned_to(x, set@, os[q]));
                        if first_idx(os, os[q]) == q {
                            assert(group(all.take(m + 1), set@, os[q]) =~= group(all.take(m as int), set@, os[q]));
                        }
                    }
                }
            },
        }
        m = m + 1;
    }
    proof {
        assert(all.take(n as int) =~= all);
    }
    groups
}

proof fn lemma_group(s: Seq<DagJob>, dirs: Seq<Vec<String>>, d: Seq<Seq<char>>)
    requires
        strictly_sorted(job_names(s)),
    ensures
        strictly_sorted(job_names(group(s, dirs, d))),
        forall|k: int| 0 <= k < group(s, dirs, d).len() ==> s.contains(#[trigger] group(s, dirs, d)[k]),
    decreases s.len(),
{
    if s.len() > 0 {
        let t = s.drop_last();
        assert(job_names(t) =~= job_names(s).drop_last());
        assert forall|a: int, b: int| 0 <= a < b < job_names(t).len() implies lex_lt(job_names(t)[a], job_names(t)[b]) by {
            assert(job_names(t)[a] == job_names(s)[a]);
            assert(job_names(t)[b] == job_names(s)[b]);
        }
        lemma_group(t, dirs, d);
        let g = group(t, dirs, d);
        assert forall|k: int| 0 <= k < g.len() implies s.contains(#[trigger] g[k]) by {
            assert(t.contains(g[k]));
            let q = choose|q: int| 0 <= q < t.len() && t[q] == g[k];
            assert(s[q] == g[k]);
        }
        if assigned_to(s.last(), dirs, d) {
            let g2 = g.push(s.last());
            assert(group(s, dirs, d) =~= g2);
            assert(job_names(g2) =~= job_names(g).push(s.last().name@));
            assert forall|a: int, b: int| 0 <= a < b < job_names(g2).len() implies lex_lt(job_names(g2)[a], job_names(g2)[b]) by {
                if b == g.len() {
                    assert(t.contains(g[a]));
                    let q = choose|q: int| 0 <= q < t.len() && t[q] == g[a];
                    assert(job_names(s)[q] == g[a].name@);
                    assert(job_names(s)[s.len() - 1] == s.last().name@);
                } else {
                    assert(job_names(g2)[a] == job_names(g)[a]);
                    assert(job_names(g2)[b] == job_names(g)[b]);
                }
            }
            assert forall|k: int| 0 <= k < g2.len() implies s.contains(#[trigger] g2[k]) by {
                if k == g.len() {
                    assert(s[s.len() - 1] == s.last());
                } else {
                    assert(g2[k] == g[k]);
                }
            }
        } else {
            assert(group(s, dirs, d) =~= g);
        }
    }
}

// ------------------------------------------------------------------
// Building the DAGs
// ------------------------------------------------------------------

/// A DAG found in the project tree: its jobs grouped, checked and ordered.
/// Its Airflow settings are resolved separately.
pub struct CollectedDag {
    /// Sanitized, project-prefixed DAG id.
    pub name: String,
    /// The directory holding the `dag.yaml` marker.
    pub dir: Vec<String>,
    /// The DAG's jobs in order of name.
    pub jobs: Vec<DagJob>,
    /// Task ids in dependency order.
    pub tasks: Vec<String>,
    /// The upstream tasks of each task, keyed by task in name order.
    pub depends_on: Vec<(String, Vec<String>)>,
}

/// Why the project's DAGs cannot be built.
pub enum CollectError {
    /// A DAG directory lies inside another.
    Nested { inner: Vec<String>, outer: Vec<String> },
    /// A DAG directory has no jobs.
    Empty { dir: Vec<String> },
    /// A `depends_on` entry does not resolve.
    Dependency { dir: Vec<String>, failure: DepFailureAt },
    /// Two tasks declare DAG-level overrides.
    Overrides { dir: Vec<String>, first: String, second: String },
    /// The dependencies form a cycle.
    Cycle { dir: Vec<String>, message: String },
}

pub open spec fn dep_lists(c: CollectedDag) -> Seq<Vec<String>> {
    c.depends_on@.map_values(|p: (String, Vec<String>)| p.1)
}

/// `c` is the DAG made of the jobs `ms` (in name order) of a project whose
/// job names are `all`.
pub open spec fn dag_of_members(project: Seq<char>, ms: Seq<DagJob>, all: Seq<Seq<char>>, c: CollectedDag) -> bool {
    &&& c.jobs@ == ms
    &&& ms.len() > 0
    &&& c.name@ == dag_name_of(project, dir_file_name(views(c.dir@)))
    &&& overriding(ms).len() <= 1
    &&& resolve_jobs(ms, ms.len() as int, job_names(ms), all) matches Ok(w)
    &&& c.depends_on@.len() == ms.len()
    &&& forall|t: int|
        0 <= t < ms.len() ==> {
            &&& (#[trigger] c.depends_on@[t]).0@ == job_names(ms)[t]
            &&& strictly_sorted(views(c.depends_on@[t].1@))
            &&& forall|x: Seq<char>| views(c.depends_on@[t].1@).contains(x) <==> w[t].contains(x)
        }
    &&& exists|order: Seq<int>|
        {
            &&& order.len() == ms.len()
            &&& #[trigger] greedy_order(numbered_deps(job_names(ms), dep_lists(c)), ms.len() as int, order)
            &&& views(c.tasks@) == names_of(job_names(ms), order)
        }
}

/// The dependency lists `deps` resolve the entries of `ms` as `w` does.
pub open spec fn resolved_as(deps: Seq<Vec<String>>, w: Seq<Seq<Seq<char>>>) -> bool {
    &&& deps.len() == w.len()
    &&& forall|t: int|
        0 <= t < w.len() ==> {
            &&& strictly_sorted(views(#[trigger] deps[t]@))
            &&& forall|x: Seq<char>| views(deps[t]@).contains(x) <==> w[t].contains(x)
        }
}

/// Why building the DAG of the jobs `ms` fails, by error.
pub open spec fn build_error(ms: Seq<DagJob>, all: Seq<Seq<char>>, e: CollectError) -> bool {
    match e {
        CollectError::Dependency { failure, .. } => resolve_jobs(ms, ms.len() as int, job_names(ms), all) == Err::<
            Seq<Seq<Seq<char>>>,
            (Seq<char>, Seq<char>, crate::dag::DepFailure),
        >((failure.task@, failure.dep@, failure.error@)),
        CollectError::Overrides { first, second, .. } => resolve_jobs(ms, ms.len() as int, job_names(ms), all) is Ok
            && overriding(ms).len() >= 2 && first@ == overriding(ms)[0] && second@ == overriding(ms)[1],
        CollectError::Cycle { message, .. } => {
            &&& resolve_jobs(ms, ms.len() as int, job_names(ms), all) matches Ok(w)
            &&& overriding(ms).len() <= 1
            &&& exists|deps: Seq<Vec<String>>, placed: Seq<int>, rest: Seq<int>|
                {
                    &&& #[trigger] resolved_as(deps, w)
                    &&& placed.len() < ms.len()
                    &&& #[trigger] greedy_order(numbered_deps(job_names(ms), deps), ms.len() as int, placed)
                    &&& stuck(numbered_deps(job_names(ms), deps), ms.len() as int, placed)
                    &&& #[trigger] leftover(ms.len() as int, placed, rest)
                    &&& message@ == cycle_message(names_of(job_names(ms), rest))
                }
        },
        _ => false,
    }
}

pub open spec fn error_dir(e: CollectError) -> Seq<Seq<char>> {
    match e {
        CollectError::Nested { inner, .. } => views(inner@),
        CollectError::Empty { dir } => views(dir@),
        CollectError::Dependency { dir, .. } => views(dir@),
        CollectError::Overrides { dir, .. } => views(dir@),
        CollectError::Cycle { dir, .. } => views(dir@),
    }
}

proof fn lemma_resolved_len(jobs: Seq<DagJob>, n: int, ids: Seq<Seq<char>>, all: Seq<Seq<char>>)
    requires
        0 <= n <= jobs.len(),
        resolve_jobs(jobs, n, ids, all) is Ok,
    ensures
        resolve_jobs(jobs, n, ids, all)->Ok_0.len() == n,
    decreases n,
{
    if n > 0 {
        lemma_resolved_len(jobs, n - 1, ids, all);
    }
}

fn task_names(ms: &Vec<DagJob>) -> (r: Vec<String>)
    ensures
        views(r@) == job_names(ms@),
{
    let mut out: Vec<String> = Vec::new();
    let mut i: usize = 0;
    while i < ms.len()
        invariant
            i <= ms.len(),
            views(out@) == job_names(ms@.take(i as int)),
        decreases ms.len() - i,
    {
        let c = ms[i].name.clone();
        proof {
            assert(c@ == ms@[i as int].name@);
        }
        let ghost before = out@;
        out.push(c);
        proof {
            assert(out@ == before.push(c));
            assert(views(out@) =~= views(before).push(c@));
            assert(job_names(ms@.take(i + 1)) =~= job_names(ms@.take(i as int)).push(ms@[i as int].name@));
        }
        i = i + 1;
    }
    proof {
        assert(ms@.take(ms@.len() as int) =~= ms@);
    }
    out
}

/// Build the DAG at `dir` from its jobs `ms` (in name order): resolve the
/// `depends_on` entries, allow DAG-level overrides on one task at most, and
/// order the tasks.
fn build_dag(project: &str, dir: Vec<String>, ms: Vec<DagJob>, all_names: &Vec<String>) -> (r: Result<CollectedDag, CollectError>)
    requires
        strictly_sorted(job_names(ms@)),
        ms@.len() > 0,
    ensures
        match r {
            Ok(c) => views(c.dir@) == views(dir@) && dag_of_members(project@, ms@, views(all_names@), c),
            Err(e) => error_dir(e) == views(dir@) && build_error(ms@, views(all_names@), e),
        },
{
    let ghost all = views(all_names@);
    let task_ids = task_names(&ms);
    let deps = match resolve_all_depends_on(&ms, &task_ids, all_names) {
        Ok(d) => d,
        Err(f) => {
            return Err(CollectError::Dependency { dir, failure: f });
        },
    };
    let ghost w = resolve_jobs(ms@, ms@.len() as int, job_names(ms@), all)->Ok_0;
    proof {
        lemma_resolved_len(ms@, ms@.len() as int, job_names(ms@), all);
        assert(resolved_as(deps@, w));
        assert(deps@.len() == task_ids@.len());
    }
    match enforce_single_dag_level_override(&ms) {
        Ok(()) => {},
        Err((a, b)) => {
            return Err(CollectError::Overrides { dir, first: a, second: b });
        },
    }
    let order = match topo_sort(&task_ids, &deps) {
        Ok(o) => o,
        Err(msg) => {
            proof {
                assert(resolved_as(deps@, w));
            }
            return Err(CollectError::Cycle { dir, message: msg });
        },
    };
    let name = dag_name(project, file_name_of(&dir));
    let mut depends_on: Vec<(String, Vec<String>)> = Vec::new();
    let mut rest = deps;
    let ghost dv = rest@;
    let n = rest.len();
    let mut i: usize = 0;
    proof {
        assert(dv.skip(0) =~= dv);
    }
    while i < n
        invariant
            n == dv.len(),
            n == task_ids.len(),
            i <= n,
            rest@ == dv.skip(i as int),
            depends_on@.len() == i,
            forall|t: int| 0 <= t < i ==> (#[trigger] depends_on@[t]).1 == dv[t] && depends_on@[t].0@ == task_ids@[t]@,
        decreases n - i,
    {
        let d = rest.remove(0);
        proof {
            assert(d == dv[i as int]);
            assert(rest@ =~= dv.skip(i + 1));
        }
        let t = task_ids[i].clone();
        proof {
            assert(t@ == task_ids@[i as int]@);
        }
        depends_on.push((t, d));
        i = i + 1;
    }
    let c = CollectedDag { name, dir, jobs: ms, tasks: order, depends_on };
    proof {
        assert(dep_lists(c) =~= dv);
        assert forall|t: int| 0 <= t < c.jobs@.len() implies (#[trigger] c.depends_on@[t]).0@ == job_names(c.jobs@)[t] by {
            assert(views(task_ids@)[t] == task_ids@[t]@);
        }
    }
    Ok(c)
}

/// The project's DAGs, one per marker directory in path order, when none
/// is nested in another and each builds.
pub open spec fn collected(project: Seq<char>, dirs: Seq<Vec<String>>, jobs: Seq<DagJob>, v: Seq<CollectedDag>) -> bool {
    let os = sort_dirs(dirs_view(dirs));
    &&& !has_nested(os)
    &&& v.len() == os.len()
    &&& forall|k: int|
        0 <= k < os.len() ==> views((#[trigger] v[k]).dir@) == os[k] && dag_of_members(
            project,
            dir_jobs(sort_jobs(jobs), dirs, os, k),
            job_names(jobs),
            v[k],
        )
}

/// The jobs `ms` make a DAG of the project.
pub open spec fn builds(project: Seq<char>, ms: Seq<DagJob>, all: Seq<Seq<char>>) -> bool {
    exists|c: CollectedDag| #[trigger] dag_of_members(project, ms, all, c)
}

/// Every DAG directory before the `k`-th, in path order, has jobs and
/// builds.
pub open spec fn earlier_dirs_build(project: Seq<char>, dirs: Seq<Vec<String>>, jobs: Seq<DagJob>, k: int) -> bool {
    let os = sort_dirs(dirs_view(dirs));
    forall|q: int|
        0 <= q < k ==> (#[trigger] dir_jobs(sort_jobs(jobs), dirs, os, q)).len() > 0 && builds(
            project,
            dir_jobs(sort_jobs(jobs), dirs, os, q),
            job_names(jobs),
        )
}

/// What an error of [`collect_dags`] says of its input: a nesting of DAG
/// directories; or else the first DAG directory, in path order, that has
/// no jobs or does not build, with why.
pub open spec fn collect_failure(project: Seq<char>, dirs: Seq<Vec<String>>, jobs: Seq<DagJob>, e: CollectError) -> bool {
    let os = sort_dirs(dirs_view(dirs));
    match e {
        CollectError::Nested { inner, outer } => exists|i: int, j: int|
            0 <= i < os.len() && 0 <= j < os.len() && #[trigger] os[i] == views(outer@) && #[trigger] os[j] == views(
                inner@,
            ) && strict_ancestor(views(outer@), views(inner@)),
        CollectError::Empty { dir } => !has_nested(os) && exists|k: int|
            0 <= k < os.len() && #[trigger] os[k] == views(dir@) && dir_jobs(sort_jobs(jobs), dirs, os, k).len() == 0
                && earlier_dirs_build(project, dirs, jobs, k),
        _ => !has_nested(os) && exists|k: int|
            0 <= k < os.len() && #[trigger] os[k] == error_dir(e) && dir_jobs(sort_jobs(jobs), dirs, os, k).len() > 0
                && build_error(dir_jobs(sort_jobs(jobs), dirs, os, k), job_names(jobs), e)
                && earlier_dirs_build(project, dirs, jobs, k),
    }
}

/// A DAG directory's group holds exactly the jobs that belong to it.
pub proof fn law_group_members(s: Seq<DagJob>, dirs: Seq<Vec<String>>, d: Seq<Seq<char>>, j: DagJob)
    ensures
        group(s, dirs, d).contains(j) <==> (s.contains(j) && assigned_to(j, dirs, d)),
    decreases s.len(),
{
    if s.len() > 0 {
        law_group_members(s.drop_last(), dirs, d, j);
        let g = group(s.drop_last(), dirs, d);
        let tail = if assigned_to(s.last(), dirs, d) {
            seq![s.last()]
        } else {
            Seq::<DagJob>::empty()
        };
        assert(group(s, dirs, d) == g + tail);
        if group(s, dirs, d).contains(j) {
            let q = choose|q: int| 0 <= q < (g + tail).len() && (g + tail)[q] == j;
            if q < g.len() {
                assert(g[q] == j);
                assert(g.contains(j));
                let r = choose|r: int| 0 <= r < s.drop_last().len() && s.drop_last()[r] == j;
                assert(s[r] == j);
            } else {
                assert(s[s.len() - 1] == j);
            }
        }
        if s.contains(j) && assigned_to(j, dirs, d) {
            let r = choose|r: int| 0 <= r < s.len() && s[r] == j;
            if r < s.len() - 1 {
                assert(s.drop_last()[r] == j);
                let q = choose|q: int| 0 <= q < g.len() && g[q] == j;
                assert((g + tail)[q] == j);
            } else {
                assert((g + tail)[g.len() as int] == j);
            }
        }
    }
}

/// A job belongs to at most one DAG: the groups of two different DAG
/// directories share no job.
pub proof fn law_job_in_one_dag(s: Seq<DagJob>, dirs: Seq<Vec<String>>, d1: Seq<Seq<char>>, d2: Seq<Seq<char>>, j: DagJob)
    requires
        d1 != d2,
    ensures
        !(group(s, dirs, d1).contains(j) && group(s, dirs, d2).contains(j)),
{
    law_group_members(s, dirs, d1, j);
    law_group_members(s, dirs, d2, j);
}

/// What a successful collection rules out: no DAG directory lies inside
/// another, and every DAG directory (its first occurrence) gets at least one
/// job, with DAG-level overrides on at most one of them and every
/// `depends_on` entry resolved.
pub proof fn law_collected_dags_are_sound(project: Seq<char>, dirs: Seq<Vec<String>>, jobs: Seq<DagJob>, v: Seq<CollectedDag>, k: int)
    requires
        collected(project, dirs, jobs, v),
        0 <= k < sort_dirs(dirs_view(dirs)).len(),
    ensures
        !has_nested(sort_dirs(dirs_view(dirs))),
        dir_jobs(sort_jobs(jobs), dirs, sort_dirs(dirs_view(dirs)), k).len() > 0,
        overriding(dir_jobs(sort_jobs(jobs), dirs, sort_dirs(dirs_view(dirs)), k)).len() <= 1,
        ({
            let ms = dir_jobs(sort_jobs(jobs), dirs, sort_dirs(dirs_view(dirs)), k);
            resolve_jobs(ms, ms.len() as int, job_names(ms), job_names(jobs)) is Ok
        }),
        v[k].name@ == dag_name_of(project, dir_file_name(sort_dirs(dirs_view(dirs))[k])),
{
    assert(views(v[k].dir@) == sort_dirs(dirs_view(dirs))[k]);
}

/// The DAGs built so far witness that the directories before the `k`-th
/// build.
proof fn lemma_earlier_built(project: Seq<char>, dirs: Seq<Vec<String>>, jobs: Seq<DagJob>, out: Seq<CollectedDag>, k: int)
    requires
        0 <= k <= out.len(),
        forall|q: int|
            0 <= q < k ==> dag_of_members(
                project,
                dir_jobs(sort_jobs(jobs), dirs, sort_dirs(dirs_view(dirs)), q),
                job_names(jobs),
                #[trigger] out[q],
            ),
    ensures
        earlier_dirs_build(project, dirs, jobs, k),
{
    let os = sort_dirs(dirs_view(dirs));
    assert forall|q: int| 0 <= q < k implies (#[trigger] dir_jobs(sort_jobs(jobs), dirs, os, q)).len() > 0 && builds(
        project,
        dir_jobs(sort_jobs(jobs), dirs, os, q),
        job_names(jobs),
    ) by {
        assert(dag_of_members(project, dir_jobs(sort_jobs(jobs), dirs, os, q), job_names(jobs), out[q]));
    }
}

/// A DAG directory either builds or fails, never both: jobs that make a
/// DAG give no build error.
pub proof fn law_build_outcomes_exclusive(project: Seq<char>, ms: Seq<DagJob>, all: Seq<Seq<char>>, c: CollectedDag, e: CollectError)
    requires
        dag_of_members(project, ms, all, c),
    ensures
        !build_error(ms, all, e),
{
    match e {
        CollectError::Cycle { message, .. } => {
            if build_error(ms, all, e) {
                let w = resolve_jobs(ms, ms.len() as int, job_names(ms), all)->Ok_0;
                let (deps, placed, rest) = choose|deps: Seq<Vec<String>>, placed: Seq<int>, rest: Seq<int>|
                    {
                        &&& #[trigger] resolved_as(deps, w)
                        &&& placed.len() < ms.len()
                        &&& #[trigger] greedy_order(numbered_deps(job_names(ms), deps), ms.len() as int, placed)
                        &&& stuck(numbered_deps(job_names(ms), deps), ms.len() as int, placed)
                        &&& #[trigger] leftover(ms.len() as int, placed, rest)
                        &&& message@ == cycle_message(names_of(job_names(ms), rest))
                    };
                let n = ms.len() as int;
                let dc = dep_lists(c);
                lemma_resolved_len(ms, n, job_names(ms), all);
                assert(w.len() == n);
                // the two dependency lists resolve the same names in the same order
                assert forall|t: int| 0 <= t < n implies views(#[trigger] deps[t]@) == views(dc[t]@) by {
                    assert(c.depends_on@[t].1 == dc[t]);
                    assert(strictly_sorted(views(deps[t]@)));
                    assert(forall|x: Seq<char>| views(deps[t]@).contains(x) <==> w[t].contains(x));
                    let a = views(deps[t]@);
                    let b = views(dc[t]@);
                    assert(a.to_set() =~= b.to_set()) by {
                        assert forall|x: Seq<char>| a.to_set().contains(x) <==> b.to_set().contains(x) by {
                            assert(a.contains(x) <==> w[t].contains(x));
                            assert(b.contains(x) <==> w[t].contains(x));
                        }
                    }
                    lemma_sorted_names_unique(a, b);
                }
                let g = numbered_deps(job_names(ms), deps);
                assert(g =~= numbered_deps(job_names(ms), dc)) by {
                    assert(dc.len() == n);
                    assert forall|t: int| 0 <= t < n implies g[t] == numbered_deps(job_names(ms), dc)[t] by {
                        assert(views(deps[t]@) == views(dc[t]@));
                    }
                }
                let order = choose|order: Seq<int>| {
                    &&& order.len() == ms.len()
                    &&& #[trigger] greedy_order(numbered_deps(job_names(ms), dc), ms.len() as int, order)
                    &&& views(c.tasks@) == names_of(job_names(ms), order)
                };
                let m = placed.len() as int;
                let pre = order.take(m);
                assert forall|p: int| 0 <= p < pre.len() implies is_next(g, n, pre.take(p), #[trigger] pre[p]) by {
                    assert(pre.take(p) =~= order.take(p));
                    assert(is_next(g, n, order.take(p), order[p]));
                }
                law_order_is_deterministic(g, n, pre, placed);
                assert(is_next(g, n, order.take(m), order[m]));
                assert(is_ready(g, placed, order[m]));
            }
        },
        _ => {},
    }
}

/// An error names the first DAG directory, in path order, that has no jobs
/// or does not build: every directory before it has jobs and fails in no
/// way.
pub proof fn law_collect_reports_first_failure(project: Seq<char>, dirs: Seq<Vec<String>>, jobs: Seq<DagJob>, k: int, q: int, e: CollectError)
    requires
        earlier_dirs_build(project, dirs, jobs, k),
        0 <= q < k,
    ensures
        dir_jobs(sort_jobs(jobs), dirs, sort_dirs(dirs_view(dirs)), q).len() > 0,
        !build_error(dir_jobs(sort_jobs(jobs), dirs, sort_dirs(dirs_view(dirs)), q), job_names(jobs), e),
{
    let ms = dir_jobs(sort_jobs(jobs), dirs, sort_dirs(dirs_view(dirs)), q);
    assert(builds(project, ms, job_names(jobs)));
    let c = choose|c: CollectedDag| #[trigger] dag_of_members(project, ms, job_names(jobs), c);
    law_build_outcomes_exclusive(project, ms, job_names(jobs), c, e);
}

/// Group the project's jobs into DAGs: `dag_dirs` are the directories
/// holding a `dag.yaml` marker. Each job belongs to the nearest of them at
/// or above its directory (jobs under none are in no DAG). The DAGs come
/// in path order, each with its jobs in name order, its dependencies
/// resolved and its tasks ordered. It fails when a marker directory lies
/// inside another, when one has no jobs, or when a DAG does not build.
pub fn collect_dags(project: &str, dag_dirs: &Vec<Vec<String>>, jobs: Vec<DagJob>) -> (r: Result<Vec<CollectedDag>, CollectError>)
    requires
        unique_names(jobs@),
    ensures
        match r {
            Ok(v) => collected(project@, dag_dirs@, jobs@, v@),
            Err(e) => collect_failure(project@, dag_dirs@, jobs@, e),
        },
{
    let ghost js = jobs@;
    let order = sort_dag_dirs(dag_dirs);
    let ghost os = dirs_view(order@);
    match find_nested(&order) {
        Some((inner, outer)) => {
            let i2 = clone_dir(&order[inner]);
            let o2 = clone_dir(&order[outer]);
            proof {
                assert(os[outer as int] == views(o2@));
                assert(os[inner as int] == views(i2@));
            }
            let e = CollectError::Nested { inner: i2, outer: o2 };
            proof {
                assert(collect_failure(project@, dag_dirs@, js, e));
            }
            return Err(e);
        },
        None => {},
    }
    let all_names = task_names(&jobs);
    let sorted = sort_jobs_by_name(jobs);
    proof {
        law_jobs_sorted_by_name(js);
    }
    let ghost sj = sorted@;
    let groups = partition(sorted, dag_dirs, &order);
    let mut rest = groups;
    let ghost gs = rest@;
    let mut out: Vec<CollectedDag> = Vec::new();
    let n = order.len();
    let mut k: usize = 0;
    proof {
        assert(gs.skip(0) =~= gs);
    }
    while k < n
        invariant
            n == order.len(),
            os == dirs_view(order@),
            os == sort_dirs(dirs_view(dag_dirs@)),
            !has_nested(os),
            sj == sort_jobs(js),
            js == jobs@,
            strictly_sorted(job_names(sj)),
            views(all_names@) == job_names(js),
            gs.len() == n,
            forall|q: int| 0 <= q < n ==> (#[trigger] gs[q])@ == dir_jobs(sj, dag_dirs@, os, q),
            k <= n,
            rest@ == gs.skip(k as int),
            out@.len() == k,
            forall|q: int|
                0 <= q < k ==> views((#[trigger] out@[q]).dir@) == os[q] && dag_of_members(
                    project@,
                    dir_jobs(sj, dag_dirs@, os, q),
                    job_names(js),
                    out@[q],
                ),
        decreases n - k,
    {
        let g = rest.remove(0);
        proof {
            assert(g == gs[k as int]);
            assert(rest@ =~= gs.skip(k + 1));
            assert(os[k as int] == views(order@[k as int]@));
        }
        let dir = clone_dir(&order[k]);
        if g.len() == 0 {
            proof {
                assert(os[k as int] == views(dir@));
                assert(dir_jobs(sj, dag_dirs@, os, k as int).len() == 0);
                lemma_earlier_built(project@, dag_dirs@, js, out@, k as int);
            }
            let e = CollectError::Empty { dir };
            proof {
                assert(collect_failure(project@, dag_dirs@, js, e));
            }
            return Err(e);
        }
        proof {
            if first_idx(os, os[k as int]) == k {
                lemma_group(sj, dag_dirs@, os[k as int]);
            }
        }
        match build_dag(project, dir, g, &all_names) {
            Ok(c) => {
                out.push(c);
            },
            Err(e) => {
                proof {
                    assert(os[k as int] == error_dir(e));
                    assert(dir_jobs(sj, dag_dirs@, os, k as int).len() > 0);
                    lemma_earlier_built(project@, dag_dirs@, js, out@, k as int);
                    assert(collect_failure(project@, dag_dirs@, js, e));
                }
                return Err(e);
            },
        }
        k = k + 1;
    }
    Ok(out)
}

/// A directory as text: its components joined by `/`.
pub open spec fn path_text(c: Seq<Seq<char>>) -> Seq<char> {
    if c.len() > 0 && c[0] == "/"@ {
        "/"@ + joined(c.skip(1), "/"@)
    } else {
        joined(c, "/"@)
    }
}

/// A directory as text.
pub fn display_path(c: &Vec<String>) -> (r: String)
    ensures
        r@ == path_text(views(c@)),
{
    if c.len() > 0 && str_eq(c[0].as_str(), "/") {
        let mut rest: Vec<String> = Vec::new();
        let mut i: usize = 1;
        while i < c.len()
            invariant
                1 <= i <= c.len(),
                views(rest@) == views(c@).subrange(1, i as int),
            decreases c.len() - i,
        {
            let x = c[i].clone();
            proof {
                assert(x@ == c@[i as int]@);
            }
            let ghost before = rest@;
            rest.push(x);
            proof {
                assert(rest@ == before.push(x));
                assert(views(rest@) =~= views(before).push(x@));
                assert(views(rest@) =~= views(c@).subrange(1, i + 1));
            }
            i = i + 1;
        }
        proof {
            assert(views(c@).subrange(1, c@.len() as int) =~= views(c@).skip(1));
            assert(views(c@)[0] == c@[0]@);
        }
        let mut out = crate::text::owned("/");
        let j = crate::text::join(&rest, "/");
        crate::text::push_str(&mut out, j.as_str());
        out
    } else {
        proof {
            if c@.len() > 0 {
                assert(views(c@)[0] == c@[0]@);
            }
        }
        crate::text::join(c, "/")
    }
}

impl CollectError {
    /// The error as the user reads it.
    pub fn message(&self) -> (m: String)
        ensures
            m@ == match *self {
                CollectError::Nested { inner, outer } => "nested dag.yaml: '"@ + path_text(views(inner@))
                    + "' is inside another DAG at '"@ + path_text(views(outer@)) + "'"@,
                CollectError::Empty { dir } => "dag.yaml at '"@ + path_text(views(dir@)) + "' has no task files"@,
                CollectError::Dependency { dir, failure } => crate::dag::dep_error_text(
                    failure.error@,
                    failure.task@,
                    path_text(views(dir@)),
                    failure.dep@,
                ),
                CollectError::Overrides { dir, first, second } => "DAG at '"@ + path_text(views(dir@))
                    + "' has DAG-level overrides declared on multiple tasks: '"@ + first@ + "' and '"@ + second@
                    + "' \u{2014} at most one task may declare schedule/retries/owner/dags_bucket/dags_prefix"@,
                CollectError::Cycle { message, .. } => message@,
            },
    {
        match self {
            CollectError::Nested { inner, outer } => {
                let mut m = crate::text::owned("nested dag.yaml: '");
                let a = display_path(inner);
                crate::text::push_str(&mut m, a.as_str());
                crate::text::push_str(&mut m, "' is inside another DAG at '");
                let b = display_path(outer);
                crate::text::push_str(&mut m, b.as_str());
                crate::text::push_str(&mut m, "'");
                m
            },
            CollectError::Empty { dir } => {
                let mut m = crate::text::owned("dag.yaml at '");
                let a = display_path(dir);
                crate::text::push_str(&mut m, a.as_str());
                crate::text::push_str(&mut m, "' has no task files");
                m
            },
            CollectError::Dependency { dir, failure } => {
                let a = display_path(dir);
                failure.error.message(failure.task.as_str(), a.as_str(), failure.dep.as_str())
            },
            CollectError::Overrides { dir, first, second } => {
                let mut m = crate::text::owned("DAG at '");
                let a = display_path(dir);
                crate::text::push_str(&mut m, a.as_str());
                crate::text::push_str(&mut m, "' has DAG-level overrides declared on multiple tasks: '");
                crate::text::push_str(&mut m, first.as_str());
                crate::text::push_str(&mut m, "' and '");
                crate::text::push_str(&mut m, second.as_str());
                crate::text::push_str(
                    &mut m,
                    "' \u{2014} at most one task may declare schedule/retries/owner/dags_bucket/dags_prefix",
                );
                m
            },
            CollectError::Cycle { message, .. } => message.clone(),
        }
    }
}

} // verus!
