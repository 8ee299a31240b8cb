//! Ordering the tasks of a DAG: Kahn's algorithm with the smallest ready
//! task taken first, so that the order is the same on every run.
//!
//! Tasks are numbered `0..n` in alphabetical order of their names; task
//! `t` depends on the tasks `deps[t]`. A task is ready once all of its
//! dependencies have been placed; each step places the smallest ready task.
//! The run either places every task or gets stuck with tasks left over,
//! which happens exactly when the dependencies hold a cycle.
use vstd::prelude::*;
use vstd::set_lib::{lemma_int_range, lemma_subset_equality, set_int_range};
use crate::text::{join, joined, owned, push_str, str_eq, strictly_sorted, views};

verus! {

/// Indices as integers.
pub open spec fn as_ints(v: Seq<usize>) -> Seq<int> {
    v.map_values(|x: usize| x as int)
}

/// The dependency lists as integers.
pub open spec fn deps_view(deps: Seq<Vec<usize>>) -> Seq<Seq<int>> {
    deps.map_values(|v: Vec<usize>| as_ints(v@))
}

/// Every dependency of `t` has been placed in `order`.
pub open spec fn deps_placed(deps: Seq<Seq<int>>, order: Seq<int>, t: int) -> bool {
    forall|k: int| 0 <= k < deps[t].len() ==> order.contains(#[trigger] deps[t][k])
}

/// `t` is not placed yet and all its dependencies are.
pub open spec fn is_ready(deps: Seq<Seq<int>>, order: Seq<int>, t: int) -> bool {
    !order.contains(t) && deps_placed(deps, order, t)
}

/// `t` is the smallest ready task after `order`.
pub open spec fn is_next(deps: Seq<Seq<int>>, n: int, order: Seq<int>, t: int) -> bool {
    &&& 0 <= t < n
    &&& is_ready(deps, order, t)
    &&& forall|u: int| 0 <= u < t ==> !#[trigger] is_ready(deps, order, u)
}

/// `order` is what the algorithm places, step by step: each task the
/// smallest one ready after those before it.
pub open spec fn greedy_order(deps: Seq<Seq<int>>, n: int, order: Seq<int>) -> bool {
    forall|p: int| 0 <= p < order.len() ==> is_next(deps, n, order.take(p), #[trigger] order[p])
}

/// No task is ready after `order`.
pub open spec fn stuck(deps: Seq<Seq<int>>, n: int, order: Seq<int>) -> bool {
    forall|t: int| 0 <= t < n ==> !#[trigger] is_ready(deps, order, t)
}

/// `order` holds each task of `0..n` once, every task after its
/// dependencies.
pub open spec fn topological(deps: Seq<Seq<int>>, n: int, order: Seq<int>) -> bool {
    &&& order.len() == n
    &&& order.no_duplicates()
    &&& forall|t: int| 0 <= t < n ==> #[trigger] order.contains(t)
    &&& forall|p: int| 0 <= p < n ==> deps_placed(deps, order.take(p), #[trigger] order[p])
}

/// The tasks of `0..n` left out of `order`, in increasing order.
pub open spec fn leftover(n: int, order: Seq<int>, rest: Seq<int>) -> bool {
    &&& forall|i: int, j: int| 0 <= i < j < rest.len() ==> rest[i] < rest[j]
    &&& forall|t: int| #[trigger] rest.contains(t) <==> (0 <= t < n && !order.contains(t))
}

/// Places the tasks `0..deps.len()` in dependency order, the smallest ready
/// task first. `Ok` holds the whole order; `Err` the tasks left over, in
/// increasing order, when the run gets stuck.
pub fn kahn_order(deps: &Vec<Vec<usize>>) -> (r: Result<Vec<usize>, Vec<usize>>)
    ensures
        match r {
            Ok(order) => {
                &&& order@.len() == deps@.len()
                &&& greedy_order(deps_view(deps@), deps@.len() as int, as_ints(order@))
            },
            Err(rest) => exists|prefix: Seq<int>| {
                &&& prefix.len() < deps@.len()
                &&& greedy_order(deps_view(deps@), deps@.len() as int, prefix)
                &&& stuck(deps_view(deps@), deps@.len() as int, prefix)
                &&& leftover(deps@.len() as int, prefix, as_ints(rest@))
            },
        },
{
    let n = deps.len();
    let ghost d = deps_view(deps@);
    let mut placed: Vec<bool> = Vec::new();
    let mut i: usize = 0;
    while i < n
        invariant
            n == deps.len(),
            i <= n,
            placed@.len() == i,
            forall|t: int| 0 <= t < i ==> !placed@[t],
        decreases n - i,
    {
        placed.push(false);
        i = i + 1;
    }
    let mut order: Vec<usize> = Vec::new();
    while order.len() < n
        invariant
            n == deps.len(),
            d == deps_view(deps@),
            placed@.len() == n,
            order@.len() <= n,
            forall|t: int| 0 <= t < n ==> placed@[t] == as_ints(order@).contains(t),
            forall|p: int| 0 <= p < order@.len() ==> order@[p] < n,
            greedy_order(d, n as int, as_ints(order@)),
        decreases n - order@.len(),
    {
        let ghost o = as_ints(order@);
        let mut t: usize = 0;
        let mut found = false;
        while t < n && !found
            invariant
                n == deps.len(),
                d == deps_view(deps@),
                placed@.len() == n,
                o == as_ints(order@),
                forall|u: int| 0 <= u < n ==> placed@[u] == o.contains(u),
                forall|p: int| 0 <= p < o.len() ==> 0 <= #[trigger] o[p] < n,
                t <= n,
                found ==> t < n && is_ready(d, o, t as int),
                forall|u: int| 0 <= u < t && !(found && u == t) ==> !#[trigger] is_ready(d, o, u),
            decreases n - t, if found { 0int } else { 1int },
        {
            if !placed[t] {
                let ds = &deps[t];
                proof {
                    assert(d[t as int] == as_ints(ds@));
                }
                let mut k: usize = 0;
                let mut all = true;
                while k < ds.len() && all
                    invariant
                        n == deps.len(),
                        d == deps_view(deps@),
                        placed@.len() == n,
                        t < n,
                        *ds == deps@[t as int],
                        d[t as int] == as_ints(ds@),
                        forall|u: int| 0 <= u < n ==> placed@[u] == o.contains(u),
                        forall|p: int| 0 <= p < o.len() ==> 0 <= #[trigger] o[p] < n,
                        k <= ds.len(),
                        all ==> forall|m: int| 0 <= m < k ==> o.contains(#[trigger] d[t as int][m]),
                        !all ==> k > 0 && !o.contains(d[t as int][k - 1]),
                    decreases ds.len() - k, if all { 1int } else { 0int },
                {
                    let x = ds[k];
                    proof {
                        assert(d[t as int][k as int] == x as int);
                    }
                    if x >= n || !placed[x] {
                        all = false;
                    }
                    k = k + 1;
                }
                if all {
                    found = true;
                } else {
                    t = t + 1;
                }
            } else {
                t = t + 1;
            }
        }
        if !found {
            let mut rest: Vec<usize> = Vec::new();
            let mut u: usize = 0;
            while u < n
                invariant
                    n == deps.len(),
                    placed@.len() == n,
                    forall|w: int| 0 <= w < n ==> placed@[w] == o.contains(w),
                    u <= n,
                    forall|a: int, b: int| 0 <= a < b < rest@.len() ==> rest@[a] < rest@[b],
                    forall|a: int| 0 <= a < rest@.len() ==> rest@[a] < u,
                    forall|w: int|
                        #[trigger] as_ints(rest@).contains(w) <==> (0 <= w < u
                            && !o.contains(w)),
                decreases n - u,
            {
                let ghost before = rest@;
                if !placed[u] {
                    rest.push(u);
                    proof {
                        assert forall|w: int| #[trigger] as_ints(rest@).contains(w) <==> (0 <= w < u + 1 && !o.contains(w)) by {
                            if as_ints(rest@).contains(w) {
                                let q = choose|q: int| 0 <= q < rest@.len() && #[trigger] as_ints(rest@)[q] == w;
                                if q < before.len() {
                                    assert(as_ints(before)[q] == w);
                                    assert(as_ints(before).contains(w));
                                } else {
                                    assert(w == u);
                                    assert(!o.contains(u as int));
                                }
                            }
                            if 0 <= w < u + 1 && !o.contains(w) {
                                if w < u {
                                    assert(as_ints(before).contains(w));
                                    let q = choose|q: int| 0 <= q < before.len() && #[trigger] as_ints(before)[q] == w;
                                    assert(as_ints(rest@)[q] == w);
                                } else {
                                    assert(as_ints(rest@)[before.len() as int] == w);
                                }
                            }
                        }
                    }
                } else {
                    proof {
                        assert(as_ints(rest@) == as_ints(before));
                    }
                }
                u = u + 1;
            }
            proof {
                let rv = as_ints(rest@);
                assert forall|t: int| 0 <= t < n implies !#[trigger] is_ready(d, o, t) by {}
                assert(leftover(n as int, o, rv));
            }
            return Err(rest);
        }
        proof {
            let o2 = o.push(t as int);
            assert forall|p: int| 0 <= p < o2.len() implies is_next(d, n as int, o2.take(p), #[trigger] o2[p]) by {
                if p < o.len() {
                    assert(o2.take(p) =~= o.take(p));
                    assert(o2[p] == o[p]);
                } else {
                    assert(o2.take(p) =~= o);
                }
            }
        }
        placed.set(t, true);
        order.push(t);
        proof {
            assert(as_ints(order@) =~= o.push(t as int));
            assert forall|w: int| 0 <= w < n implies placed@[w] == as_ints(order@).contains(w) by {
                if w == t {
                    assert(as_ints(order@)[o.len() as int] == t);
                } else {
                    if o.push(t as int).contains(w) {
                        let q = choose|q: int| 0 <= q < o.len() + 1 && #[trigger] o.push(t as int)[q] == w;
                        assert(o[q] == w);
                    }
                    if o.contains(w) {
                        let q = choose|q: int| 0 <= q < o.len() && #[trigger] o[q] == w;
                        assert(o.push(t as int)[q] == w);
                    }
                }
            }
        }
    }
    Ok(order)
}

// ------------------------------------------------------------------
// Laws
// ------------------------------------------------------------------

proof fn lemma_greedy_distinct_in_range(deps: Seq<Seq<int>>, n: int, order: Seq<int>)
    requires
        greedy_order(deps, n, order),
    ensures
        order.no_duplicates(),
        forall|p: int| 0 <= p < order.len() ==> 0 <= #[trigger] order[p] < n,
{
    assert forall|p: int| 0 <= p < order.len() implies 0 <= #[trigger] order[p] < n by {
        assert(is_next(deps, n, order.take(p), order[p]));
    }
    assert forall|i: int, j: int| 0 <= i < j < order.len() implies order[i] != order[j] by {
        assert(is_next(deps, n, order.take(j), order[j]));
        assert(order.take(j)[i] == order[i]);
    }
}

/// A duplicate-free sequence of `n` numbers in `0..n` holds every one of them.
proof fn lemma_covers_range(order: Seq<int>, n: int)
    requires
        order.len() == n,
        order.no_duplicates(),
        forall|p: int| 0 <= p < order.len() ==> 0 <= #[trigger] order[p] < n,
    ensures
        forall|t: int| 0 <= t < n ==> #[trigger] order.contains(t),
{
    order.unique_seq_to_set();
    lemma_int_range(0, n);
    assert(order.to_set().subset_of(set_int_range(0, n)));
    lemma_subset_equality(order.to_set(), set_int_range(0, n));
    assert forall|t: int| 0 <= t < n implies #[trigger] order.contains(t) by {
        assert(set_int_range(0, n).contains(t));
        assert(order.to_set().contains(t));
    }
}

/// When every task is placed, the order holds each task exactly once and
/// every task comes after all of its dependencies.
pub proof fn law_complete_order_is_topological(deps: Seq<Seq<int>>, n: int, order: Seq<int>)
    requires
        greedy_order(deps, n, order),
        order.len() == n,
    ensures
        topological(deps, n, order),
{
    lemma_greedy_distinct_in_range(deps, n, order);
    lemma_covers_range(order, n);
    assert forall|p: int| 0 <= p < n implies deps_placed(deps, order.take(p), #[trigger] order[p]) by {
        assert(is_next(deps, n, order.take(p), order[p]));
    }
}

/// The position of the first element of `q[from..]` missing from `placed`.
proof fn first_missing(q: Seq<int>, placed: Seq<int>, from: int) -> (p: int)
    requires
        0 <= from <= q.len(),
        forall|i: int| 0 <= i < from ==> placed.contains(#[trigger] q[i]),
        exists|i: int| from <= i < q.len() && !placed.contains(#[trigger] q[i]),
    ensures
        from <= p < q.len(),
        !placed.contains(q[p]),
        forall|i: int| 0 <= i < p ==> placed.contains(#[trigger] q[i]),
    decreases q.len() - from,
{
    if !placed.contains(q[from]) {
        from
    } else {
        first_missing(q, placed, from + 1)
    }
}

/// When the run gets stuck with tasks left over, no order of the tasks puts
/// every task after its dependencies: the dependencies hold a cycle.
pub proof fn law_stuck_means_no_order(deps: Seq<Seq<int>>, n: int, placed: Seq<int>, other: Seq<int>)
    requires
        greedy_order(deps, n, placed),
        stuck(deps, n, placed),
        placed.len() < n,
    ensures
        !topological(deps, n, other),
{
    if topological(deps, n, other) {
        lemma_greedy_distinct_in_range(deps, n, placed);
        lemma_int_range(0, n);
        other.unique_seq_to_set();
        assert(set_int_range(0, n).subset_of(other.to_set()));
        lemma_subset_equality(set_int_range(0, n), other.to_set());
        assert forall|i: int| 0 <= i < other.len() implies 0 <= #[trigger] other[i] < n by {
            assert(other.to_set().contains(other[i]));
        }
        if forall|t: int| 0 <= t < n ==> #[trigger] placed.contains(t) {
            placed.unique_seq_to_set();
            assert(set_int_range(0, n).subset_of(placed.to_set()));
            vstd::set_lib::lemma_len_subset(set_int_range(0, n), placed.to_set());
            assert(false);
        }
        let t = choose|t: int| 0 <= t < n && !#[trigger] placed.contains(t);
        assert(other.contains(t));
        let qi = choose|qi: int| 0 <= qi < other.len() && #[trigger] other[qi] == t;
        let p = first_missing(other, placed, 0);
        let x = other[p];
        assert(deps_placed(deps, other.take(p), x));
        assert forall|k: int| 0 <= k < deps[x].len() implies placed.contains(#[trigger] deps[x][k]) by {
            assert(other.take(p).contains(deps[x][k]));
            let j = choose|j: int| 0 <= j < p && #[trigger] other.take(p)[j] == deps[x][k];
            assert(other[j] == deps[x][k]);
        }
        assert(0 <= x < n);
        assert(is_ready(deps, placed, x));
    }
}

/// Two runs on the same dependencies that place the same number of tasks
/// place them in the same order: the order is a function of the
/// dependencies alone.
pub proof fn law_order_is_deterministic(deps: Seq<Seq<int>>, n: int, a: Seq<int>, b: Seq<int>)
    requires
        greedy_order(deps, n, a),
        greedy_order(deps, n, b),
        a.len() == b.len(),
    ensures
        a == b,
    decreases a.len(),
{
    if a.len() > 0 {
        let m = a.len() - 1;
        assert forall|p: int| 0 <= p < m implies is_next(deps, n, a.drop_last().take(p), #[trigger] a.drop_last()[p]) by {
            assert(a.drop_last().take(p) =~= a.take(p));
            assert(is_next(deps, n, a.take(p), a[p]));
        }
        assert forall|p: int| 0 <= p < m implies is_next(deps, n, b.drop_last().take(p), #[trigger] b.drop_last()[p]) by {
            assert(b.drop_last().take(p) =~= b.take(p));
            assert(is_next(deps, n, b.take(p), b[p]));
        }
        law_order_is_deterministic(deps, n, a.drop_last(), b.drop_last());
        assert(a.take(m) =~= a.drop_last());
        assert(b.take(m) =~= b.drop_last());
        assert(is_next(deps, n, a.take(m), a[m]));
        assert(is_next(deps, n, b.take(m), b[m]));
        if a[m] < b[m] {
            assert(!is_ready(deps, b.take(m), a[m]));
        } else if b[m] < a[m] {
            assert(!is_ready(deps, a.take(m), b[m]));
        }
        assert(a =~= a.drop_last().push(a[m]));
        assert(b =~= b.drop_last().push(b[m]));
    }
}

/// The first position from `from` on where `a` and `b` differ.
proof fn first_difference(a: Seq<int>, b: Seq<int>, from: int) -> (p: int)
    requires
        a.len() == b.len(),
        0 <= from <= a.len(),
        forall|i: int| 0 <= i < from ==> #[trigger] a[i] == b[i],
        exists|i: int| from <= i < a.len() && #[trigger] a[i] != b[i],
    ensures
        from <= p < a.len(),
        a[p] != b[p],
        forall|i: int| 0 <= i < p ==> #[trigger] a[i] == b[i],
    decreases a.len() - from,
{
    if a[from] != b[from] {
        from
    } else {
        first_difference(a, b, from + 1)
    }
}

/// No dependency order comes before the one placed: a complete run's order
/// is the lexicographically smallest of all orders that put every task after
/// its dependencies. (Tasks are numbered in alphabetical order of their
/// names, so this is the alphabetically smallest order of names.)
pub proof fn law_order_is_smallest(deps: Seq<Seq<int>>, n: int, a: Seq<int>, b: Seq<int>)
    requires
        greedy_order(deps, n, a),
        a.len() == n,
        topological(deps, n, b),
    ensures
        a == b || exists|p: int| 0 <= p < n && a.take(p) == b.take(p) && #[trigger] a[p] < b[p],
{
    if a != b {
        if forall|i: int| 0 <= i < n ==> #[trigger] a[i] == b[i] {
            assert(a =~= b);
        }
        let p = first_difference(a, b, 0);
        assert(a.take(p) =~= b.take(p));
        // every element of b lies in 0..n
        lemma_int_range(0, n);
        b.unique_seq_to_set();
        assert(set_int_range(0, n).subset_of(b.to_set()));
        lemma_subset_equality(set_int_range(0, n), b.to_set());
        assert(b.to_set().contains(b[p]));
        assert(0 <= b[p] < n);
        // b[p] is ready after the common prefix
        assert(deps_placed(deps, b.take(p), b[p]));
        if b.take(p).contains(b[p]) {
            let j = choose|j: int| 0 <= j < p && #[trigger] b.take(p)[j] == b[p];
            assert(b[j] == b[p]);
        }
        assert(is_ready(deps, a.take(p), b[p]));
        assert(is_next(deps, n, a.take(p), a[p]));
        if b[p] < a[p] {
            assert(!is_ready(deps, a.take(p), b[p]));
        }
        assert(a[p] < b[p]);
    }
}

// ------------------------------------------------------------------
// Tasks by name
// ------------------------------------------------------------------

/// The number of the task called `name`, or `tasks.len()` when no task has
/// that name.
pub open spec fn task_number(tasks: Seq<Seq<char>>, name: Seq<char>) -> int {
    if tasks.contains(name) {
        choose|i: int| 0 <= i < tasks.len() && tasks[i] == name
    } else {
        tasks.len() as int
    }
}

/// The dependency lists, by task number.
pub open spec fn numbered_deps(tasks: Seq<Seq<char>>, deps: Seq<Vec<String>>) -> Seq<Seq<int>> {
    deps.map_values(|ds: Vec<String>| views(ds@).map_values(|d: Seq<char>| task_number(tasks, d)))
}

/// The names of numbered tasks.
pub open spec fn names_of(tasks: Seq<Seq<char>>, order: Seq<int>) -> Seq<Seq<char>> {
    order.map_values(|i: int| tasks[i])
}

/// `ns` orders the task names: each task once, each after the tasks it
/// depends on.
pub open spec fn valid_name_order(tasks: Seq<Seq<char>>, deps: Seq<Vec<String>>, ns: Seq<Seq<char>>) -> bool {
    &&& ns.len() == tasks.len()
    &&& ns.no_duplicates()
    &&& forall|p: int| 0 <= p < ns.len() ==> tasks.contains(#[trigger] ns[p])
    &&& forall|t: int| 0 <= t < tasks.len() ==> ns.contains(#[trigger] tasks[t])
    &&& forall|p: int, k: int|
        0 <= p < ns.len() && 0 <= k < views(deps[task_number(tasks, ns[p])]@).len() ==> ns.take(p).contains(
            #[trigger] views(deps[task_number(tasks, ns[p])]@)[k],
        )
}

/// In alphabetically sorted names, a task's number is its position.
proof fn lemma_task_number_of(tasks: Seq<Seq<char>>, i: int)
    requires
        strictly_sorted(tasks),
        0 <= i < tasks.len(),
    ensures
        task_number(tasks, tasks[i]) == i,
{
    assert(tasks.contains(tasks[i]));
    let c = task_number(tasks, tasks[i]);
    assert(0 <= c < tasks.len() && tasks[c] == tasks[i]);
    if c < i {
        assert(crate::text::lex_lt(tasks[c], tasks[i]));
        crate::text::lemma_lex_irreflexive(tasks[i]);
    } else if i < c {
        assert(crate::text::lex_lt(tasks[i], tasks[c]));
        crate::text::lemma_lex_irreflexive(tasks[i]);
    }
}

/// A valid order of names, numbered, is a valid order of task numbers.
proof fn lemma_numbered_order(tasks: Seq<Seq<char>>, deps: Seq<Vec<String>>, ns: Seq<Seq<char>>) -> (b: Seq<int>)
    requires
        strictly_sorted(tasks),
        deps.len() == tasks.len(),
        valid_name_order(tasks, deps, ns),
    ensures
        b.len() == ns.len(),
        forall|p: int| 0 <= p < b.len() ==> 0 <= #[trigger] b[p] < tasks.len() && tasks[b[p]] == ns[p],
        topological(numbered_deps(tasks, deps), tasks.len() as int, b),
{
    let n = tasks.len() as int;
    let g = numbered_deps(tasks, deps);
    let b = ns.map_values(|x: Seq<char>| task_number(tasks, x));
    assert forall|p: int| 0 <= p < b.len() implies 0 <= #[trigger] b[p] < n && tasks[b[p]] == ns[p] by {
        assert(tasks.contains(ns[p]));
    }
    assert forall|i: int, j: int| 0 <= i < b.len() && 0 <= j < b.len() && i != j implies b[i] != b[j] by {
        assert(tasks[b[i]] == ns[i]);
        assert(tasks[b[j]] == ns[j]);
    }
    assert forall|t: int| 0 <= t < n implies #[trigger] b.contains(t) by {
        assert(ns.contains(tasks[t]));
        let p = choose|p: int| 0 <= p < ns.len() && ns[p] == tasks[t];
        lemma_task_number_of(tasks, t);
        assert(b[p] == t);
    }
    assert forall|p: int| 0 <= p < n implies deps_placed(g, b.take(p), #[trigger] b[p]) by {
        let ds = views(deps[b[p]]@);
        assert(g[b[p]] == ds.map_values(|d: Seq<char>| task_number(tasks, d)));
        assert forall|k: int| 0 <= k < g[b[p]].len() implies b.take(p).contains(#[trigger] g[b[p]][k]) by {
            assert(ns.take(p).contains(ds[k]));
            let j = choose|j: int| 0 <= j < p && #[trigger] ns.take(p)[j] == ds[k];
            assert(ns[j] == ds[k]);
            assert(b.take(p)[j] == b[j]);
        }
    }
    b
}

/// The tasks' names in the order placed come before every other valid
/// order of the names: the order of names that `topo_sort` returns is the
/// alphabetically smallest of all orders that put each task after the tasks
/// it depends on.
pub proof fn law_named_order_is_smallest(tasks: Seq<Seq<char>>, deps: Seq<Vec<String>>, order: Seq<int>, ns: Seq<Seq<char>>)
    requires
        strictly_sorted(tasks),
        deps.len() == tasks.len(),
        order.len() == tasks.len(),
        greedy_order(numbered_deps(tasks, deps), tasks.len() as int, order),
        valid_name_order(tasks, deps, ns),
    ensures
        names_of(tasks, order) == ns || exists|p: int|
            0 <= p < ns.len() && names_of(tasks, order).take(p) == ns.take(p) && crate::text::lex_lt(
                #[trigger] names_of(tasks, order)[p],
                ns[p],
            ),
{
    let n = tasks.len() as int;
    let g = numbered_deps(tasks, deps);
    let b = lemma_numbered_order(tasks, deps, ns);
    law_order_is_smallest(g, n, order, b);
    lemma_greedy_distinct_in_range(g, n, order);
    let a = names_of(tasks, order);
    if order == b {
        assert(a =~= ns);
    } else {
        let p = choose|p: int| 0 <= p < n && order.take(p) == b.take(p) && #[trigger] order[p] < b[p];
        assert(a.take(p) =~= ns.take(p)) by {
            assert forall|j: int| 0 <= j < p implies a.take(p)[j] == ns.take(p)[j] by {
                assert(order.take(p)[j] == b.take(p)[j]);
                assert(tasks[b[j]] == ns[j]);
            }
        }
        assert(tasks[b[p]] == ns[p]);
        assert(0 <= order[p] < n);
        assert(crate::text::lex_lt(tasks[order[p]], tasks[b[p]]));
        assert(a[p] == tasks[order[p]]);
        assert(crate::text::lex_lt(a[p], ns[p]));
        assert(0 <= p < ns.len() && a.take(p) == ns.take(p) && crate::text::lex_lt(a[p], ns[p]));
    }
}

/// A complete run's names are a valid order of the names: each task once,
/// each after the tasks it depends on.
pub proof fn law_named_order_is_valid(tasks: Seq<Seq<char>>, deps: Seq<Vec<String>>, order: Seq<int>)
    requires
        strictly_sorted(tasks),
        deps.len() == tasks.len(),
        order.len() == tasks.len(),
        greedy_order(numbered_deps(tasks, deps), tasks.len() as int, order),
    ensures
        valid_name_order(tasks, deps, names_of(tasks, order)),
{
    let n = tasks.len() as int;
    let g = numbered_deps(tasks, deps);
    law_complete_order_is_topological(g, n, order);
    lemma_greedy_distinct_in_range(g, n, order);
    let ns = names_of(tasks, order);
    assert forall|p: int| 0 <= p < ns.len() implies tasks.contains(#[trigger] ns[p]) by {
        assert(ns[p] == tasks[order[p]]);
    }
    assert forall|i: int, j: int| 0 <= i < ns.len() && 0 <= j < ns.len() && i != j implies ns[i] != ns[j] by {
        lemma_task_number_of(tasks, order[i]);
        lemma_task_number_of(tasks, order[j]);
    }
    assert forall|t: int| 0 <= t < n implies ns.contains(#[trigger] tasks[t]) by {
        assert(order.contains(t));
        let p = choose|p: int| 0 <= p < order.len() && order[p] == t;
        assert(ns[p] == tasks[t]);
    }
    assert forall|p: int, k: int|
        0 <= p < ns.len() && 0 <= k < views(deps[task_number(tasks, ns[p])]@).len() implies ns.take(p).contains(
        #[trigger] views(deps[task_number(tasks, ns[p])]@)[k],
    ) by {
        lemma_task_number_of(tasks, order[p]);
        assert(task_number(tasks, ns[p]) == order[p]);
        let d = views(deps[order[p]]@)[k];
        assert(deps_placed(g, order.take(p), order[p]));
        assert(g[order[p]][k] == task_number(tasks, d));
        assert(order.take(p).contains(g[order[p]][k]));
        let j = choose|j: int| 0 <= j < p && #[trigger] order.take(p)[j] == task_number(tasks, d);
        assert(order[j] == task_number(tasks, d));
        assert(0 <= order[j] < n);
        assert(tasks.contains(d));
        assert(tasks[task_number(tasks, d)] == d);
        assert(ns.take(p)[j] == d);
    }
}

/// When the run gets stuck, no order of the names puts each task after the
/// tasks it depends on: `topo_sort` fails exactly on dependency cycles.
pub proof fn law_stuck_means_no_name_order(tasks: Seq<Seq<char>>, deps: Seq<Vec<String>>, placed: Seq<int>, ns: Seq<Seq<char>>)
    requires
        strictly_sorted(tasks),
        deps.len() == tasks.len(),
        greedy_order(numbered_deps(tasks, deps), tasks.len() as int, placed),
        stuck(numbered_deps(tasks, deps), tasks.len() as int, placed),
        placed.len() < tasks.len(),
    ensures
        !valid_name_order(tasks, deps, ns),
{
    if valid_name_order(tasks, deps, ns) {
        let b = lemma_numbered_order(tasks, deps, ns);
        law_stuck_means_no_order(numbered_deps(tasks, deps), tasks.len() as int, placed, b);
    }
}

/// The message of a dependency cycle among the tasks `rest`.
pub open spec fn cycle_message(rest: Seq<Seq<char>>) -> Seq<char> {
    "cycle detected in DAG dependencies involving: "@ + joined(rest, ", "@)
}

fn task_number_of(tasks: &Vec<String>, name: &str) -> (r: usize)
    requires
        strictly_sorted(views(tasks@)),
    ensures
        r as int == task_number(views(tasks@), name@),
{
    let ghost t = views(tasks@);
    let mut i: usize = 0;
    while i < tasks.len()
        invariant
            t == views(tasks@),
            strictly_sorted(t),
            i <= tasks.len(),
            forall|k: int| 0 <= k < i ==> t[k] != name@,
        decreases tasks.len() - i,
    {
        if str_eq(tasks[i].as_str(), name) {
            proof {
                assert(t[i as int] == name@);
                assert(t.contains(name@));
                let c = choose|c: int| 0 <= c < t.len() && t[c] == name@;
                if c != i {
                    if c < i {
                        crate::text::lemma_lex_irreflexive(t[c]);
                        assert(crate::text::lex_lt(t[c], t[i as int]));
                    } else {
                        crate::text::lemma_lex_irreflexive(t[c]);
                        assert(crate::text::lex_lt(t[i as int], t[c]));
                    }
                }
            }
            return i;
        }
        i = i + 1;
    }
    proof {
        if t.contains(name@) {
            let c = choose|c: int| 0 <= c < t.len() && t[c] == name@;
            assert(t[c] != name@);
        }
    }
    i
}

/// Orders the tasks of a DAG so that every task comes after the tasks it
/// depends on, taking the alphabetically smallest ready task at each step.
/// `tasks` are the task names in alphabetical order and `deps[t]` the names
/// task `t` depends on; a name that is no task never becomes satisfied.
/// When some tasks can never be placed, the error names them in
/// alphabetical order.
pub fn topo_sort(tasks: &Vec<String>, deps: &Vec<Vec<String>>) -> (r: Result<Vec<String>, String>)
    requires
        strictly_sorted(views(tasks@)),
        deps.len() == tasks.len(),
    ensures
        match r {
            Ok(names) => exists|order: Seq<int>| {
                &&& order.len() == tasks.len()
                &&& greedy_order(numbered_deps(views(tasks@), deps@), tasks.len() as int, order)
                &&& views(names@) == names_of(views(tasks@), order)
            },
            Err(msg) => exists|placed: Seq<int>, rest: Seq<int>| {
                &&& placed.len() < tasks.len()
                &&& greedy_order(numbered_deps(views(tasks@), deps@), tasks.len() as int, placed)
                &&& stuck(numbered_deps(views(tasks@), deps@), tasks.len() as int, placed)
                &&& leftover(tasks.len() as int, placed, rest)
                &&& msg@ == cycle_message(names_of(views(tasks@), rest))
            },
        },
{
    let ghost t = views(tasks@);
    let ghost nd = numbered_deps(t, deps@);
    let mut idx: Vec<Vec<usize>> = Vec::new();
    let mut i: usize = 0;
    while i < deps.len()
        invariant
            t == views(tasks@),
            nd == numbered_deps(t, deps@),
            strictly_sorted(t),
            deps.len() == tasks.len(),
            i <= deps.len(),
            idx@.len() == i,
            forall|k: int| 0 <= k < i ==> #[trigger] deps_view(idx@)[k] == nd[k],
        decreases deps.len() - i,
    {
        let ds = &deps[i];
        let mut v: Vec<usize> = Vec::new();
        let mut k: usize = 0;
        while k < ds.len()
            invariant
                t == views(tasks@),
                strictly_sorted(t),
                k <= ds.len(),
                v@.len() == k,
                forall|m: int| 0 <= m < k ==> #[trigger] v@[m] as int == task_number(t, ds@[m]@),
            decreases ds.len() - k,
        {
            let x = task_number_of(tasks, ds[k].as_str());
            v.push(x);
            k = k + 1;
        }
        proof {
            assert(as_ints(v@) =~= views(ds@).map_values(|d: Seq<char>| task_number(t, d)));
        }
        let ghost before = idx@;
        idx.push(v);
        proof {
            assert(deps_view(idx@)[i as int] == nd[i as int]);
            assert forall|k: int| 0 <= k < i + 1 implies #[trigger] deps_view(idx@)[k] == nd[k] by {
                if k < i {
                    assert(idx@[k] == before[k]);
                    assert(deps_view(before)[k] == nd[k]);
                }
            }
        }
        i = i + 1;
    }
    proof {
        assert(deps_view(idx@) =~= nd);
    }
    match kahn_order(&idx) {
        Ok(order) => {
            let ghost o = as_ints(order@);
            let mut names: Vec<String> = Vec::new();
            let mut p: usize = 0;
            proof {
                lemma_greedy_distinct_in_range(nd, tasks.len() as int, o);
            }
            while p < order.len()
                invariant
                    t == views(tasks@),
                    o == as_ints(order@),
                    order@.len() == tasks.len(),
                    forall|q: int| 0 <= q < o.len() ==> 0 <= #[trigger] o[q] < tasks.len(),
                    p <= order.len(),
                    views(names@) == names_of(t, o.take(p as int)),
                decreases order.len() - p,
            {
                proof {
                    assert(o[p as int] == order@[p as int] as int);
                }
                let s = tasks[order[p]].clone();
                proof {
                    assert(s@ == t[o[p as int]]);
                }
                let ghost before = names@;
                names.push(s);
                proof {
                    assert(views(names@) =~= views(before).push(t[o[p as int]]));
                    assert(names_of(t, o.take(p + 1)) =~= names_of(t, o.take(p as int)).push(t[o[p as int]]));
                }
                p = p + 1;
            }
            proof {
                assert(o.take(o.len() as int) =~= o);
            }
            Ok(names)
        },
        Err(rest) => {
            let ghost rv = as_ints(rest@);
            let mut names: Vec<String> = Vec::new();
            let mut p: usize = 0;
            proof {
                assert forall|q: int| 0 <= q < rv.len() implies 0 <= #[trigger] rv[q] < tasks.len() by {
                    assert(rv.contains(rv[q]));
                }
            }
            while p < rest.len()
                invariant
                    t == views(tasks@),
                    rv == as_ints(rest@),
                    forall|q: int| 0 <= q < rv.len() ==> 0 <= #[trigger] rv[q] < tasks.len(),
                    p <= rest.len(),
                    views(names@) == names_of(t, rv.take(p as int)),
                decreases rest.len() - p,
            {
                proof {
                    assert(rv[p as int] == rest@[p as int] as int);
                }
                let s = tasks[rest[p]].clone();
                proof {
                    assert(s@ == t[rv[p as int]]);
                }
                let ghost before = names@;
                names.push(s);
                proof {
                    assert(views(names@) =~= views(before).push(t[rv[p as int]]));
                    assert(names_of(t, rv.take(p + 1)) =~= names_of(t, rv.take(p as int)).push(t[rv[p as int]]));
                }
                p = p + 1;
            }
            proof {
                assert(rv.take(rv.len() as int) =~= rv);
            }
            let mut msg = owned("cycle detected in DAG dependencies involving: ");
            let listed = join(&names, ", ");
            push_str(&mut msg, listed.as_str());
            Err(msg)
        },
    }
}

} // verus!
