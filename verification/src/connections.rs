//! The Airflow connection each task uses to reach AWS, and the connections
//! a DAG needs created before it runs.
use vstd::prelude::*;
use crate::airflow::JobType;
use crate::arn::{all_digits, arn_parts, conn_id_for, derive_aws_conn_id, law_role_arn_round_trip, ArnError};
use crate::json::{get, get_member, get_str, str_member, Json, JsonV};
use crate::text::{lex_lt, sanitized, lemma_lex_irreflexive, lemma_lex_total, lemma_lex_transitive, owned, str_eq, str_lt, views};

verus! {

/// A non-empty string, or nothing.
pub open spec fn non_empty(o: Option<Seq<char>>) -> Option<Seq<char>> {
    match o {
        Some(s) => if s.len() > 0 {
            Some(s)
        } else {
            None
        },
        None => None,
    }
}

/// The `assume_role` string of an AWS block, when set and non-empty.
pub open spec fn assume_role_in(aws: JsonV) -> Option<Seq<char>> {
    non_empty(str_member(aws, "assume_role"@))
}

/// The role a job assumes: `assume_role` of its merged `_aws` block.
pub open spec fn job_role(config: JsonV) -> Option<Seq<char>> {
    match get_member(config, "_aws"@) {
        Some(a) => assume_role_in(a),
        None => None,
    }
}

/// The connection a job names itself: `aws_conn_id` of its merged `_aws`
/// block.
pub open spec fn job_explicit_conn(config: JsonV) -> Option<Seq<char>> {
    match get_member(config, "_aws"@) {
        Some(a) => str_member(a, "aws_conn_id"@),
        None => None,
    }
}

/// The connection a task uses: the one it names, if any; else
/// `aws_default` without a role of its own or when it assumes the
/// project's role, and the connection derived from its role otherwise.
pub open spec fn task_conn_id(
    explicit: Option<Seq<char>>,
    task_role: Option<Seq<char>>,
    root_role: Option<Seq<char>>,
) -> Result<Seq<char>, ArnError> {
    match explicit {
        Some(c) => Ok(c),
        None => match task_role {
            None => Ok("aws_default"@),
            Some(t) => if root_role == Some(t) {
                Ok("aws_default"@)
            } else {
                match arn_parts(t) {
                    Ok(p) => Ok(conn_id_for(p.0, p.1)),
                    Err(e) => Err(e),
                }
            },
        },
    }
}

/// Which Airflow connection a task uses: its explicit connection id when
/// it names one; otherwise `aws_default` when it assumes no role or the
/// project's own role; otherwise the connection derived from its role,
/// `yard_<account>_<sanitized role name>`.
pub proof fn law_task_connection_precedence(
    explicit: Option<Seq<char>>,
    task_role: Option<Seq<char>>,
    root_role: Option<Seq<char>>,
    account: Seq<char>,
    name: Seq<char>,
)
    ensures
        explicit matches Some(c) ==> task_conn_id(explicit, task_role, root_role) == Ok::<Seq<char>, ArnError>(c),
        (explicit is None && (task_role is None || task_role == root_role)) ==> task_conn_id(explicit, task_role, root_role)
            == Ok::<Seq<char>, ArnError>("aws_default"@),
        (explicit is None && account.len() == 12 && all_digits(account) && name.len() > 0 && task_role == Some(
            "arn:aws:iam::"@ + account + ":role/"@ + name,
        ) && task_role != root_role) ==> task_conn_id(explicit, task_role, root_role) == Ok::<Seq<char>, ArnError>(
            "yard_"@ + account + "_"@ + sanitized(name),
        ),
{
    if account.len() == 12 && all_digits(account) && name.len() > 0 {
        law_role_arn_round_trip(account, name);
    }
}

fn assume_role_of(aws: &Json) -> (r: Option<&str>)
    ensures
        match assume_role_in(aws@) {
            Some(s) => r matches Some(x) && x@ == s,
            None => r is None,
        },
{
    match get_str(aws, "assume_role") {
        Some(s) => if s.unicode_len() > 0 {
            Some(s)
        } else {
            None
        },
        None => None,
    }
}

fn job_assume_role(config: &Json) -> (r: Option<&str>)
    ensures
        match job_role(config@) {
            Some(s) => r matches Some(x) && x@ == s,
            None => r is None,
        },
{
    match get(config, "_aws") {
        Some(a) => assume_role_of(a),
        None => None,
    }
}

/// The Airflow connection id a task with job config `config` uses, given
/// the project's root AWS block `root_aws`.
pub fn resolve_task_aws_conn_id(config: &Json, root_aws: &Json) -> (r: Result<String, ArnError>)
    ensures
        match task_conn_id(job_explicit_conn(config@), job_role(config@), assume_role_in(root_aws@)) {
            Ok(c) => r matches Ok(x) && x@ == c,
            Err(e) => r == Err::<String, ArnError>(e),
        },
{
    match get(config, "_aws") {
        Some(a) => match get_str(a, "aws_conn_id") {
            Some(c) => {
                return Ok(owned(c));
            },
            None => {},
        },
        None => {},
    }
    let task = job_assume_role(config);
    let root = assume_role_of(root_aws);
    match task {
        None => Ok(owned("aws_default")),
        Some(t) => {
            let same = match root {
                Some(x) => str_eq(t, x),
                None => false,
            };
            if same {
                Ok(owned("aws_default"))
            } else {
                derive_aws_conn_id(t)
            }
        },
    }
}

/// A job of the manifest, as connection resolution sees it.
pub struct ManifestJob {
    pub name: String,
    pub job_type: JobType,
    pub config: Json,
    /// The dataset URIs of the job's `airflow.publishes` (none without an
    /// `airflow:` block).
    pub publishes: Vec<String>,
}

/// The first job called `name`.
pub open spec fn find_job(jobs: Seq<ManifestJob>, name: Seq<char>) -> Option<ManifestJob>
    decreases jobs.len(),
{
    if jobs.len() == 0 {
        None
    } else if jobs[0].name@ == name {
        Some(jobs[0])
    } else {
        find_job(jobs.skip(1), name)
    }
}

/// An Airflow connection a DAG needs, for a cross-account role.
pub struct RequiredConnection {
    /// Airflow connection identifier.
    pub conn_id: String,
    /// The IAM role assumed through it.
    pub role_arn: String,
}

/// The (connection, role) pairs the Glue tasks of `tasks` need, in task
/// order, with repeats; stops at the first role that is no valid ARN.
pub open spec fn task_connections(
    tasks: Seq<Seq<char>>,
    jobs: Seq<ManifestJob>,
    root_role: Option<Seq<char>>,
) -> Result<Seq<(Seq<char>, Seq<char>)>, ArnError>
    decreases tasks.len(),
{
    if tasks.len() == 0 {
        Ok(Seq::empty())
    } else {
        match task_connections(tasks.drop_last(), jobs, root_role) {
            Err(e) => Err(e),
            Ok(v) => match find_job(jobs, tasks.last()) {
                Some(j) => if j.job_type != JobType::Glue {
                    Ok(v)
                } else {
                    match task_conn_id(job_explicit_conn(j.config@), job_role(j.config@), root_role) {
                        Err(e) => Err(e),
                        Ok(c) => if c == "aws_default"@ {
                            Ok(v)
                        } else {
                            match job_role(j.config@) {
                                Some(arn) => Ok(v.push((c, arn))),
                                None => Ok(v),
                            }
                        },
                    }
                },
                None => Ok(v),
            },
        }
    }
}

/// `p` is the first pair in `list` with its connection id.
pub open spec fn first_of_its_id(list: Seq<(Seq<char>, Seq<char>)>, p: (Seq<char>, Seq<char>)) -> bool {
    exists|j: int| 0 <= j < list.len() && list[j] == p && forall|k: int| 0 <= k < j ==> (#[trigger] list[k]).0 != p.0
}

pub open spec fn conn_view(c: RequiredConnection) -> (Seq<char>, Seq<char>) {
    (c.conn_id@, c.role_arn@)
}

pub open spec fn conns_view(v: Seq<RequiredConnection>) -> Seq<(Seq<char>, Seq<char>)> {
    v.map_values(|c: RequiredConnection| conn_view(c))
}

/// Strictly increasing connection ids.
pub open spec fn ids_sorted(v: Seq<(Seq<char>, Seq<char>)>) -> bool {
    forall|i: int, j: int| 0 <= i < j < v.len() ==> lex_lt(v[i].0, v[j].0)
}

fn find_job_index(jobs: &Vec<ManifestJob>, name: &str) -> (r: Option<usize>)
    ensures
        match find_job(jobs@, name@) {
            Some(j) => r matches Some(i) && i < jobs.len() && jobs@[i as int] == j,
            None => r is None,
        },
{
    let mut i: usize = 0;
    proof {
        assert(jobs@.skip(0) =~= jobs@);
    }
    while i < jobs.len()
        invariant
            i <= jobs.len(),
            find_job(jobs@, name@) == find_job(jobs@.skip(i as int), name@),
        decreases jobs.len() - i,
    {
        proof {
            assert(jobs@.skip(i as int).skip(1) =~= jobs@.skip(i + 1));
            assert(jobs@.skip(i as int)[0] == jobs@[i as int]);
        }
        if str_eq(jobs[i].name.as_str(), name) {
            return Some(i);
        }
        i = i + 1;
    }
    None
}

/// The distinct connections the Glue tasks of a DAG (`tasks`, in DAG order)
/// need, ordered by connection id; each with the role of the first task
/// that needs it. Tasks on `aws_default` need none.
pub fn required_connections_for_dag(
    tasks: &Vec<String>,
    jobs: &Vec<ManifestJob>,
    root_aws: &Json,
) -> (r: Result<Vec<RequiredConnection>, ArnError>)
    ensures
        match task_connections(views(tasks@), jobs@, assume_role_in(root_aws@)) {
            Ok(list) => r matches Ok(v) && ids_sorted(conns_view(v@)) && forall|p: (Seq<char>, Seq<char>)|
                conns_view(v@).contains(p) <==> first_of_its_id(list, p),
            Err(e) => r == Err::<Vec<RequiredConnection>, ArnError>(e),
        },
{
    let ghost root = assume_role_in(root_aws@);
    let mut out: Vec<RequiredConnection> = Vec::new();
    let ghost mut list: Seq<(Seq<char>, Seq<char>)> = Seq::empty();
    let mut i: usize = 0;
    while i < tasks.len()
        invariant
            i <= tasks.len(),
            root == assume_role_in(root_aws@),
            task_connections(views(tasks@).take(i as int), jobs@, root) == Ok::<Seq<(Seq<char>, Seq<char>)>, ArnError>(list),
            ids_sorted(conns_view(out@)),
            forall|p: (Seq<char>, Seq<char>)| conns_view(out@).contains(p) <==> first_of_its_id(list, p),
        decreases tasks.len() - i,
    {
        proof {
            assert(views(tasks@).take(i + 1).drop_last() =~= views(tasks@).take(i as int));
            assert(views(tasks@).take(i + 1).last() == tasks@[i as int]@);
        }
        match find_job_index(jobs, tasks[i].as_str()) {
            None => {},
            Some(ji) => {
                let job = &jobs[ji];
                if job.job_type == JobType::Glue {
                    match resolve_task_aws_conn_id(&job.config, root_aws) {
                        Err(e) => {
                            proof {
                                lemma_conns_err_stays(views(tasks@), jobs@, root, i as int + 1, tasks@.len() as int);
                                assert(views(tasks@).take(tasks@.len() as int) =~= views(tasks@));
                            }
                            return Err(e);
                        },
                        Ok(c) => {
                            if !str_eq(c.as_str(), "aws_default") {
                                match job_assume_role(&job.config) {
                                    Some(arn) => {
                                        let ghost e = (c@, arn@);
                                        proof {
                                            lemma_first_push(list, e);
                                        }
                                        add_connection(&mut out, c, arn, Ghost(list));
                                        proof {
                                            list = list.push(e);
                                        }
                                    },
                                    None => {},
                                }
                            }
                        },
                    }
                }
            },
        }
        i = i + 1;
    }
    proof {
        assert(views(tasks@).take(tasks@.len() as int) =~= views(tasks@));
    }
    Ok(out)
}

proof fn lemma_conns_err_stays(tasks: Seq<Seq<char>>, jobs: Seq<ManifestJob>, root: Option<Seq<char>>, k: int, j: int)
    requires
        0 <= k <= j <= tasks.len(),
        task_connections(tasks.take(k), jobs, root) is Err,
    ensures
        task_connections(tasks.take(j), jobs, root) == task_connections(tasks.take(k), jobs, root),
    decreases j - k,
{
    if k < j {
        lemma_conns_err_stays(tasks, jobs, root, k, j - 1);
        assert(tasks.take(j).drop_last() =~= tasks.take(j - 1));
    }
}

/// First occurrences after appending `e`: those before, plus `e` when no
/// earlier pair has its id.
proof fn lemma_first_push(list: Seq<(Seq<char>, Seq<char>)>, e: (Seq<char>, Seq<char>))
    ensures
        forall|p: (Seq<char>, Seq<char>)| #[trigger] first_of_its_id(list.push(e), p) <==> (first_of_its_id(list, p)
            || (p == e && forall|k: int| 0 <= k < list.len() ==> (#[trigger] list[k]).0 != e.0)),
{
    let l2 = list.push(e);
    assert forall|p: (Seq<char>, Seq<char>)| #[trigger] first_of_its_id(l2, p) <==> (first_of_its_id(list, p)
        || (p == e && forall|k: int| 0 <= k < list.len() ==> (#[trigger] list[k]).0 != e.0)) by {
        if first_of_its_id(l2, p) {
            let j = choose|j: int| 0 <= j < l2.len() && l2[j] == p && forall|k: int| 0 <= k < j ==> (#[trigger] l2[k]).0 != p.0;
            if j < list.len() {
                assert forall|k: int| 0 <= k < j implies (#[trigger] list[k]).0 != p.0 by {
                    assert(l2[k] == list[k]);
                }
                assert(list[j] == p);
            } else {
                assert forall|k: int| 0 <= k < list.len() implies (#[trigger] list[k]).0 != e.0 by {
                    assert(l2[k] == list[k]);
                }
            }
        }
        if first_of_its_id(list, p) {
            let j = choose|j: int| 0 <= j < list.len() && list[j] == p && forall|k: int| 0 <= k < j ==> (#[trigger] list[k]).0 != p.0;
            assert(l2[j] == p);
            assert forall|k: int| 0 <= k < j implies (#[trigger] l2[k]).0 != p.0 by {
                assert(l2[k] == list[k]);
            }
        }
        if p == e && forall|k: int| 0 <= k < list.len() ==> (#[trigger] list[k]).0 != e.0 {
            let j = list.len() as int;
            assert(l2[j] == p);
            assert forall|k: int| 0 <= k < j implies (#[trigger] l2[k]).0 != p.0 by {
                assert(l2[k] == list[k]);
            }
        }
    }
}

/// Adds connection `(c, arn)` unless its id is already there, keeping ids
/// in increasing order.
fn add_connection(out: &mut Vec<RequiredConnection>, c: String, arn: &str, Ghost(list): Ghost<Seq<(Seq<char>, Seq<char>)>>)
    requires
        ids_sorted(conns_view(old(out)@)),
        forall|p: (Seq<char>, Seq<char>)| conns_view(old(out)@).contains(p) <==> first_of_its_id(list, p),
    ensures
        ids_sorted(conns_view(final(out)@)),
        forall|p: (Seq<char>, Seq<char>)| conns_view(final(out)@).contains(p) <==> first_of_its_id(list.push((c@, arn@)), p),
{
    let ghost e = (c@, arn@);
    let ghost v = conns_view(out@);
    proof {
        lemma_first_push(list, e);
    }
    let mut i: usize = 0;
    loop
        invariant
            e == (c@, arn@),
            v == conns_view(out@),
            ids_sorted(v),
            i <= out.len(),
            forall|k: int| 0 <= k < i ==> lex_lt(#[trigger] v[k].0, e.0),
        ensures
            i <= out.len(),
            forall|k: int| 0 <= k < i ==> lex_lt(#[trigger] v[k].0, e.0),
            i < out.len() ==> !lex_lt(v[i as int].0, e.0),
        decreases out.len() - i,
    {
        if i >= out.len() {
            break;
        }
        proof {
            assert(v[i as int] == conn_view(out@[i as int]));
        }
        let lt = str_lt(out[i].conn_id.as_str(), c.as_str());
        proof {
            assert(out@[i as int].conn_id@ == v[i as int].0);
            assert(c@ == e.0);
            assert(lt == lex_lt(v[i as int].0, e.0));
        }
        if !lt {
            break;
        }
        i = i + 1;
    }
    // an earlier pair with the same id makes the id present already
    let present = i < out.len() && str_eq(out[i].conn_id.as_str(), c.as_str());
    proof {
        if i < out.len() {
            assert(v[i as int] == conn_view(out@[i as int]));
        }
    }
    if present {
        proof {
            // e.0 is an id of v, hence of an earlier pair of list
            assert(v.contains(v[i as int]));
            assert(first_of_its_id(list, v[i as int]));
            let j = choose|j: int| 0 <= j < list.len() && list[j] == v[i as int] && forall|k: int| 0 <= k < j ==> (#[trigger] list[k]).0 != v[i as int].0;
            assert(list[j].0 == e.0);
        }
        return;
    }
    // no pair of list has id e.0: its first occurrence would be in v
    proof {
        assert forall|k: int| 0 <= k < list.len() implies (#[trigger] list[k]).0 != e.0 by {
            if list[k].0 == e.0 {
                lemma_first_exists(list, k);
                let q = choose|q: (Seq<char>, Seq<char>)| q.0 == list[k].0 && first_of_its_id(list, q);
                assert(v.contains(q));
                let m = choose|m: int| 0 <= m < v.len() && v[m] == q;
                if m < i {
                    lemma_lex_irreflexive(e.0);
                } else if m > i {
                    assert(lex_lt(v[i as int].0, v[m].0));
                    assert(!lex_lt(v[i as int].0, e.0));
                    lemma_lex_total(v[i as int].0, e.0);
                    lemma_lex_irreflexive(e.0);
                }
            }
        }
    }
    out.insert(i, RequiredConnection { conn_id: c, role_arn: owned(arn) });
    proof {
        let v2 = conns_view(out@);
        assert(v2 =~= v.take(i as int) + seq![e] + v.skip(i as int));
        assert forall|m: int| i <= m < v.len() implies lex_lt(e.0, #[trigger] v[m].0) by {
            lemma_lex_total(v[i as int].0, e.0);
            if m > i {
                lemma_lex_transitive(e.0, v[i as int].0, v[m].0);
            }
        }
        assert forall|a: int, b: int| 0 <= a < b < v2.len() implies lex_lt(v2[a].0, v2[b].0) by {
            if b < i {
                assert(v2[a] == v[a] && v2[b] == v[b]);
            } else if b == i {
                assert(v2[a] == v[a]);
            } else if a < i {
                assert(v2[a] == v[a]);
                assert(v2[b] == v[b - 1]);
            } else if a == i {
                assert(v2[b] == v[b - 1]);
            } else {
                assert(v2[a] == v[a - 1]);
                assert(v2[b] == v[b - 1]);
            }
        }
        assert forall|p: (Seq<char>, Seq<char>)| v2.contains(p) <==> first_of_its_id(list.push(e), p) by {
            if v2.contains(p) {
                let m = choose|m: int| 0 <= m < v2.len() && v2[m] == p;
                if m < i {
                    assert(v[m] == p);
                    assert(v.contains(p));
                } else if m > i {
                    assert(v[m - 1] == p);
                    assert(v.contains(p));
                }
            }
            if v.contains(p) {
                let m = choose|m: int| 0 <= m < v.len() && v[m] == p;
                if m < i {
                    assert(v2[m] == p);
                } else {
                    assert(v2[m + 1] == p);
                }
            }
            if p == e {
                assert(v2[i as int] == e);
            }
        }
    }
}

/// Every pair of a list has a first occurrence of its id.
proof fn lemma_first_exists(list: Seq<(Seq<char>, Seq<char>)>, k: int)
    requires
        0 <= k < list.len(),
    ensures
        exists|q: (Seq<char>, Seq<char>)| q.0 == list[k].0 && first_of_its_id(list, q),
    decreases k,
{
    if forall|m: int| 0 <= m < k ==> (#[trigger] list[m]).0 != list[k].0 {
        assert(first_of_its_id(list, list[k]));
    } else {
        let m = choose|m: int| 0 <= m < k && (#[trigger] list[m]).0 == list[k].0;
        lemma_first_exists(list, m);
    }
}

/// All connections of several lists, in order.
pub open spec fn all_conns(ls: Seq<Seq<RequiredConnection>>) -> Seq<(Seq<char>, Seq<char>)>
    decreases ls.len(),
{
    if ls.len() == 0 {
        Seq::empty()
    } else {
        all_conns(ls.drop_last()) + conns_view(ls.last())
    }
}

/// The distinct connections of several DAGs, ordered by connection id;
/// each with the role it first came with.
pub fn merge_connections(lists: &Vec<Vec<RequiredConnection>>) -> (r: Vec<RequiredConnection>)
    ensures
        ids_sorted(conns_view(r@)),
        forall|p: (Seq<char>, Seq<char>)|
            conns_view(r@).contains(p) <==> first_of_its_id(all_conns(lists@.map_values(|l: Vec<RequiredConnection>| l@)), p),
{
    let ghost ls = lists@.map_values(|l: Vec<RequiredConnection>| l@);
    let mut out: Vec<RequiredConnection> = Vec::new();
    let ghost mut list: Seq<(Seq<char>, Seq<char>)> = Seq::empty();
    let mut i: usize = 0;
    proof {
        assert(ls.take(0) =~= Seq::<Seq<RequiredConnection>>::empty());
        assert(conns_view(out@) =~= Seq::<(Seq<char>, Seq<char>)>::empty());
    }
    while i < lists.len()
        invariant
            i <= lists.len(),
            ls == lists@.map_values(|l: Vec<RequiredConnection>| l@),
            list == all_conns(ls.take(i as int)),
            ids_sorted(conns_view(out@)),
            forall|p: (Seq<char>, Seq<char>)| conns_view(out@).contains(p) <==> first_of_its_id(list, p),
        decreases lists.len() - i,
    {
        let l = &lists[i];
        let ghost start = list;
        let mut j: usize = 0;
        while j < l.len()
            invariant
                i < lists.len(),
                l == lists@[i as int],
                j <= l.len(),
                list == start + conns_view(l@.take(j as int)),
                ids_sorted(conns_view(out@)),
                forall|p: (Seq<char>, Seq<char>)| conns_view(out@).contains(p) <==> first_of_its_id(list, p),
            decreases l.len() - j,
        {
            let c = l[j].conn_id.clone();
            let arn = l[j].role_arn.as_str();
            proof {
                assert(c@ == l@[j as int].conn_id@);
            }
            add_connection(&mut out, c, arn, Ghost(list));
            proof {
                list = list.push((l@[j as int].conn_id@, l@[j as int].role_arn@));
                assert(conns_view(l@.take(j + 1)) =~= conns_view(l@.take(j as int)).push(conn_view(l@[j as int])));
                assert(list =~= start + conns_view(l@.take(j + 1)));
            }
            j = j + 1;
        }
        proof {
            assert(l@.take(l@.len() as int) =~= l@);
            assert(ls.take(i + 1).drop_last() =~= ls.take(i as int));
            assert(ls.take(i + 1).last() == l@);
        }
        i = i + 1;
    }
    proof {
        assert(ls.take(ls.len() as int) =~= ls);
    }
    out
}

} // verus!
