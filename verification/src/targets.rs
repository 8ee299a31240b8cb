//! The deployment targets of a project (jobs and DAGs) with the AWS
//! account each deploys into, in order of name.
use vstd::prelude::*;
use crate::arn::{arn_parts, parse_account_from_role_arn, ArnError};
use crate::json::{get, get_member, get_str, str_member, Json, JsonV};
use crate::text::{lemma_lex_total, lex_le, lex_lt, owned, push_str, str_lt};

verus! {

/// One deployment target. `aws_account_id` is the account of the role
/// the tool assumes to deploy it, when one is set.
pub struct TargetRow {
    pub target: String,
    pub kind: &'static str,
    pub aws_account_id: Option<String>,
}

/// A target whose role ARN is malformed.
pub struct TargetError {
    pub target: String,
    pub role_arn: String,
    pub error: ArnError,
}

impl TargetError {
    /// `target '<name>': malformed role ARN '<arn>': <detail>`.
    pub fn message(&self) -> (m: String)
        ensures
            m@ == "target '"@ + self.target@ + "': "@ + crate::arn::arn_error_message(self.error, self.role_arn@),
    {
        let mut m = owned("target '");
        push_str(&mut m, self.target.as_str());
        push_str(&mut m, "': ");
        let d = self.error.message(self.role_arn.as_str());
        push_str(&mut m, d.as_str());
        m
    }
}

pub type RowV = (Seq<char>, Seq<char>, Option<Seq<char>>);

pub open spec fn row_view(r: TargetRow) -> RowV {
    (
        r.target@,
        r.kind@,
        match r.aws_account_id {
            Some(a) => Some(a@),
            None => None,
        },
    )
}

pub open spec fn rows_view(rs: Seq<TargetRow>) -> Seq<RowV> {
    rs.map_values(|r: TargetRow| row_view(r))
}

/// The non-empty `_aws.assume_role` string of a job's configuration.
pub open spec fn job_assume_role(config: JsonV) -> Option<Seq<char>> {
    match get_member(config, "_aws"@) {
        Some(a) => match str_member(a, "assume_role"@) {
            Some(s) => if s.len() > 0 {
                Some(s)
            } else {
                None
            },
            None => None,
        },
        None => None,
    }
}

/// One target before it is checked: name, kind and role ARN.
pub type ItemV = (Seq<char>, Seq<char>, Option<Seq<char>>);

pub open spec fn target_items(jobs: Seq<(String, Json)>, dags: Seq<(String, Option<String>)>) -> Seq<ItemV> {
    jobs.map_values(|j: (String, Json)| (j.0@, "job"@, job_assume_role(j.1@))) + dags.map_values(
        |d: (String, Option<String>)|
            (
                d.0@,
                "dag"@,
                match d.1 {
                    Some(r) => if r@.len() > 0 {
                        Some(r@)
                    } else {
                        None
                    },
                    None => None,
                },
            ),
    )
}

/// The row of a target, or the error of its role ARN.
pub open spec fn item_row(it: ItemV) -> Result<RowV, (Seq<char>, Seq<char>, ArnError)> {
    match it.2 {
        None => Ok((it.0, it.1, None)),
        Some(arn) => match arn_parts(arn) {
            Ok(p) => Ok((it.0, it.1, Some(p.0))),
            Err(e) => Err((it.0, arn, e)),
        },
    }
}

/// The rows of the targets in order, or the first error.
pub open spec fn item_rows(its: Seq<ItemV>) -> Result<Seq<RowV>, (Seq<char>, Seq<char>, ArnError)>
    decreases its.len(),
{
    if its.len() == 0 {
        Ok(Seq::empty())
    } else {
        match item_rows(its.drop_last()) {
            Err(e) => Err(e),
            Ok(rs) => match item_row(its.last()) {
                Ok(r) => Ok(rs.push(r)),
                Err(e) => Err(e),
            },
        }
    }
}

/// `x` placed after every row whose name is not greater.
pub open spec fn insert_row(s: Seq<RowV>, x: RowV) -> Seq<RowV>
    decreases s.len(),
{
    if s.len() == 0 {
        seq![x]
    } else if lex_lt(x.0, s.last().0) {
        insert_row(s.drop_last(), x).push(s.last())
    } else {
        s.push(x)
    }
}

/// The rows in order of name, rows of equal name in their given order.
pub open spec fn sort_rows(s: Seq<RowV>) -> Seq<RowV>
    decreases s.len(),
{
    if s.len() == 0 {
        Seq::empty()
    } else {
        insert_row(sort_rows(s.drop_last()), s.last())
    }
}

pub open spec fn rows_sorted(s: Seq<RowV>) -> bool {
    forall|i: int, j: int| 0 <= i < j < s.len() ==> lex_le(s[i].0, s[j].0)
}

proof fn lemma_insert_row(s: Seq<RowV>, x: RowV)
    requires
        rows_sorted(s),
    ensures
        rows_sorted(insert_row(s, x)),
        insert_row(s, x).len() == s.len() + 1,
        insert_row(s, x).to_multiset() == s.to_multiset().insert(x),
        forall|k: int| 0 <= k < insert_row(s, x).len() ==> (#[trigger] insert_row(s, x)[k] == x || s.contains(insert_row(s, x)[k])),
    decreases s.len(),
{
    broadcast use vstd::seq_lib::group_seq_properties;
    if s.len() == 0 {
        assert(seq![x].to_multiset() =~= Seq::<RowV>::empty().to_multiset().insert(x));
    } else if lex_lt(x.0, s.last().0) {
        let t = s.drop_last();
        assert(rows_sorted(t));
        lemma_insert_row(t, x);
        let r = insert_row(t, x);
        assert forall|k: int| 0 <= k < r.len() implies lex_le(#[trigger] r[k].0, s.last().0) by {
            if r[k] == x {
                lemma_lex_total(x.0, s.last().0);
            } else {
                assert(t.contains(r[k]));
                let q = choose|q: int| 0 <= q < t.len() && t[q] == r[k];
                assert(s[q] == t[q]);
            }
        }
        assert(s =~= t.push(s.last()));
        assert forall|k: int| 0 <= k < r.push(s.last()).len() implies (#[trigger] r.push(s.last())[k] == x || s.contains(
            r.push(s.last())[k],
        )) by {
            if k < r.len() {
                if r[k] != x {
                    assert(t.contains(r[k]));
                    let q = choose|q: int| 0 <= q < t.len() && t[q] == r[k];
                    assert(s[q] == r[k]);
                }
            } else {
                assert(s[s.len() - 1] == s.last());
            }
        }
    } else {
        assert forall|i: int, j: int| 0 <= i < j < s.push(x).len() implies lex_le(s.push(x)[i].0, s.push(x)[j].0) by {
            if j == s.len() {
                if i < s.len() - 1 {
                    crate::text::lemma_lex_le_transitive(s[i].0, s.last().0, x.0);
                }
            }
        }
        assert forall|k: int| 0 <= k < s.push(x).len() implies (#[trigger] s.push(x)[k] == x || s.contains(s.push(x)[k])) by {
            if k < s.len() {
                assert(s.push(x)[k] == s[k]);
            }
        }
    }
}

/// Rows come out in order of name, and they are the rows put in.
pub proof fn law_rows_sorted_by_name(s: Seq<RowV>)
    ensures
        rows_sorted(sort_rows(s)),
        sort_rows(s).to_multiset() == s.to_multiset(),
    decreases s.len(),
{
    broadcast use vstd::seq_lib::group_seq_properties;
    if s.len() > 0 {
        law_rows_sorted_by_name(s.drop_last());
        lemma_insert_row(sort_rows(s.drop_last()), s.last());
        assert(s =~= s.drop_last().push(s.last()));
    }
}

fn insert_row_exec(s: Vec<TargetRow>, x: TargetRow) -> (r: Vec<TargetRow>)
    ensures
        rows_view(r@) == insert_row(rows_view(s@), row_view(x)),
    decreases s.len(),
{
    let mut s = s;
    let ghost all = rows_view(s@);
    if s.len() == 0 {
        let mut v: Vec<TargetRow> = Vec::new();
        v.push(x);
        proof {
            assert(rows_view(v@) =~= seq![row_view(x)]);
        }
        return v;
    }
    let last = s.pop().unwrap();
    proof {
        assert(all.drop_last() =~= rows_view(s@));
        assert(all.last() == row_view(last));
    }
    if str_lt(x.target.as_str(), last.target.as_str()) {
        let mut r = insert_row_exec(s, x);
        let ghost before = r@;
        r.push(last);
        proof {
            assert(rows_view(r@) =~= rows_view(before).push(row_view(last)));
        }
        r
    } else {
        s.push(last);
        let ghost mid = s@;
        s.push(x);
        proof {
            assert(rows_view(mid) =~= all);
            assert(rows_view(s@) =~= all.push(row_view(x)));
        }
        s
    }
}

fn job_role(config: &Json) -> (r: Option<&str>)
    ensures
        match job_assume_role(config@) {
            Some(s) => r matches Some(x) && x@ == s,
            None => r is None,
        },
{
    match get(config, "_aws") {
        Some(a) => match get_str(a, "assume_role") {
            Some(s) => if s.unicode_len() > 0 {
                Some(s)
            } else {
                None
            },
            None => None,
        },
        None => None,
    }
}

fn row_for(name: &String, kind: &'static str, role: Option<&str>) -> (r: Result<TargetRow, TargetError>)
    ensures
        match item_row((name@, kind@, match role {
            Some(x) => Some(x@),
            None => None,
        })) {
            Ok(v) => r matches Ok(x) && row_view(x) == v,
            Err(e) => r matches Err(x) && (x.target@, x.role_arn@, x.error) == e,
        },
{
    match role {
        None => Ok(TargetRow { target: name.clone(), kind, aws_account_id: None }),
        Some(arn) => match parse_account_from_role_arn(arn) {
            Ok(a) => Ok(TargetRow { target: name.clone(), kind, aws_account_id: Some(a) }),
            Err(e) => Err(TargetError { target: name.clone(), role_arn: owned(arn), error: e }),
        },
    }
}

/// The deployment targets: each job with the account of its
/// `_aws.assume_role`, each DAG with the account of its effective role,
/// in order of name (a job before a DAG of the same name); the first
/// malformed role ARN is an error naming its target.
pub fn target_rows(jobs: &Vec<(String, Json)>, dags: &Vec<(String, Option<String>)>) -> (r: Result<Vec<TargetRow>, TargetError>)
    ensures
        match item_rows(target_items(jobs@, dags@)) {
            Ok(rs) => r matches Ok(v) && rows_view(v@) == sort_rows(rs),
            Err(e) => r matches Err(x) && (x.target@, x.role_arn@, x.error) == e,
        },
{
    let ghost its = target_items(jobs@, dags@);
    let mut rows: Vec<TargetRow> = Vec::new();
    let mut i: usize = 0;
    proof {
        assert(its.take(0) =~= Seq::<ItemV>::empty());
        assert(rows_view(rows@) =~= Seq::<RowV>::empty());
    }
    while i < jobs.len()
        invariant
            i <= jobs.len(),
            its == target_items(jobs@, dags@),
            item_rows(its.take(i as int)) == Ok::<Seq<RowV>, (Seq<char>, Seq<char>, ArnError)>(rows_view(rows@)),
        decreases jobs.len() - i,
    {
        let role = job_role(&jobs[i].1);
        proof {
            assert(its[i as int] == (jobs@[i as int].0@, "job"@, job_assume_role(jobs@[i as int].1@)));
            assert(its.take(i + 1).drop_last() =~= its.take(i as int));
        }
        match row_for(&jobs[i].0, "job", role) {
            Ok(x) => {
                let ghost before = rows@;
                rows.push(x);
                proof {
                    assert(rows_view(rows@) =~= rows_view(before).push(row_view(x)));
                }
            },
            Err(e) => {
                proof {
                    lemma_first_error(its, i as int);
                }
                return Err(e);
            },
        }
        i = i + 1;
    }
    let mut j: usize = 0;
    while j < dags.len()
        invariant
            j <= dags.len(),
            its == target_items(jobs@, dags@),
            item_rows(its.take(jobs.len() + j)) == Ok::<Seq<RowV>, (Seq<char>, Seq<char>, ArnError)>(rows_view(rows@)),
        decreases dags.len() - j,
    {
        let role: Option<&str> = match &dags[j].1 {
            Some(s) => if s.as_str().unicode_len() > 0 {
                Some(s.as_str())
            } else {
                None
            },
            None => None,
        };
        let ghost k = jobs.len() + j;
        proof {
            assert(its[k] == (dags@[j as int].0@, "dag"@, match dags@[j as int].1 {
                Some(r) => if r@.len() > 0 {
                    Some(r@)
                } else {
                    None
                },
                None => None,
            }));
            assert(its.take(k + 1).drop_last() =~= its.take(k));
        }
        match row_for(&dags[j].0, "dag", role) {
            Ok(x) => {
                let ghost before = rows@;
                rows.push(x);
                proof {
                    assert(rows_view(rows@) =~= rows_view(before).push(row_view(x)));
                }
            },
            Err(e) => {
                proof {
                    lemma_first_error(its, k);
                }
                return Err(e);
            },
        }
        j = j + 1;
    }
    proof {
        assert(its.take(its.len() as int) =~= its);
    }
    let ghost unsorted = rows_view(rows@);
    let mut out: Vec<TargetRow> = Vec::new();
    let mut rest = rows;
    let ghost orig = rest@;
    let n = rest.len();
    let mut m: usize = 0;
    proof {
        assert(orig.skip(0) =~= orig);
        assert(unsorted.take(0) =~= Seq::<RowV>::empty());
    }
    while m < n
        invariant
            n == orig.len(),
            m <= n,
            rest@ == orig.skip(m as int),
            unsorted == rows_view(orig),
            rows_view(out@) == sort_rows(unsorted.take(m as int)),
        decreases n - m,
    {
        let x = rest.remove(0);
        proof {
            assert(x == orig[m as int]);
            assert(rest@ =~= orig.skip(m + 1));
            assert(unsorted.take(m + 1).drop_last() =~= unsorted.take(m as int));
            assert(unsorted.take(m + 1).last() == row_view(x));
        }
        out = insert_row_exec(out, x);
        m = m + 1;
    }
    proof {
        assert(unsorted.take(n as int) =~= unsorted);
    }
    Ok(out)
}

proof fn lemma_first_error(its: Seq<ItemV>, i: int)
    requires
        0 <= i < its.len(),
        item_rows(its.take(i)) is Ok,
        item_row(its[i]) is Err,
    ensures
        item_rows(its) == Err::<Seq<RowV>, (Seq<char>, Seq<char>, ArnError)>(item_row(its[i])->Err_0),
    decreases its.len() - i,
{
    assert(its.take(i + 1).drop_last() =~= its.take(i));
    assert(its.take(i + 1).last() == its[i]);
    lemma_error_stays(its, i + 1);
}

proof fn lemma_error_stays(its: Seq<ItemV>, k: int)
    requires
        0 < k <= its.len(),
        item_rows(its.take(k)) is Err,
    ensures
        item_rows(its) == item_rows(its.take(k)),
    decreases its.len() - k,
{
    if k == its.len() {
        assert(its.take(k) =~= its);
    } else {
        assert(its.take(k + 1).drop_last() =~= its.take(k));
        lemma_error_stays(its, k + 1);
    }
}

} // verus!
