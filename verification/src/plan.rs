//! Plans: what is to be created, modified or deleted, how a plan reads
//! on the terminal, and what an apply or destroy reports back.
use vstd::prelude::*;
use crate::cli::{bold, color_create, color_delete, color_modify, colorized, ColorMode};
use crate::diff::{by_key, change_view, changes_by_key, changes_view, Change};
use crate::json::{compact, to_compact, Json, JsonV};
use crate::diff::{compare_json, json_changes};
use crate::text::{contains_text, lemma_contains_middle, lemma_contains_text_trans, lemma_sorted_names_unique, lex_lt, owned, push_str, sorted_set, str_eq, strictly_sorted, views};

verus! {

/// What happens to a job or DAG.
pub enum DiffType {
    /// It is new.
    Create,
    /// It changed; the changed keys with their old and new values, printed
    /// in key order, one line per key.
    Modify { changes: Vec<Change> },
    /// It is gone from the project.
    Delete,
}

/// One entry of a plan.
pub struct JobDiff {
    pub name: String,
    pub diff_type: DiffType,
    pub old_hash: Option<String>,
    pub new_hash: Option<String>,
}

/// The lines printed for one entry of a plan.
pub open spec fn diff_text(d: JobDiff, mode: ColorMode, terminal: bool) -> Seq<char> {
    match d.diff_type {
        DiffType::Create => colorized("  + Create job ["@ + d.name@ + "]"@, "32"@, "36"@, mode, terminal) + "\n"@,
        DiffType::Modify { changes } => colorized("  ~ Modify job ["@ + d.name@ + "]"@, "33"@, "34"@, mode, terminal)
            + "\n"@ + change_lines(by_key(changes_view(changes@)), by_key(changes_view(changes@)).len()),
        DiffType::Delete => colorized("  - Delete job ["@ + d.name@ + "]"@, "31"@, "35"@, mode, terminal) + "\n"@,
    }
}

/// `      key : old -> new` for each of the first `n` changes.
pub open spec fn change_lines(cs: Seq<(Seq<char>, (Seq<char>, Seq<char>))>, n: nat) -> Seq<char>
    decreases n,
{
    if n == 0 || n > cs.len() {
        Seq::empty()
    } else {
        change_lines(cs, (n - 1) as nat) + "      "@ + cs[n - 1].0 + " : "@ + cs[n - 1].1.0 + " -> "@ + cs[n - 1].1.1
            + "\n"@
    }
}

pub open spec fn diffs_text(ds: Seq<JobDiff>, mode: ColorMode, terminal: bool) -> Seq<char>
    decreases ds.len(),
{
    if ds.len() == 0 {
        Seq::empty()
    } else {
        diffs_text(ds.drop_last(), mode, terminal) + diff_text(ds.last(), mode, terminal)
    }
}

/// The plan as printed: a bold header naming the project, the target or
/// directory scope on a line of its own followed by a blank line (or just
/// the blank line), then the entries.
pub open spec fn plan_summary(
    project: Seq<char>,
    target: Option<Seq<char>>,
    dir_scope: Option<Seq<char>>,
    ds: Seq<JobDiff>,
    mode: ColorMode,
    terminal: bool,
) -> Seq<char> {
    colorized("--- Plan for "@ + project + " ---"@, "1"@, "1"@, mode, terminal) + "\n"@ + (match target {
        Some(t) => "(targeting: "@ + t + ")\n\n"@,
        None => match dir_scope {
            Some(d) => "(scoped to: "@ + d + ")\n\n"@,
            None => "\n"@,
        },
    }) + diffs_text(ds, mode, terminal)
}

pub open spec fn opt_text(o: Option<&str>) -> Option<Seq<char>> {
    match o {
        Some(s) => Some(s@),
        None => None,
    }
}

fn push_diff(out: &mut String, d: &JobDiff, mode: ColorMode, terminal: bool)
    ensures
        final(out)@ == old(out)@ + diff_text(*d, mode, terminal),
{
    match &d.diff_type {
        DiffType::Create => {
            let mut l = owned("  + Create job [");
            push_str(&mut l, d.name.as_str());
            push_str(&mut l, "]");
            let c = color_create(l.as_str(), mode, terminal);
            push_str(out, c.as_str());
            push_str(out, "\n");
        },
        DiffType::Modify { changes } => {
            let mut l = owned("  ~ Modify job [");
            push_str(&mut l, d.name.as_str());
            push_str(&mut l, "]");
            let c = color_modify(l.as_str(), mode, terminal);
            push_str(out, c.as_str());
            push_str(out, "\n");
            let changes = changes_by_key(changes);
            let ghost head = out@;
            let ghost cs = changes_view(changes@);
            let mut i: usize = 0;
            while i < changes.len()
                invariant
                    i <= changes@.len(),
                    cs == changes_view(changes@),
                    out@ == head + change_lines(cs, i as nat),
                decreases changes@.len() - i,
            {
                let ch = &changes[i];
                push_str(out, "      ");
                push_str(out, ch.0.as_str());
                push_str(out, " : ");
                push_str(out, ch.1.0.as_str());
                push_str(out, " -> ");
                push_str(out, ch.1.1.as_str());
                push_str(out, "\n");
                proof {
                    assert(cs[i as int] == change_view(changes@[i as int]));
                }
                i = i + 1;
            }
        },
        DiffType::Delete => {
            let mut l = owned("  - Delete job [");
            push_str(&mut l, d.name.as_str());
            push_str(&mut l, "]");
            let c = color_delete(l.as_str(), mode, terminal);
            push_str(out, c.as_str());
            push_str(out, "\n");
        },
    }
}

/// The text of a plan, as the plan and apply commands print it.
pub fn format_plan_summary(
    project_name: &str,
    target: Option<&str>,
    dir_scope: Option<&str>,
    job_diffs: &Vec<JobDiff>,
    mode: ColorMode,
    terminal: bool,
) -> (r: String)
    ensures
        r@ == plan_summary(project_name@, opt_text(target), opt_text(dir_scope), job_diffs@, mode, terminal),
{
    let mut h = owned("--- Plan for ");
    push_str(&mut h, project_name);
    push_str(&mut h, " ---");
    let mut out = bold(h.as_str(), mode, terminal);
    push_str(&mut out, "\n");
    match target {
        Some(t) => {
            push_str(&mut out, "(targeting: ");
            push_str(&mut out, t);
            push_str(&mut out, ")\n\n");
        },
        None => match dir_scope {
            Some(d) => {
                push_str(&mut out, "(scoped to: ");
                push_str(&mut out, d);
                push_str(&mut out, ")\n\n");
            },
            None => {
                push_str(&mut out, "\n");
            },
        },
    }
    let ghost head = out@;
    let mut i: usize = 0;
    while i < job_diffs.len()
        invariant
            i <= job_diffs@.len(),
            out@ == head + diffs_text(job_diffs@.take(i as int), mode, terminal),
        decreases job_diffs@.len() - i,
    {
        push_diff(&mut out, &job_diffs[i], mode, terminal);
        proof {
            assert(job_diffs@.take(i + 1).drop_last() =~= job_diffs@.take(i as int));
        }
        i = i + 1;
    }
    proof {
        assert(job_diffs@.take(job_diffs@.len() as int) =~= job_diffs@);
    }
    out
}

// ------------------------------------------------------------------
// Jobs to create, modify and delete
// ------------------------------------------------------------------

/// A job of the project with the hash of what would be deployed for it.
pub struct ProposedJob {
    pub name: String,
    pub config: Json,
    pub hash: String,
}

/// A job as it was last deployed.
pub struct DeployedJob {
    pub name: String,
    pub config: Json,
    pub hash: String,
}

/// An entry of a plan as plain values.
pub enum DiffKindV {
    Create,
    Modify(Seq<(Seq<char>, (Seq<char>, Seq<char>))>),
    Delete,
}

pub struct JobDiffV {
    pub name: Seq<char>,
    pub kind: DiffKindV,
    pub old_hash: Option<Seq<char>>,
    pub new_hash: Option<Seq<char>>,
}

pub open spec fn opt_view(o: Option<String>) -> Option<Seq<char>> {
    match o {
        Some(s) => Some(s@),
        None => None,
    }
}

pub open spec fn diff_view(d: JobDiff) -> JobDiffV {
    JobDiffV {
        name: d.name@,
        kind: match d.diff_type {
            DiffType::Create => DiffKindV::Create,
            DiffType::Modify { changes } => DiffKindV::Modify(changes_view(changes@)),
            DiffType::Delete => DiffKindV::Delete,
        },
        old_hash: opt_view(d.old_hash),
        new_hash: opt_view(d.new_hash),
    }
}

pub open spec fn diffs_view(ds: Seq<JobDiff>) -> Seq<JobDiffV> {
    ds.map_values(|d: JobDiff| diff_view(d))
}

/// No name occurs twice.
pub open spec fn unique(ns: Seq<Seq<char>>) -> bool {
    forall|i: int, j: int| 0 <= i < j < ns.len() ==> ns[i] != ns[j]
}

pub open spec fn proposed_names(js: Seq<ProposedJob>) -> Seq<Seq<char>> {
    js.map_values(|j: ProposedJob| j.name@)
}

pub open spec fn deployed_names(ds: Seq<DeployedJob>) -> Seq<Seq<char>> {
    ds.map_values(|d: DeployedJob| d.name@)
}

/// The deployed job of that name, if any.
pub open spec fn deployed_named(ds: Seq<DeployedJob>, n: Seq<char>) -> Option<DeployedJob> {
    if exists|i: int| 0 <= i < ds.len() && (#[trigger] ds[i]).name@ == n {
        Some(ds[choose|i: int| 0 <= i < ds.len() && (#[trigger] ds[i]).name@ == n])
    } else {
        None
    }
}

/// The plan entry of a job of the project: created when it was never
/// deployed, modified (with its changed configuration keys) when its hash
/// differs from the deployed one, else nothing.
pub open spec fn job_entry(j: ProposedJob, ds: Seq<DeployedJob>) -> Seq<JobDiffV> {
    match deployed_named(ds, j.name@) {
        Some(d) => if d.hash@ != j.hash@ {
            seq![
                JobDiffV {
                    name: j.name@,
                    kind: DiffKindV::Modify(json_changes(d.config@, j.config@)),
                    old_hash: Some(d.hash@),
                    new_hash: Some(j.hash@),
                },
            ]
        } else {
            Seq::empty()
        },
        None => seq![JobDiffV { name: j.name@, kind: DiffKindV::Create, old_hash: None, new_hash: Some(j.hash@) }],
    }
}

pub open spec fn job_entries(jo: Seq<ProposedJob>, ds: Seq<DeployedJob>) -> Seq<JobDiffV>
    decreases jo.len(),
{
    if jo.len() == 0 {
        Seq::empty()
    } else {
        job_entries(jo.drop_last(), ds) + job_entry(jo.last(), ds)
    }
}

/// The plan entry of a deployed job: deleted when the project no longer
/// has a job of that name.
pub open spec fn delete_entry(d: DeployedJob, js: Seq<ProposedJob>) -> Seq<JobDiffV> {
    if proposed_names(js).contains(d.name@) {
        Seq::empty()
    } else {
        seq![JobDiffV { name: d.name@, kind: DiffKindV::Delete, old_hash: Some(d.hash@), new_hash: None }]
    }
}

pub open spec fn delete_entries(dor: Seq<DeployedJob>, js: Seq<ProposedJob>) -> Seq<JobDiffV>
    decreases dor.len(),
{
    if dor.len() == 0 {
        Seq::empty()
    } else {
        delete_entries(dor.drop_last(), js) + delete_entry(dor.last(), js)
    }
}

/// `jo` holds the jobs of `js`, each once, in order of name.
pub open spec fn by_name_jobs(jo: Seq<ProposedJob>, js: Seq<ProposedJob>) -> bool {
    &&& strictly_sorted(proposed_names(jo))
    &&& proposed_names(jo).to_set() == proposed_names(js).to_set()
    &&& forall|i: int| 0 <= i < jo.len() ==> js.contains(#[trigger] jo[i])
}

/// `dor` holds the deployed jobs of `ds`, each once, in order of name.
pub open spec fn by_name_deployed(dor: Seq<DeployedJob>, ds: Seq<DeployedJob>) -> bool {
    &&& strictly_sorted(deployed_names(dor))
    &&& deployed_names(dor).to_set() == deployed_names(ds).to_set()
    &&& forall|i: int| 0 <= i < dor.len() ==> ds.contains(#[trigger] dor[i])
}

fn names_of_proposed(js: &Vec<ProposedJob>) -> (r: Vec<String>)
    ensures
        views(r@) == proposed_names(js@),
{
    let mut out: Vec<String> = Vec::new();
    let mut i: usize = 0;
    while i < js.len()
        invariant
            i <= js.len(),
            views(out@) == proposed_names(js@.take(i as int)),
        decreases js.len() - i,
    {
        let c = js[i].name.clone();
        proof {
            assert(c@ == js@[i as int].name@);
        }
        let ghost before = out@;
        out.push(c);
        proof {
            assert(out@ == before.push(c));
            assert(views(out@) =~= views(before).push(c@));
            assert(proposed_names(js@.take(i + 1)) =~= proposed_names(js@.take(i as int)).push(js@[i as int].name@));
        }
        i = i + 1;
    }
    proof {
        assert(js@.take(js@.len() as int) =~= js@);
    }
    out
}

fn names_of_deployed(ds: &Vec<DeployedJob>) -> (r: Vec<String>)
    ensures
        views(r@) == deployed_names(ds@),
{
    let mut out: Vec<String> = Vec::new();
    let mut i: usize = 0;
    while i < ds.len()
        invariant
            i <= ds.len(),
            views(out@) == deployed_names(ds@.take(i as int)),
        decreases ds.len() - i,
    {
        let c = ds[i].name.clone();
        proof {
            assert(c@ == ds@[i as int].name@);
        }
        let ghost before = out@;
        out.push(c);
        proof {
            assert(out@ == before.push(c));
            assert(views(out@) =~= views(before).push(c@));
            assert(deployed_names(ds@.take(i + 1)) =~= deployed_names(ds@.take(i as int)).push(ds@[i as int].name@));
        }
        i = i + 1;
    }
    proof {
        assert(ds@.take(ds@.len() as int) =~= ds@);
    }
    out
}

fn find_proposed(js: &Vec<ProposedJob>, n: &str) -> (r: Option<usize>)
    ensures
        match r {
            Some(i) => i < js@.len() && js@[i as int].name@ == n@,
            None => !proposed_names(js@).contains(n@),
        },
{
    let mut i: usize = 0;
    while i < js.len()
        invariant
            i <= js.len(),
            forall|k: int| 0 <= k < i ==> js@[k].name@ != n@,
        decreases js.len() - i,
    {
        if str_eq(js[i].name.as_str(), n) {
            return Some(i);
        }
        i = i + 1;
    }
    proof {
        if proposed_names(js@).contains(n@) {
            let k = choose|k: int| 0 <= k < js@.len() && proposed_names(js@)[k] == n@;
            assert(js@[k].name@ == n@);
        }
    }
    None
}

fn find_deployed(ds: &Vec<DeployedJob>, n: &str) -> (r: Option<usize>)
    requires
        unique(deployed_names(ds@)),
    ensures
        match r {
            Some(i) => i < ds@.len() && ds@[i as int].name@ == n@ && deployed_named(ds@, n@) == Some(ds@[i as int]),
            None => deployed_named(ds@, n@) is None && !deployed_names(ds@).contains(n@),
        },
{
    let mut i: usize = 0;
    while i < ds.len()
        invariant
            i <= ds.len(),
            unique(deployed_names(ds@)),
            forall|k: int| 0 <= k < i ==> ds@[k].name@ != n@,
        decreases ds.len() - i,
    {
        if str_eq(ds[i].name.as_str(), n) {
            proof {
                assert(0 <= i < ds@.len() && (ds@[i as int]).name@ == n@);
                let c = choose|k: int| 0 <= k < ds@.len() && (#[trigger] ds@[k]).name@ == n@;
                assert(deployed_names(ds@)[c] == ds@[c].name@);
                assert(deployed_names(ds@)[i as int] == ds@[i as int].name@);
                if c < i {
                    assert(deployed_names(ds@)[c] != deployed_names(ds@)[i as int]);
                } else if c > i {
                    assert(deployed_names(ds@).len() == ds@.len());
                    assert(0 <= i < c < deployed_names(ds@).len());
                    assert(deployed_names(ds@)[i as int] != deployed_names(ds@)[c]);
                }
                assert(c == i);
            }
            return Some(i);
        }
        i = i + 1;
    }
    proof {
        if deployed_names(ds@).contains(n@) {
            let k = choose|k: int| 0 <= k < ds@.len() && deployed_names(ds@)[k] == n@;
            assert(ds@[k].name@ == n@);
        }
    }
    None
}

fn entry_for(j: &ProposedJob, ds: &Vec<DeployedJob>, out: &mut Vec<JobDiff>)
    requires
        unique(deployed_names(ds@)),
    ensures
        diffs_view(final(out)@) == diffs_view(old(out)@) + job_entry(*j, ds@),
{
    let ghost before = old(out)@;
    match find_deployed(ds, j.name.as_str()) {
        Some(k) => {
            let d = &ds[k];
            if !str_eq(d.hash.as_str(), j.hash.as_str()) {
                let e = JobDiff {
                    name: j.name.clone(),
                    diff_type: DiffType::Modify { changes: compare_json(&d.config, &j.config) },
                    old_hash: Some(d.hash.clone()),
                    new_hash: Some(j.hash.clone()),
                };
                out.push(e);
                proof {
                    assert(out@ == before.push(e));
                    assert(diffs_view(out@) =~= diffs_view(before).push(diff_view(e)));
                }
            } else {
                proof {
                    assert(job_entry(*j, ds@) =~= Seq::<JobDiffV>::empty());
                    assert(diffs_view(out@) =~= diffs_view(before) + job_entry(*j, ds@));
                }
            }
        },
        None => {
            let e = JobDiff { name: j.name.clone(), diff_type: DiffType::Create, old_hash: None, new_hash: Some(j.hash.clone()) };
            out.push(e);
            proof {
                assert(out@ == before.push(e));
                assert(diffs_view(out@) =~= diffs_view(before).push(diff_view(e)));
            }
        },
    }
}

/// The plan of a project against what is deployed: jobs to create or
/// modify in order of name, then deployed jobs the project no longer has,
/// in order of name.
pub fn job_diffs(jobs: &Vec<ProposedJob>, deployed: &Vec<DeployedJob>) -> (r: Vec<JobDiff>)
    requires
        unique(proposed_names(jobs@)),
        unique(deployed_names(deployed@)),
    ensures
        exists|jo: Seq<ProposedJob>, dor: Seq<DeployedJob>|
            #[trigger] by_name_jobs(jo, jobs@) && #[trigger] by_name_deployed(dor, deployed@) && diffs_view(r@)
                == job_entries(jo, deployed@) + delete_entries(dor, jobs@),
{
    let names = sorted_set(names_of_proposed(jobs));
    let mut out: Vec<JobDiff> = Vec::new();
    let ghost mut jo: Seq<ProposedJob> = Seq::empty();
    let mut i: usize = 0;
    while i < names.len()
        invariant
            i <= names.len(),
            unique(deployed_names(deployed@)),
            strictly_sorted(views(names@)),
            forall|x: Seq<char>| views(names@).contains(x) <==> proposed_names(jobs@).contains(x),
            proposed_names(jo) == views(names@).take(i as int),
            forall|k: int| 0 <= k < jo.len() ==> jobs@.contains(#[trigger] jo[k]),
            diffs_view(out@) == job_entries(jo, deployed@),
        decreases names.len() - i,
    {
        proof {
            assert(views(names@)[i as int] == names@[i as int]@);
            assert(views(names@).contains(names@[i as int]@));
        }
        match find_proposed(jobs, names[i].as_str()) {
            Some(k) => {
                let ghost jo0 = jo;
                entry_for(&jobs[k], deployed, &mut out);
                proof {
                    jo = jo.push(jobs@[k as int]);
                    assert(jo.drop_last() =~= jo0);
                    assert(proposed_names(jo) =~= proposed_names(jo0).push(jobs@[k as int].name@));
                    assert(views(names@).take(i + 1) =~= views(names@).take(i as int).push(views(names@)[i as int]));
                    assert(proposed_names(jo) =~= views(names@).take(i + 1));
                    assert(jobs@.contains(jobs@[k as int]));
                }
            },
            None => {
                proof {
                    assert(false);
                }
            },
        }
        i = i + 1;
    }
    proof {
        assert(views(names@).take(names@.len() as int) =~= views(names@));
        assert(proposed_names(jo).to_set() =~= proposed_names(jobs@).to_set()) by {
            assert forall|x: Seq<char>| proposed_names(jo).to_set().contains(x) implies proposed_names(jobs@).to_set().contains(x) by {
                assert(proposed_names(jo).contains(x));
            }
            assert forall|x: Seq<char>| proposed_names(jobs@).to_set().contains(x) implies proposed_names(jo).to_set().contains(x) by {
                assert(proposed_names(jobs@).contains(x));
                assert(views(names@).contains(x));
            }
        }
        assert(by_name_jobs(jo, jobs@));
    }
    let ghost head = diffs_view(out@);
    let gone = sorted_set(names_of_deployed(deployed));
    let ghost mut dor: Seq<DeployedJob> = Seq::empty();
    let mut i: usize = 0;
    while i < gone.len()
        invariant
            i <= gone.len(),
            unique(deployed_names(deployed@)),
            strictly_sorted(views(gone@)),
            forall|x: Seq<char>| views(gone@).contains(x) <==> deployed_names(deployed@).contains(x),
            deployed_names(dor) == views(gone@).take(i as int),
            forall|k: int| 0 <= k < dor.len() ==> deployed@.contains(#[trigger] dor[k]),
            diffs_view(out@) == head + delete_entries(dor, jobs@),
        decreases gone.len() - i,
    {
        proof {
            assert(views(gone@)[i as int] == gone@[i as int]@);
            assert(views(gone@).contains(gone@[i as int]@));
        }
        match find_deployed(deployed, gone[i].as_str()) {
            Some(k) => {
                let ghost dor0 = dor;
                let ghost before = out@;
                let d = &deployed[k];
                match find_proposed(jobs, d.name.as_str()) {
                    Some(_) => {
                        proof {
                            assert(proposed_names(jobs@).contains(d.name@)) by {
                                let q = choose|q: int| 0 <= q < jobs@.len() && jobs@[q].name@ == d.name@;
                                assert(proposed_names(jobs@)[q] == d.name@);
                            }
                        }
                    },
                    None => {
                        let e = JobDiff {
                            name: d.name.clone(),
                            diff_type: DiffType::Delete,
                            old_hash: Some(d.hash.clone()),
                            new_hash: None,
                        };
                        out.push(e);
                        proof {
                            assert(out@ == before.push(e));
                            assert(diffs_view(out@) =~= diffs_view(before).push(diff_view(e)));
                        }
                    },
                }
                proof {
                    dor = dor.push(deployed@[k as int]);
                    assert(dor.drop_last() =~= dor0);
                    assert(deployed_names(dor) =~= deployed_names(dor0).push(deployed@[k as int].name@));
                    assert(views(gone@).take(i + 1) =~= views(gone@).take(i as int).push(views(gone@)[i as int]));
                    assert(deployed_names(dor) =~= views(gone@).take(i + 1));
                    assert(deployed@.contains(deployed@[k as int]));
                    assert(diffs_view(out@) =~= head + delete_entries(dor, jobs@));
                }
            },
            None => {
                proof {
                    assert(false);
                }
            },
        }
        i = i + 1;
    }
    proof {
        assert(views(gone@).take(gone@.len() as int) =~= views(gone@));
        assert(deployed_names(dor).to_set() =~= deployed_names(deployed@).to_set()) by {
            assert forall|x: Seq<char>| deployed_names(dor).to_set().contains(x) implies deployed_names(deployed@).to_set().contains(x) by {
                assert(deployed_names(dor).contains(x));
            }
            assert forall|x: Seq<char>| deployed_names(deployed@).to_set().contains(x) implies deployed_names(dor).to_set().contains(x) by {
                assert(deployed_names(deployed@).contains(x));
                assert(views(gone@).contains(x));
            }
        }
        assert(by_name_deployed(dor, deployed@));
    }
    out
}

/// What the hash of a job is taken over: its script, its configuration
/// and its trigger (as compact JSON, empty when it has none), one per line.
pub open spec fn hash_input_text(script: Seq<char>, config: JsonV, trigger: Option<JsonV>) -> Seq<char> {
    script + "\n"@ + compact(config) + "\n"@ + match trigger {
        Some(t) => compact(t),
        None => Seq::empty(),
    }
}

pub open spec fn opt_json(o: Option<&Json>) -> Option<JsonV> {
    match o {
        Some(j) => Some(j@),
        None => None,
    }
}

/// The text whose hash tells whether a job changed.
pub fn hash_input(script: &str, config: &Json, trigger: Option<&Json>) -> (r: String)
    ensures
        r@ == hash_input_text(script@, config@, opt_json(trigger)),
{
    let mut out = owned(script);
    push_str(&mut out, "\n");
    let c = to_compact(config);
    push_str(&mut out, c.as_str());
    push_str(&mut out, "\n");
    match trigger {
        Some(t) => {
            let x = to_compact(t);
            push_str(&mut out, x.as_str());
        },
        None => {},
    }
    out
}

/// A target names a job of the project, or there is no target.
pub fn validate_target(job_names: &Vec<String>, target: Option<&str>) -> (r: Result<(), String>)
    ensures
        match target {
            Some(t) => if views(job_names@).contains(t@) {
                r is Ok
            } else {
                r matches Err(m) && m@ == "target '"@ + t@ + "' not found -- no job with that name"@
            },
            None => r is Ok,
        },
{
    match target {
        Some(t) => {
            let mut i: usize = 0;
            while i < job_names.len()
                invariant
                    target == Some(t),
                    i <= job_names.len(),
                    forall|k: int| 0 <= k < i ==> job_names@[k]@ != t@,
                decreases job_names.len() - i,
            {
                if str_eq(job_names[i].as_str(), t) {
                    proof {
                        assert(views(job_names@).len() == job_names@.len());
                        assert(views(job_names@)[i as int] == t@);
                        assert(views(job_names@).contains(t@));
                    }
                    return Ok(());
                }
                i = i + 1;
            }
            proof {
                if views(job_names@).contains(t@) {
                    let k = choose|k: int| 0 <= k < views(job_names@).len() && views(job_names@)[k] == t@;
                    assert(job_names@[k]@ == t@);
                }
            }
            let mut m = owned("target '");
            push_str(&mut m, t);
            push_str(&mut m, "' not found -- no job with that name");
            Err(m)
        },
        None => Ok(()),
    }
}

/// The entries of a plan that concern the target, or all of them.
pub open spec fn for_target(ds: Seq<JobDiffV>, target: Option<Seq<char>>) -> Seq<JobDiffV> {
    match target {
        Some(t) => ds.filter(|d: JobDiffV| d.name == t),
        None => ds,
    }
}

/// Keep the entries of a plan named by the target (all without one).
pub fn retain_target(diffs: Vec<JobDiff>, target: Option<&str>) -> (r: Vec<JobDiff>)
    ensures
        diffs_view(r@) == for_target(diffs_view(diffs@), opt_text(target)),
{
    match target {
        None => diffs,
        Some(t) => {
            let ghost all = diffs_view(diffs@);
            let ghost orig = diffs@;
            let mut rest = diffs;
            let n = rest.len();
            let mut kept: Vec<JobDiff> = Vec::new();
            let mut i: usize = 0;
            proof {
                assert(all.take(0).filter(|d: JobDiffV| d.name == t@) =~= Seq::<JobDiffV>::empty());
                assert(orig.skip(0) =~= orig);
            }
            while i < n
                invariant
                    n == orig.len(),
                    i <= n,
                    rest@ == orig.skip(i as int),
                    all == diffs_view(orig),
                    diffs_view(kept@) == all.take(i as int).filter(|d: JobDiffV| d.name == t@),
                decreases n - i,
            {
                let d = rest.remove(0);
                proof {
                    assert(d == orig[i as int]);
                    assert(rest@ =~= orig.skip(i + 1));
                    assert(all.take(i + 1).drop_last() =~= all.take(i as int));
                    assert(all.take(i + 1).last() == diff_view(d));
                }
                let ghost before = kept@;
                if str_eq(d.name.as_str(), t) {
                    kept.push(d);
                    proof {
                        assert(kept@ == before.push(d));
                        assert(diffs_view(kept@) =~= diffs_view(before).push(diff_view(d)));
                    }
                }
                proof {
                    lemma_filter_step(all.take(i + 1), t@);
                }
                i = i + 1;
            }
            proof {
                assert(all.take(n as int) =~= all);
            }
            kept
        },
    }
}

proof fn lemma_filter_step(s: Seq<JobDiffV>, t: Seq<char>)
    requires
        s.len() > 0,
    ensures
        s.filter(|d: JobDiffV| d.name == t) == if s.last().name == t {
            s.drop_last().filter(|d: JobDiffV| d.name == t).push(s.last())
        } else {
            s.drop_last().filter(|d: JobDiffV| d.name == t)
        },
{
    reveal(Seq::filter);
    assert(s.drop_last() =~= s.subrange(0, s.len() - 1));
}

/// What an apply did.
pub struct ApplyResult {
    /// Jobs newly deployed.
    pub created: Vec<String>,
    /// Jobs redeployed because they changed.
    pub modified: Vec<String>,
    /// Jobs removed from the project and destroyed.
    pub deleted: Vec<String>,
}

/// What a destroy did.
pub struct DestroyResult {
    /// Jobs destroyed.
    pub destroyed: Vec<String>,
}

/// What an apply of the DAGs did.
pub struct DagApplyResult {
    pub created: Vec<String>,
    pub modified: Vec<String>,
    pub deleted: Vec<String>,
    pub required_connections: Vec<crate::connections::RequiredConnection>,
}

/// What a destroy of the DAGs did.
pub struct DagDestroyResult {
    pub destroyed: Vec<String>,
}

/// Whether an answer to a yes/no prompt is yes: `y` or `yes` in any case,
/// around white space.
pub open spec fn affirmative(answer: Seq<char>) -> bool {
    let t = crate::transform::trimmed(answer);
    ||| (t.len() == 1 && (t[0] == 'y' || t[0] == 'Y'))
    ||| (t.len() == 3 && (t[0] == 'y' || t[0] == 'Y') && (t[1] == 'e' || t[1] == 'E') && (t[2] == 's' || t[2] == 'S'))
}

/// Whether the user's answer to a confirmation prompt says yes.
pub fn is_affirmative(answer: &str) -> (r: bool)
    ensures
        r == affirmative(answer@),
{
    let t = crate::transform::trim(answer);
    let cs = crate::text::chars_of(t.as_str());
    if cs.len() == 1 {
        cs[0] == 'y' || cs[0] == 'Y'
    } else if cs.len() == 3 {
        (cs[0] == 'y' || cs[0] == 'Y') && (cs[1] == 'e' || cs[1] == 'E') && (cs[2] == 's' || cs[2] == 'S')
    } else {
        false
    }
}


/// The plan does not depend on the order the jobs come in: there is one
/// way to hold the jobs of a project (with distinct names) in order of
/// name.
pub proof fn law_plan_order_is_unique(a: Seq<ProposedJob>, b: Seq<ProposedJob>, js: Seq<ProposedJob>)
    requires
        unique(proposed_names(js)),
        by_name_jobs(a, js),
        by_name_jobs(b, js),
    ensures
        a == b,
{
    lemma_sorted_names_unique(proposed_names(a), proposed_names(b));
    assert(a.len() == b.len()) by {
        assert(proposed_names(a).len() == a.len());
        assert(proposed_names(b).len() == b.len());
    }
    assert forall|i: int| 0 <= i < a.len() implies a[i] == b[i] by {
        assert(js.contains(a[i]));
        assert(js.contains(b[i]));
        let p = choose|p: int| 0 <= p < js.len() && js[p] == a[i];
        let q = choose|q: int| 0 <= q < js.len() && js[q] == b[i];
        assert(proposed_names(a)[i] == proposed_names(b)[i]);
        assert(proposed_names(js)[p] == proposed_names(js)[q]);
        if p < q {
            assert(proposed_names(js)[p] != proposed_names(js)[q]);
        } else if q < p {
            assert(proposed_names(js)[q] != proposed_names(js)[p]);
        }
    }
    assert(a =~= b);
}

/// The job is deployed with the hash it has now.
pub open spec fn in_sync(j: ProposedJob, ds: Seq<DeployedJob>) -> bool {
    deployed_named(ds, j.name@) matches Some(d) && d.hash@ == j.hash@
}

/// A project whose jobs are all deployed with their current hashes, and
/// nothing else deployed, has an empty plan.
pub proof fn law_in_sync_means_empty_plan(jo: Seq<ProposedJob>, ds: Seq<DeployedJob>, dor: Seq<DeployedJob>, js: Seq<ProposedJob>)
    requires
        forall|i: int| 0 <= i < jo.len() ==> #[trigger] in_sync(jo[i], ds),
        forall|i: int| 0 <= i < dor.len() ==> proposed_names(js).contains(#[trigger] dor[i].name@),
    ensures
        job_entries(jo, ds) + delete_entries(dor, js) == Seq::<JobDiffV>::empty(),
{
    lemma_no_job_entries(jo, ds);
    lemma_no_deletes(dor, js);
    assert(Seq::<JobDiffV>::empty() + Seq::<JobDiffV>::empty() =~= Seq::<JobDiffV>::empty());
}

proof fn lemma_no_job_entries(jo: Seq<ProposedJob>, ds: Seq<DeployedJob>)
    requires
        forall|i: int| 0 <= i < jo.len() ==> #[trigger] in_sync(jo[i], ds),
    ensures
        job_entries(jo, ds) == Seq::<JobDiffV>::empty(),
    decreases jo.len(),
{
    if jo.len() > 0 {
        let t = jo.drop_last();
        assert forall|i: int| 0 <= i < t.len() implies #[trigger] in_sync(t[i], ds) by {
            assert(t[i] == jo[i]);
        }
        lemma_no_job_entries(t, ds);
        assert(in_sync(jo[jo.len() - 1], ds));
        assert(job_entry(jo.last(), ds) =~= Seq::<JobDiffV>::empty());
        assert(job_entries(jo, ds) =~= Seq::<JobDiffV>::empty());
    }
}

proof fn lemma_no_deletes(dor: Seq<DeployedJob>, js: Seq<ProposedJob>)
    requires
        forall|i: int| 0 <= i < dor.len() ==> proposed_names(js).contains(#[trigger] dor[i].name@),
    ensures
        delete_entries(dor, js) == Seq::<JobDiffV>::empty(),
    decreases dor.len(),
{
    if dor.len() > 0 {
        let t = dor.drop_last();
        assert forall|i: int| 0 <= i < t.len() implies proposed_names(js).contains(#[trigger] t[i].name@) by {
            assert(t[i] == dor[i]);
        }
        lemma_no_deletes(t, js);
        assert(proposed_names(js).contains(dor[dor.len() - 1].name@));
        assert(delete_entries(dor, js) =~= Seq::<JobDiffV>::empty());
    }
}


proof fn lemma_job_entries_members(jo: Seq<ProposedJob>, ds: Seq<DeployedJob>, e: JobDiffV)
    ensures
        job_entries(jo, ds).contains(e) <==> exists|q: int| 0 <= q < jo.len() && #[trigger] job_entry(jo[q], ds).contains(e),
    decreases jo.len(),
{
    if jo.len() > 0 {
        let t = jo.drop_last();
        lemma_job_entries_members(t, ds, e);
        let a = job_entries(t, ds);
        let b = job_entry(jo.last(), ds);
        assert(job_entries(jo, ds) == a + b);
        if (a + b).contains(e) {
            let k = choose|k: int| 0 <= k < (a + b).len() && (a + b)[k] == e;
            if k < a.len() {
                assert(a[k] == e);
                let q = choose|q: int| 0 <= q < t.len() && #[trigger] job_entry(t[q], ds).contains(e);
                assert(t[q] == jo[q]);
                assert(job_entry(jo[q], ds).contains(e));
            } else {
                assert(b[k - a.len()] == e);
                assert(job_entry(jo[jo.len() - 1], ds).contains(e));
            }
        }
        if exists|q: int| 0 <= q < jo.len() && #[trigger] job_entry(jo[q], ds).contains(e) {
            let q = choose|q: int| 0 <= q < jo.len() && #[trigger] job_entry(jo[q], ds).contains(e);
            if q < jo.len() - 1 {
                assert(t[q] == jo[q]);
                assert(a.contains(e));
                let k = choose|k: int| 0 <= k < a.len() && a[k] == e;
                assert((a + b)[k] == e);
            } else {
                let k = choose|k: int| 0 <= k < b.len() && b[k] == e;
                assert((a + b)[a.len() + k] == e);
            }
        }
    }
}

proof fn lemma_delete_entries_members(dor: Seq<DeployedJob>, js: Seq<ProposedJob>, e: JobDiffV)
    ensures
        delete_entries(dor, js).contains(e) <==> exists|q: int| 0 <= q < dor.len() && #[trigger] delete_entry(dor[q], js).contains(e),
    decreases dor.len(),
{
    if dor.len() > 0 {
        let t = dor.drop_last();
        lemma_delete_entries_members(t, js, e);
        let a = delete_entries(t, js);
        let b = delete_entry(dor.last(), js);
        assert(delete_entries(dor, js) == a + b);
        if (a + b).contains(e) {
            let k = choose|k: int| 0 <= k < (a + b).len() && (a + b)[k] == e;
            if k < a.len() {
                assert(a[k] == e);
                let q = choose|q: int| 0 <= q < t.len() && #[trigger] delete_entry(t[q], js).contains(e);
                assert(t[q] == dor[q]);
                assert(delete_entry(dor[q], js).contains(e));
            } else {
                assert(b[k - a.len()] == e);
                assert(delete_entry(dor[dor.len() - 1], js).contains(e));
            }
        }
        if exists|q: int| 0 <= q < dor.len() && #[trigger] delete_entry(dor[q], js).contains(e) {
            let q = choose|q: int| 0 <= q < dor.len() && #[trigger] delete_entry(dor[q], js).contains(e);
            if q < dor.len() - 1 {
                assert(t[q] == dor[q]);
                assert(a.contains(e));
                let k = choose|k: int| 0 <= k < a.len() && a[k] == e;
                assert((a + b)[k] == e);
            } else {
                let k = choose|k: int| 0 <= k < b.len() && b[k] == e;
                assert((a + b)[a.len() + k] == e);
            }
        }
    }
}

/// What the plan says of each job: of the entries for a job of the
/// project, the plan holds exactly that job's own entry (created when never
/// deployed, modified when its hash differs, none when in sync); of the
/// entries for a deployed job, exactly its deletion when the project no
/// longer has it.
pub proof fn law_plan_entry_per_job(
    jo: Seq<ProposedJob>,
    ds: Seq<DeployedJob>,
    dor: Seq<DeployedJob>,
    js: Seq<ProposedJob>,
    e: JobDiffV,
)
    requires
        unique(proposed_names(jo)),
        unique(deployed_names(dor)),
    ensures
        forall|p: int| 0 <= p < jo.len() && e.name == (#[trigger] jo[p]).name@ ==> (job_entries(jo, ds).contains(e)
            <==> job_entry(jo[p], ds).contains(e)),
        forall|p: int| 0 <= p < dor.len() && e.name == (#[trigger] dor[p]).name@ ==> (delete_entries(dor, js).contains(e)
            <==> delete_entry(dor[p], js).contains(e)),
{
    lemma_job_entries_members(jo, ds, e);
    lemma_delete_entries_members(dor, js, e);
    assert forall|p: int| 0 <= p < jo.len() && e.name == (#[trigger] jo[p]).name@ implies (job_entries(jo, ds).contains(e)
        <==> job_entry(jo[p], ds).contains(e)) by {
        if job_entries(jo, ds).contains(e) {
            let q = choose|q: int| 0 <= q < jo.len() && #[trigger] job_entry(jo[q], ds).contains(e);
            let k = choose|k: int| 0 <= k < job_entry(jo[q], ds).len() && job_entry(jo[q], ds)[k] == e;
            assert(e.name == jo[q].name@);
            assert(proposed_names(jo)[p] == proposed_names(jo)[q]);
            if p < q {
                assert(proposed_names(jo)[p] != proposed_names(jo)[q]);
            } else if q < p {
                assert(proposed_names(jo)[q] != proposed_names(jo)[p]);
            }
        }
    }
    assert forall|p: int| 0 <= p < dor.len() && e.name == (#[trigger] dor[p]).name@ implies (delete_entries(dor, js).contains(e)
        <==> delete_entry(dor[p], js).contains(e)) by {
        if delete_entries(dor, js).contains(e) {
            let q = choose|q: int| 0 <= q < dor.len() && #[trigger] delete_entry(dor[q], js).contains(e);
            let k = choose|k: int| 0 <= k < delete_entry(dor[q], js).len() && delete_entry(dor[q], js)[k] == e;
            assert(e.name == dor[q].name@);
            assert(deployed_names(dor)[p] == deployed_names(dor)[q]);
            if p < q {
                assert(deployed_names(dor)[p] != deployed_names(dor)[q]);
            } else if q < p {
                assert(deployed_names(dor)[q] != deployed_names(dor)[p]);
            }
        }
    }
}


/// What a plan says of each job, by its deployment:
/// - a job never deployed is created, with no old hash and its new hash;
/// - a job deployed with another hash is modified, from the deployed hash
///   to the new one, with the configuration keys that changed;
/// - a job deployed with the same hash gets no entry;
/// - a deployed job the project no longer has is deleted, with its
///   deployed hash and no new hash; one the project still has is not.
pub proof fn law_plan_entries_by_deployment(
    jo: Seq<ProposedJob>,
    ds: Seq<DeployedJob>,
    dor: Seq<DeployedJob>,
    js: Seq<ProposedJob>,
    p: int,
    q: int,
)
    requires
        unique(proposed_names(jo)),
        unique(deployed_names(dor)),
    ensures
        0 <= p < jo.len() ==> {
            let j = jo[p];
            let plan = job_entries(jo, ds);
            &&& deployed_named(ds, j.name@) is None ==> plan.contains(
                JobDiffV { name: j.name@, kind: DiffKindV::Create, old_hash: None, new_hash: Some(j.hash@) },
            )
            &&& (deployed_named(ds, j.name@) is Some && deployed_named(ds, j.name@)->Some_0.hash@ != j.hash@) ==> plan.contains(
                JobDiffV {
                    name: j.name@,
                    kind: DiffKindV::Modify(json_changes(deployed_named(ds, j.name@)->Some_0.config@, j.config@)),
                    old_hash: Some(deployed_named(ds, j.name@)->Some_0.hash@),
                    new_hash: Some(j.hash@),
                },
            )
            &&& (deployed_named(ds, j.name@) is Some && deployed_named(ds, j.name@)->Some_0.hash@ == j.hash@) ==> forall|i: int|
                0 <= i < plan.len() ==> (#[trigger] plan[i]).name != j.name@
        },
        0 <= q < dor.len() ==> {
            let d = dor[q];
            let dels = delete_entries(dor, js);
            &&& !proposed_names(js).contains(d.name@) ==> dels.contains(
                JobDiffV { name: d.name@, kind: DiffKindV::Delete, old_hash: Some(d.hash@), new_hash: None },
            )
            &&& proposed_names(js).contains(d.name@) ==> forall|i: int| 0 <= i < dels.len() ==> (#[trigger] dels[i]).name != d.name@
        },
{
    if 0 <= p < jo.len() {
        let j = jo[p];
        let plan = job_entries(jo, ds);
        let own = job_entry(j, ds);
        if own.len() > 0 {
            let e = own[0];
            law_plan_entry_per_job(jo, ds, dor, js, e);
            assert(own.contains(e));
            assert(plan.contains(e));
        } else {
            assert forall|i: int| 0 <= i < plan.len() implies (#[trigger] plan[i]).name != j.name@ by {
                let e = plan[i];
                law_plan_entry_per_job(jo, ds, dor, js, e);
                if e.name == j.name@ {
                    assert(plan.contains(e));
                    assert(own.contains(e));
                }
            }
        }
    }
    if 0 <= q < dor.len() {
        let d = dor[q];
        let dels = delete_entries(dor, js);
        let own = delete_entry(d, js);
        if own.len() > 0 {
            let e = own[0];
            law_plan_entry_per_job(jo, ds, dor, js, e);
            assert(own.contains(e));
            assert(dels.contains(e));
        } else {
            assert forall|i: int| 0 <= i < dels.len() implies (#[trigger] dels[i]).name != d.name@ by {
                let e = dels[i];
                law_plan_entry_per_job(jo, ds, dor, js, e);
                if e.name == d.name@ {
                    assert(dels.contains(e));
                    assert(own.contains(e));
                }
            }
        }
    }
}


/// Targeting a job keeps exactly the plan's entries for that job; without
/// a target the plan is kept whole.
pub proof fn law_target_keeps_its_entries(ds: Seq<JobDiffV>, target: Option<Seq<char>>, e: JobDiffV)
    ensures
        target is None ==> for_target(ds, target) == ds,
        target matches Some(t) ==> (for_target(ds, target).contains(e) <==> (ds.contains(e) && e.name == t)),
{
    if target is Some {
        let t = target->Some_0;
        let pred = |d: JobDiffV| d.name == t;
        let f = ds.filter(pred);
        if f.contains(e) {
            ds.lemma_filter_contains_rev(pred, e);
            let i = choose|i: int| 0 <= i < f.len() && f[i] == e;
            ds.lemma_filter_pred(pred, i);
        }
        if ds.contains(e) && e.name == t {
            let i = choose|i: int| 0 <= i < ds.len() && ds[i] == e;
            ds.lemma_filter_contains(pred, i);
        }
    }
}


proof fn lemma_change_lines_have(cs: Seq<(Seq<char>, (Seq<char>, Seq<char>))>, n: nat, i: int)
    requires
        0 <= i < n <= cs.len(),
    ensures
        contains_text(change_lines(cs, n), "      "@ + cs[i].0 + " : "@ + cs[i].1.0 + " -> "@ + cs[i].1.1 + "\n"@),
    decreases n,
{
    let before = change_lines(cs, (n - 1) as nat);
    let line = "      "@ + cs[n - 1].0 + " : "@ + cs[n - 1].1.0 + " -> "@ + cs[n - 1].1.1 + "\n"@;
    assert(change_lines(cs, n) =~= before + line);
    if i == n - 1 {
        lemma_contains_middle(before, line, Seq::empty());
        assert(before + line + Seq::<char>::empty() =~= before + line);
    } else {
        lemma_change_lines_have(cs, (n - 1) as nat, i);
        lemma_contains_middle(Seq::empty(), before, line);
        assert(Seq::<char>::empty() + before + line =~= before + line);
        lemma_contains_text_trans(before + line, before, "      "@ + cs[i].0 + " : "@ + cs[i].1.0 + " -> "@ + cs[i].1.1 + "\n"@);
    }
}

/// A modified job is printed with one line per changed key, `key : old ->
/// new`, old value first, for every key of its changes in key order.
pub proof fn law_modify_lines_show_old_then_new(d: JobDiff, mode: ColorMode, terminal: bool, i: int)
    requires
        d.diff_type is Modify,
        0 <= i < by_key(changes_view(d.diff_type->changes@)).len(),
    ensures
        ({
            let c = by_key(changes_view(d.diff_type->changes@))[i];
            contains_text(diff_text(d, mode, terminal), "      "@ + c.0 + " : "@ + c.1.0 + " -> "@ + c.1.1 + "\n"@)
        }),
{
    let cs = by_key(changes_view(d.diff_type->changes@));
    let head = colorized("  ~ Modify job ["@ + d.name@ + "]"@, "33"@, "34"@, mode, terminal) + "\n"@;
    let body = change_lines(cs, cs.len());
    lemma_change_lines_have(cs, cs.len(), i);
    assert(diff_text(d, mode, terminal) == head + body);
    lemma_contains_middle(head, body, Seq::empty());
    assert(head + body + Seq::<char>::empty() =~= head + body);
    lemma_contains_text_trans(head + body, body, "      "@ + cs[i].0 + " : "@ + cs[i].1.0 + " -> "@ + cs[i].1.1 + "\n"@);
}


/// Printed without color, a plan entry says what happens to the job by
/// name: `+ Create job [<name>]`, `~ Modify job [<name>]` (then its changed
/// keys) or `- Delete job [<name>]`.
pub proof fn law_plain_entry_headers(d: JobDiff, terminal: bool)
    ensures
        d.diff_type is Create ==> diff_text(d, ColorMode::Plain, terminal) == "  + Create job ["@ + d.name@ + "]"@ + "\n"@,
        d.diff_type is Delete ==> diff_text(d, ColorMode::Plain, terminal) == "  - Delete job ["@ + d.name@ + "]"@ + "\n"@,
        d.diff_type is Modify ==> diff_text(d, ColorMode::Plain, terminal).take(("  ~ Modify job ["@ + d.name@ + "]"@ + "\n"@).len() as int)
            == "  ~ Modify job ["@ + d.name@ + "]"@ + "\n"@,
{
    if d.diff_type is Modify {
        let h = "  ~ Modify job ["@ + d.name@ + "]"@ + "\n"@;
        let cs = by_key(changes_view(d.diff_type->changes@));
        assert(diff_text(d, ColorMode::Plain, terminal) == h + change_lines(cs, cs.len()));
        assert((h + change_lines(cs, cs.len())).take(h.len() as int) =~= h);
    }
}

} // verus!
