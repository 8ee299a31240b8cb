//! The decisions of an apply and a destroy: which jobs and DAGs are
//! deployed or removed, with which provider configuration, and what the
//! run reports. The caller performs each step (code generation, upload,
//! state writes) and reports back.
use vstd::prelude::*;
use crate::airflow::{job_type_name, AirflowSection, JobType};
use crate::codegen::job_type_str;
use crate::connections::{all_conns, conns_view, first_of_its_id, ids_sorted, merge_connections, RequiredConnection};
use crate::json::{all_wf, build_provider_config, get_str, provider_config, str_member, wf, Json, JsonV};
use crate::plan::{diffs_view, ApplyResult, DagApplyResult, DestroyResult, DiffKindV, DiffType, JobDiff, JobDiffV};
use crate::text::{owned, push_str, str_eq, views};

verus! {

// ------------------------------------------------------------------
// Provider configuration
// ------------------------------------------------------------------

/// The job type named by a configuration's `type`.
pub open spec fn parse_job_type(s: Seq<char>) -> Option<JobType> {
    if s == "glue"@ {
        Some(JobType::Glue)
    } else if s == "emr"@ {
        Some(JobType::Emr)
    } else if s == "bash"@ {
        Some(JobType::Bash)
    } else {
        None
    }
}

pub fn job_type_from_str(s: &str) -> (r: Option<JobType>)
    ensures
        r == parse_job_type(s@),
{
    if str_eq(s, "glue") {
        Some(JobType::Glue)
    } else if str_eq(s, "emr") {
        Some(JobType::Emr)
    } else if str_eq(s, "bash") {
        Some(JobType::Bash)
    } else {
        None
    }
}

/// The project's defaults for a provider, by name (the first entry of
/// that name).
pub open spec fn provider_defaults(providers: Seq<(String, Json)>, key: Seq<char>) -> Option<JsonV>
    decreases providers.len(),
{
    if providers.len() == 0 {
        None
    } else if providers[0].0@ == key {
        Some(providers[0].1@)
    } else {
        provider_defaults(providers.subrange(1, providers.len() as int), key)
    }
}

fn find_provider<'a>(providers: &'a Vec<(String, Json)>, key: &str) -> (r: Option<&'a Json>)
    ensures
        all_wf(providers@) ==> (r matches Some(x) ==> wf(x@)),
        match provider_defaults(providers@, key@) {
            Some(d) => r matches Some(x) && x@ == d,
            None => r is None,
        },
{
    let mut i: usize = 0;
    proof {
        assert(providers@.subrange(0, providers@.len() as int) =~= providers@);
    }
    while i < providers.len()
        invariant
            i <= providers.len(),
            provider_defaults(providers@, key@) == provider_defaults(
                providers@.subrange(i as int, providers@.len() as int),
                key@,
            ),
        decreases providers.len() - i,
    {
        let ghost rest = providers@.subrange(i as int, providers@.len() as int);
        proof {
            assert(rest[0] == providers@[i as int]);
            assert(rest.subrange(1, rest.len() as int) =~= providers@.subrange(i + 1, providers@.len() as int));
        }
        if str_eq(providers[i].0.as_str(), key) {
            proof {
                if all_wf(providers@) {
                    assert(wf(providers@[i as int].1@));
                }
            }
            return Some(&providers[i].1);
        }
        i = i + 1;
    }
    None
}

/// How a job is deployed: with its provider's defaults merged with its
/// configuration, or not at all on a dry run or without provider defaults.
pub fn deploy_config(dry_run: bool, job_type: JobType, job_config: &Json, providers: &Vec<(String, Json)>) -> (r: Option<Json>)
    requires
        wf(job_config@),
        all_wf(providers@),
    ensures
        dry_run ==> r is None,
        !dry_run ==> match provider_defaults(providers@, job_type_name(job_type)) {
            Some(d) => r matches Some(c) && c@ == provider_config(d, job_config@, job_type_name(job_type)),
            None => r is None,
        },
{
    if dry_run {
        return None;
    }
    let key = job_type_str(job_type);
    match find_provider(providers, key) {
        Some(d) => Some(build_provider_config(d, job_config, key)),
        None => None,
    }
}

/// What happens to a deployed job's provider resources when it goes.
pub enum Teardown {
    /// Nothing to tear down (dry run, no resources, or no provider
    /// defaults for its type).
    Skip,
    /// Destroy them through the provider of this type, with this
    /// configuration.
    Destroy { job_type: JobType, config: Json },
}

/// The error message for a state configuration without a `type`.
pub open spec fn missing_type_message(job: Seq<char>) -> Seq<char> {
    "Job '"@ + job + "' state is missing a 'type' field"@
}

pub open spec fn invalid_type_message(job: Seq<char>) -> Seq<char> {
    "invalid job type in state for job '"@ + job + "'"@
}

/// Decide how a deployed job's resources are torn down: skipped on a dry
/// run or when it has none; else its state's `type` names the provider,
/// whose defaults (if the project has any) are merged with its deployed
/// configuration.
pub fn teardown_plan(
    job_name: &str,
    dry_run: bool,
    resource_count: usize,
    state_config: &Json,
    providers: &Vec<(String, Json)>,
) -> (r: Result<Teardown, String>)
    requires
        wf(state_config@),
        all_wf(providers@),
    ensures
        dry_run || resource_count == 0 ==> r matches Ok(Teardown::Skip),
        !dry_run && resource_count > 0 ==> match str_member(state_config@, "type"@) {
            None => r matches Err(m) && m@ == missing_type_message(job_name@),
            Some(t) => match parse_job_type(t) {
                None => r matches Err(m) && m@ == invalid_type_message(job_name@),
                Some(jt) => match provider_defaults(providers@, job_type_name(jt)) {
                    None => r matches Ok(Teardown::Skip),
                    Some(d) => r matches Ok(Teardown::Destroy { job_type, config }) && job_type == jt && config@
                        == provider_config(d, state_config@, job_type_name(jt)),
                },
            },
        },
{
    if dry_run || resource_count == 0 {
        return Ok(Teardown::Skip);
    }
    let t = match get_str(state_config, "type") {
        Some(t) => t,
        None => {
            let mut m = owned("Job '");
            push_str(&mut m, job_name);
            push_str(&mut m, "' state is missing a 'type' field");
            return Err(m);
        },
    };
    let jt = match job_type_from_str(t) {
        Some(jt) => jt,
        None => {
            let mut m = owned("invalid job type in state for job '");
            push_str(&mut m, job_name);
            push_str(&mut m, "'");
            return Err(m);
        },
    };
    let key = job_type_str(jt);
    match find_provider(providers, key) {
        Some(d) => Ok(Teardown::Destroy { job_type: jt, config: build_provider_config(d, state_config, key) }),
        None => Ok(Teardown::Skip),
    }
}

/// How a deployed job's resources are checked: through the provider its
/// state's `type` names, with the provider's defaults merged with its
/// deployed configuration; not at all when it has no resources, its type
/// is missing or unknown, or the project has no defaults for it.
pub fn verify_config(resource_count: usize, state_config: &Json, providers: &Vec<(String, Json)>) -> (r: Option<(JobType, Json)>)
    requires
        wf(state_config@),
        all_wf(providers@),
    ensures
        resource_count == 0 ==> r is None,
        resource_count > 0 ==> match str_member(state_config@, "type"@) {
            None => r is None,
            Some(t) => match parse_job_type(t) {
                None => r is None,
                Some(jt) => match provider_defaults(providers@, job_type_name(jt)) {
                    None => r is None,
                    Some(d) => r matches Some(p) && p.0 == jt && p.1@ == provider_config(d, state_config@, job_type_name(jt)),
                },
            },
        },
{
    if resource_count == 0 {
        return None;
    }
    let t = match get_str(state_config, "type") {
        Some(t) => t,
        None => {
            return None;
        },
    };
    let jt = match job_type_from_str(t) {
        Some(jt) => jt,
        None => {
            return None;
        },
    };
    let key = job_type_str(jt);
    match find_provider(providers, key) {
        Some(d) => Some((jt, build_provider_config(d, state_config, key))),
        None => None,
    }
}

/// The region DAG files are uploaded in: `providers.airflow.region`, else
/// the region of an S3 state backend.
pub fn airflow_region(providers: &Vec<(String, Json)>, state_region: Option<&str>) -> (r: Result<String, String>)
    ensures
        match provider_defaults(providers@, "airflow"@) {
            Some(a) if str_member(a, "region"@) is Some => r matches Ok(x) && x@ == str_member(a, "region"@)->0,
            _ => match state_region {
                Some(g) => r matches Ok(x) && x@ == g@,
                None => r matches Err(m) && m@ == "Cannot determine AWS region for DAG S3 upload. Set `region` in providers.airflow or use an S3 state backend."@,
            },
        },
{
    match find_provider(providers, "airflow") {
        Some(a) => match get_str(a, "region") {
            Some(x) => {
                return Ok(owned(x));
            },
            None => {},
        },
        None => {},
    }
    match state_region {
        Some(g) => Ok(owned(g)),
        None => Err(
            owned(
                "Cannot determine AWS region for DAG S3 upload. Set `region` in providers.airflow or use an S3 state backend.",
            ),
        ),
    }
}

/// Whether a job is recorded as deployed (it has provider resources) or
/// only generated.
#[derive(PartialEq, Eq, Structural, Clone, Copy)]
pub enum DeploymentStatus {
    Generated,
    Deployed,
}

pub fn deployment_status(resource_count: usize) -> (r: DeploymentStatus)
    ensures
        r == (if resource_count == 0 {
            DeploymentStatus::Generated
        } else {
            DeploymentStatus::Deployed
        }),
{
    if resource_count == 0 {
        DeploymentStatus::Generated
    } else {
        DeploymentStatus::Deployed
    }
}

/// Where a DAG file is uploaded: its `dags_bucket` with its `dags_prefix`
/// (default `dags/`); nowhere on a dry run or without a bucket.
pub fn dag_upload_target(dry_run: bool, config: &AirflowSection) -> (r: Option<(String, String)>)
    ensures
        dry_run || config.dags_bucket is None ==> r is None,
        !dry_run && config.dags_bucket is Some ==> (r matches Some(p) && p.0@ == config.dags_bucket->0@ && p.1@
            == match config.dags_prefix {
            Some(x) => x@,
            None => "dags/"@,
        }),
{
    if dry_run {
        return None;
    }
    match &config.dags_bucket {
        None => None,
        Some(b) => {
            let prefix = match &config.dags_prefix {
                Some(p) => p.clone(),
                None => owned("dags/"),
            };
            proof {
                assert(prefix@ == match config.dags_prefix {
                    Some(x) => x@,
                    None => "dags/"@,
                });
            }
            let bucket = b.clone();
            proof {
                assert(bucket@ == b@);
            }
            Some((bucket, prefix))
        },
    }
}

/// The state recorded for a DAG: deployed once uploaded, else generated.
pub fn dag_status(uploaded: bool) -> (r: &'static str)
    ensures
        r@ == (if uploaded {
            "deployed"@
        } else {
            "generated"@
        }),
{
    if uploaded {
        proof {
            reveal_strlit("deployed");
        }
        "deployed"
    } else {
        proof {
            reveal_strlit("generated");
        }
        "generated"
    }
}

/// The credentials to delete a DAG with: those saved with its state, else
/// the fallback.
pub fn destroy_dag_aws<'a>(state_aws: Option<&'a Json>, fallback: Option<&'a Json>) -> (r: Option<&'a Json>)
    ensures
        r == (match state_aws {
            Some(a) => Some(a),
            None => fallback,
        }),
{
    match state_aws {
        Some(a) => Some(a),
        None => fallback,
    }
}

// ------------------------------------------------------------------
// The apply loop
// ------------------------------------------------------------------

/// The names of the entries of each kind, in order.
pub open spec fn created_names(ds: Seq<JobDiffV>) -> Seq<Seq<char>>
    decreases ds.len(),
{
    if ds.len() == 0 {
        Seq::empty()
    } else {
        created_names(ds.drop_last()) + if ds.last().kind is Create {
            seq![ds.last().name]
        } else {
            Seq::empty()
        }
    }
}

pub open spec fn modified_names(ds: Seq<JobDiffV>) -> Seq<Seq<char>>
    decreases ds.len(),
{
    if ds.len() == 0 {
        Seq::empty()
    } else {
        modified_names(ds.drop_last()) + if ds.last().kind is Modify {
            seq![ds.last().name]
        } else {
            Seq::empty()
        }
    }
}

pub open spec fn deleted_names(ds: Seq<JobDiffV>) -> Seq<Seq<char>>
    decreases ds.len(),
{
    if ds.len() == 0 {
        Seq::empty()
    } else {
        deleted_names(ds.drop_last()) + if ds.last().kind is Delete {
            seq![ds.last().name]
        } else {
            Seq::empty()
        }
    }
}

/// The next thing an apply does.
pub enum ApplyAction {
    /// Generate, write and deploy the job or DAG; `created` tells a new
    /// one from a changed one.
    Deploy { name: String, created: bool },
    /// Tear down the job or DAG and delete its state and file.
    Remove { name: String },
    /// All entries are done.
    Finished,
}

/// An apply in progress over the entries of a plan.
pub struct ApplyRun {
    diffs: Vec<JobDiff>,
    done: usize,
    created: Vec<String>,
    modified: Vec<String>,
    deleted: Vec<String>,
}

impl ApplyRun {
    /// The plan's entries.
    pub closed spec fn entries(&self) -> Seq<JobDiffV> {
        diffs_view(self.diffs@)
    }

    /// How many entries are done.
    pub closed spec fn progress(&self) -> nat {
        self.done as nat
    }

    /// The done entries are recorded by kind, in order.
    pub closed spec fn wf(&self) -> bool {
        &&& self.done <= self.diffs@.len()
        &&& views(self.created@) == created_names(diffs_view(self.diffs@).take(self.done as int))
        &&& views(self.modified@) == modified_names(diffs_view(self.diffs@).take(self.done as int))
        &&& views(self.deleted@) == deleted_names(diffs_view(self.diffs@).take(self.done as int))
    }

    /// Start an apply of the plan.
    pub fn new(diffs: Vec<JobDiff>) -> (r: ApplyRun)
        ensures
            r.wf(),
            r.entries() == diffs_view(diffs@),
            r.progress() == 0,
    {
        let r = ApplyRun { diffs, done: 0, created: Vec::new(), modified: Vec::new(), deleted: Vec::new() };
        proof {
            assert(diffs_view(r.diffs@).take(0) =~= Seq::<JobDiffV>::empty());
            assert(views(r.created@) =~= Seq::<Seq<char>>::empty());
            assert(views(r.modified@) =~= Seq::<Seq<char>>::empty());
            assert(views(r.deleted@) =~= Seq::<Seq<char>>::empty());
        }
        r
    }

    /// What to do next: deploy a created or modified entry, remove a
    /// deleted one, or finish.
    pub fn next_action(&self) -> (r: ApplyAction)
        requires
            self.wf(),
        ensures
            self.progress() == self.entries().len() ==> r is Finished,
            self.progress() < self.entries().len() ==> match self.entries()[self.progress() as int].kind {
                DiffKindV::Create => r matches ApplyAction::Deploy { name, created } && created && name@
                    == self.entries()[self.progress() as int].name,
                DiffKindV::Modify(_) => r matches ApplyAction::Deploy { name, created } && !created && name@
                    == self.entries()[self.progress() as int].name,
                DiffKindV::Delete => r matches ApplyAction::Remove { name } && name@ == self.entries()[self.progress() as int].name,
            },
    {
        if self.done >= self.diffs.len() {
            return ApplyAction::Finished;
        }
        let d = &self.diffs[self.done];
        match &d.diff_type {
            DiffType::Create => ApplyAction::Deploy { name: d.name.clone(), created: true },
            DiffType::Modify { .. } => ApplyAction::Deploy { name: d.name.clone(), created: false },
            DiffType::Delete => ApplyAction::Remove { name: d.name.clone() },
        }
    }

    /// The next entry is done: record it under its kind.
    pub fn complete(&mut self)
        requires
            old(self).wf(),
            old(self).progress() < old(self).entries().len(),
        ensures
            final(self).wf(),
            final(self).entries() == old(self).entries(),
            final(self).progress() == old(self).progress() + 1,
    {
        let ghost all = diffs_view(self.diffs@);
        let ghost k = self.done as int;
        proof {
            assert(all.len() == self.diffs@.len());
            assert(all.take(k + 1).drop_last() =~= all.take(k));
            assert(all.take(k + 1).last() == all[k]);
            assert(all[k] == crate::plan::diff_view(self.diffs@[k]));
        }
        let d = &self.diffs[self.done];
        let name = d.name.clone();
        match &d.diff_type {
            DiffType::Create => {
                let ghost before = self.created@;
                self.created.push(name);
                proof {
                    assert(views(self.created@) =~= views(before).push(name@));
                    assert(modified_names(all.take(k + 1)) =~= modified_names(all.take(k)));
                    assert(deleted_names(all.take(k + 1)) =~= deleted_names(all.take(k)));
                }
            },
            DiffType::Modify { .. } => {
                let ghost before = self.modified@;
                self.modified.push(name);
                proof {
                    assert(views(self.modified@) =~= views(before).push(name@));
                    assert(created_names(all.take(k + 1)) =~= created_names(all.take(k)));
                    assert(deleted_names(all.take(k + 1)) =~= deleted_names(all.take(k)));
                }
            },
            DiffType::Delete => {
                let ghost before = self.deleted@;
                self.deleted.push(name);
                proof {
                    assert(views(self.deleted@) =~= views(before).push(name@));
                    assert(created_names(all.take(k + 1)) =~= created_names(all.take(k)));
                    assert(modified_names(all.take(k + 1)) =~= modified_names(all.take(k)));
                }
            },
        }
        let n = self.diffs.len();
        assert(self.done < n);
        self.done = self.done + 1;
        assert(views(self.created@) == created_names(all.take(k + 1)));
        assert(views(self.modified@) == modified_names(all.take(k + 1)));
        assert(views(self.deleted@) == deleted_names(all.take(k + 1)));
    }

    /// What the finished apply reports: the names of the created,
    /// modified and deleted entries, each in plan order.
    pub fn into_result(self) -> (r: ApplyResult)
        requires
            self.wf(),
            self.progress() == self.entries().len(),
        ensures
            views(r.created@) == created_names(self.entries()),
            views(r.modified@) == modified_names(self.entries()),
            views(r.deleted@) == deleted_names(self.entries()),
    {
        proof {
            assert(diffs_view(self.diffs@).take(self.done as int) =~= diffs_view(self.diffs@));
        }
        ApplyResult { created: self.created, modified: self.modified, deleted: self.deleted }
    }

    /// What a finished apply of DAGs reports: as for jobs, with the
    /// connections the created and modified DAGs need.
    pub fn into_dag_result(self, connections: &Vec<Vec<RequiredConnection>>) -> (r: DagApplyResult)
        requires
            self.wf(),
            self.progress() == self.entries().len(),
        ensures
            views(r.created@) == created_names(self.entries()),
            views(r.modified@) == modified_names(self.entries()),
            views(r.deleted@) == deleted_names(self.entries()),
            ids_sorted(conns_view(r.required_connections@)),
            forall|p: (Seq<char>, Seq<char>)|
                conns_view(r.required_connections@).contains(p) <==> first_of_its_id(
                    all_conns(connections@.map_values(|l: Vec<RequiredConnection>| l@)),
                    p,
                ),
    {
        proof {
            assert(diffs_view(self.diffs@).take(self.done as int) =~= diffs_view(self.diffs@));
        }
        let required_connections = merge_connections(connections);
        DagApplyResult { created: self.created, modified: self.modified, deleted: self.deleted, required_connections }
    }
}

/// Record the outcome of destroying one job or DAG: it is listed when it
/// existed.
pub fn record_destroyed(result: &mut DestroyResult, name: &String, existed: bool)
    ensures
        views(final(result).destroyed@) == views(old(result).destroyed@) + if existed {
            seq![name@]
        } else {
            Seq::<Seq<char>>::empty()
        },
{
    let ghost before = result.destroyed@;
    if existed {
        result.destroyed.push(name.clone());
        proof {
            assert(views(result.destroyed@) =~= views(before).push(name@));
        }
    } else {
        proof {
            assert(views(result.destroyed@) =~= views(before));
        }
    }
}

} // verus!
