//! The pieces of a generated Airflow DAG file: default arguments, task
//! definitions, dependency edges, the synthetic publish task and the
//! header listing the connections the DAG needs.
use vstd::prelude::*;
use crate::airflow::{AirflowSection, JobType};
use crate::arn::{arn_error_message, arn_parts, conn_id_for, derive_aws_conn_id, ArnError};
use crate::connections::{
    assume_role_in, conns_view, find_job, first_of_its_id, ids_sorted, job_explicit_conn, job_role, non_empty, required_connections_for_dag,
    resolve_task_aws_conn_id, task_conn_id, task_connections, ManifestJob, RequiredConnection,
};
use crate::json::{get_str, json_string_text, str_member, Json, JsonV};
use crate::text::{decimal, join, joined, owned, python_var, python_var_name, push_str, sort_strings, sorted, str_eq, u64_to_decimal, views};
use crate::triggers::{conn_view, dataset_ref, law_trigger_render_is_unique, dataset_ref_text, lemma_trigger_imports_in_pool, pyq, render_trigger_for, trigger_renders, TriggerRender};
use crate::version::{bash_import_of, class_import_of, effective_version, empty_import_of, version_or_default, AirflowMajorVersion};
use crate::text::{contains_text, lemma_contains_middle, lemma_contains_text_trans, lemma_joined_contains_part, lemma_lex_irreflexive, lemma_lex_total, lemma_sorted_names_unique, lemma_sorted_same_elements, lemma_views_same_elements, lex_lt, sorted_set, strictly_sorted};

verus! {

fn quote(s: &str) -> (r: String)
    ensures
        r@ == pyq(s@),
{
    crate::json::json_quote(s)
}

/// The `default_args` dict: owner and retries when set, `{}` otherwise.
pub open spec fn default_args(owner: Option<Seq<char>>, retries: Option<u64>) -> Seq<char> {
    let entries = (match owner {
        Some(o) => seq!["    \"owner\": "@ + pyq(o) + ","@],
        None => Seq::empty(),
    }) + (match retries {
        Some(r) => seq!["    \"retries\": "@ + decimal(r as nat) + ","@],
        None => Seq::empty(),
    });
    if entries.len() == 0 {
        "{}"@
    } else {
        "{\n"@ + joined(entries, "\n"@) + "\n}"@
    }
}

/// The `default_args` dict holds a `"retries": <r>,` line when retries are
/// set and an `"owner": "<o>",` line when an owner is set; it is the empty
/// dict `{}` exactly when neither is set.
pub proof fn law_default_args_hold_the_settings(owner: Option<Seq<char>>, retries: Option<u64>)
    ensures
        retries matches Some(r) ==> contains_text(default_args(owner, retries), "    \"retries\": "@ + decimal(r as nat) + ","@),
        owner matches Some(o) ==> contains_text(default_args(owner, retries), "    \"owner\": "@ + pyq(o) + ","@),
        default_args(owner, retries) == "{}"@ <==> (owner is None && retries is None),
{
    reveal_strlit("{}");
    reveal_strlit("{\n");
    let entries = (match owner {
        Some(o) => seq!["    \"owner\": "@ + pyq(o) + ","@],
        None => Seq::<Seq<char>>::empty(),
    }) + (match retries {
        Some(r) => seq!["    \"retries\": "@ + decimal(r as nat) + ","@],
        None => Seq::<Seq<char>>::empty(),
    });
    let body = joined(entries, "\n"@);
    if entries.len() > 0 {
        let whole = "{\n"@ + body + "\n}"@;
        assert(default_args(owner, retries) == whole);
        assert(whole[1] == '\n');
        assert("{}"@[1] == '}');
        if retries is Some {
            let k = entries.len() - 1;
            lemma_joined_contains_part(entries, "\n"@, k);
            lemma_contains_middle("{\n"@, body, "\n}"@);
            lemma_contains_text_trans(whole, body, entries[k]);
        }
        if owner is Some {
            lemma_joined_contains_part(entries, "\n"@, 0);
            lemma_contains_middle("{\n"@, body, "\n}"@);
            lemma_contains_text_trans(whole, body, entries[0]);
        }
    }
}

pub open spec fn opt_str(o: Option<String>) -> Option<Seq<char>> {
    match o {
        Some(s) => Some(s@),
        None => None,
    }
}

/// Render the `default_args` dict of the DAG constructor.
pub fn render_default_args(cfg: &AirflowSection) -> (r: String)
    ensures
        r@ == default_args(opt_str(cfg.owner), cfg.retries),
{
    let mut entries: Vec<String> = Vec::new();
    match &cfg.owner {
        Some(o) => {
            let mut e = owned("    \"owner\": ");
            let q = quote(o.as_str());
            push_str(&mut e, q.as_str());
            push_str(&mut e, ",");
            entries.push(e);
        },
        None => {},
    }
    match cfg.retries {
        Some(n) => {
            let mut e = owned("    \"retries\": ");
            let d = u64_to_decimal(n);
            push_str(&mut e, d.as_str());
            push_str(&mut e, ",");
            entries.push(e);
        },
        None => {},
    }
    let ghost ev = (match &cfg.owner {
        Some(o) => seq!["    \"owner\": "@ + pyq(o@) + ","@],
        None => Seq::<Seq<char>>::empty(),
    }) + (match cfg.retries {
        Some(r) => seq!["    \"retries\": "@ + decimal(r as nat) + ","@],
        None => Seq::<Seq<char>>::empty(),
    });
    proof {
        assert(views(entries@) =~= ev);
    }
    if entries.len() == 0 {
        owned("{}")
    } else {
        let mut r = owned("{\n");
        let j = join(&entries, "\n");
        push_str(&mut r, j.as_str());
        push_str(&mut r, "\n}");
        r
    }
}

/// `Dataset("<uri>")` (`Asset` on Airflow 3) for each URI, joined with
/// `, `.
pub open spec fn dataset_list(v: AirflowMajorVersion, uris: Seq<Seq<char>>) -> Seq<char> {
    joined(uris.map_values(|u: Seq<char>| dataset_ref(v, u)), ", "@)
}

fn dataset_list_text(version: AirflowMajorVersion, uris: &Vec<String>) -> (r: String)
    ensures
        r@ == dataset_list(version, views(uris@)),
{
    let mut parts: Vec<String> = Vec::new();
    let mut i: usize = 0;
    while i < uris.len()
        invariant
            i <= uris.len(),
            views(parts@) == views(uris@).take(i as int).map_values(|u: Seq<char>| dataset_ref(version, u)),
        decreases uris.len() - i,
    {
        let d = dataset_ref_text(version, uris[i].as_str());
        let ghost before = views(parts@);
        parts.push(d);
        proof {
            assert(views(parts@) =~= before.push(d@));
            assert(views(uris@).take(i + 1).map_values(|u: Seq<char>| dataset_ref(version, u)) =~= views(uris@).take(
                i as int,
            ).map_values(|u: Seq<char>| dataset_ref(version, u)).push(d@));
        }
        i = i + 1;
    }
    proof {
        assert(views(uris@).take(uris@.len() as int) =~= views(uris@));
    }
    join(&parts, ", ")
}

/// The `outlets=[...]` keyword of a task that publishes datasets; nothing
/// otherwise.
pub open spec fn outlets_kwarg(v: AirflowMajorVersion, publishes: Seq<Seq<char>>) -> Seq<char> {
    if publishes.len() == 0 {
        Seq::empty()
    } else {
        "\n        outlets=["@ + dataset_list(v, publishes) + "],"@
    }
}

/// Render a task's `outlets=[Dataset(...)]` keyword fragment for Airflow
/// version `version`.
pub fn render_outlets(version: AirflowMajorVersion, publishes: &Vec<String>) -> (r: String)
    ensures
        r@ == outlets_kwarg(version, views(publishes@)),
{
    if publishes.len() == 0 {
        return String::new();
    }
    let mut r = owned("\n        outlets=[");
    let l = dataset_list_text(version, publishes);
    push_str(&mut r, l.as_str());
    push_str(&mut r, "],");
    r
}

/// The script location recorded for `task`, if any.
pub open spec fn script_of(locations: Seq<(String, String)>, task: Seq<char>) -> Option<Seq<char>>
    decreases locations.len(),
{
    if locations.len() == 0 {
        None
    } else if locations[0].0@ == task {
        Some(locations[0].1@)
    } else {
        script_of(locations.skip(1), task)
    }
}

/// The script location of a task is the location recorded under the task's
/// name, the first such entry when there are several; there is none
/// exactly when no entry carries the task's name.
pub proof fn law_script_location_is_the_tasks_own(locations: Seq<(String, String)>, task: Seq<char>)
    ensures
        script_of(locations, task) is None <==> forall|i: int| 0 <= i < locations.len() ==> (#[trigger] locations[i]).0@ != task,
        script_of(locations, task) matches Some(u) ==> exists|i: int|
            0 <= i < locations.len() && (#[trigger] locations[i]).0@ == task && locations[i].1@ == u && forall|j: int|
                0 <= j < i ==> (#[trigger] locations[j]).0@ != task,
    decreases locations.len(),
{
    if locations.len() > 0 {
        let rest = locations.skip(1);
        law_script_location_is_the_tasks_own(rest, task);
        if locations[0].0@ == task {
            assert(locations[0].0@ == task && locations[0].1@ == script_of(locations, task)->Some_0);
        } else {
            assert forall|i: int| 0 <= i < rest.len() implies rest[i] == locations[i + 1] by {}
            if script_of(locations, task) is None {
                assert forall|i: int| 0 <= i < locations.len() implies (#[trigger] locations[i]).0@ != task by {
                    if i > 0 {
                        assert(locations[i] == rest[i - 1]);
                    }
                }
            } else {
                let u = script_of(locations, task)->Some_0;
                let i = choose|i: int|
                    0 <= i < rest.len() && (#[trigger] rest[i]).0@ == task && rest[i].1@ == u && forall|j: int|
                        0 <= j < i ==> (#[trigger] rest[j]).0@ != task;
                assert(locations[i + 1] == rest[i]);
                assert forall|j: int| 0 <= j < i + 1 implies (#[trigger] locations[j]).0@ != task by {
                    if j > 0 {
                        assert(locations[j] == rest[j - 1]);
                    }
                }
            }
            if forall|i: int| 0 <= i < locations.len() ==> (#[trigger] locations[i]).0@ != task {
                assert forall|i: int| 0 <= i < rest.len() implies (#[trigger] rest[i]).0@ != task by {
                    assert(locations[i + 1] == rest[i]);
                }
            }
        }
    }
}

fn find_script<'a>(locations: &'a Vec<(String, String)>, task: &str) -> (r: Option<&'a str>)
    ensures
        match script_of(locations@, task@) {
            Some(s) => r matches Some(x) && x@ == s,
            None => r is None,
        },
{
    let mut i: usize = 0;
    proof {
        assert(locations@.skip(0) =~= locations@);
    }
    while i < locations.len()
        invariant
            i <= locations.len(),
            script_of(locations@, task@) == script_of(locations@.skip(i as int), task@),
        decreases locations.len() - i,
    {
        proof {
            assert(locations@.skip(i as int).skip(1) =~= locations@.skip(i + 1));
            assert(locations@.skip(i as int)[0] == locations@[i as int]);
        }
        if str_eq(locations[i].0.as_str(), task) {
            return Some(locations[i].1.as_str());
        }
        i = i + 1;
    }
    None
}

pub open spec fn task_context(task: Seq<char>, inner: Seq<char>) -> Seq<char> {
    "task '"@ + task + "': "@ + inner
}

/// The task definition of one job inside `with DAG(...)` for Airflow
/// version `v`, or why it cannot be rendered. `root_aws` is the project's
/// AWS block; `locations` the persisted script URI of each job.
pub open spec fn task_definition(
    v: AirflowMajorVersion,
    task: Seq<char>,
    job: ManifestJob,
    root_aws: JsonV,
    locations: Seq<(String, String)>,
) -> Result<Seq<char>, Seq<char>> {
    let var = python_var(task);
    let tid = pyq(task);
    let outlets = outlets_kwarg(v, views(job.publishes@));
    match job.job_type {
        JobType::Bash => match str_member(job.config@, "command"@) {
            None => Err("bash task '"@ + task + "' is missing 'command'"@),
            Some(cmd) => Ok("    "@ + var + " = BashOperator(\n        task_id="@ + tid + ",\n        bash_command="@ + pyq(cmd) + ","@
                + outlets + "\n    )"@),
        },
        JobType::Glue => match str_member(job.config@, "role"@) {
            None => Err(task_context(task, "Glue render requires 'config.role' on the resolved job config"@)),
            Some(role) => match script_of(locations, task) {
                None => Err(task_context(task, "Glue render requires a persisted script URI \u{2014} run 'yard apply' to upload and persist state"@)),
                Some(uri) => match task_conn_id(job_explicit_conn(job.config@), job_role(job.config@), assume_role_in(root_aws)) {
                    Err(e) => Err(task_context(task, arn_error_message(e, job_role(job.config@)->Some_0))),
                    Ok(conn) => Ok("    "@ + var + " = GlueJobOperator(\n        task_id="@ + tid + ",\n        job_name="@ + pyq(task)
                        + ",\n        script_location="@ + pyq(uri) + ",\n        iam_role_arn="@ + pyq(role)
                        + ",\n        aws_conn_id="@ + pyq(conn) + ","@ + outlets + "\n    )"@),
                },
            },
        },
        JobType::Emr => Err("job type 'emr' is not supported in Airflow codegen yet"@),
    }
}

proof fn lemma_glue_operator_text(var: Seq<char>, tid: Seq<char>, name: Seq<char>, uri: Seq<char>, role: Seq<char>, conn: Seq<char>, outlets: Seq<char>)
    ensures
        ({
            let text = "    "@ + var + " = GlueJobOperator(\n        task_id="@ + tid + ",\n        job_name="@ + name
                + ",\n        script_location="@ + uri + ",\n        iam_role_arn="@ + role + ",\n        aws_conn_id="@ + conn + ","@
                + outlets + "\n    )"@;
            &&& contains_text(text, ",\n        job_name="@ + name)
            &&& contains_text(text, ",\n        script_location="@ + uri)
            &&& contains_text(text, ",\n        iam_role_arn="@ + role)
            &&& contains_text(text, ",\n        aws_conn_id="@ + conn)
        }),
{
    let a0 = "    "@ + var + " = GlueJobOperator(\n        task_id="@ + tid;
    let jn = ",\n        job_name="@ + name;
    let sl = ",\n        script_location="@ + uri;
    let ir = ",\n        iam_role_arn="@ + role;
    let ac = ",\n        aws_conn_id="@ + conn;
    let tail = ","@ + outlets + "\n    )"@;
    let text = "    "@ + var + " = GlueJobOperator(\n        task_id="@ + tid + ",\n        job_name="@ + name
        + ",\n        script_location="@ + uri + ",\n        iam_role_arn="@ + role + ",\n        aws_conn_id="@ + conn + ","@
        + outlets + "\n    )"@;
    assert(text =~= a0 + jn + (sl + ir + ac + tail));
    lemma_contains_middle(a0, jn, sl + ir + ac + tail);
    assert(text =~= (a0 + jn) + sl + (ir + ac + tail));
    lemma_contains_middle(a0 + jn, sl, ir + ac + tail);
    assert(text =~= (a0 + jn + sl) + ir + (ac + tail));
    lemma_contains_middle(a0 + jn + sl, ir, ac + tail);
    assert(text =~= (a0 + jn + sl + ir) + ac + tail);
    lemma_contains_middle(a0 + jn + sl + ir, ac, tail);
}

/// A Glue task runs the Glue job of its own name, with the script recorded
/// for it, under the IAM role of its configuration and through the
/// connection its configuration and the project's role give it; a Bash
/// task runs its configured command.
pub proof fn law_task_operators_carry_their_settings(
    v: AirflowMajorVersion,
    task: Seq<char>,
    job: ManifestJob,
    root_aws: JsonV,
    locations: Seq<(String, String)>,
)
    ensures
        (job.job_type is Glue && task_definition(v, task, job, root_aws, locations) is Ok) ==> {
            let text = task_definition(v, task, job, root_aws, locations)->Ok_0;
            &&& str_member(job.config@, "role"@) is Some
            &&& script_of(locations, task) is Some
            &&& contains_text(text, ",\n        job_name="@ + json_string_text(task))
            &&& contains_text(text, ",\n        script_location="@ + json_string_text(script_of(locations, task)->Some_0))
            &&& contains_text(text, ",\n        iam_role_arn="@ + json_string_text(str_member(job.config@, "role"@)->Some_0))
            &&& task_conn_id(job_explicit_conn(job.config@), job_role(job.config@), assume_role_in(root_aws)) is Ok
            &&& contains_text(text, ",\n        aws_conn_id="@ + json_string_text(
                task_conn_id(job_explicit_conn(job.config@), job_role(job.config@), assume_role_in(root_aws))->Ok_0,
            ))
        },
        (job.job_type is Bash && str_member(job.config@, "command"@) is Some) ==> {
            &&& task_definition(v, task, job, root_aws, locations) is Ok
            &&& contains_text(
                task_definition(v, task, job, root_aws, locations)->Ok_0,
                ",\n        bash_command="@ + json_string_text(str_member(job.config@, "command"@)->Some_0),
            )
        },
{
    let var = python_var(task);
    let tid = pyq(task);
    let outlets = outlets_kwarg(v, views(job.publishes@));
    if job.job_type is Glue && task_definition(v, task, job, root_aws, locations) is Ok {
        let role = str_member(job.config@, "role"@)->Some_0;
        let uri = script_of(locations, task)->Some_0;
        let conn = task_conn_id(job_explicit_conn(job.config@), job_role(job.config@), assume_role_in(root_aws))->Ok_0;
        lemma_glue_operator_text(var, tid, pyq(task), pyq(uri), pyq(role), pyq(conn), outlets);
    }
    if job.job_type is Bash && str_member(job.config@, "command"@) is Some {
        let cmd = str_member(job.config@, "command"@)->Some_0;
        let a = "    "@ + var + " = BashOperator(\n        task_id="@ + tid;
        let m = ",\n        bash_command="@ + pyq(cmd);
        let c = ","@ + outlets + "\n    )"@;
        assert(task_definition(v, task, job, root_aws, locations)->Ok_0 =~= a + m + c);
        lemma_contains_middle(a, m, c);
    }
}

fn prefixed(task: &str, inner: &str) -> (r: String)
    ensures
        r@ == task_context(task@, inner@),
{
    let mut m = owned("task '");
    push_str(&mut m, task);
    push_str(&mut m, "': ");
    push_str(&mut m, inner);
    m
}

/// Render a single task assignment inside the `with DAG(...)` block.
pub fn render_task(
    version: AirflowMajorVersion,
    task_id: &str,
    job: &ManifestJob,
    root_aws: &Json,
    locations: &Vec<(String, String)>,
) -> (r: Result<String, String>)
    ensures
        match task_definition(version, task_id@, *job, root_aws@, locations@) {
            Ok(t) => r matches Ok(x) && x@ == t,
            Err(e) => r matches Err(m) && m@ == e,
        },
{
    let var = python_var_name(task_id);
    let tid = quote(task_id);
    let outlets = render_outlets(version, &job.publishes);
    match job.job_type {
        JobType::Bash => match get_str(&job.config, "command") {
            None => {
                let mut m = owned("bash task '");
                push_str(&mut m, task_id);
                push_str(&mut m, "' is missing 'command'");
                Err(m)
            },
            Some(cmd) => {
                let mut r = owned("    ");
                push_str(&mut r, var.as_str());
                push_str(&mut r, " = BashOperator(\n        task_id=");
                push_str(&mut r, tid.as_str());
                push_str(&mut r, ",\n        bash_command=");
                let c = quote(cmd);
                push_str(&mut r, c.as_str());
                push_str(&mut r, ",");
                push_str(&mut r, outlets.as_str());
                push_str(&mut r, "\n    )");
                Ok(r)
            },
        },
        JobType::Glue => {
            let role = match get_str(&job.config, "role") {
                Some(x) => x,
                None => {
                    return Err(prefixed(task_id, "Glue render requires 'config.role' on the resolved job config"));
                },
            };
            let uri = match find_script(locations, task_id) {
                Some(u) => u,
                None => {
                    return Err(prefixed(task_id, "Glue render requires a persisted script URI \u{2014} run 'yard apply' to upload and persist state"));
                },
            };
            let conn = match resolve_task_aws_conn_id(&job.config, root_aws) {
                Ok(c) => c,
                Err(e) => {
                    let arn = match crate::json::get(&job.config, "_aws") {
                        Some(a) => match get_str(a, "assume_role") {
                            Some(x) => x,
                            None => "",
                        },
                        None => "",
                    };
                    let inner = e.message(arn);
                    return Err(prefixed(task_id, inner.as_str()));
                },
            };
            let mut r = owned("    ");
            push_str(&mut r, var.as_str());
            push_str(&mut r, " = GlueJobOperator(\n        task_id=");
            push_str(&mut r, tid.as_str());
            push_str(&mut r, ",\n        job_name=");
            let jn = quote(task_id);
            push_str(&mut r, jn.as_str());
            push_str(&mut r, ",\n        script_location=");
            let sl = quote(uri);
            push_str(&mut r, sl.as_str());
            push_str(&mut r, ",\n        iam_role_arn=");
            let ir = quote(role);
            push_str(&mut r, ir.as_str());
            push_str(&mut r, ",\n        aws_conn_id=");
            let cn = quote(conn.as_str());
            push_str(&mut r, cn.as_str());
            push_str(&mut r, ",");
            push_str(&mut r, outlets.as_str());
            push_str(&mut r, "\n    )");
            Ok(r)
        },
        JobType::Emr => Err(owned("job type 'emr' is not supported in Airflow codegen yet")),
    }
}

// ------------------------------------------------------------------
// Edges
// ------------------------------------------------------------------

/// The upstream tasks of `task`, if it has an entry.
pub open spec fn upstreams(deps: Seq<(String, Vec<String>)>, task: Seq<char>) -> Option<Seq<Seq<char>>>
    decreases deps.len(),
{
    if deps.len() == 0 {
        None
    } else if deps[0].0@ == task {
        Some(views(deps[0].1@))
    } else {
        upstreams(deps.skip(1), task)
    }
}

fn find_upstreams<'a>(deps: &'a Vec<(String, Vec<String>)>, task: &str) -> (r: Option<&'a Vec<String>>)
    ensures
        match upstreams(deps@, task@) {
            Some(u) => r matches Some(x) && views(x@) == u,
            None => r is None,
        },
{
    let mut i: usize = 0;
    proof {
        assert(deps@.skip(0) =~= deps@);
    }
    while i < deps.len()
        invariant
            i <= deps.len(),
            upstreams(deps@, task@) == upstreams(deps@.skip(i as int), task@),
        decreases deps.len() - i,
    {
        proof {
            assert(deps@.skip(i as int).skip(1) =~= deps@.skip(i + 1));
            assert(deps@.skip(i as int)[0] == deps@[i as int]);
        }
        if str_eq(deps[i].0.as_str(), task) {
            return Some(&deps[i].1);
        }
        i = i + 1;
    }
    None
}

/// A task without upstream tasks.
pub open spec fn is_root(deps: Seq<(String, Vec<String>)>, task: Seq<char>) -> bool {
    match upstreams(deps, task) {
        Some(u) => u.len() == 0,
        None => true,
    }
}

/// The tasks without upstream, in order.
pub open spec fn roots_of(tasks: Seq<Seq<char>>, deps: Seq<(String, Vec<String>)>) -> Seq<Seq<char>>
    decreases tasks.len(),
{
    if tasks.len() == 0 {
        Seq::empty()
    } else if is_root(deps, tasks.last()) {
        roots_of(tasks.drop_last(), deps).push(tasks.last())
    } else {
        roots_of(tasks.drop_last(), deps)
    }
}

/// The tasks of a DAG that depend on no other task.
pub fn dag_roots(tasks: &Vec<String>, deps: &Vec<(String, Vec<String>)>) -> (r: Vec<String>)
    ensures
        views(r@) == roots_of(views(tasks@), deps@),
{
    let mut out: Vec<String> = Vec::new();
    let mut i: usize = 0;
    while i < tasks.len()
        invariant
            i <= tasks.len(),
            views(out@) == roots_of(views(tasks@).take(i as int), deps@),
        decreases tasks.len() - i,
    {
        proof {
            assert(views(tasks@).take(i + 1).drop_last() =~= views(tasks@).take(i as int));
            assert(views(tasks@).take(i + 1).last() == tasks@[i as int]@);
        }
        let root = match find_upstreams(deps, tasks[i].as_str()) {
            Some(u) => u.len() == 0,
            None => true,
        };
        if root {
            let ghost before = views(out@);
            out.push(tasks[i].clone());
            proof {
                assert(views(out@) =~= before.push(tasks@[i as int]@));
            }
        }
        i = i + 1;
    }
    proof {
        assert(views(tasks@).take(tasks@.len() as int) =~= views(tasks@));
    }
    out
}

/// No other task lists `task` among its upstream tasks.
pub open spec fn is_leaf(deps: Seq<(String, Vec<String>)>, task: Seq<char>) -> bool {
    forall|k: int| 0 <= k < deps.len() ==> ((#[trigger] deps[k]).0@ == task || !views(deps[k].1@).contains(task))
}

pub open spec fn leaves_of(tasks: Seq<Seq<char>>, deps: Seq<(String, Vec<String>)>) -> Seq<Seq<char>>
    decreases tasks.len(),
{
    if tasks.len() == 0 {
        Seq::empty()
    } else if is_leaf(deps, tasks.last()) {
        leaves_of(tasks.drop_last(), deps).push(tasks.last())
    } else {
        leaves_of(tasks.drop_last(), deps)
    }
}

fn contains_str(v: &Vec<String>, x: &str) -> (r: bool)
    ensures
        r == views(v@).contains(x@),
{
    let mut i: usize = 0;
    while i < v.len()
        invariant
            i <= v.len(),
            forall|k: int| 0 <= k < i ==> v@[k]@ != x@,
        decreases v.len() - i,
    {
        if str_eq(v[i].as_str(), x) {
            proof {
                assert(views(v@)[i as int] == x@);
            }
            return true;
        }
        i = i + 1;
    }
    proof {
        if views(v@).contains(x@) {
            let k = choose|k: int| 0 <= k < views(v@).len() && views(v@)[k] == x@;
            assert(v@[k]@ == x@);
        }
    }
    false
}

fn leaf_check(deps: &Vec<(String, Vec<String>)>, task: &str) -> (r: bool)
    ensures
        r == is_leaf(deps@, task@),
{
    let mut k: usize = 0;
    while k < deps.len()
        invariant
            k <= deps.len(),
            forall|q: int| 0 <= q < k ==> ((#[trigger] deps@[q]).0@ == task@ || !views(deps@[q].1@).contains(task@)),
        decreases deps.len() - k,
    {
        if !str_eq(deps[k].0.as_str(), task) && contains_str(&deps[k].1, task) {
            return false;
        }
        k = k + 1;
    }
    true
}

/// The tasks no other task depends on.
pub fn dag_leaves(tasks: &Vec<String>, deps: &Vec<(String, Vec<String>)>) -> (r: Vec<String>)
    ensures
        views(r@) == leaves_of(views(tasks@), deps@),
{
    let mut out: Vec<String> = Vec::new();
    let mut i: usize = 0;
    while i < tasks.len()
        invariant
            i <= tasks.len(),
            views(out@) == leaves_of(views(tasks@).take(i as int), deps@),
        decreases tasks.len() - i,
    {
        proof {
            assert(views(tasks@).take(i + 1).drop_last() =~= views(tasks@).take(i as int));
            assert(views(tasks@).take(i + 1).last() == tasks@[i as int]@);
        }
        if leaf_check(deps, tasks[i].as_str()) {
            let ghost before = views(out@);
            out.push(tasks[i].clone());
            proof {
                assert(views(out@) =~= before.push(tasks@[i as int]@));
            }
        }
        i = i + 1;
    }
    proof {
        assert(views(tasks@).take(tasks@.len() as int) =~= views(tasks@));
    }
    out
}

/// `t_<up> >> t_<task>` for each upstream of `task`.
pub open spec fn edges_into(task: Seq<char>, ups: Seq<Seq<char>>) -> Seq<Seq<char>> {
    ups.map_values(|u: Seq<char>| python_var(u) + " >> "@ + python_var(task))
}

/// One edge per dependency, task by task in DAG order.
pub open spec fn dependency_edges(tasks: Seq<Seq<char>>, deps: Seq<(String, Vec<String>)>) -> Seq<Seq<char>>
    decreases tasks.len(),
{
    if tasks.len() == 0 {
        Seq::empty()
    } else {
        dependency_edges(tasks.drop_last(), deps) + match upstreams(deps, tasks.last()) {
            Some(u) => edges_into(tasks.last(), u),
            None => Seq::empty(),
        }
    }
}

/// Every dependency becomes an edge line of the DAG file, upstream on the
/// left: for a task `t` with upstream `u`, the edges hold
/// `t_<u> >> t_<t>`.
pub proof fn law_every_dependency_is_an_edge(tasks: Seq<Seq<char>>, deps: Seq<(String, Vec<String>)>, t: int, u: Seq<char>)
    requires
        0 <= t < tasks.len(),
        upstreams(deps, tasks[t]) matches Some(ups) && ups.contains(u),
    ensures
        dependency_edges(tasks, deps).contains(python_var(u) + " >> "@ + python_var(tasks[t])),
    decreases tasks.len(),
{
    let line = python_var(u) + " >> "@ + python_var(tasks[t]);
    let before = dependency_edges(tasks.drop_last(), deps);
    let here = match upstreams(deps, tasks.last()) {
        Some(ups) => edges_into(tasks.last(), ups),
        None => Seq::empty(),
    };
    assert(dependency_edges(tasks, deps) == before + here);
    if t == tasks.len() - 1 {
        let ups = upstreams(deps, tasks[t])->Some_0;
        let q = choose|q: int| 0 <= q < ups.len() && ups[q] == u;
        assert(here[q] == line);
        assert((before + here)[before.len() + q] == line);
    } else {
        assert(tasks.drop_last()[t] == tasks[t]);
        law_every_dependency_is_an_edge(tasks.drop_last(), deps, t, u);
        let q = choose|q: int| 0 <= q < before.len() && before[q] == line;
        assert((before + here)[q] == line);
    }
}

/// Without dependencies there are no edges: when no task has an upstream,
/// the edge lines are empty.
pub proof fn law_no_dependencies_no_edges(tasks: Seq<Seq<char>>, deps: Seq<(String, Vec<String>)>)
    requires
        forall|t: int| 0 <= t < tasks.len() ==> is_root(deps, #[trigger] tasks[t]),
    ensures
        dependency_edges(tasks, deps).len() == 0,
    decreases tasks.len(),
{
    if tasks.len() > 0 {
        assert forall|t: int| 0 <= t < tasks.drop_last().len() implies is_root(deps, #[trigger] tasks.drop_last()[t]) by {
            assert(tasks.drop_last()[t] == tasks[t]);
        }
        law_no_dependencies_no_edges(tasks.drop_last(), deps);
        assert(is_root(deps, tasks[tasks.len() - 1]));
    }
}

/// The dependency edges of the DAG's tasks, `t_up >> t_down`.
pub fn dependency_lines(tasks: &Vec<String>, deps: &Vec<(String, Vec<String>)>) -> (r: Vec<String>)
    ensures
        views(r@) == dependency_edges(views(tasks@), deps@),
{
    let mut out: Vec<String> = Vec::new();
    let mut i: usize = 0;
    while i < tasks.len()
        invariant
            i <= tasks.len(),
            views(out@) == dependency_edges(views(tasks@).take(i as int), deps@),
        decreases tasks.len() - i,
    {
        proof {
            assert(views(tasks@).take(i + 1).drop_last() =~= views(tasks@).take(i as int));
            assert(views(tasks@).take(i + 1).last() == tasks@[i as int]@);
        }
        let ghost start = views(out@);
        match find_upstreams(deps, tasks[i].as_str()) {
            Some(ups) => {
                let down = python_var_name(tasks[i].as_str());
                let mut j: usize = 0;
                while j < ups.len()
                    invariant
                        j <= ups.len(),
                        down@ == python_var(tasks@[i as int]@),
                        views(out@) == start + edges_into(tasks@[i as int]@, views(ups@).take(j as int)),
                    decreases ups.len() - j,
                {
                    let mut e = python_var_name(ups[j].as_str());
                    push_str(&mut e, " >> ");
                    push_str(&mut e, down.as_str());
                    let ghost before = views(out@);
                    out.push(e);
                    proof {
                        assert(views(out@) =~= before.push(e@));
                        assert(edges_into(tasks@[i as int]@, views(ups@).take(j + 1)) =~= edges_into(tasks@[i as int]@, views(ups@).take(j as int)).push(e@));
                    }
                    j = j + 1;
                }
                proof {
                    assert(views(ups@).take(ups@.len() as int) =~= views(ups@));
                }
            },
            None => {
                proof {
                    assert(views(out@) =~= start + Seq::<Seq<char>>::empty());
                }
            },
        }
        i = i + 1;
    }
    proof {
        assert(views(tasks@).take(tasks@.len() as int) =~= views(tasks@));
    }
    out
}

// ------------------------------------------------------------------
// Publishing, connections, concurrency
// ------------------------------------------------------------------

/// The synthetic `_yard_publish` task, its outlets the URIs in `sorted_uris`.
pub open spec fn publish_task(v: AirflowMajorVersion, sorted_uris: Seq<Seq<char>>) -> Seq<char> {
    "    _yard_publish = EmptyOperator(\n        task_id=\"_yard_publish\",\n        outlets=["@ + dataset_list(v, sorted_uris)
        + "],\n    )"@
}

/// Render the `_yard_publish` task for the DAG's published datasets, URIs
/// sorted.
pub fn render_publish_task(version: AirflowMajorVersion, publishes: &Vec<String>) -> (r: String)
    ensures
        exists|u: Seq<String>| {
            &&& sorted(views(u))
            &&& u.to_multiset() == publishes@.to_multiset()
            &&& r@ == publish_task(version, views(u))
        },
{
    let mut copy: Vec<String> = Vec::new();
    let mut i: usize = 0;
    while i < publishes.len()
        invariant
            i <= publishes.len(),
            copy@ == publishes@.take(i as int),
        decreases publishes.len() - i,
    {
        copy.push(publishes[i].clone());
        proof {
            assert(copy@ =~= publishes@.take(i + 1));
        }
        i = i + 1;
    }
    proof {
        assert(publishes@.take(publishes@.len() as int) =~= publishes@);
    }
    let uris = sort_strings(copy);
    let r = publish_task_text(version, &uris);
    r
}

pub open spec fn connection_lines(c: Seq<RequiredConnection>) -> Seq<char>
    decreases c.len(),
{
    if c.len() == 0 {
        Seq::empty()
    } else {
        connection_lines(c.drop_last()) + "#   - "@ + c.last().conn_id@ + "  ->  "@ + c.last().role_arn@ + "\n"@
    }
}

/// The header comment listing the connections to create; empty when none
/// is needed.
pub open spec fn connections_header(c: Seq<RequiredConnection>) -> Seq<char> {
    if c.len() == 0 {
        Seq::empty()
    } else {
        "# Required Airflow connections (create in MWAA before running):\n"@ + connection_lines(c)
    }
}

pub fn required_connections_block(required: &Vec<RequiredConnection>) -> (r: String)
    ensures
        r@ == connections_header(required@),
{
    if required.len() == 0 {
        return String::new();
    }
    let mut out = owned("# Required Airflow connections (create in MWAA before running):\n");
    let ghost head = out@;
    let mut i: usize = 0;
    proof {
        assert(required@.take(0) =~= Seq::<RequiredConnection>::empty());
        assert(out@ =~= head + connection_lines(required@.take(0)));
    }
    while i < required.len()
        invariant
            i <= required.len(),
            out@ == head + connection_lines(required@.take(i as int)),
        decreases required.len() - i,
    {
        proof {
            assert(required@.take(i + 1).drop_last() =~= required@.take(i as int));
            assert(required@.take(i + 1).last() == required@[i as int]);
        }
        push_str(&mut out, "#   - ");
        push_str(&mut out, required[i].conn_id.as_str());
        push_str(&mut out, "  ->  ");
        push_str(&mut out, required[i].role_arn.as_str());
        push_str(&mut out, "\n");
        proof {
            assert(out@ =~= head + connection_lines(required@.take(i + 1)));
        }
        i = i + 1;
    }
    proof {
        assert(required@.take(required@.len() as int) =~= required@);
    }
    out
}

pub open spec fn max_runs_line(n: Option<u32>) -> Seq<char> {
    match n {
        Some(k) => "    max_active_runs="@ + decimal(k as nat) + ",\n"@,
        None => Seq::empty(),
    }
}

/// The `max_active_runs=` keyword line, when a limit applies.
pub fn max_active_runs_block(n: Option<u32>) -> (r: String)
    ensures
        r@ == max_runs_line(n),
{
    match n {
        Some(k) => {
            let mut r = owned("    max_active_runs=");
            let d = u64_to_decimal(k as u64);
            push_str(&mut r, d.as_str());
            push_str(&mut r, ",\n");
            r
        },
        None => String::new(),
    }
}

/// The AWS connection a DAG's sensors use by default: the DAG's cascaded
/// `aws_conn_id`, else the project's `aws.aws_conn_id`, else the
/// connection derived from the project's `assume_role`, else none.
pub open spec fn dag_default_conn(dag_conn: Option<Seq<char>>, root_aws: JsonV) -> Result<Option<Seq<char>>, ArnError> {
    match non_empty(dag_conn) {
        Some(c) => Ok(Some(c)),
        None => match non_empty(str_member(root_aws, "aws_conn_id"@)) {
            Some(c) => Ok(Some(c)),
            None => match assume_role_in(root_aws) {
                Some(r) => match arn_parts(r) {
                    Ok(p) => Ok(Some(conn_id_for(p.0, p.1))),
                    Err(e) => Err(e),
                },
                None => Ok(None),
            },
        },
    }
}

pub fn default_dag_aws_conn_id(dag_conn: Option<&str>, root_aws: &Json) -> (r: Result<Option<String>, ArnError>)
    ensures
        match dag_default_conn(match dag_conn {
            Some(c) => Some(c@),
            None => None,
        }, root_aws@) {
            Ok(Some(c)) => r matches Ok(Some(x)) && x@ == c,
            Ok(None) => r matches Ok(None),
            Err(e) => r == Err::<Option<String>, ArnError>(e),
        },
{
    match dag_conn {
        Some(c) => if c.unicode_len() > 0 {
            return Ok(Some(owned(c)));
        },
        None => {},
    }
    match get_str(root_aws, "aws_conn_id") {
        Some(c) => if c.unicode_len() > 0 {
            return Ok(Some(owned(c)));
        },
        None => {},
    }
    match get_str(root_aws, "assume_role") {
        Some(r) => if r.unicode_len() > 0 {
            match derive_aws_conn_id(r) {
                Ok(c) => Ok(Some(c)),
                Err(e) => Err(e),
            }
        } else {
            Ok(None)
        },
        None => Ok(None),
    }
}

// ------------------------------------------------------------------
// The whole DAG file
// ------------------------------------------------------------------

/// A DAG resolved from the project tree, ready for code generation.
pub struct ResolvedDag {
    /// Sanitized, project-prefixed DAG id.
    pub name: String,
    /// The DAG directory, as components.
    pub dir: Vec<String>,
    /// The merged DAG-level Airflow settings.
    pub config: AirflowSection,
    /// Task ids in dependency order.
    pub tasks: Vec<String>,
    /// The upstream tasks of each task, keyed by task in name order.
    pub depends_on: Vec<(String, Vec<String>)>,
}

/// The Airflow version the DAG is generated for: the one its settings
/// name, else Airflow 2.
pub open spec fn dag_version(dag: ResolvedDag) -> AirflowMajorVersion {
    effective_version(dag.config.version)
}

/// The values the DAG file template is filled with.
pub struct DagContext {
    pub dag_name: String,
    pub imports_block: String,
    pub default_args: String,
    pub schedule: String,
    pub max_active_runs_block: String,
    pub tasks_block: String,
    pub deps_block: String,
    pub required_connections_block: String,
    pub trigger_header_block: String,
}

/// The first task the manifest does not hold.
pub open spec fn unknown_task(tasks: Seq<Seq<char>>, jobs: Seq<ManifestJob>) -> Option<Seq<char>>
    decreases tasks.len(),
{
    if tasks.len() == 0 {
        None
    } else if find_job(jobs, tasks[0]) is None {
        Some(tasks[0])
    } else {
        unknown_task(tasks.skip(1), jobs)
    }
}

/// The first task whose job type has no operator.
pub open spec fn unsupported_task(tasks: Seq<Seq<char>>, jobs: Seq<ManifestJob>) -> Option<Seq<char>>
    decreases tasks.len(),
{
    if tasks.len() == 0 {
        None
    } else if find_job(jobs, tasks[0]) matches Some(j) && j.job_type == JobType::Emr {
        Some(tasks[0])
    } else {
        unsupported_task(tasks.skip(1), jobs)
    }
}

/// The task definitions in DAG order, or the first failure.
pub open spec fn task_defs(
    v: AirflowMajorVersion,
    tasks: Seq<Seq<char>>,
    jobs: Seq<ManifestJob>,
    root_aws: JsonV,
    locations: Seq<(String, String)>,
) -> Result<Seq<Seq<char>>, Seq<char>>
    decreases tasks.len(),
{
    if tasks.len() == 0 {
        Ok(Seq::empty())
    } else {
        match task_defs(v, tasks.drop_last(), jobs, root_aws, locations) {
            Err(e) => Err(e),
            Ok(ds) => match find_job(jobs, tasks.last()) {
                None => Err("task '"@ + tasks.last() + "' is not in the manifest"@),
                Some(j) => match task_definition(v, tasks.last(), j, root_aws, locations) {
                    Ok(d) => Ok(ds.push(d)),
                    Err(e) => Err(e),
                },
            },
        }
    }
}

pub open spec fn has_type(tasks: Seq<Seq<char>>, jobs: Seq<ManifestJob>, t: JobType) -> bool {
    exists|i: int| 0 <= i < tasks.len() && (find_job(jobs, #[trigger] tasks[i]) matches Some(j) && j.job_type == t)
}

pub open spec fn publishes_somewhere(tasks: Seq<Seq<char>>, jobs: Seq<ManifestJob>) -> bool {
    exists|i: int| 0 <= i < tasks.len() && (find_job(jobs, #[trigger] tasks[i]) matches Some(j) && j.publishes@.len() > 0)
}

/// The import lines the DAG file needs: an operator per job type used, the
/// dataset class when a task publishes, the trigger's imports, and the
/// empty operator and dataset class when the DAG publishes.
pub open spec fn dag_imports(
    v: AirflowMajorVersion,
    tasks: Seq<Seq<char>>,
    jobs: Seq<ManifestJob>,
    trigger_imports: Seq<Seq<char>>,
    dag_publishes: bool,
) -> Set<Seq<char>> {
    let a = if has_type(tasks, jobs, JobType::Bash) {
        set![bash_import_of(v)]
    } else {
        Set::empty()
    };
    let b = if has_type(tasks, jobs, JobType::Glue) {
        set!["from airflow.providers.amazon.aws.operators.glue import GlueJobOperator"@]
    } else {
        Set::empty()
    };
    let c = if publishes_somewhere(tasks, jobs) || dag_publishes {
        set![class_import_of(v)]
    } else {
        Set::empty()
    };
    let d = if dag_publishes {
        set![empty_import_of(v)]
    } else {
        Set::empty()
    };
    a.union(b).union(c).union(d).union(trigger_imports.to_set())
}

/// The DAG file's values, given how the trigger rendered (`tr`), the task
/// definitions (`defs`), the sorted published URIs and the required
/// connections.
/// The task lines of the DAG file: sensors, task definitions, then the
/// publish task when the DAG publishes.
pub open spec fn task_lines_of(dag: ResolvedDag, sensors: Seq<Seq<char>>, defs: Seq<Seq<char>>, sorted_publishes: Seq<Seq<char>>) -> Seq<Seq<char>> {
    sensors + defs + if dag.config.publishes@.len() > 0 {
        seq![publish_task(dag_version(dag), sorted_publishes)]
    } else {
        Seq::empty()
    }
}

/// The edge lines of the DAG file: sensor edges, task edges, then the
/// fan-in of the leaves into the publish task when the DAG publishes.
pub open spec fn dep_lines_of(dag: ResolvedDag, sensor_deps: Seq<Seq<char>>) -> Seq<Seq<char>> {
    sensor_deps + dependency_edges(views(dag.tasks@), dag.depends_on@) + if dag.config.publishes@.len() > 0 {
        seq!["["@ + joined(leaves_of(views(dag.tasks@), dag.depends_on@).map_values(|l: Seq<char>| python_var(l)), ", "@)
            + "] >> _yard_publish"@]
    } else {
        Seq::empty()
    }
}

pub open spec fn deps_block_of(lines: Seq<Seq<char>>) -> Seq<char> {
    if lines.len() == 0 {
        "# No task dependencies"@
    } else {
        joined(lines, "\n"@)
    }
}

/// A DAG whose tasks have no upstream, with no sensor edges and nothing
/// published, says `# No task dependencies` where its edges would be.
pub proof fn law_dag_without_dependencies(dag: ResolvedDag)
    requires
        forall|t: int| 0 <= t < dag.tasks@.len() ==> is_root(dag.depends_on@, #[trigger] views(dag.tasks@)[t]),
        dag.config.publishes@.len() == 0,
    ensures
        deps_block_of(dep_lines_of(dag, Seq::empty())) == "# No task dependencies"@,
{
    let tasks = views(dag.tasks@);
    assert forall|t: int| 0 <= t < tasks.len() implies is_root(dag.depends_on@, #[trigger] tasks[t]) by {}
    law_no_dependencies_no_edges(tasks, dag.depends_on@);
    assert(dep_lines_of(dag, Seq::empty()) =~= Seq::<Seq<char>>::empty());
}

/// The DAG file's values, given how the trigger rendered (`tr`), the task
/// definitions (`defs`), the sorted published URIs and the required
/// connections.
pub open spec fn context_fits(
    ctx: DagContext,
    dag: ResolvedDag,
    jobs: Seq<ManifestJob>,
    tr: TriggerRender,
    defs: Seq<Seq<char>>,
    sorted_publishes: Seq<Seq<char>>,
    required: Seq<RequiredConnection>,
) -> bool {
    &&& ctx.dag_name@ == dag.name@
    &&& ctx.default_args@ == default_args(opt_str(dag.config.owner), dag.config.retries)
    &&& ctx.schedule@ == tr.schedule_expr@
    &&& ctx.max_active_runs_block@ == max_runs_line(match dag.config.max_active_runs {
        Some(n) => Some(n),
        None => tr.max_active_runs,
    })
    &&& ctx.tasks_block@ == joined(task_lines_of(dag, views(tr.sensor_tasks@), defs, sorted_publishes), "\n"@)
    &&& ctx.deps_block@ == deps_block_of(dep_lines_of(dag, views(tr.sensor_deps@)))
    &&& ctx.required_connections_block@ == connections_header(required)
    &&& ctx.trigger_header_block@ == tr.header_docstring@
    &&& exists|lines: Seq<Seq<char>>| {
        &&& strictly_sorted(lines)
        &&& forall|x: Seq<char>| #[trigger] lines.contains(x) <==> dag_imports(
            dag_version(dag),
            views(dag.tasks@),
            jobs,
            views(tr.extra_imports@),
            dag.config.publishes@.len() > 0,
        ).contains(x)
        &&& ctx.imports_block@ == joined(lines, "\n"@)
    }
}

fn job_index(jobs: &Vec<ManifestJob>, name: &str) -> (r: Option<usize>)
    ensures
        match find_job(jobs@, name@) {
            Some(j) => r matches Some(i) && i < jobs.len() && jobs@[i as int] == j,
            None => r is None,
        },
{
    let mut i: usize = 0;
    proof {
        assert(jobs@.skip(0) =~= jobs@);
    }
    while i < jobs.len()
        invariant
            i <= jobs.len(),
            find_job(jobs@, name@) == find_job(jobs@.skip(i as int), name@),
        decreases jobs.len() - i,
    {
        proof {
            assert(jobs@.skip(i as int).skip(1) =~= jobs@.skip(i + 1));
            assert(jobs@.skip(i as int)[0] == jobs@[i as int]);
        }
        if str_eq(jobs[i].name.as_str(), name) {
            return Some(i);
        }
        i = i + 1;
    }
    None
}

pub open spec fn unknown_message(dag: Seq<char>, task: Seq<char>) -> Seq<char> {
    "DAG '"@ + dag + "' references task '"@ + task + "' that is not in the manifest"@
}

pub open spec fn unsupported_message(dag: Seq<char>, task: Seq<char>) -> Seq<char> {
    "DAG '"@ + dag + "' task '"@ + task + "': job type 'emr' is not supported in Airflow codegen yet"@
}

/// Every task is a job of the manifest of a type with an operator.
fn check_tasks(dag_name: &str, tasks: &Vec<String>, jobs: &Vec<ManifestJob>) -> (r: Result<(), String>)
    ensures
        match unknown_task(views(tasks@), jobs@) {
            Some(t) => r matches Err(m) && m@ == unknown_message(dag_name@, t),
            None => match unsupported_task(views(tasks@), jobs@) {
                Some(t) => r matches Err(m) && m@ == unsupported_message(dag_name@, t),
                None => r is Ok,
            },
        },
{
    let ghost t = views(tasks@);
    let mut i: usize = 0;
    proof {
        assert(t.skip(0) =~= t);
    }
    while i < tasks.len()
        invariant
            t == views(tasks@),
            i <= tasks.len(),
            unknown_task(t, jobs@) == unknown_task(t.skip(i as int), jobs@),
        decreases tasks.len() - i,
    {
        proof {
            assert(t.skip(i as int).skip(1) =~= t.skip(i + 1));
            assert(t.skip(i as int)[0] == tasks@[i as int]@);
        }
        if job_index(jobs, tasks[i].as_str()).is_none() {
            let mut m = owned("DAG '");
            push_str(&mut m, dag_name);
            push_str(&mut m, "' references task '");
            push_str(&mut m, tasks[i].as_str());
            push_str(&mut m, "' that is not in the manifest");
            return Err(m);
        }
        i = i + 1;
    }
    proof {
        assert(t.skip(t.len() as int) =~= Seq::<Seq<char>>::empty());
    }
    let mut i: usize = 0;
    while i < tasks.len()
        invariant
            t == views(tasks@),
            i <= tasks.len(),
            unknown_task(t, jobs@) is None,
            unsupported_task(t, jobs@) == unsupported_task(t.skip(i as int), jobs@),
        decreases tasks.len() - i,
    {
        proof {
            assert(t.skip(i as int).skip(1) =~= t.skip(i + 1));
            assert(t.skip(i as int)[0] == tasks@[i as int]@);
        }
        match job_index(jobs, tasks[i].as_str()) {
            Some(k) => {
                if jobs[k].job_type == JobType::Emr {
                    let mut m = owned("DAG '");
                    push_str(&mut m, dag_name);
                    push_str(&mut m, "' task '");
                    push_str(&mut m, tasks[i].as_str());
                    push_str(&mut m, "': job type 'emr' is not supported in Airflow codegen yet");
                    return Err(m);
                }
            },
            None => {},
        }
        i = i + 1;
    }
    proof {
        assert(t.skip(t.len() as int) =~= Seq::<Seq<char>>::empty());
    }
    Ok(())
}

proof fn lemma_defs_err_stays(
    v: AirflowMajorVersion,
    tasks: Seq<Seq<char>>,
    jobs: Seq<ManifestJob>,
    root: JsonV,
    locs: Seq<(String, String)>,
    k: int,
    j: int,
)
    requires
        0 <= k <= j <= tasks.len(),
        task_defs(v, tasks.take(k), jobs, root, locs) is Err,
    ensures
        task_defs(v, tasks.take(j), jobs, root, locs) == task_defs(v, tasks.take(k), jobs, root, locs),
    decreases j - k,
{
    if k < j {
        lemma_defs_err_stays(v, tasks, jobs, root, locs, k, j - 1);
        assert(tasks.take(j).drop_last() =~= tasks.take(j - 1));
    }
}

/// The task definitions of the DAG's tasks, in order.
fn render_tasks(
    version: AirflowMajorVersion,
    tasks: &Vec<String>,
    jobs: &Vec<ManifestJob>,
    root_aws: &Json,
    locations: &Vec<(String, String)>,
) -> (r: Result<Vec<String>, String>)
    ensures
        match task_defs(version, views(tasks@), jobs@, root_aws@, locations@) {
            Ok(d) => r matches Ok(v) && views(v@) == d,
            Err(e) => r matches Err(m) && m@ == e,
        },
{
    let ghost t = views(tasks@);
    let mut out: Vec<String> = Vec::new();
    let mut i: usize = 0;
    proof {
        assert(t.take(0) =~= Seq::<Seq<char>>::empty());
        assert(views(out@) =~= Seq::<Seq<char>>::empty());
    }
    while i < tasks.len()
        invariant
            t == views(tasks@),
            i <= tasks.len(),
            task_defs(version, t.take(i as int), jobs@, root_aws@, locations@) == Ok::<Seq<Seq<char>>, Seq<char>>(views(out@)),
        decreases tasks.len() - i,
    {
        proof {
            assert(t.take(i + 1).drop_last() =~= t.take(i as int));
            assert(t.take(i + 1).last() == tasks@[i as int]@);
        }
        match job_index(jobs, tasks[i].as_str()) {
            None => {
                let mut m = owned("task '");
                push_str(&mut m, tasks[i].as_str());
                push_str(&mut m, "' is not in the manifest");
                proof {
                    lemma_defs_err_stays(version, t, jobs@, root_aws@, locations@, i + 1, t.len() as int);
                    assert(t.take(t.len() as int) =~= t);
                }
                return Err(m);
            },
            Some(k) => match render_task(version, tasks[i].as_str(), &jobs[k], root_aws, locations) {
                Ok(d) => {
                    let ghost before = views(out@);
                    out.push(d);
                    proof {
                        assert(views(out@) =~= before.push(d@));
                    }
                },
                Err(e) => {
                    proof {
                        lemma_defs_err_stays(version, t, jobs@, root_aws@, locations@, i + 1, t.len() as int);
                        assert(t.take(t.len() as int) =~= t);
                    }
                    return Err(e);
                },
            },
        }
        i = i + 1;
    }
    proof {
        assert(t.take(t.len() as int) =~= t);
    }
    Ok(out)
}

/// Rendering every task also resolves every connection.
proof fn lemma_defs_ok_connections_ok(
    v: AirflowMajorVersion,
    tasks: Seq<Seq<char>>,
    jobs: Seq<ManifestJob>,
    root: JsonV,
    locs: Seq<(String, String)>,
)
    requires
        task_defs(v, tasks, jobs, root, locs) is Ok,
    ensures
        task_connections(tasks, jobs, assume_role_in(root)) is Ok,
    decreases tasks.len(),
{
    if tasks.len() > 0 {
        lemma_defs_ok_connections_ok(v, tasks.drop_last(), jobs, root, locs);
    }
}

fn any_job_type(tasks: &Vec<String>, jobs: &Vec<ManifestJob>, ty: JobType) -> (r: bool)
    ensures
        r == has_type(views(tasks@), jobs@, ty),
{
    let mut i: usize = 0;
    while i < tasks.len()
        invariant
            i <= tasks.len(),
            forall|k: int| 0 <= k < i ==> !(find_job(jobs@, #[trigger] views(tasks@)[k]) matches Some(j) && j.job_type == ty),
        decreases tasks.len() - i,
    {
        match job_index(jobs, tasks[i].as_str()) {
            Some(k) => {
                if jobs[k].job_type == ty {
                    proof {
                        assert(views(tasks@)[i as int] == tasks@[i as int]@);
                    }
                    return true;
                }
            },
            None => {},
        }
        proof {
            assert(views(tasks@)[i as int] == tasks@[i as int]@);
        }
        i = i + 1;
    }
    false
}

fn any_publishes(tasks: &Vec<String>, jobs: &Vec<ManifestJob>) -> (r: bool)
    ensures
        r == publishes_somewhere(views(tasks@), jobs@),
{
    let mut i: usize = 0;
    while i < tasks.len()
        invariant
            i <= tasks.len(),
            forall|k: int| 0 <= k < i ==> !(find_job(jobs@, #[trigger] views(tasks@)[k]) matches Some(j) && j.publishes@.len() > 0),
        decreases tasks.len() - i,
    {
        match job_index(jobs, tasks[i].as_str()) {
            Some(k) => {
                if jobs[k].publishes.len() > 0 {
                    proof {
                        assert(views(tasks@)[i as int] == tasks@[i as int]@);
                    }
                    return true;
                }
            },
            None => {},
        }
        proof {
            assert(views(tasks@)[i as int] == tasks@[i as int]@);
        }
        i = i + 1;
    }
    false
}

proof fn lemma_concat_contains(a: Seq<Seq<char>>, b: Seq<Seq<char>>, x: Seq<char>)
    ensures
        (a + b).contains(x) <==> (a.contains(x) || b.contains(x)),
{
    if (a + b).contains(x) {
        let q = choose|q: int| 0 <= q < (a + b).len() && (a + b)[q] == x;
        if q < a.len() {
            assert(a[q] == x);
        } else {
            assert(b[q - a.len()] == x);
        }
    }
    if a.contains(x) {
        let q = choose|q: int| 0 <= q < a.len() && a[q] == x;
        assert((a + b)[q] == x);
    }
    if b.contains(x) {
        let q = choose|q: int| 0 <= q < b.len() && b[q] == x;
        assert((a + b)[q + a.len()] == x);
    }
}

pub open spec fn opt_line(b: bool, l: Seq<char>) -> Seq<Seq<char>> {
    if b {
        seq![l]
    } else {
        Seq::empty()
    }
}

proof fn lemma_opt_line(b: bool, l: Seq<char>, x: Seq<char>)
    ensures
        opt_line(b, l).contains(x) <==> (b && x == l),
{
    if b && x == l {
        assert(opt_line(b, l)[0] == x);
    }
}

fn push_if(all: &mut Vec<String>, b: bool, l: &str)
    ensures
        views(final(all)@) == views(old(all)@) + opt_line(b, l@),
{
    let ghost before = views(all@);
    if b {
        all.push(owned(l));
        proof {
            assert(views(all@) =~= before + opt_line(b, l@));
        }
    } else {
        proof {
            assert(views(all@) =~= before + opt_line(b, l@));
        }
    }
}

fn imports_block(
    version: AirflowMajorVersion,
    tasks: &Vec<String>,
    jobs: &Vec<ManifestJob>,
    trigger_imports: &Vec<String>,
    dag_publishes: bool,
) -> (r: String)
    ensures
        exists|lines: Seq<Seq<char>>| {
            &&& strictly_sorted(lines)
            &&& forall|x: Seq<char>| #[trigger] lines.contains(x) <==> dag_imports(
                version,
                views(tasks@),
                jobs@,
                views(trigger_imports@),
                dag_publishes,
            ).contains(x)
            &&& r@ == joined(lines, "\n"@)
        },
{
    let bash = any_job_type(tasks, jobs, JobType::Bash);
    let glue = any_job_type(tasks, jobs, JobType::Glue);
    let pubs = any_publishes(tasks, jobs);
    let mut all: Vec<String> = Vec::new();
    let la = version.bash_op_import();
    let lb = "from airflow.providers.amazon.aws.operators.glue import GlueJobOperator";
    let lc = version.class_import();
    let ld = version.empty_op_import();
    push_if(&mut all, bash, la);
    push_if(&mut all, glue, lb);
    push_if(&mut all, pubs || dag_publishes, lc);
    push_if(&mut all, dag_publishes, ld);
    proof {
        assert(views(all@) =~= opt_line(bash, la@) + opt_line(glue, lb@) + opt_line(pubs || dag_publishes, lc@) + opt_line(dag_publishes, ld@));
    }
    let ghost head = views(all@);
    extend_all(&mut all, trigger_imports);
    let ghost av = views(all@);
    let set = sorted_set(all);
    proof {
        let want = dag_imports(version, views(tasks@), jobs@, views(trigger_imports@), dag_publishes);
        let ti = views(trigger_imports@);
        assert forall|x: Seq<char>| #[trigger] views(set@).contains(x) <==> want.contains(x) by {
            lemma_concat_contains(head, ti, x);
            let h1 = opt_line(bash, la@);
            let h2 = opt_line(glue, lb@);
            let h3 = opt_line(pubs || dag_publishes, lc@);
            let h4 = opt_line(dag_publishes, ld@);
            lemma_concat_contains(h1 + h2 + h3, h4, x);
            lemma_concat_contains(h1 + h2, h3, x);
            lemma_concat_contains(h1, h2, x);
            lemma_opt_line(bash, la@, x);
            lemma_opt_line(glue, lb@, x);
            lemma_opt_line(pubs || dag_publishes, lc@, x);
            lemma_opt_line(dag_publishes, ld@, x);
            assert(ti.to_set().contains(x) <==> ti.contains(x));
        }
    }
    join(&set, "\n")
}

/// `ctx` fills the template for some trigger render, sorted publish list
/// and required connection list that fit the DAG.
pub open spec fn context_ok(
    ctx: DagContext,
    dag: ResolvedDag,
    jobs: Seq<ManifestJob>,
    root_aws: JsonV,
    conn: Option<Seq<char>>,
    defs: Seq<Seq<char>>,
) -> bool {
    exists|tr: TriggerRender, pubs: Seq<String>, req: Seq<RequiredConnection>| #[trigger] context_witness(ctx, dag, jobs, root_aws, conn, defs, tr, pubs, req)
}

pub open spec fn context_witness(
    ctx: DagContext,
    dag: ResolvedDag,
    jobs: Seq<ManifestJob>,
    root_aws: JsonV,
    conn: Option<Seq<char>>,
    defs: Seq<Seq<char>>,
    tr: TriggerRender,
    pubs: Seq<String>,
    req: Seq<RequiredConnection>,
) -> bool {
    &&& trigger_renders(
        tr,
        dag_version(dag),
        dag.config.trigger,
        opt_str(dag.config.schedule),
        conn,
        roots_of(views(dag.tasks@), dag.depends_on@),
    )
    &&& sorted(views(pubs))
    &&& pubs.to_multiset() == dag.config.publishes@.to_multiset()
    &&& ids_sorted(conns_view(req))
    &&& (forall|p: (Seq<char>, Seq<char>)| conns_view(req).contains(p) <==> first_of_its_id(
        task_connections(views(dag.tasks@), jobs, assume_role_in(root_aws))->Ok_0, p))
    &&& context_fits(ctx, dag, jobs, tr, defs, views(pubs), req)
}

pub open spec fn context_of(
    r: Result<DagContext, String>,
    dag: ResolvedDag,
    jobs: Seq<ManifestJob>,
    root_aws: JsonV,
    locations: Seq<(String, String)>,
) -> bool {
    match unknown_task(views(dag.tasks@), jobs) {
        Some(t) => r matches Err(m) && m@ == unknown_message(dag.name@, t),
        None => match unsupported_task(views(dag.tasks@), jobs) {
            Some(t) => r matches Err(m) && m@ == unsupported_message(dag.name@, t),
            None => match dag_default_conn(opt_str(dag.config.aws_conn_id), root_aws) {
                Err(e) => r matches Err(m) && m@ == arn_error_message(e, assume_role_in(root_aws)->Some_0),
                Ok(conn) => match task_defs(dag_version(dag), views(dag.tasks@), jobs, root_aws, locations) {
                    Err(e) => r matches Err(m) && m@ == e,
                    Ok(defs) => r matches Ok(ctx) && context_ok(ctx, dag, jobs, root_aws, conn, defs),
                },
            },
        },
    }
}

/// Two lists of connections in strictly increasing order of id with the
/// same members are equal.
proof fn lemma_conns_unique(a: Seq<(Seq<char>, Seq<char>)>, b: Seq<(Seq<char>, Seq<char>)>)
    requires
        ids_sorted(a),
        ids_sorted(b),
        forall|p: (Seq<char>, Seq<char>)| a.contains(p) <==> b.contains(p),
    ensures
        a == b,
    decreases a.len() + b.len(),
{
    if a.len() == 0 || b.len() == 0 {
        if a.len() > 0 {
            assert(a.contains(a[0]));
        }
        if b.len() > 0 {
            assert(b.contains(b[0]));
        }
        assert(a =~= b);
    } else {
        assert(a.contains(a[0]));
        assert(b.contains(b[0]));
        let p = choose|p: int| 0 <= p < b.len() && b[p] == a[0];
        let q = choose|q: int| 0 <= q < a.len() && a[q] == b[0];
        if p > 0 {
            assert(lex_lt(b[0].0, b[p].0));
            if q > 0 {
                assert(lex_lt(a[0].0, a[q].0));
                lemma_lex_total(a[0].0, b[0].0);
            } else {
                lemma_lex_irreflexive(b[0].0);
            }
        }
        assert(a[0] == b[0]);
        let at = a.subrange(1, a.len() as int);
        let bt = b.subrange(1, b.len() as int);
        assert forall|x: (Seq<char>, Seq<char>)| at.contains(x) <==> bt.contains(x) by {
            if at.contains(x) {
                let i = choose|i: int| 0 <= i < at.len() && at[i] == x;
                assert(a[i + 1] == x);
                assert(lex_lt(a[0].0, x.0));
                lemma_lex_irreflexive(x.0);
                assert(b.contains(x));
                let j = choose|j: int| 0 <= j < b.len() && b[j] == x;
                assert(j != 0);
                assert(bt[j - 1] == x);
            }
            if bt.contains(x) {
                let i = choose|i: int| 0 <= i < bt.len() && bt[i] == x;
                assert(b[i + 1] == x);
                assert(lex_lt(b[0].0, x.0));
                lemma_lex_irreflexive(x.0);
                assert(a.contains(x));
                let j = choose|j: int| 0 <= j < a.len() && a[j] == x;
                assert(j != 0);
                assert(at[j - 1] == x);
            }
        }
        assert forall|i: int, j: int| 0 <= i < j < at.len() implies lex_lt(at[i].0, at[j].0) by {
            assert(at[i] == a[i + 1]);
            assert(at[j] == a[j + 1]);
        }
        assert forall|i: int, j: int| 0 <= i < j < bt.len() implies lex_lt(bt[i].0, bt[j].0) by {
            assert(bt[i] == b[i + 1]);
            assert(bt[j] == b[j + 1]);
        }
        lemma_conns_unique(at, bt);
        assert(a =~= seq![a[0]] + at);
        assert(b =~= seq![b[0]] + bt);
    }
}

/// The connections header depends on the connections' ids and roles alone.
proof fn lemma_connections_header_of_views(c1: Seq<RequiredConnection>, c2: Seq<RequiredConnection>)
    requires
        conns_view(c1) == conns_view(c2),
    ensures
        connections_header(c1) == connections_header(c2),
        connection_lines(c1) == connection_lines(c2),
    decreases c1.len(),
{
    assert(c1.len() == conns_view(c1).len());
    assert(c2.len() == conns_view(c2).len());
    if c1.len() > 0 {
        assert(conns_view(c1.drop_last()) =~= conns_view(c1).drop_last());
        assert(conns_view(c2.drop_last()) =~= conns_view(c2).drop_last());
        lemma_connections_header_of_views(c1.drop_last(), c2.drop_last());
        assert(conns_view(c1)[c1.len() - 1] == conns_view(c2)[c2.len() - 1]);
    }
}

/// Everything a DAG file is made of, compared as text.
pub open spec fn same_context(a: DagContext, b: DagContext) -> bool {
    &&& a.dag_name@ == b.dag_name@
    &&& a.imports_block@ == b.imports_block@
    &&& a.default_args@ == b.default_args@
    &&& a.schedule@ == b.schedule@
    &&& a.max_active_runs_block@ == b.max_active_runs_block@
    &&& a.tasks_block@ == b.tasks_block@
    &&& a.deps_block@ == b.deps_block@
    &&& a.required_connections_block@ == b.required_connections_block@
    &&& a.trigger_header_block@ == b.trigger_header_block@
}

/// DAG generation is deterministic: for the same DAG, manifest jobs, project
/// AWS block and script locations, every outcome the contract of
/// `generate_dag_context` allows is the same, the same error or the same DAG
/// file text, field by field; so the hash of the generated file is a stable
/// fingerprint of its inputs.
pub proof fn law_generation_is_deterministic(
    r1: Result<DagContext, String>,
    r2: Result<DagContext, String>,
    dag: ResolvedDag,
    jobs: Seq<ManifestJob>,
    root_aws: JsonV,
    locations: Seq<(String, String)>,
)
    requires
        context_of(r1, dag, jobs, root_aws, locations),
        context_of(r2, dag, jobs, root_aws, locations),
    ensures
        r1 is Ok <==> r2 is Ok,
        r1 matches Err(e1) ==> r2 matches Err(e2) && e1@ == e2@,
        r1 matches Ok(c1) ==> r2 matches Ok(c2) && same_context(c1, c2),
{
    if r1 is Ok {
        let c1 = r1->Ok_0;
        let c2 = r2->Ok_0;
        let conn = dag_default_conn(opt_str(dag.config.aws_conn_id), root_aws)->Ok_0;
        let defs = task_defs(dag_version(dag), views(dag.tasks@), jobs, root_aws, locations)->Ok_0;
        let (tr1, pubs1, req1) = choose|tr: TriggerRender, pubs: Seq<String>, req: Seq<RequiredConnection>|
            #[trigger] context_witness(c1, dag, jobs, root_aws, conn, defs, tr, pubs, req);
        let (tr2, pubs2, req2) = choose|tr: TriggerRender, pubs: Seq<String>, req: Seq<RequiredConnection>|
            #[trigger] context_witness(c2, dag, jobs, root_aws, conn, defs, tr, pubs, req);
        law_trigger_render_is_unique(tr1, tr2, dag_version(dag), dag.config.trigger, opt_str(dag.config.schedule), conn,
            roots_of(views(dag.tasks@), dag.depends_on@));
        lemma_views_same_elements(pubs1, pubs2);
        lemma_sorted_same_elements(views(pubs1), views(pubs2));
        let all = task_connections(views(dag.tasks@), jobs, assume_role_in(root_aws))->Ok_0;
        assert forall|p: (Seq<char>, Seq<char>)| conns_view(req1).contains(p) <==> conns_view(req2).contains(p) by {
            assert(conns_view(req1).contains(p) <==> first_of_its_id(all, p));
            assert(conns_view(req2).contains(p) <==> first_of_its_id(all, p));
        }
        lemma_conns_unique(conns_view(req1), conns_view(req2));
        lemma_connections_header_of_views(req1, req2);
        let pool = dag_imports(dag_version(dag), views(dag.tasks@), jobs, views(tr1.extra_imports@), dag.config.publishes@.len() > 0);
        let l1 = choose|lines: Seq<Seq<char>>| {
            &&& strictly_sorted(lines)
            &&& forall|x: Seq<char>| #[trigger] lines.contains(x) <==> pool.contains(x)
            &&& c1.imports_block@ == joined(lines, "\n"@)
        };
        let l2 = choose|lines: Seq<Seq<char>>| {
            &&& strictly_sorted(lines)
            &&& forall|x: Seq<char>| #[trigger] lines.contains(x) <==> pool.contains(x)
            &&& c2.imports_block@ == joined(lines, "\n"@)
        };
        assert(l1.to_set() =~= l2.to_set()) by {
            assert forall|x: Seq<char>| l1.to_set().contains(x) <==> l2.to_set().contains(x) by {
                assert(l1.contains(x) <==> pool.contains(x));
                assert(l2.contains(x) <==> pool.contains(x));
            }
        }
        lemma_sorted_names_unique(l1, l2);
    }
}

/// In a generated DAG file every dependency is written as an edge line,
/// upstream on the left: for a task `t` with upstream `u`, the edge block
/// holds `t_<u> >> t_<t>`.
pub proof fn law_generated_file_has_every_edge(
    r: Result<DagContext, String>,
    dag: ResolvedDag,
    jobs: Seq<ManifestJob>,
    root_aws: JsonV,
    locations: Seq<(String, String)>,
    t: int,
    u: Seq<char>,
)
    requires
        context_of(r, dag, jobs, root_aws, locations),
        r is Ok,
        0 <= t < dag.tasks@.len(),
        upstreams(dag.depends_on@, views(dag.tasks@)[t]) matches Some(ups) && ups.contains(u),
    ensures
        contains_text(r->Ok_0.deps_block@, python_var(u) + " >> "@ + python_var(views(dag.tasks@)[t])),
{
    let c = r->Ok_0;
    let conn = dag_default_conn(opt_str(dag.config.aws_conn_id), root_aws)->Ok_0;
    let defs = task_defs(dag_version(dag), views(dag.tasks@), jobs, root_aws, locations)->Ok_0;
    let (tr, pubs, req) = choose|tr: TriggerRender, pubs: Seq<String>, req: Seq<RequiredConnection>|
        #[trigger] context_witness(c, dag, jobs, root_aws, conn, defs, tr, pubs, req);
    let tasks = views(dag.tasks@);
    let line = python_var(u) + " >> "@ + python_var(tasks[t]);
    law_every_dependency_is_an_edge(tasks, dag.depends_on@, t, u);
    let edges = dependency_edges(tasks, dag.depends_on@);
    let q = choose|q: int| 0 <= q < edges.len() && edges[q] == line;
    let sd = views(tr.sensor_deps@);
    let lines = dep_lines_of(dag, sd);
    let rest = if dag.config.publishes@.len() > 0 {
        seq!["["@ + joined(leaves_of(tasks, dag.depends_on@).map_values(|l: Seq<char>| python_var(l)), ", "@)
            + "] >> _yard_publish"@]
    } else {
        Seq::<Seq<char>>::empty()
    };
    assert(lines == sd + edges + rest);
    assert(lines[sd.len() + q] == line);
    assert(c.deps_block@ == deps_block_of(lines));
    assert(c.deps_block@ == joined(lines, "\n"@));
    lemma_joined_contains_part(lines, "\n"@, sd.len() + q);
}

/// A generated DAG file with no trigger, nothing published and no task
/// with an upstream says `# No task dependencies` where its edges would be.
pub proof fn law_generated_file_without_dependencies(
    r: Result<DagContext, String>,
    dag: ResolvedDag,
    jobs: Seq<ManifestJob>,
    root_aws: JsonV,
    locations: Seq<(String, String)>,
)
    requires
        context_of(r, dag, jobs, root_aws, locations),
        r is Ok,
        dag.config.trigger is None,
        dag.config.publishes@.len() == 0,
        forall|t: int| 0 <= t < dag.tasks@.len() ==> is_root(dag.depends_on@, #[trigger] views(dag.tasks@)[t]),
    ensures
        r->Ok_0.deps_block@ == "# No task dependencies"@,
{
    let c = r->Ok_0;
    let conn = dag_default_conn(opt_str(dag.config.aws_conn_id), root_aws)->Ok_0;
    let defs = task_defs(dag_version(dag), views(dag.tasks@), jobs, root_aws, locations)->Ok_0;
    let (tr, pubs, req) = choose|tr: TriggerRender, pubs: Seq<String>, req: Seq<RequiredConnection>|
        #[trigger] context_witness(c, dag, jobs, root_aws, conn, defs, tr, pubs, req);
    assert(views(tr.sensor_deps@) == Seq::<Seq<char>>::empty());
    law_dag_without_dependencies(dag);
}

/// Everything the DAG template needs for one DAG, or the first problem
/// found: a task the manifest lacks, a job type without an operator, a
/// malformed project role, or a task that cannot be rendered.
pub fn generate_dag_context(
    dag: &ResolvedDag,
    jobs: &Vec<ManifestJob>,
    root_aws: &Json,
    locations: &Vec<(String, String)>,
) -> (r: Result<DagContext, String>)
    ensures
        context_of(r, *dag, jobs@, root_aws@, locations@),
{
    match check_tasks(dag.name.as_str(), &dag.tasks, jobs) {
        Err(m) => return Err(m),
        Ok(()) => {},
    }
    let dag_conn: Option<&str> = match &dag.config.aws_conn_id {
        Some(c) => Some(c.as_str()),
        None => None,
    };
    let conn = match default_dag_aws_conn_id(dag_conn, root_aws) {
        Ok(c) => c,
        Err(e) => {
            let arn = match get_str(root_aws, "assume_role") {
                Some(x) => x,
                None => "",
            };
            return Err(e.message(arn));
        },
    };
    let version = version_or_default(dag.config.version);
    let defs = match render_tasks(version, &dag.tasks, jobs, root_aws, locations) {
        Ok(d) => d,
        Err(m) => return Err(m),
    };
    let roots = dag_roots(&dag.tasks, &dag.depends_on);
    let conn_ref: Option<&str> = match &conn {
        Some(c) => Some(c.as_str()),
        None => None,
    };
    let tr = render_trigger_for(version, match &dag.config.trigger {
        Some(t) => Some(t),
        None => None,
    }, match &dag.config.schedule {
        Some(x) => Some(x.as_str()),
        None => None,
    }, conn_ref, &roots);
    let publishing = dag.config.publishes.len() > 0;
    let sorted_pubs = sorted_copy(&dag.config.publishes);
    let task_lines = build_task_lines(version, dag, &tr.sensor_tasks, &defs, &sorted_pubs);
    let dep_lines = build_dep_lines(dag, &tr.sensor_deps);
    proof {
        lemma_defs_ok_connections_ok(version, views(dag.tasks@), jobs@, root_aws@, locations@);
    }
    let required = match required_connections_for_dag(&dag.tasks, jobs, root_aws) {
        Ok(v) => v,
        Err(e) => return Err(e.message("")),
    };
    let imports = imports_block(version, &dag.tasks, jobs, &tr.extra_imports, publishing);
    let max = match dag.config.max_active_runs {
        Some(n) => Some(n),
        None => tr.max_active_runs,
    };
    let deps_block = deps_text(&dep_lines);
    let ctx = DagContext {
        dag_name: dag.name.clone(),
        imports_block: imports,
        default_args: render_default_args(&dag.config),
        schedule: tr.schedule_expr.clone(),
        max_active_runs_block: max_active_runs_block(max),
        tasks_block: join(&task_lines, "\n"),
        deps_block,
        required_connections_block: required_connections_block(&required),
        trigger_header_block: tr.header_docstring.clone(),
    };
    proof {
        assert(context_fits(ctx, *dag, jobs@, tr, views(defs@), views(sorted_pubs@), required@));
        let conn_v = match conn {
            Some(c) => Some(c@),
            None => None,
        };
        assert(conn_v == dag_default_conn(opt_str(dag.config.aws_conn_id), root_aws@)->Ok_0);
        assert(conn_view(conn_ref) == conn_v);
        assert(trigger_renders(
            tr,
            version,
            dag.config.trigger,
            opt_str(dag.config.schedule),
            conn_v,
            roots_of(views(dag.tasks@), dag.depends_on@),
        ));
        assert(views(defs@) == task_defs(version, views(dag.tasks@), jobs@, root_aws@, locations@)->Ok_0);
        assert(ids_sorted(conns_view(required@)));
        let tc = task_connections(views(dag.tasks@), jobs@, assume_role_in(root_aws@))->Ok_0;
        assert(forall|p: (Seq<char>, Seq<char>)| conns_view(required@).contains(p) <==> first_of_its_id(tc, p));
        assert(sorted(views(sorted_pubs@)));
        assert(sorted_pubs@.to_multiset() == dag.config.publishes@.to_multiset());
        assert(unknown_task(views(dag.tasks@), jobs@) is None);
        assert(unsupported_task(views(dag.tasks@), jobs@) is None);
        let w = (tr, sorted_pubs@, required@);
        assert({
            &&& trigger_renders(
                w.0,
                version,
                dag.config.trigger,
                opt_str(dag.config.schedule),
                conn_v,
                roots_of(views(dag.tasks@), dag.depends_on@),
            )
            &&& sorted(views(w.1))
            &&& w.1.to_multiset() == dag.config.publishes@.to_multiset()
            &&& ids_sorted(conns_view(w.2))
            &&& (forall|p: (Seq<char>, Seq<char>)| conns_view(w.2).contains(p) <==> first_of_its_id(tc, p))
            &&& context_fits(ctx, *dag, jobs@, w.0, views(defs@), views(w.1), w.2)
        });
    }
    proof {
        let conn_v = dag_default_conn(opt_str(dag.config.aws_conn_id), root_aws@)->Ok_0;
        let dv = task_defs(version, views(dag.tasks@), jobs@, root_aws@, locations@)->Ok_0;
        assert(context_witness(ctx, *dag, jobs@, root_aws@, conn_v, dv, tr, sorted_pubs@, required@));
        assert(context_ok(ctx, *dag, jobs@, root_aws@, conn_v, dv));
        assert(dag_default_conn(opt_str(dag.config.aws_conn_id), root_aws@) is Ok);
        assert(task_defs(version, views(dag.tasks@), jobs@, root_aws@, locations@) is Ok);
    }
    let r: Result<DagContext, String> = Ok(ctx);
    proof {
        assert(context_of(r, *dag, jobs@, root_aws@, locations@));
    }
    r
}

/// The same DAG with its Airflow version set to `v`.
pub open spec fn with_version(dag: ResolvedDag, v: Option<AirflowMajorVersion>) -> ResolvedDag {
    ResolvedDag { config: AirflowSection { version: v, ..dag.config }, ..dag }
}

/// A DAG that names no Airflow version generates exactly as one that names
/// Airflow 2: the same result is right for both.
pub proof fn law_unset_version_generates_as_v2(
    r: Result<DagContext, String>,
    dag: ResolvedDag,
    jobs: Seq<ManifestJob>,
    root_aws: JsonV,
    locations: Seq<(String, String)>,
)
    requires
        dag.config.version is None,
    ensures
        context_of(r, dag, jobs, root_aws, locations) <==> context_of(
            r,
            with_version(dag, Some(AirflowMajorVersion::V2)),
            jobs,
            root_aws,
            locations,
        ),
{
    let d2 = with_version(dag, Some(AirflowMajorVersion::V2));
    assert(dag_version(d2) == dag_version(dag));
    assert forall|ctx: DagContext, conn: Option<Seq<char>>, defs: Seq<Seq<char>>, tr: TriggerRender, pubs: Seq<String>, req: Seq<RequiredConnection>|
        context_witness(ctx, dag, jobs, root_aws, conn, defs, tr, pubs, req) == context_witness(
            ctx,
            d2,
            jobs,
            root_aws,
            conn,
            defs,
            tr,
            pubs,
            req,
        ) by {
        assert(task_lines_of(dag, views(tr.sensor_tasks@), defs, views(pubs)) == task_lines_of(d2, views(tr.sensor_tasks@), defs, views(pubs)));
        assert(dep_lines_of(dag, views(tr.sensor_deps@)) == dep_lines_of(d2, views(tr.sensor_deps@)));
    }
    assert forall|ctx: DagContext, conn: Option<Seq<char>>, defs: Seq<Seq<char>>|
        context_ok(ctx, dag, jobs, root_aws, conn, defs) == context_ok(ctx, d2, jobs, root_aws, conn, defs) by {
        if context_ok(ctx, dag, jobs, root_aws, conn, defs) {
            let (tr, pubs, req) = choose|tr: TriggerRender, pubs: Seq<String>, req: Seq<RequiredConnection>|
                #[trigger] context_witness(ctx, dag, jobs, root_aws, conn, defs, tr, pubs, req);
            assert(context_witness(ctx, d2, jobs, root_aws, conn, defs, tr, pubs, req));
        }
        if context_ok(ctx, d2, jobs, root_aws, conn, defs) {
            let (tr, pubs, req) = choose|tr: TriggerRender, pubs: Seq<String>, req: Seq<RequiredConnection>|
                #[trigger] context_witness(ctx, d2, jobs, root_aws, conn, defs, tr, pubs, req);
            assert(context_witness(ctx, dag, jobs, root_aws, conn, defs, tr, pubs, req));
        }
    }
}

/// A DAG generated for Airflow 3 imports nothing from Airflow 2's module
/// paths: not its dataset class, nor its bash or empty operators.
pub proof fn law_v3_imports_no_v2_paths(tr: TriggerRender, dag: ResolvedDag, jobs: Seq<ManifestJob>, conn: Option<Seq<char>>)
    requires
        dag_version(dag) == AirflowMajorVersion::V3,
        trigger_renders(
            tr,
            AirflowMajorVersion::V3,
            dag.config.trigger,
            opt_str(dag.config.schedule),
            conn,
            roots_of(views(dag.tasks@), dag.depends_on@),
        ),
    ensures
        ({
            let imports = dag_imports(
                AirflowMajorVersion::V3,
                views(dag.tasks@),
                jobs,
                views(tr.extra_imports@),
                dag.config.publishes@.len() > 0,
            );
            &&& !imports.contains(class_import_of(AirflowMajorVersion::V2))
            &&& !imports.contains(bash_import_of(AirflowMajorVersion::V2))
            &&& !imports.contains(empty_import_of(AirflowMajorVersion::V2))
        }),
{
    lemma_trigger_imports_in_pool(
        tr,
        AirflowMajorVersion::V3,
        dag.config.trigger,
        opt_str(dag.config.schedule),
        conn,
        roots_of(views(dag.tasks@), dag.depends_on@),
    );
    reveal_strlit("from airflow.datasets import Dataset");
    reveal_strlit("from airflow.operators.bash import BashOperator");
    reveal_strlit("from airflow.operators.empty import EmptyOperator");
    reveal_strlit("from airflow.sdk import Asset");
    reveal_strlit("from airflow.providers.standard.operators.bash import BashOperator");
    reveal_strlit("from airflow.providers.standard.operators.empty import EmptyOperator");
    reveal_strlit("from airflow.providers.amazon.aws.operators.glue import GlueJobOperator");
    reveal_strlit("from airflow.providers.amazon.aws.sensors.s3 import S3KeySensor");
    reveal_strlit("from airflow.providers.amazon.aws.sensors.sqs import SqsSensor");
    let ti = views(tr.extra_imports@);
    let pool = crate::triggers::trigger_import_pool(AirflowMajorVersion::V3);
    assert(class_import_of(AirflowMajorVersion::V2).len() == 36);
    assert(bash_import_of(AirflowMajorVersion::V2).len() == 47);
    assert(!pool.contains(class_import_of(AirflowMajorVersion::V2)));
    assert(empty_import_of(AirflowMajorVersion::V2).len() == 49);
    assert(!pool.contains(bash_import_of(AirflowMajorVersion::V2)));
    assert(!pool.contains(empty_import_of(AirflowMajorVersion::V2)));
    assert(!ti.contains(class_import_of(AirflowMajorVersion::V2)));
    assert(!ti.contains(bash_import_of(AirflowMajorVersion::V2)));
    assert(!ti.contains(empty_import_of(AirflowMajorVersion::V2)));
    assert(class_import_of(AirflowMajorVersion::V3).len() == 29);
    assert(bash_import_of(AirflowMajorVersion::V3).len() == 66);
    assert(empty_import_of(AirflowMajorVersion::V3).len() == 68);
    assert("from airflow.providers.amazon.aws.operators.glue import GlueJobOperator"@.len() == 71);
    let imports = dag_imports(
        AirflowMajorVersion::V3,
        views(dag.tasks@),
        jobs,
        ti,
        dag.config.publishes@.len() > 0,
    );
    assert(ti.to_set().contains(class_import_of(AirflowMajorVersion::V2)) <==> ti.contains(class_import_of(AirflowMajorVersion::V2)));
    assert(ti.to_set().contains(bash_import_of(AirflowMajorVersion::V2)) <==> ti.contains(bash_import_of(AirflowMajorVersion::V2)));
    assert(ti.to_set().contains(empty_import_of(AirflowMajorVersion::V2)) <==> ti.contains(empty_import_of(AirflowMajorVersion::V2)));
    assert(!imports.contains(class_import_of(AirflowMajorVersion::V2)));
    assert(!imports.contains(bash_import_of(AirflowMajorVersion::V2)));
    assert(!imports.contains(empty_import_of(AirflowMajorVersion::V2)));
}

fn sorted_copy(v: &Vec<String>) -> (r: Vec<String>)
    ensures
        sorted(views(r@)),
        r@.to_multiset() == v@.to_multiset(),
{
    let mut copy: Vec<String> = Vec::new();
    let mut q: usize = 0;
    while q < v.len()
        invariant
            q <= v.len(),
            copy@ == v@.take(q as int),
        decreases v.len() - q,
    {
        copy.push(v[q].clone());
        proof {
            assert(copy@ =~= v@.take(q + 1));
        }
        q = q + 1;
    }
    proof {
        assert(v@.take(v@.len() as int) =~= v@);
    }
    sort_strings(copy)
}

fn deps_text(lines: &Vec<String>) -> (r: String)
    ensures
        r@ == deps_block_of(views(lines@)),
{
    if lines.len() == 0 {
        owned("# No task dependencies")
    } else {
        join(lines, "\n")
    }
}

fn build_task_lines(
    version: AirflowMajorVersion,
    dag: &ResolvedDag,
    sensors: &Vec<String>,
    defs: &Vec<String>,
    sorted_pubs: &Vec<String>,
) -> (r: Vec<String>)
    requires
        version == dag_version(*dag),
    ensures
        views(r@) == task_lines_of(*dag, views(sensors@), views(defs@), views(sorted_pubs@)),
{
    let mut lines: Vec<String> = Vec::new();
    extend_all(&mut lines, sensors);
    extend_all(&mut lines, defs);
    let ghost l0 = views(lines@);
    if dag.config.publishes.len() > 0 {
        let p = publish_task_text(version, sorted_pubs);
        lines.push(p);
        proof {
            assert(views(lines@) =~= l0.push(publish_task(version, views(sorted_pubs@))));
        }
    }
    proof {
        assert(views(lines@) =~= task_lines_of(*dag, views(sensors@), views(defs@), views(sorted_pubs@)));
    }
    lines
}

fn build_dep_lines(dag: &ResolvedDag, sensor_deps: &Vec<String>) -> (r: Vec<String>)
    ensures
        views(r@) == dep_lines_of(*dag, views(sensor_deps@)),
{
    let mut dep_lines: Vec<String> = Vec::new();
    extend_all(&mut dep_lines, sensor_deps);
    let edges = dependency_lines(&dag.tasks, &dag.depends_on);
    extend_all(&mut dep_lines, &edges);
    let ghost dl0 = views(dep_lines@);
    if dag.config.publishes.len() > 0 {
        let leaves = dag_leaves(&dag.tasks, &dag.depends_on);
        let mut vars: Vec<String> = Vec::new();
        let mut i: usize = 0;
        while i < leaves.len()
            invariant
                i <= leaves.len(),
                views(vars@) == views(leaves@).take(i as int).map_values(|l: Seq<char>| python_var(l)),
            decreases leaves.len() - i,
        {
            let v = python_var_name(leaves[i].as_str());
            let ghost before = views(vars@);
            vars.push(v);
            proof {
                assert(views(vars@) =~= before.push(python_var(leaves@[i as int]@)));
                assert(views(leaves@).take(i + 1).map_values(|l: Seq<char>| python_var(l)) =~= views(leaves@).take(i as int).map_values(
                    |l: Seq<char>| python_var(l),
                ).push(python_var(leaves@[i as int]@)));
            }
            i = i + 1;
        }
        proof {
            assert(views(leaves@).take(leaves@.len() as int) =~= views(leaves@));
        }
        let mut e = owned("[");
        let j = join(&vars, ", ");
        push_str(&mut e, j.as_str());
        push_str(&mut e, "] >> _yard_publish");
        dep_lines.push(e);
        proof {
            assert(views(dep_lines@) =~= dl0.push(e@));
        }
    }
    proof {
        assert(views(dep_lines@) =~= dep_lines_of(*dag, views(sensor_deps@)));
    }
    dep_lines
}

fn publish_task_text(version: AirflowMajorVersion, uris: &Vec<String>) -> (r: String)
    ensures
        r@ == publish_task(version, views(uris@)),
{
    let mut r = owned("    _yard_publish = EmptyOperator(\n        task_id=\"_yard_publish\",\n        outlets=[");
    let l = dataset_list_text(version, uris);
    push_str(&mut r, l.as_str());
    push_str(&mut r, "],\n    )");
    proof {
        assert(r@ =~= publish_task(version, views(uris@)));
    }
    r
}

fn extend_all(dst: &mut Vec<String>, src: &Vec<String>)
    ensures
        views(final(dst)@) == views(old(dst)@) + views(src@),
{
    let ghost start = views(dst@);
    let mut i: usize = 0;
    while i < src.len()
        invariant
            i <= src.len(),
            views(dst@) == start + views(src@).take(i as int),
        decreases src.len() - i,
    {
        let ghost before = dst@;
        dst.push(src[i].clone());
        proof {
            assert(views(dst@) =~= views(before).push(src@[i as int]@));
            assert(views(dst@) =~= start + views(src@).take(i + 1));
        }
        i = i + 1;
    }
    proof {
        assert(views(src@).take(src@.len() as int) =~= views(src@));
    }
}

} // verus!
