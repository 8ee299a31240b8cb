use serde_json::Value;
use yard_core::airflow::{AirflowSection, JobType};
use yard_core::apply::{
    airflow_region, verify_config, dag_status, dag_upload_target, deploy_config, deployment_status, job_type_from_str, record_destroyed,
    teardown_plan, ApplyAction, ApplyRun, DeploymentStatus, Teardown,
};
use yard_core::connections::{merge_connections, RequiredConnection};
use yard_core::dagplan::{compare_dag_config, dag_diffs, DeployedDag, ProposedDag};
use yard_core::json::Json;
use yard_core::plan::{DestroyResult, DiffType, JobDiff};
use yard_core::targets::target_rows;

fn from_value(v: &Value) -> Json {
    match v {
        Value::Null => Json::Null,
        Value::Bool(b) => Json::Bool(*b),
        Value::Number(n) => Json::Number(n.to_string()),
        Value::String(s) => Json::Str(s.clone()),
        Value::Array(xs) => Json::Array(xs.iter().map(from_value).collect()),
        Value::Object(m) => Json::Object(m.iter().map(|(k, x)| (k.clone(), from_value(x))).collect()),
    }
}

fn parse(s: &str) -> Json {
    from_value(&serde_json::from_str::<Value>(s).unwrap())
}

fn strs(xs: &[&str]) -> Vec<String> {
    xs.iter().map(|s| s.to_string()).collect()
}

// ---- list targets ----

#[test]
fn empty_manifest_returns_empty_vec() {
    let rows = target_rows(&vec![], &vec![]).ok().unwrap();
    assert!(rows.is_empty());
}

#[test]
fn job_with_no_aws_emits_none() {
    let rows = target_rows(&vec![("j1".to_string(), parse(r#"{"type": "glue"}"#))], &vec![]).ok().unwrap();
    assert_eq!(rows.len(), 1);
    assert_eq!(rows[0].target, "j1");
    assert_eq!(rows[0].kind, "job");
    assert_eq!(rows[0].aws_account_id, None);
}

#[test]
fn job_with_assume_role_emits_account_id() {
    let cfg = parse(r#"{"type": "glue", "_aws": {"assume_role": "arn:aws:iam::123456789012:role/Deploy"}}"#);
    let rows = target_rows(&vec![("j1".to_string(), cfg)], &vec![]).ok().unwrap();
    assert_eq!(rows[0].aws_account_id.as_deref(), Some("123456789012"));
}

#[test]
fn job_with_empty_assume_role_emits_none() {
    let cfg = parse(r#"{"type": "glue", "_aws": {"assume_role": ""}}"#);
    let rows = target_rows(&vec![("j1".to_string(), cfg)], &vec![]).ok().unwrap();
    assert_eq!(rows[0].aws_account_id, None);
}

#[test]
fn malformed_arn_is_wrapped_with_target_context() {
    let cfg = parse(r#"{"type": "glue", "_aws": {"assume_role": "not-an-arn"}}"#);
    let err = match target_rows(&vec![("bad_job".to_string(), cfg)], &vec![]) {
        Ok(_) => panic!("expected an error"),
        Err(e) => e.message(),
    };
    assert!(err.contains("target 'bad_job'"), "got: {err}");
}

#[test]
fn rows_are_sorted_alphabetically() {
    let jobs = vec![
        ("zeta".to_string(), parse("{}")),
        ("alpha".to_string(), parse("{}")),
        ("mid".to_string(), parse("{}")),
    ];
    let dags = vec![("beta_dag".to_string(), Some("arn:aws:iam::111111111111:role/R".to_string()))];
    let rows = target_rows(&jobs, &dags).ok().unwrap();
    let names: Vec<&str> = rows.iter().map(|r| r.target.as_str()).collect();
    assert_eq!(names, vec!["alpha", "beta_dag", "mid", "zeta"]);
    assert_eq!(rows[1].kind, "dag");
    assert_eq!(rows[1].aws_account_id.as_deref(), Some("111111111111"));
}

#[test]
fn kind_is_literal_job_or_dag() {
    let rows = target_rows(&vec![("j1".to_string(), parse("{}"))], &vec![("d".to_string(), None)]).ok().unwrap();
    assert_eq!(rows[0].kind, "dag");
    assert_eq!(rows[1].kind, "job");
}

// ---- DAG diffs ----

fn proposed(name: &str, config: &str, tasks: &[&str], hash: &str) -> ProposedDag {
    ProposedDag { name: name.to_string(), config: parse(config), tasks: strs(tasks), hash: hash.to_string() }
}

fn deployed(name: &str, config: &str, tasks: &[&str], hash: &str) -> DeployedDag {
    DeployedDag { name: name.to_string(), config: parse(config), tasks: strs(tasks), hash: hash.to_string() }
}

#[test]
fn dag_diff_detects_create() {
    let diffs = dag_diffs(&vec![proposed("d", "{}", &["a"], "h")], &vec![]);
    assert_eq!(diffs.len(), 1);
    assert!(matches!(diffs[0].diff_type, DiffType::Create));
    assert_eq!(diffs[0].new_hash.as_deref(), Some("h"));
}

#[test]
fn dag_diff_detects_delete() {
    let diffs = dag_diffs(&vec![], &vec![deployed("old", "{}", &["a"], "h")]);
    assert_eq!(diffs.len(), 1);
    assert!(matches!(diffs[0].diff_type, DiffType::Delete));
    assert_eq!(diffs[0].name, "old");
}

#[test]
fn dag_diff_detects_no_change() {
    let diffs = dag_diffs(&vec![proposed("d", "{}", &["a"], "h")], &vec![deployed("d", "{}", &["a"], "h")]);
    assert!(diffs.is_empty());
}

#[test]
fn dag_diff_detects_modify() {
    let diffs = dag_diffs(
        &vec![proposed("d", r#"{"schedule": "@hourly"}"#, &["a", "b"], "h2")],
        &vec![deployed("d", r#"{"schedule": "@daily", "owner": "x"}"#, &["a"], "h1")],
    );
    assert_eq!(diffs.len(), 1);
    match &diffs[0].diff_type {
        DiffType::Modify { changes } => {
            assert_eq!(
                changes,
                &vec![
                    ("schedule".to_string(), ("\"@daily\"".to_string(), "\"@hourly\"".to_string())),
                    ("tasks".to_string(), ("a".to_string(), "a,b".to_string())),
                ]
            );
        }
        _ => panic!("expected a modify"),
    }
}

#[test]
fn dag_config_keys_sort_around_tasks() {
    let old = deployed("d", r#"{"a": 1, "z": 1}"#, &["x"], "h");
    let new = proposed("d", r#"{"a": 2, "z": 2}"#, &["y"], "h2");
    let cs = compare_dag_config(&old, &new);
    let keys: Vec<&str> = cs.iter().map(|c| c.0.as_str()).collect();
    assert_eq!(keys, vec!["a", "tasks", "z"]);
}

// ---- apply decisions ----

#[test]
fn deploy_config_merges_provider_defaults() {
    let providers = vec![("glue".to_string(), parse(r#"{"worker_type": "G.1X", "workers": 2}"#))];
    let cfg = parse(r#"{"type": "glue", "glue": {"workers": 5}}"#);
    let merged = deploy_config(false, JobType::Glue, &cfg, &providers).unwrap();
    assert!(matches!(merged, Json::Object(_)));
    if let Json::Object(es) = merged {
        let keys: Vec<&str> = es.iter().map(|e| e.0.as_str()).collect();
        assert_eq!(keys, vec!["worker_type", "workers"]);
        assert!(matches!(&es[1].1, Json::Number(n) if n == "5"));
    }
    assert!(deploy_config(true, JobType::Glue, &cfg, &providers).is_none());
    assert!(deploy_config(false, JobType::Emr, &cfg, &providers).is_none());
}

#[test]
fn teardown_needs_type_in_state() {
    let providers = vec![("glue".to_string(), parse("{}"))];
    let err = match teardown_plan("j", false, 1, &parse("{}"), &providers) {
        Err(e) => e,
        Ok(_) => panic!("expected an error"),
    };
    assert_eq!(err, "Job 'j' state is missing a 'type' field");
    let err2 = match teardown_plan("j", false, 1, &parse(r#"{"type": "spark"}"#), &providers) {
        Err(e) => e,
        Ok(_) => panic!("expected an error"),
    };
    assert_eq!(err2, "invalid job type in state for job 'j'");
    assert!(matches!(teardown_plan("j", true, 1, &parse("{}"), &providers), Ok(Teardown::Skip)));
    assert!(matches!(teardown_plan("j", false, 0, &parse("{}"), &providers), Ok(Teardown::Skip)));
    assert!(matches!(
        teardown_plan("j", false, 2, &parse(r#"{"type": "glue"}"#), &providers),
        Ok(Teardown::Destroy { job_type: JobType::Glue, .. })
    ));
    assert!(matches!(teardown_plan("j", false, 2, &parse(r#"{"type": "emr"}"#), &providers), Ok(Teardown::Skip)));
}

#[test]
fn statuses_and_upload_targets() {
    assert!(deployment_status(0) == DeploymentStatus::Generated);
    assert!(deployment_status(3) == DeploymentStatus::Deployed);
    assert_eq!(dag_status(true), "deployed");
    assert_eq!(dag_status(false), "generated");
    assert!(job_type_from_str("bash") == Some(JobType::Bash));
    let mut section = AirflowSection {
        schedule: None,
        owner: None,
        retries: None,
        dags_bucket: Some("b".to_string()),
        dags_prefix: None,
        max_active_runs: None,
        publishes: vec![],
        aws_conn_id: None,
        trigger: None,
        version: None,
    };
    assert_eq!(dag_upload_target(false, &section), Some(("b".to_string(), "dags/".to_string())));
    assert_eq!(dag_upload_target(true, &section), None);
    section.dags_prefix = Some("x/".to_string());
    assert_eq!(dag_upload_target(false, &section), Some(("b".to_string(), "x/".to_string())));
}

fn diff(name: &str, kind: DiffType) -> JobDiff {
    JobDiff { name: name.to_string(), diff_type: kind, old_hash: None, new_hash: None }
}

#[test]
fn apply_run_visits_each_entry_and_reports_by_kind() {
    let mut run = ApplyRun::new(vec![
        diff("a", DiffType::Create),
        diff("b", DiffType::Modify { changes: vec![] }),
        diff("c", DiffType::Delete),
        diff("d", DiffType::Create),
    ]);
    let mut seen = Vec::new();
    loop {
        match run.next_action() {
            ApplyAction::Deploy { name, created } => seen.push(format!("deploy {name} {created}")),
            ApplyAction::Remove { name } => seen.push(format!("remove {name}")),
            ApplyAction::Finished => break,
        }
        run.complete();
    }
    assert_eq!(seen, vec!["deploy a true", "deploy b false", "remove c", "deploy d true"]);
    let result = run.into_result();
    assert_eq!(result.created, vec!["a", "d"]);
    assert_eq!(result.modified, vec!["b"]);
    assert_eq!(result.deleted, vec!["c"]);
}

#[test]
fn dag_apply_result_merges_connections_by_id() {
    let mut run = ApplyRun::new(vec![diff("d1", DiffType::Create)]);
    run.complete();
    let conn = |c: &str, r: &str| RequiredConnection { conn_id: c.to_string(), role_arn: r.to_string() };
    let lists = vec![vec![conn("b", "r1"), conn("c", "r2")], vec![conn("a", "r3"), conn("b", "r4")]];
    let result = run.into_dag_result(&lists);
    let ids: Vec<(String, String)> = result.required_connections.iter().map(|c| (c.conn_id.clone(), c.role_arn.clone())).collect();
    assert_eq!(
        ids,
        vec![
            ("a".to_string(), "r3".to_string()),
            ("b".to_string(), "r1".to_string()),
            ("c".to_string(), "r2".to_string()),
        ]
    );
    assert_eq!(result.created, vec!["d1"]);
    let merged = merge_connections(&vec![]);
    assert!(merged.is_empty());
}

#[test]
fn destroyed_jobs_are_those_that_existed() {
    let mut r = DestroyResult { destroyed: vec![] };
    record_destroyed(&mut r, &"a".to_string(), true);
    record_destroyed(&mut r, &"b".to_string(), false);
    assert_eq!(r.destroyed, vec!["a"]);
}

#[test]
fn verify_config_skips_what_it_cannot_check() {
    let providers = vec![("glue".to_string(), parse(r#"{"a": 1}"#))];
    assert!(verify_config(0, &parse(r#"{"type": "glue"}"#), &providers).is_none());
    assert!(verify_config(1, &parse("{}"), &providers).is_none());
    assert!(verify_config(1, &parse(r#"{"type": "nope"}"#), &providers).is_none());
    assert!(verify_config(1, &parse(r#"{"type": "emr"}"#), &providers).is_none());
    let (jt, _) = verify_config(1, &parse(r#"{"type": "glue"}"#), &providers).unwrap();
    assert!(jt == JobType::Glue);
}

#[test]
fn airflow_region_prefers_the_provider_setting() {
    let providers = vec![("airflow".to_string(), parse(r#"{"region": "eu-west-1"}"#))];
    assert_eq!(airflow_region(&providers, Some("us-east-2")).unwrap(), "eu-west-1");
    assert_eq!(airflow_region(&vec![], Some("us-east-2")).unwrap(), "us-east-2");
    assert_eq!(
        airflow_region(&vec![], None).unwrap_err(),
        "Cannot determine AWS region for DAG S3 upload. Set `region` in providers.airflow or use an S3 state backend."
    );
}
