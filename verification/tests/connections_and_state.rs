use serde_json::Value;
use yard_core::airflow::JobType;
use yard_core::connections::{required_connections_for_dag, resolve_task_aws_conn_id, ManifestJob};
use yard_core::dag::{script_locations_from_state, Resource};
use yard_core::json::Json;

fn from_value(v: &Value) -> Json {
    match v {
        Value::Null => Json::Null,
        Value::Bool(b) => Json::Bool(*b),
        Value::Number(n) => Json::Number(n.to_string()),
        Value::String(s) => Json::Str(s.clone()),
        Value::Array(xs) => Json::Array(xs.iter().map(from_value).collect()),
        Value::Object(m) => Json::Object(m.iter().map(|(k, x)| (k.clone(), from_value(x))).collect()),
    }
}

fn parse(s: &str) -> Json {
    from_value(&serde_json::from_str::<Value>(s).unwrap())
}

fn glue_job_with_assume_role(name: &str, role_arn: &str) -> ManifestJob {
    ManifestJob {
        name: name.to_string(),
        job_type: JobType::Glue,
        config: parse(&format!(
            r#"{{"type": "glue", "role": "arn:aws:iam::123456789:role/TestGlueRole", "_aws": {{"assume_role": "{role_arn}"}}}}"#
        )),
        publishes: vec![],
    }
}

fn bash_job(name: &str) -> ManifestJob {
    ManifestJob {
        name: name.to_string(),
        job_type: JobType::Bash,
        config: parse(r#"{"type": "bash", "command": "echo hi"}"#),
        publishes: vec![],
    }
}

#[test]
fn required_connections_deduplicates_across_tasks() {
    let role_b = "arn:aws:iam::222222222222:role/GlueInvoker";
    let role_c = "arn:aws:iam::333333333333:role/GlueInvoker";
    let jobs = vec![
        glue_job_with_assume_role("orders", role_b),
        glue_job_with_assume_role("shipments", role_b),
        glue_job_with_assume_role("billing", role_c),
    ];
    let root = parse(r#"{"assume_role": "arn:aws:iam::111111111111:role/OperatorA"}"#);
    let tasks = vec!["billing".to_string(), "orders".to_string(), "shipments".to_string()];
    let conns = required_connections_for_dag(&tasks, &jobs, &root).ok().unwrap();
    assert_eq!(conns.len(), 2);
    assert_eq!(conns[0].conn_id, "yard_222222222222_GlueInvoker");
    assert_eq!(conns[0].role_arn, role_b);
    assert_eq!(conns[1].conn_id, "yard_333333333333_GlueInvoker");
    assert_eq!(conns[1].role_arn, role_c);
}

#[test]
fn required_connections_ignores_bash_tasks() {
    let jobs = vec![bash_job("run")];
    let conns = required_connections_for_dag(&vec!["run".to_string()], &jobs, &Json::Null).ok().unwrap();
    assert!(conns.is_empty());
}

#[test]
fn task_conn_id_follows_assume_role() {
    let cfg = parse(r#"{"_aws": {"assume_role": "arn:aws:iam::444444444444:role/X"}}"#);
    assert_eq!(resolve_task_aws_conn_id(&cfg, &Json::Null).ok().unwrap(), "yard_444444444444_X");
    let plain = parse(r#"{"type": "glue"}"#);
    assert_eq!(resolve_task_aws_conn_id(&plain, &Json::Null).ok().unwrap(), "aws_default");
    let bad = parse(r#"{"_aws": {"assume_role": "garbage"}}"#);
    assert!(resolve_task_aws_conn_id(&bad, &Json::Null).is_err());
}

fn res(kind: &str, id: &str) -> Resource {
    Resource { kind: kind.to_string(), id: id.to_string() }
}

#[test]
fn script_locations_from_state_extracts_s3_object_ids() {
    let states = vec![
        ("alpha".to_string(), vec![res("s3_object", "s3://bucket/alpha.py")]),
        ("beta".to_string(), vec![res("s3_object", "s3://bucket/beta.py")]),
    ];
    let out = script_locations_from_state(&states);
    assert_eq!(out.len(), 2);
    assert_eq!(out[0], ("alpha".to_string(), "s3://bucket/alpha.py".to_string()));
    assert_eq!(out[1], ("beta".to_string(), "s3://bucket/beta.py".to_string()));
}

#[test]
fn script_locations_from_state_skips_jobs_without_s3_object() {
    let states = vec![
        ("a".to_string(), vec![res("s3_object", "s3://bucket/a.py")]),
        ("b".to_string(), vec![res("glue_job", "b_name")]),
        ("c".to_string(), vec![]),
    ];
    let out = script_locations_from_state(&states);
    assert_eq!(out, vec![("a".to_string(), "s3://bucket/a.py".to_string())]);
}

#[test]
fn script_locations_from_state_picks_s3_object_not_glue_job() {
    let states = vec![("j".to_string(), vec![res("glue_job", "j_name"), res("s3_object", "s3://bucket/j.py")])];
    let out = script_locations_from_state(&states);
    assert_eq!(out, vec![("j".to_string(), "s3://bucket/j.py".to_string())]);
}

#[test]
fn script_locations_from_state_empty_input() {
    assert!(script_locations_from_state(&vec![]).is_empty());
}
