use serde_json::Value;
use yard_core::json::Json;
use yard_core::plan::{
    hash_input, is_affirmative, job_diffs, retain_target, validate_target, DeployedJob, DiffType, JobDiff,
    ProposedJob,
};

fn from_value(v: &Value) -> Json {
    match v {
        Value::Null => Json::Null,
        Value::Bool(b) => Json::Bool(*b),
        Value::Number(n) => Json::Number(n.to_string()),
        Value::String(s) => Json::Str(s.clone()),
        Value::Array(xs) => Json::Array(xs.iter().map(from_value).collect()),
        Value::Object(m) => Json::Object(m.iter().map(|(k, x)| (k.clone(), from_value(x))).collect()),
    }
}

fn parse(s: &str) -> Json {
    from_value(&serde_json::from_str::<Value>(s).unwrap())
}

fn proposed(name: &str, config: &str) -> ProposedJob {
    let c = parse(config);
    let hash = hash_input("", &c, None);
    ProposedJob { name: name.to_string(), config: c, hash }
}

fn deployed(name: &str, config: &str, hash: &str) -> DeployedJob {
    DeployedJob { name: name.to_string(), config: parse(config), hash: hash.to_string() }
}

fn kinds(ds: &[JobDiff]) -> Vec<(String, &'static str)> {
    ds.iter()
        .map(|d| {
            let k = match d.diff_type {
                DiffType::Create => "create",
                DiffType::Modify { .. } => "modify",
                DiffType::Delete => "delete",
            };
            (d.name.clone(), k)
        })
        .collect()
}

#[test]
fn diff_detects_create() {
    let diffs = job_diffs(&vec![proposed("new_job", r#"{"type": "glue", "script_name": "new_job"}"#)], &vec![]);
    assert_eq!(diffs.len(), 1);
    assert!(matches!(diffs[0].diff_type, DiffType::Create));
    assert_eq!(diffs[0].name, "new_job");
    assert_eq!(diffs[0].old_hash, None);
    assert!(diffs[0].new_hash.is_some());
}

#[test]
fn diff_detects_delete() {
    let diffs = job_diffs(&vec![], &vec![deployed("old_job", r#"{"type": "glue"}"#, "h1")]);
    assert_eq!(diffs.len(), 1);
    assert!(matches!(diffs[0].diff_type, DiffType::Delete));
    assert_eq!(diffs[0].name, "old_job");
    assert_eq!(diffs[0].old_hash.as_deref(), Some("h1"));
    assert_eq!(diffs[0].new_hash, None);
}

#[test]
fn diff_detects_no_change() {
    let job = proposed("stable", r#"{"type": "glue", "script_name": "stable"}"#);
    let hash = job.hash.clone();
    let diffs = job_diffs(&vec![job], &vec![deployed("stable", r#"{"type": "glue", "script_name": "stable"}"#, &hash)]);
    assert!(diffs.is_empty());
}

#[test]
fn diff_detects_config_only_change() {
    let old_config = r#"{"type": "glue", "glue": {"worker_type": "G.1X"}}"#;
    let old_hash = proposed("my_job", old_config).hash;
    let diffs = job_diffs(
        &vec![proposed("my_job", r#"{"type": "glue", "glue": {"worker_type": "G.2X"}}"#)],
        &vec![deployed("my_job", old_config, &old_hash)],
    );
    assert_eq!(diffs.len(), 1);
    match &diffs[0].diff_type {
        DiffType::Modify { changes } => {
            assert_eq!(changes.len(), 1);
            assert_eq!(changes[0].0, "glue");
            assert_eq!(changes[0].1 .0, "{\"worker_type\":\"G.1X\"}");
            assert_eq!(changes[0].1 .1, "{\"worker_type\":\"G.2X\"}");
        }
        _ => panic!("expected a modify"),
    }
}

#[test]
fn diff_detects_modify() {
    let diffs = job_diffs(
        &vec![proposed("my_job", r#"{"type": "glue", "script_name": "v2"}"#)],
        &vec![deployed("my_job", r#"{"type": "glue", "script_name": "v1"}"#, "stale_hash")],
    );
    assert_eq!(diffs.len(), 1);
    assert!(matches!(diffs[0].diff_type, DiffType::Modify { .. }));
    assert_eq!(diffs[0].old_hash.as_deref(), Some("stale_hash"));
}

#[test]
fn diff_mixed_create_modify_delete() {
    let keep = proposed("keep", r#"{"type": "glue", "script_name": "keep"}"#);
    let keep_hash = keep.hash.clone();
    let jobs = vec![
        proposed("zeta_new", r#"{"type": "glue"}"#),
        keep,
        proposed("changed", r#"{"type": "glue", "v": 2}"#),
    ];
    let state = vec![
        deployed("removed_b", r#"{}"#, "x"),
        deployed("keep", r#"{"type": "glue", "script_name": "keep"}"#, &keep_hash),
        deployed("changed", r#"{"type": "glue", "v": 1}"#, "old"),
        deployed("removed_a", r#"{}"#, "y"),
    ];
    let diffs = job_diffs(&jobs, &state);
    assert_eq!(
        kinds(&diffs),
        vec![
            ("changed".to_string(), "modify"),
            ("zeta_new".to_string(), "create"),
            ("removed_a".to_string(), "delete"),
            ("removed_b".to_string(), "delete"),
        ]
    );
}

#[test]
fn key_removed_from_config_is_reported_with_null() {
    let diffs = job_diffs(
        &vec![proposed("j", r#"{"a": 1}"#)],
        &vec![deployed("j", r#"{"a": 1, "b": "x"}"#, "old")],
    );
    match &diffs[0].diff_type {
        DiffType::Modify { changes } => {
            assert_eq!(changes, &vec![("b".to_string(), ("\"x\"".to_string(), "null".to_string()))]);
        }
        _ => panic!("expected a modify"),
    }
}

#[test]
fn hash_input_joins_script_config_and_trigger() {
    let c = parse(r#"{"b": [1, true], "a": null}"#);
    let t = parse(r#"{"schedule": "@daily"}"#);
    assert_eq!(hash_input("print(1)", &c, Some(&t)), "print(1)\n{\"a\":null,\"b\":[1,true]}\n{\"schedule\":\"@daily\"}");
    assert_eq!(hash_input("", &c, None), "\n{\"a\":null,\"b\":[1,true]}\n");
}

#[test]
fn validate_target_accepts_known_and_absent_targets() {
    let names = vec!["a".to_string(), "b".to_string()];
    assert!(validate_target(&names, None).is_ok());
    assert!(validate_target(&names, Some("b")).is_ok());
    assert_eq!(validate_target(&names, Some("c")).unwrap_err(), "target 'c' not found -- no job with that name");
}

#[test]
fn retain_target_keeps_only_the_target() {
    let diffs = job_diffs(
        &vec![proposed("a", "{}"), proposed("b", "{}")],
        &vec![deployed("c", "{}", "h")],
    );
    let kept = retain_target(diffs, Some("b"));
    assert_eq!(kinds(&kept), vec![("b".to_string(), "create")]);
    let all = retain_target(job_diffs(&vec![proposed("a", "{}")], &vec![]), None);
    assert_eq!(all.len(), 1);
}

#[test]
fn confirmation_answers() {
    assert!(is_affirmative("y\n"));
    assert!(is_affirmative("  YES "));
    assert!(is_affirmative("Yes"));
    assert!(!is_affirmative("no"));
    assert!(!is_affirmative(""));
    assert!(!is_affirmative("yess"));
}
