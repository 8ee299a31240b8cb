use serde_json::Value;
use yard_core::airflow::{is_task_only, JobType};
use yard_core::json::{build_provider_config, merge_provider_config, Json};

fn from_value(v: &Value) -> Json {
    match v {
        Value::Null => Json::Null,
        Value::Bool(b) => Json::Bool(*b),
        Value::Number(n) => Json::Number(n.to_string()),
        Value::String(s) => Json::Str(s.clone()),
        Value::Array(xs) => Json::Array(xs.iter().map(from_value).collect()),
        Value::Object(m) => Json::Object(m.iter().map(|(k, x)| (k.clone(), from_value(x))).collect()),
    }
}

fn to_value(j: &Json) -> Value {
    match j {
        Json::Null => Value::Null,
        Json::Bool(b) => Value::Bool(*b),
        Json::Number(n) => serde_json::from_str(n).unwrap(),
        Json::Str(s) => Value::String(s.clone()),
        Json::Array(xs) => Value::Array(xs.iter().map(to_value).collect()),
        Json::Object(es) => {
            let mut m = serde_json::Map::new();
            for (k, x) in es {
                m.insert(k.clone(), to_value(x));
            }
            Value::Object(m)
        }
    }
}

fn parse(s: &str) -> Json {
    from_value(&serde_json::from_str::<Value>(s).unwrap())
}

fn merge(d: &str, o: &str) -> Value {
    to_value(&merge_provider_config(&parse(d), &parse(o)))
}

#[test]
fn merge_provider_config_job_overrides_defaults() {
    let merged = merge(
        r#"{"script_bucket": "my-bucket", "worker_type": "G.1X", "number_of_workers": 2, "glue_version": "4.0"}"#,
        r#"{"worker_type": "G.2X", "number_of_workers": 10, "timeout": 180}"#,
    );
    assert_eq!(merged["worker_type"], "G.2X");
    assert_eq!(merged["number_of_workers"], 10);
    assert_eq!(merged["timeout"], 180);
    assert_eq!(merged["script_bucket"], "my-bucket");
    assert_eq!(merged["glue_version"], "4.0");
}

#[test]
fn merge_provider_config_no_overrides() {
    let defaults = r#"{"worker_type": "G.1X", "number_of_workers": 2}"#;
    let merged = merge(defaults, "null");
    assert_eq!(merged, serde_json::from_str::<Value>(defaults).unwrap());
}

#[test]
fn merge_provider_config_deep_merges_nested_maps() {
    let merged = merge(
        r#"{"default_arguments": {"--enable-metrics": "true", "--job-language": "python", "--TempDir": "s3://temp/"}}"#,
        r#"{"default_arguments": {"--job-language": "scala"}}"#,
    );
    assert_eq!(merged["default_arguments"]["--job-language"], "scala");
    assert_eq!(merged["default_arguments"]["--enable-metrics"], "true");
    assert_eq!(merged["default_arguments"]["--TempDir"], "s3://temp/");
}

#[test]
fn merge_provider_config_arrays_are_replaced() {
    let merged = merge(r#"{"connections": ["conn-a", "conn-b"]}"#, r#"{"connections": ["conn-c"]}"#);
    assert_eq!(merged["connections"], serde_json::from_str::<Value>(r#"["conn-c"]"#).unwrap());
}

#[test]
fn merge_provider_config_scalar_overrides_nested() {
    let merged = merge(r#"{"tags": {"team": "data"}}"#, r#"{"tags": "none"}"#);
    assert_eq!(merged["tags"], "none");
}

#[test]
fn merge_provider_config_adds_new_nested_keys() {
    let merged = merge(r#"{"default_arguments": {"--a": "1"}}"#, r#"{"default_arguments": {"--b": "2"}}"#);
    assert_eq!(merged["default_arguments"]["--a"], "1");
    assert_eq!(merged["default_arguments"]["--b"], "2");
}

#[test]
fn merge_provider_config_recurses_multiple_levels() {
    let merged = merge(r#"{"a": {"b": {"c": 1, "d": 2}}}"#, r#"{"a": {"b": {"c": 99}}}"#);
    assert_eq!(merged["a"]["b"]["c"], 99);
    assert_eq!(merged["a"]["b"]["d"], 2);
}

#[test]
fn merge_with_null_override_keeps_the_default_value() {
    let merged = merge(r#"{"a": 1, "b": {"c": 2}}"#, r#"{"b": null}"#);
    assert_eq!(merged["a"], 1);
    assert_eq!(merged["b"]["c"], 2);
}

#[test]
fn provider_config_takes_the_job_type_section() {
    let defaults = parse(r#"{"worker_type": "G.1X"}"#);
    let full = parse(r#"{"type": "glue", "glue": {"worker_type": "G.2X"}}"#);
    let out = to_value(&build_provider_config(&defaults, &full, "glue"));
    assert_eq!(out["worker_type"], "G.2X");
}

#[test]
fn is_task_only_recognizes_bash() {
    assert!(is_task_only(JobType::Bash));
}

#[test]
fn is_task_only_rejects_spark_types() {
    assert!(!is_task_only(JobType::Glue));
    assert!(!is_task_only(JobType::Emr));
}

#[test]
fn compact_text_escapes_strings() {
    let j = Json::Object(vec![("k\"ey".to_string(), Json::Str("a\\b\n\t\u{1}\u{1f}é/".to_string()))]);
    assert_eq!(yard_core::json::to_compact(&j), "{\"k\\\"ey\":\"a\\\\b\\n\\t\\u0001\\u001fé/\"}");
}
