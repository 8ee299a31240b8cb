use yard_core::airflow::{SingleSource, Trigger};
use yard_core::triggers::{render_trigger, TriggerRender};

fn ds(uri: &str) -> SingleSource {
    SingleSource::Dataset { uri: uri.to_string() }
}

fn s3(bucket: &str, prefix: Option<&str>) -> SingleSource {
    SingleSource::S3 {
        bucket: bucket.to_string(),
        prefix: prefix.map(|s| s.to_string()),
        key: None,
        poke_interval: None,
        timeout: None,
        deferrable: None,
        aws_conn_id: None,
    }
}

fn s3_basic(bucket: &str, prefix: &str) -> SingleSource {
    s3(bucket, Some(prefix))
}

fn sqs(queue_url: &str) -> SingleSource {
    SingleSource::Sqs {
        queue_url: queue_url.to_string(),
        wait_time_seconds: None,
        max_messages: None,
        delete_message_on_reception: None,
    }
}

fn api(description: Option<&str>) -> SingleSource {
    SingleSource::Api { description: description.map(|s| s.to_string()), payload_schema: None }
}

fn roots(names: &[&str]) -> Vec<String> {
    names.iter().map(|s| s.to_string()).collect()
}

fn same(a: &TriggerRender, b: &TriggerRender) -> bool {
    a.schedule_expr == b.schedule_expr
        && a.sensor_tasks == b.sensor_tasks
        && a.sensor_deps == b.sensor_deps
        && a.extra_imports == b.extra_imports
        && a.max_active_runs == b.max_active_runs
        && a.header_docstring == b.header_docstring
}

#[test]
fn render_trigger_schedule_via_trigger_block_renders_quoted_string() {
    let t = Trigger::Single(SingleSource::Schedule { value: "@hourly".into() });
    let out = render_trigger(Some(&t), None, None, &vec![]);
    assert_eq!(out.schedule_expr, "\"@hourly\"");
}

#[test]
fn render_trigger_single_dataset_emits_schedule_list() {
    let t = Trigger::Single(ds("s3://x"));
    let out = render_trigger(Some(&t), None, None, &vec![]);
    assert_eq!(out.schedule_expr, "[Dataset(\"s3://x\")]");
    assert_eq!(out.extra_imports, vec!["from airflow.datasets import Dataset".to_string()]);
    assert!(out.sensor_tasks.is_empty());
}

#[test]
fn render_trigger_homogeneous_all_datasets_emits_amp_chain_alpha_sorted() {
    let t = Trigger::All(vec![ds("s3://z"), ds("s3://a")]);
    let out = render_trigger(Some(&t), None, None, &vec![]);
    assert_eq!(out.schedule_expr, "(Dataset(\"s3://a\") & Dataset(\"s3://z\"))");
    assert_eq!(out.extra_imports, vec!["from airflow.datasets import Dataset".to_string()]);
}

#[test]
fn render_trigger_homogeneous_any_datasets_emits_pipe_chain_alpha_sorted() {
    let t = Trigger::Any(vec![ds("s3://z"), ds("s3://a")]);
    let out = render_trigger(Some(&t), None, None, &vec![]);
    assert_eq!(out.schedule_expr, "(Dataset(\"s3://a\") | Dataset(\"s3://z\"))");
}

#[test]
fn render_trigger_single_element_all_collapses_to_bare_single() {
    let t_collapsed = Trigger::All(vec![ds("s3://x")]);
    let t_bare = Trigger::Single(ds("s3://x"));
    let a = render_trigger(Some(&t_collapsed), None, None, &vec![]);
    let b = render_trigger(Some(&t_bare), None, None, &vec![]);
    assert!(same(&a, &b), "single-element all collapses to bare-single");
}

#[test]
fn render_trigger_single_element_any_collapses_to_bare_single() {
    let t_collapsed = Trigger::Any(vec![ds("s3://x")]);
    let t_bare = Trigger::Single(ds("s3://x"));
    let a = render_trigger(Some(&t_collapsed), None, None, &vec![]);
    let b = render_trigger(Some(&t_bare), None, None, &vec![]);
    assert!(same(&a, &b), "single-element any collapses to bare-single");
}

#[test]
fn render_trigger_dataset_import_only_emitted_once() {
    let t = Trigger::Single(ds("s3://x"));
    let out = render_trigger(Some(&t), None, None, &vec![]);
    assert_eq!(out.extra_imports.len(), 1);
}

#[test]
fn render_trigger_max_active_runs_field_is_some_one_for_dataset_trigger() {
    let t = Trigger::Single(ds("s3://x"));
    let out = render_trigger(Some(&t), None, None, &vec![]);
    assert_eq!(out.max_active_runs, Some(1));
}

#[test]
fn render_trigger_homogeneous_dataset_two_elements_imports_dataset_once() {
    let t = Trigger::All(vec![ds("s3://a"), ds("s3://b")]);
    let out = render_trigger(Some(&t), None, None, &vec![]);
    assert_eq!(out.extra_imports.len(), 1);
    assert_eq!(out.extra_imports[0], "from airflow.datasets import Dataset");
}

#[test]
fn render_trigger_s3_single_account_emits_deferrable_sensor() {
    let t = Trigger::Single(s3("mybucket", Some("input/")));
    let out = render_trigger(Some(&t), None, None, &roots(&["root_task"]));
    assert_eq!(out.schedule_expr, "None");
    assert_eq!(out.sensor_tasks.len(), 1);
    let st = &out.sensor_tasks[0];
    assert!(st.contains("_yard_wait_s3 = S3KeySensor("), "got: {st}");
    assert!(st.contains("task_id=\"_yard_wait_s3\""), "got: {st}");
    assert!(st.contains("bucket_name=\"mybucket\""), "got: {st}");
    assert!(st.contains("bucket_key=\"input/\""), "got: {st}");
    assert!(st.contains("poke_interval=60"), "got: {st}");
    assert!(st.contains("timeout=86400"), "got: {st}");
    assert!(st.contains("deferrable=True"), "got: {st}");
    assert!(!st.contains("aws_conn_id="), "no override + no default = no conn line: {st}");
    assert_eq!(out.sensor_deps, vec!["_yard_wait_s3 >> t_root_task".to_string()]);
    assert_eq!(
        out.extra_imports,
        vec!["from airflow.providers.amazon.aws.sensors.s3 import S3KeySensor".to_string()]
    );
    assert_eq!(out.max_active_runs, Some(1));
}

#[test]
fn render_trigger_s3_with_exact_key_uses_bucket_key() {
    let t = Trigger::Single(SingleSource::S3 {
        bucket: "b".into(),
        key: Some("path/to/file.csv".into()),
        prefix: None,
        poke_interval: None,
        timeout: None,
        deferrable: None,
        aws_conn_id: None,
    });
    let out = render_trigger(Some(&t), None, None, &roots(&["r"]));
    let st = &out.sensor_tasks[0];
    assert!(st.contains("bucket_key=\"path/to/file.csv\""), "got: {st}");
}

#[test]
fn render_trigger_s3_user_override_knobs_propagate() {
    let t = Trigger::Single(SingleSource::S3 {
        bucket: "b".into(),
        prefix: Some("p/".into()),
        key: None,
        poke_interval: Some(120),
        timeout: Some(3600),
        deferrable: None,
        aws_conn_id: None,
    });
    let out = render_trigger(Some(&t), None, None, &roots(&["r"]));
    let st = &out.sensor_tasks[0];
    assert!(st.contains("poke_interval=120"), "got: {st}");
    assert!(st.contains("timeout=3600"), "got: {st}");
}

#[test]
fn render_trigger_s3_deferrable_false_renders_legacy_form() {
    let t = Trigger::Single(SingleSource::S3 {
        bucket: "b".into(),
        prefix: Some("p/".into()),
        key: None,
        poke_interval: None,
        timeout: None,
        deferrable: Some(false),
        aws_conn_id: None,
    });
    let out = render_trigger(Some(&t), None, None, &roots(&["r"]));
    let st = &out.sensor_tasks[0];
    assert!(st.contains("deferrable=False"), "got: {st}");
    assert!(!st.contains("deferrable=True"), "got: {st}");
}

#[test]
fn render_trigger_s3_aws_conn_id_user_override_wins() {
    let t = Trigger::Single(SingleSource::S3 {
        bucket: "b".into(),
        prefix: Some("p/".into()),
        key: None,
        poke_interval: None,
        timeout: None,
        deferrable: None,
        aws_conn_id: Some("custom_conn".into()),
    });
    let out = render_trigger(Some(&t), None, Some("dag_default_conn"), &roots(&["r"]));
    let st = &out.sensor_tasks[0];
    assert!(st.contains("aws_conn_id=\"custom_conn\""), "got: {st}");
    assert!(!st.contains("dag_default_conn"), "got: {st}");
}

#[test]
fn render_trigger_s3_aws_conn_id_dag_default_used_when_no_override() {
    let t = Trigger::Single(s3("b", Some("p/")));
    let out = render_trigger(Some(&t), None, Some("dag_default_conn"), &roots(&["r"]));
    let st = &out.sensor_tasks[0];
    assert!(st.contains("aws_conn_id=\"dag_default_conn\""), "got: {st}");
}

#[test]
fn render_trigger_s3_no_aws_conn_id_when_both_none() {
    let t = Trigger::Single(s3("b", Some("p/")));
    let out = render_trigger(Some(&t), None, None, &roots(&["r"]));
    let st = &out.sensor_tasks[0];
    assert!(!st.contains("aws_conn_id="), "got: {st}");
}

#[test]
fn render_trigger_s3_multiple_roots_emit_multiple_dep_edges() {
    let t = Trigger::Single(s3("b", Some("p/")));
    let out = render_trigger(Some(&t), None, None, &roots(&["a", "b"]));
    assert_eq!(
        out.sensor_deps,
        vec!["_yard_wait_s3 >> t_a".to_string(), "_yard_wait_s3 >> t_b".to_string()]
    );
}

#[test]
fn render_trigger_sqs_default_knobs_emits_long_poll_sensor() {
    let t = Trigger::Single(sqs("https://sqs.us-east-1.amazonaws.com/123456789012/myqueue"));
    let out = render_trigger(Some(&t), None, None, &roots(&["root_task"]));
    assert_eq!(out.schedule_expr, "None");
    assert_eq!(out.sensor_tasks.len(), 1);
    let st = &out.sensor_tasks[0];
    assert!(st.contains("_yard_wait_sqs = SqsSensor("), "got: {st}");
    assert!(st.contains("task_id=\"_yard_wait_sqs\""), "got: {st}");
    assert!(
        st.contains("sqs_queue=\"https://sqs.us-east-1.amazonaws.com/123456789012/myqueue\""),
        "got: {st}"
    );
    assert!(st.contains("wait_time_seconds=20"), "got: {st}");
    assert!(st.contains("max_messages=5"), "got: {st}");
    assert!(st.contains("delete_message_on_reception=True"), "got: {st}");
    assert!(st.contains("deferrable=True"), "got: {st}");
    assert!(!st.contains("aws_conn_id="), "no override + no default = no conn line: {st}");
    assert_eq!(out.sensor_deps, vec!["_yard_wait_sqs >> t_root_task".to_string()]);
    assert_eq!(
        out.extra_imports,
        vec!["from airflow.providers.amazon.aws.sensors.sqs import SqsSensor".to_string()]
    );
    assert_eq!(out.max_active_runs, Some(1));
}

#[test]
fn render_trigger_sqs_user_override_knobs_propagate() {
    let t = Trigger::Single(SingleSource::Sqs {
        queue_url: "q".into(),
        wait_time_seconds: Some(10),
        max_messages: Some(1),
        delete_message_on_reception: Some(false),
    });
    let out = render_trigger(Some(&t), None, None, &roots(&["r"]));
    let st = &out.sensor_tasks[0];
    assert!(st.contains("wait_time_seconds=10"), "got: {st}");
    assert!(st.contains("max_messages=1"), "got: {st}");
    assert!(st.contains("delete_message_on_reception=False"), "got: {st}");
    assert!(!st.contains("delete_message_on_reception=True"), "got: {st}");
}

#[test]
fn render_trigger_sqs_with_dag_default_aws_conn_id_threads_into_sensor() {
    let t = Trigger::Single(sqs("q"));
    let out = render_trigger(Some(&t), None, Some("yard_123456789012_MyRole"), &roots(&["r"]));
    let st = &out.sensor_tasks[0];
    assert!(st.contains("aws_conn_id=\"yard_123456789012_MyRole\""), "got: {st}");
}

#[test]
fn render_trigger_sqs_multiple_roots_emit_multiple_dep_edges() {
    let t = Trigger::Single(sqs("q"));
    let out = render_trigger(Some(&t), None, None, &roots(&["a", "b"]));
    assert_eq!(
        out.sensor_deps,
        vec!["_yard_wait_sqs >> t_a".to_string(), "_yard_wait_sqs >> t_b".to_string()]
    );
}

#[test]
fn render_trigger_api_default_emits_schedule_none_and_header() {
    let t = Trigger::Single(api(None));
    let out = render_trigger(Some(&t), None, None, &vec![]);
    assert_eq!(out.schedule_expr, "None");
    assert!(out.sensor_tasks.is_empty(), "API has no sensor task");
    assert!(out.sensor_deps.is_empty(), "API has no sensor deps");
    assert!(out.extra_imports.is_empty(), "API needs no provider imports");
    assert_eq!(out.max_active_runs, Some(1));
    let h = &out.header_docstring;
    assert!(h.contains("$AIRFLOW_URL"), "header missing $AIRFLOW_URL: {h}");
    assert!(h.contains("$AIRFLOW_USER"), "header missing $AIRFLOW_USER: {h}");
    assert!(h.contains("$AIRFLOW_PASS"), "header missing $AIRFLOW_PASS: {h}");
    assert!(h.contains("curl -X POST"), "header missing curl snippet: {h}");
    assert!(h.contains("airflow dags trigger"), "header missing CLI snippet: {h}");
}

#[test]
fn render_trigger_api_with_description_includes_in_header() {
    let t = Trigger::Single(api(Some("Replay failed S3 ingests")));
    let out = render_trigger(Some(&t), None, None, &vec![]);
    assert!(
        out.header_docstring.contains("Replay failed S3 ingests"),
        "header missing description: {}",
        out.header_docstring
    );
}

#[test]
fn render_trigger_api_with_payload_schema_documents_fields() {
    let schema = vec![
        ("customer_id".to_string(), "string".to_string()),
        ("event_id".to_string(), "string".to_string()),
    ];
    let t = Trigger::Single(SingleSource::Api { description: None, payload_schema: Some(schema) });
    let out = render_trigger(Some(&t), None, None, &vec![]);
    let h = &out.header_docstring;
    assert!(h.contains("customer_id"), "header missing customer_id: {h}");
    assert!(h.contains("event_id"), "header missing event_id: {h}");
    let i_customer = h.find("customer_id").expect("customer_id present");
    let i_event = h.find("event_id").expect("event_id present");
    assert!(i_customer < i_event, "customer_id before event_id: {h}");
}

#[test]
fn render_trigger_api_header_uses_placeholders_not_hardcoded_urls() {
    let t = Trigger::Single(api(None));
    let out = render_trigger(Some(&t), None, None, &vec![]);
    let h = &out.header_docstring;
    assert!(!h.contains("https://airflow.example.com"), "header must not hardcode airflow.example.com: {h}");
    assert!(!h.contains("localhost:8080"), "header must not hardcode localhost:8080: {h}");
    assert!(h.contains("$AIRFLOW_URL"), "header must use $AIRFLOW_URL: {h}");
}

#[test]
fn render_trigger_api_header_includes_no_auth_management_callout() {
    let t = Trigger::Single(api(None));
    let out = render_trigger(Some(&t), None, None, &vec![]);
    let h = &out.header_docstring;
    let mentions_no_auth = h.contains("does NOT manage")
        || h.contains("does not manage")
        || h.contains("wire JWT")
        || h.contains("JWT")
        || h.contains("Basic")
        || h.contains("IAM SigV4");
    assert!(mentions_no_auth, "header must call out that yard does not manage Airflow REST auth: {h}");
}

#[test]
fn render_trigger_heterogeneous_all_s3_sqs_emits_join() {
    let t = Trigger::All(vec![s3_basic("b", "p/"), sqs("q")]);
    let out = render_trigger(Some(&t), None, None, &roots(&["root_a", "root_b"]));
    assert_eq!(out.schedule_expr, "None");
    assert_eq!(out.sensor_tasks.len(), 3, "tasks: {:?}", out.sensor_tasks);
    assert!(out.sensor_tasks[0].contains("_yard_wait_s3 = S3KeySensor("), "first sensor must be S3");
    assert!(out.sensor_tasks[1].contains("_yard_wait_sqs = SqsSensor("), "second sensor must be SQS");
    assert!(out.sensor_tasks[2].contains("_yard_join = EmptyOperator("), "_yard_join task must be last");
    assert!(out.sensor_tasks[2].contains("task_id=\"_yard_join\""), "_yard_join task_id literal");
    assert!(out.sensor_tasks[2].contains("trigger_rule=\"all_success\""), "_yard_join trigger_rule");
    assert_eq!(
        out.sensor_deps,
        vec![
            "_yard_wait_s3 >> _yard_join".to_string(),
            "_yard_wait_sqs >> _yard_join".to_string(),
            "_yard_join >> t_root_a".to_string(),
            "_yard_join >> t_root_b".to_string(),
        ]
    );
    assert!(out
        .extra_imports
        .iter()
        .any(|i| i.contains("from airflow.providers.amazon.aws.sensors.s3 import S3KeySensor")));
    assert!(out
        .extra_imports
        .iter()
        .any(|i| i.contains("from airflow.providers.amazon.aws.sensors.sqs import SqsSensor")));
    assert!(out.extra_imports.iter().any(|i| i.contains("from airflow.operators.empty import EmptyOperator")));
    assert_eq!(out.max_active_runs, Some(1), "CONC-01 default");
}

#[test]
fn render_trigger_heterogeneous_all_dataset_plus_s3_splits_correctly() {
    let t = Trigger::All(vec![ds("ds_uri"), s3_basic("b", "p/")]);
    let out = render_trigger(Some(&t), None, None, &roots(&["root"]));
    assert_eq!(out.schedule_expr, "[Dataset(\"ds_uri\")]");
    assert_eq!(out.sensor_tasks.len(), 1, "tasks: {:?}", out.sensor_tasks);
    assert!(out.sensor_tasks[0].contains("_yard_wait_s3 = S3KeySensor("));
    assert_eq!(out.sensor_deps, vec!["_yard_wait_s3 >> t_root".to_string()]);
    assert!(out.extra_imports.iter().any(|i| i.contains("from airflow.datasets import Dataset")));
    assert!(out
        .extra_imports
        .iter()
        .any(|i| i.contains("from airflow.providers.amazon.aws.sensors.s3 import S3KeySensor")));
    assert!(!out.extra_imports.iter().any(|i| i.contains("EmptyOperator")));
}

#[test]
fn render_trigger_heterogeneous_all_dataset_plus_two_sensors_emits_join() {
    let t = Trigger::All(vec![ds("ds_uri"), s3_basic("b", "p/"), sqs("q")]);
    let out = render_trigger(Some(&t), None, None, &roots(&["root"]));
    assert_eq!(out.schedule_expr, "[Dataset(\"ds_uri\")]");
    assert_eq!(out.sensor_tasks.len(), 3, "tasks: {:?}", out.sensor_tasks);
    assert!(out.sensor_tasks[2].contains("_yard_join = EmptyOperator("));
    assert_eq!(
        out.sensor_deps,
        vec![
            "_yard_wait_s3 >> _yard_join".to_string(),
            "_yard_wait_sqs >> _yard_join".to_string(),
            "_yard_join >> t_root".to_string(),
        ]
    );
}

#[test]
fn render_trigger_heterogeneous_all_three_sensors_alpha_sorted() {
    let t = Trigger::All(vec![sqs("q"), s3_basic("b", "p/"), api(None)]);
    let out = render_trigger(Some(&t), None, None, &roots(&["root"]));
    assert_eq!(out.sensor_tasks.len(), 3, "tasks: {:?}", out.sensor_tasks);
    assert!(out.sensor_tasks[0].contains("_yard_wait_s3"));
    assert!(out.sensor_tasks[1].contains("_yard_wait_sqs"));
    assert!(out.sensor_tasks[2].contains("_yard_join"));
    assert!(!out.header_docstring.is_empty());
}

#[test]
fn render_trigger_single_sensor_does_not_emit_join() {
    let t = Trigger::Single(s3_basic("b", "p/"));
    let out = render_trigger(Some(&t), None, None, &roots(&["root"]));
    assert_eq!(out.sensor_tasks.len(), 1, "single sensor only");
    assert!(!out.sensor_tasks[0].contains("_yard_join"));
    assert!(!out.extra_imports.iter().any(|i| i.contains("EmptyOperator")));
}

#[test]
fn render_trigger_homogeneous_all_datasets_does_not_emit_join() {
    let t = Trigger::All(vec![ds("a"), ds("b")]);
    let out = render_trigger(Some(&t), None, None, &roots(&["root"]));
    assert!(out.sensor_tasks.is_empty(), "no sensor tasks for Datasets");
    assert!(!out.extra_imports.iter().any(|i| i.contains("EmptyOperator")));
}

#[test]
fn render_trigger_max_active_runs_auto_default_for_all_trigger_kinds() {
    let cases: Vec<Trigger> = vec![
        Trigger::Single(s3_basic("b", "p/")),
        Trigger::Single(sqs("q")),
        Trigger::Single(api(None)),
        Trigger::Single(ds("a")),
        Trigger::All(vec![ds("a"), ds("b")]),
        Trigger::Any(vec![ds("a"), ds("b")]),
        Trigger::All(vec![s3_basic("b", "p/"), sqs("q")]),
    ];
    for t in &cases {
        let out = render_trigger(Some(t), None, None, &roots(&["r"]));
        assert_eq!(out.max_active_runs, Some(1));
    }
}

#[test]
fn render_trigger_max_active_runs_none_for_no_trigger() {
    let out = render_trigger(None, Some("@daily"), None, &vec![]);
    assert_eq!(out.max_active_runs, None, "schedule-only must not auto-default");
    let out2 = render_trigger(None, None, None, &vec![]);
    assert_eq!(out2.max_active_runs, None);
}

#[test]
fn render_trigger_none_with_no_schedule_emits_none() {
    let out = render_trigger(None, None, None, &vec![]);
    assert_eq!(out.schedule_expr, "None");
    assert!(out.sensor_tasks.is_empty());
    assert!(out.sensor_deps.is_empty());
    assert!(out.extra_imports.is_empty());
    assert_eq!(out.max_active_runs, None);
}

#[test]
fn render_trigger_none_with_schedule_emits_quoted_string() {
    let out = render_trigger(None, Some("@daily"), None, &vec![]);
    assert_eq!(out.schedule_expr, "\"@daily\"");
    assert!(out.sensor_tasks.is_empty());
    assert!(out.extra_imports.is_empty());
    assert_eq!(out.max_active_runs, None);
}

#[test]
fn render_trigger_dataset_emits_per_source_backfill_header() {
    let t = Trigger::Single(SingleSource::Dataset { uri: "s3://x/y".into() });
    let out = render_trigger(Some(&t), None, None, &vec![]);
    let h = &out.header_docstring;
    assert!(h.contains("# Trigger: Dataset (s3://x/y)"), "Dataset header missing per-source line: {h}");
    assert!(h.contains("Backfill caveat: Datasets have no logical_date"), "Dataset header missing backfill caveat: {h}");
    assert!(h.contains("# Airflow version contract:"), "Dataset header missing VERSION_BANNER: {h}");
    assert!(h.contains("#   - apache-airflow-providers-amazon >= 8.13.0"), "missing providers-amazon line: {h}");
}

#[test]
fn render_trigger_s3_emits_per_source_backfill_header() {
    let t = Trigger::Single(s3("b", Some("p")));
    let out = render_trigger(Some(&t), None, None, &vec![]);
    let h = &out.header_docstring;
    assert!(h.contains("# Airflow version contract:"), "S3 header missing VERSION_BANNER: {h}");
    assert!(h.contains("deferrable sensor re-pokes"), "S3 header missing backfill caveat: {h}");
}

#[test]
fn render_trigger_sqs_emits_per_source_backfill_header() {
    let t = Trigger::Single(sqs("https://sqs/q"));
    let out = render_trigger(Some(&t), None, None, &vec![]);
    let h = &out.header_docstring;
    assert!(h.contains("# Airflow version contract:"), "SQS header missing VERSION_BANNER: {h}");
    assert!(h.contains("drains the real queue"), "SQS header missing backfill caveat: {h}");
}

#[test]
fn render_trigger_schedule_emits_no_banner() {
    let out = render_trigger(None, Some("@daily"), None, &vec![]);
    assert!(out.header_docstring.is_empty());
    let out2 = render_trigger(None, None, None, &vec![]);
    assert!(out2.header_docstring.is_empty());
}

#[test]
fn render_trigger_api_arm_still_passes_phase_30_regression() {
    let t = Trigger::Single(api(None));
    let out = render_trigger(Some(&t), None, None, &vec![]);
    let h = &out.header_docstring;
    assert!(h.contains("# Trigger: API"), "API header marker must still appear: {h}");
    assert!(h.contains("# Airflow version contract:"), "banner must be prepended on API arm too: {h}");
    let i_banner = h.find("# Airflow version contract:").expect("banner present");
    let i_api = h.find("# Trigger: API").expect("api marker present");
    assert!(i_banner < i_api);
}

#[test]
fn render_trigger_is_the_same_for_the_same_input() {
    let t = Trigger::Any(vec![ds("s3://b"), ds("s3://a"), ds("s3://c")]);
    let a = render_trigger(Some(&t), None, Some("c"), &roots(&["x", "y"]));
    let b = render_trigger(Some(&t), None, Some("c"), &roots(&["x", "y"]));
    assert!(same(&a, &b));
    assert_eq!(a.schedule_expr, "(Dataset(\"s3://a\") | Dataset(\"s3://b\") | Dataset(\"s3://c\"))");
}
