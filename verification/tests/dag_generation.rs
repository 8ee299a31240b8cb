use yard_core::airflow::{AirflowJobBlock, AirflowSection, JobType, SingleSource, Trigger};
use yard_core::collect::{collect_dags, CollectedDag};
use yard_core::connections::ManifestJob;
use yard_core::dag::DagJob;
use yard_core::dagfile::{generate_dag_context, DagContext, ResolvedDag};
use yard_core::json::Json;
use yard_core::version::AirflowMajorVersion;

fn path(s: &str) -> Vec<String> {
    let mut out = vec!["/".to_string()];
    for c in s.split('/').filter(|c| !c.is_empty()) {
        out.push(c.to_string());
    }
    out
}

fn section() -> AirflowSection {
    AirflowSection {
        schedule: None,
        owner: None,
        retries: None,
        dags_bucket: None,
        dags_prefix: None,
        max_active_runs: None,
        publishes: vec![],
        aws_conn_id: None,
        trigger: None,
        version: None,
    }
}

fn scheduled(s: &str) -> AirflowSection {
    let mut c = section();
    c.schedule = Some(s.to_string());
    c
}

fn triggered(t: Trigger) -> AirflowSection {
    let mut c = section();
    c.trigger = Some(t);
    c
}

fn v3(mut c: AirflowSection) -> AirflowSection {
    c.version = Some(AirflowMajorVersion::V3);
    c
}

fn strs(xs: &[&str]) -> Vec<String> {
    xs.iter().map(|s| s.to_string()).collect()
}

/// A JSON object; entries sorted by key.
fn obj(entries: Vec<(&str, Json)>) -> Json {
    let mut es: Vec<(String, Json)> = entries.into_iter().map(|(k, v)| (k.to_string(), v)).collect();
    es.sort_by(|a, b| a.0.cmp(&b.0));
    Json::Object(es)
}

fn s(x: &str) -> Json {
    Json::Str(x.to_string())
}

struct Task {
    name: String,
    base: String,
    job_type: JobType,
    config: Json,
    depends_on: Vec<String>,
    publishes: Vec<String>,
}

fn bash(name: &str, command: &str) -> Task {
    Task {
        name: name.to_string(),
        base: String::new(),
        job_type: JobType::Bash,
        config: obj(vec![("type", s("bash")), ("command", s(command))]),
        depends_on: vec![],
        publishes: vec![],
    }
}

fn prefixed_bash(name: &str, base: &str, command: &str) -> Task {
    let mut t = bash(name, command);
    t.base = base.to_string();
    t
}

fn glue(name: &str) -> Task {
    Task {
        name: name.to_string(),
        base: String::new(),
        job_type: JobType::Glue,
        config: obj(vec![("type", s("glue")), ("role", s("arn:aws:iam::123456789:role/TestGlueRole"))]),
        depends_on: vec![],
        publishes: vec![],
    }
}

fn glue_with_aws(name: &str, aws: Json) -> Task {
    let mut t = glue(name);
    t.config = obj(vec![("type", s("glue")), ("role", s("arn:aws:iam::123456789:role/TestGlueRole")), ("_aws", aws)]);
    t
}

fn glue_with_assume_role(name: &str, arn: &str) -> Task {
    glue_with_aws(name, obj(vec![("assume_role", s(arn))]))
}

fn after(mut t: Task, deps: &[&str]) -> Task {
    t.depends_on = strs(deps);
    t
}

fn publishing(mut t: Task, uris: &[&str]) -> Task {
    t.publishes = strs(uris);
    t
}

fn no_aws() -> Json {
    Json::Null
}

fn root_aws(assume_role: &str) -> Json {
    obj(vec![("assume_role", s(assume_role))])
}

fn orders_script() -> Vec<(String, String)> {
    vec![("orders".to_string(), "s3://bucket/scripts/orders.py".to_string())]
}

/// The DAG file as the template lays it out.
fn script(c: &DagContext) -> String {
    let mut out = String::new();
    out.push_str(&c.required_connections_block);
    out.push_str(&c.trigger_header_block);
    out.push_str("from datetime import datetime\n\nfrom airflow import DAG\n");
    out.push_str(&c.imports_block);
    out.push_str("\n\ndefault_args = ");
    out.push_str(&c.default_args);
    out.push_str(&format!(
        "\n\nwith DAG(\n    dag_id=\"{}\",\n    schedule={},\n{}    default_args=default_args,\n    start_date=datetime(2024, 1, 1),\n    catchup=False,\n) as dag:\n",
        c.dag_name, c.schedule, c.max_active_runs_block
    ));
    out.push_str(&c.tasks_block);
    out.push_str("\n\n");
    out.push_str(&c.deps_block);
    out.push('\n');
    out
}

/// Collect the DAGs of project `test`, whose one DAG directory is
/// `/p/pipeline`.
fn collect(tasks: &[Task]) -> Result<Vec<CollectedDag>, String> {
    let dag_jobs: Vec<DagJob> = tasks
        .iter()
        .map(|t| DagJob {
            name: t.name.clone(),
            base_name: t.base.clone(),
            dir: path("/p/pipeline"),
            airflow: if t.depends_on.is_empty() && t.publishes.is_empty() {
                None
            } else {
                Some(AirflowJobBlock {
                    depends_on: t.depends_on.clone(),
                    publishes: t.publishes.clone(),
                    overrides: section(),
                })
            },
        })
        .collect();
    collect_dags("test", &vec![path("/p/pipeline")], dag_jobs).map_err(|e| e.message())
}

/// Collect the DAG of `/p/pipeline` in project `test` and render it.
fn generate(config: AirflowSection, tasks: Vec<Task>, root: Json, locations: Vec<(String, String)>) -> Result<String, String> {
    let dags = collect(&tasks)?;
    let d = &dags[0];
    let dag = ResolvedDag {
        name: d.name.clone(),
        dir: d.dir.clone(),
        config,
        tasks: d.tasks.clone(),
        depends_on: d.depends_on.clone(),
    };
    let jobs: Vec<ManifestJob> = tasks
        .into_iter()
        .map(|t| ManifestJob { name: t.name, job_type: t.job_type, config: t.config, publishes: t.publishes })
        .collect();
    generate_dag_context(&dag, &jobs, &root, &locations).map(|c| script(&c))
}

fn render(config: AirflowSection, tasks: Vec<Task>) -> String {
    generate(config, tasks, no_aws(), vec![]).unwrap()
}

fn ds(uri: &str) -> SingleSource {
    SingleSource::Dataset { uri: uri.to_string() }
}

fn s3(bucket: &str, prefix: &str) -> SingleSource {
    SingleSource::S3 {
        bucket: bucket.to_string(),
        prefix: Some(prefix.to_string()),
        key: None,
        poke_interval: None,
        timeout: None,
        deferrable: None,
        aws_conn_id: None,
    }
}

fn sqs(queue_url: &str) -> SingleSource {
    SingleSource::Sqs {
        queue_url: queue_url.to_string(),
        wait_time_seconds: None,
        max_messages: None,
        delete_message_on_reception: None,
    }
}

const QUEUE: &str = "https://sqs.us-east-1.amazonaws.com/123456789012/myqueue";

#[test]
fn mod_single_bash_task_dag_collects_and_renders() {
    let dags = collect(&[bash("runit", "echo hi")]).unwrap();
    assert_eq!(dags.len(), 1);
    assert_eq!(dags[0].name, "test_pipeline");
    assert_eq!(dags[0].tasks, vec!["runit".to_string()]);
    let script = render(scheduled("@daily"), vec![bash("runit", "echo hi")]);
    assert!(script.contains("BashOperator"));
    assert!(script.contains("dag_id=\"test_pipeline\""));
    assert!(script.contains("bash_command=\"echo hi\""));
    assert!(script.contains("schedule=\"@daily\""));
}

#[test]
fn mod_linear_deps_topo_order() {
    let tasks = || vec![bash("a", "echo a"), after(bash("b", "echo b"), &["a"]), after(bash("c", "echo c"), &["b"])];
    let dags = collect(&tasks()).unwrap();
    assert_eq!(dags[0].tasks, vec!["a", "b", "c"]);
    let script = render(scheduled("@daily"), tasks());
    assert!(script.contains("t_a >> t_b"));
    assert!(script.contains("t_b >> t_c"));
}

#[test]
fn mod_fan_out_topo_order_is_deterministic() {
    let script = render(
        scheduled("@hourly"),
        vec![bash("a", "echo a"), after(bash("b", "echo b"), &["a"]), after(bash("c", "echo c"), &["a"])],
    );
    assert!(script.contains("t_a >> t_b"));
    assert!(script.contains("t_a >> t_c"));
    assert!(script.find("t_a = BashOperator").unwrap() < script.find("t_b = BashOperator").unwrap());
    assert!(script.find("t_b = BashOperator").unwrap() < script.find("t_c = BashOperator").unwrap());
}

#[test]
fn mod_mixed_glue_and_bash_renders() {
    let script = generate(
        scheduled("@daily"),
        vec![glue("orders"), after(bash("notify", "echo done"), &["orders"])],
        no_aws(),
        orders_script(),
    )
    .unwrap();
    assert!(script.contains("GlueJobOperator"));
    assert!(script.contains("BashOperator"));
    assert!(script.contains("t_orders >> t_notify"));
}

#[test]
fn depends_on_resolves_short_name_to_full() {
    let tasks = || {
        vec![
            prefixed_bash("sales-orders", "orders", "echo a"),
            after(prefixed_bash("sales-shipments", "shipments", "echo b"), &["orders"]),
        ]
    };
    let dags = collect(&tasks()).unwrap();
    assert_eq!(dags[0].tasks, vec!["sales-orders", "sales-shipments"]);
    let script = render(scheduled("@daily"), tasks());
    assert!(script.contains("t_sales_orders >> t_sales_shipments"));
}

#[test]
fn depends_on_full_name_still_works() {
    let script = render(
        scheduled("@daily"),
        vec![
            prefixed_bash("sales-orders", "orders", "echo a"),
            after(prefixed_bash("sales-shipments", "shipments", "echo b"), &["sales-orders"]),
        ],
    );
    assert!(script.contains("t_sales_orders >> t_sales_shipments"));
}

#[test]
fn mod_bash_command_with_special_chars_escapes_correctly() {
    let script = render(scheduled("@daily"), vec![bash("runit", "echo \"hello\\nworld\"")]);
    assert!(script.contains("bash_command=\"echo \\\"hello\\\\nworld\\\"\""), "{script}");
}

#[test]
fn render_task_glue_no_assume_role_uses_default_conn() {
    let script = generate(scheduled("@daily"), vec![glue("orders")], no_aws(), orders_script()).unwrap();
    assert!(script.contains("aws_conn_id=\"aws_default\""));
    assert!(!script.contains("Required Airflow connections"));
}

#[test]
fn render_task_glue_cross_account_uses_derived_conn() {
    let script = generate(
        scheduled("@daily"),
        vec![glue_with_assume_role("orders", "arn:aws:iam::222222222222:role/GlueInvoker")],
        root_aws("arn:aws:iam::111111111111:role/OperatorA"),
        orders_script(),
    )
    .unwrap();
    assert!(script.contains("aws_conn_id=\"yard_222222222222_GlueInvoker\""));
    assert!(script.contains("Required Airflow connections"));
    assert!(script.contains("yard_222222222222_GlueInvoker  ->  arn:aws:iam::222222222222:role/GlueInvoker"));
}

#[test]
fn render_task_glue_explicit_aws_conn_id_short_circuits_derive() {
    let script = generate(
        scheduled("@daily"),
        vec![glue_with_aws(
            "orders",
            obj(vec![
                ("assume_role", s("arn:aws:iam::222222222222:role/GlueInvoker")),
                ("aws_conn_id", s("my_explicit_conn")),
            ]),
        )],
        root_aws("arn:aws:iam::111111111111:role/OperatorA"),
        orders_script(),
    )
    .unwrap();
    assert!(
        script.contains("aws_conn_id=\"my_explicit_conn\""),
        "explicit cascaded aws_conn_id must win over derived value: {script}"
    );
    assert!(
        !script.contains("aws_conn_id=\"yard_222222222222_GlueInvoker\""),
        "derived value must not appear when explicit override is set: {script}"
    );
}

#[test]
fn render_task_glue_explicit_aws_conn_id_without_assume_role() {
    let script = generate(
        scheduled("@daily"),
        vec![glue_with_aws("orders", obj(vec![("aws_conn_id", s("team_glue_conn"))]))],
        no_aws(),
        orders_script(),
    )
    .unwrap();
    assert!(script.contains("aws_conn_id=\"team_glue_conn\""), "{script}");
    assert!(!script.contains("aws_conn_id=\"aws_default\""), "{script}");
}

#[test]
fn render_dag_trigger_default_aws_conn_id_from_root_aws_field() {
    let root = obj(vec![
        ("assume_role", s("arn:aws:iam::123456789012:role/MyRole")),
        ("aws_conn_id", s("dag_root_explicit_conn")),
    ]);
    let script = generate(
        triggered(Trigger::Single(s3("b", "p/"))),
        vec![bash("ingest", "echo ingest")],
        root,
        vec![],
    )
    .unwrap();
    assert!(
        script.contains("aws_conn_id=\"dag_root_explicit_conn\""),
        "S3 sensor must use explicit manifest.aws.aws_conn_id: {script}"
    );
    assert!(
        !script.contains("aws_conn_id=\"yard_123456789012_MyRole\""),
        "derived value must not appear when explicit override is set: {script}"
    );
}

#[test]
fn render_task_glue_same_account_emits_role_and_script() {
    let script = generate(scheduled("@daily"), vec![glue("orders")], no_aws(), orders_script()).unwrap();
    assert!(
        script.contains("iam_role_arn=\"arn:aws:iam::123456789:role/TestGlueRole\""),
        "expected iam_role_arn kwarg from config.role, got:\n{script}"
    );
    assert!(
        script.contains("script_location=\"s3://bucket/scripts/orders.py\""),
        "expected script_location kwarg from script_locations map, got:\n{script}"
    );
}

#[test]
fn render_task_glue_cross_account_emits_role_and_script() {
    let script = generate(
        scheduled("@daily"),
        vec![glue_with_assume_role("orders", "arn:aws:iam::222222222222:role/GlueInvoker")],
        root_aws("arn:aws:iam::111111111111:role/OperatorA"),
        vec![("orders".to_string(), "s3://cross-acct-bucket/scripts/orders.py".to_string())],
    )
    .unwrap();
    assert!(script.contains("iam_role_arn=\"arn:aws:iam::123456789:role/TestGlueRole\""), "{script}");
    assert!(script.contains("script_location=\"s3://cross-acct-bucket/scripts/orders.py\""), "{script}");
    assert!(script.contains("aws_conn_id=\"yard_222222222222_GlueInvoker\""), "{script}");
}

#[test]
fn render_task_glue_missing_script_uri_errors() {
    let chain = generate(scheduled("@daily"), vec![glue("orders")], no_aws(), vec![]).unwrap_err();
    assert!(chain.contains("task 'orders'"), "got: {chain}");
    assert!(chain.contains("persisted script URI"), "got: {chain}");
}

#[test]
fn render_task_glue_missing_role_errors() {
    let mut t = glue("orders");
    t.config = obj(vec![("type", s("glue"))]);
    let chain = generate(scheduled("@daily"), vec![t], no_aws(), orders_script()).unwrap_err();
    assert!(chain.contains("task 'orders'"), "got: {chain}");
    assert!(chain.contains("'config.role'"), "got: {chain}");
}

#[test]
fn render_task_glue_same_account_role_uses_default_conn() {
    let root_arn = "arn:aws:iam::111111111111:role/OperatorA";
    let script = generate(
        scheduled("@daily"),
        vec![glue_with_assume_role("orders", root_arn)],
        root_aws(root_arn),
        orders_script(),
    )
    .unwrap();
    assert!(script.contains("aws_conn_id=\"aws_default\""));
    assert!(!script.contains("Required Airflow connections"));
}

#[test]
fn generate_dag_fails_on_malformed_assume_role() {
    let msg = generate(
        scheduled("@daily"),
        vec![glue_with_assume_role("orders", "garbage")],
        no_aws(),
        orders_script(),
    )
    .unwrap_err();
    assert!(msg.contains("malformed role ARN"), "error was: {msg}");
}

#[test]
fn task_with_publishes_emits_outlets() {
    let script = generate(
        scheduled("@daily"),
        vec![publishing(glue("orders"), &["s3://warehouse/sales/orders"])],
        no_aws(),
        orders_script(),
    )
    .unwrap();
    assert!(script.contains("from airflow.datasets import Dataset"));
    assert!(script.contains("outlets=[Dataset(\"s3://warehouse/sales/orders\")]"));
}

#[test]
fn task_without_publishes_omits_outlets() {
    let script = generate(scheduled("@daily"), vec![glue("orders")], no_aws(), orders_script()).unwrap();
    assert!(!script.contains("outlets"));
    assert!(!script.contains("Dataset"));
}

#[test]
fn dag_trigger_datasets_emits_schedule_list() {
    let script = render(
        triggered(Trigger::All(vec![ds("s3://warehouse/sales/orders"), ds("s3://warehouse/sales/shipments")])),
        vec![bash("agg", "echo agg")],
    );
    assert!(script.contains("from airflow.datasets import Dataset"));
    assert!(
        script.contains(
            "schedule=(Dataset(\"s3://warehouse/sales/orders\") & Dataset(\"s3://warehouse/sales/shipments\"))"
        ),
        "DS-02 expects native `&` chain, alpha-sorted: {script}"
    );
    assert!(!script.contains("@daily"));
}

#[test]
fn dag_schedule_only_omits_max_active_runs_pres_02_invariant() {
    let script = render(scheduled("@daily"), vec![bash("runit", "echo hi")]);
    assert!(!script.contains("max_active_runs="), "{script}");
}

#[test]
fn dag_trigger_datasets_homogeneous_all_emits_amp_chain() {
    let script = render(
        triggered(Trigger::All(vec![ds("s3://warehouse/zzz"), ds("s3://warehouse/aaa")])),
        vec![bash("agg", "echo agg")],
    );
    assert!(script.contains("from airflow.datasets import Dataset"));
    assert!(
        script.contains("schedule=(Dataset(\"s3://warehouse/aaa\") & Dataset(\"s3://warehouse/zzz\"))"),
        "expected alpha-sorted & chain: {script}"
    );
}

#[test]
fn dag_trigger_datasets_homogeneous_any_emits_pipe_chain() {
    let script = render(
        triggered(Trigger::Any(vec![ds("s3://warehouse/zzz"), ds("s3://warehouse/aaa")])),
        vec![bash("agg", "echo agg")],
    );
    assert!(
        script.contains("schedule=(Dataset(\"s3://warehouse/aaa\") | Dataset(\"s3://warehouse/zzz\"))"),
        "expected alpha-sorted | chain: {script}"
    );
}

#[test]
fn dag_trigger_dataset_single_element_all_renders_same_as_bare_single_dataset() {
    let script_a = render(triggered(Trigger::All(vec![ds("s3://warehouse/foo")])), vec![bash("agg", "echo a")]);
    let script_b = render(triggered(Trigger::Single(ds("s3://warehouse/foo"))), vec![bash("agg", "echo a")]);
    assert_eq!(script_a, script_b, "single-element all must render byte-identical to bare-single Dataset (D-12)");
}

#[test]
fn dag_trigger_s3_emits_deferrable_sensor() {
    let script = render(triggered(Trigger::Single(s3("mybucket", "input/"))), vec![bash("ingest", "echo ingest")]);
    assert!(script.contains("from airflow.providers.amazon.aws.sensors.s3 import S3KeySensor"), "{script}");
    assert!(script.contains("_yard_wait_s3 = S3KeySensor("), "{script}");
    assert!(script.contains("task_id=\"_yard_wait_s3\""), "{script}");
    assert!(script.contains("bucket_name=\"mybucket\""), "{script}");
    assert!(script.contains("bucket_key=\"input/\""), "{script}");
    assert!(script.contains("poke_interval=60"), "{script}");
    assert!(script.contains("timeout=86400"), "{script}");
    assert!(script.contains("deferrable=True"), "{script}");
    assert!(script.contains("_yard_wait_s3 >> t_ingest"), "{script}");
    assert!(script.contains("schedule=None"), "{script}");
}

#[test]
fn dag_trigger_s3_with_user_knob_overrides_renders_overrides() {
    let source = SingleSource::S3 {
        bucket: "b".to_string(),
        prefix: Some("p/".to_string()),
        key: None,
        poke_interval: Some(120),
        timeout: Some(3600),
        deferrable: Some(false),
        aws_conn_id: None,
    };
    let script = render(triggered(Trigger::Single(source)), vec![bash("ingest", "echo ingest")]);
    assert!(script.contains("poke_interval=120"), "{script}");
    assert!(script.contains("timeout=3600"), "{script}");
    assert!(script.contains("deferrable=False"), "{script}");
    assert!(!script.contains("deferrable=True"), "{script}");
}

#[test]
fn dag_trigger_s3_inherits_aws_conn_id_from_assume_role() {
    let script = generate(
        triggered(Trigger::Single(s3("b", "p/"))),
        vec![bash("ingest", "echo ingest")],
        root_aws("arn:aws:iam::123456789012:role/MyRole"),
        vec![],
    )
    .unwrap();
    assert!(script.contains("aws_conn_id=\"yard_123456789012_MyRole\""), "{script}");
}

#[test]
fn dag_trigger_sqs_emits_long_poll_sensor() {
    let script = render(triggered(Trigger::Single(sqs(QUEUE))), vec![bash("worker", "echo work")]);
    assert!(script.contains("from airflow.providers.amazon.aws.sensors.sqs import SqsSensor"), "{script}");
    assert!(script.contains("_yard_wait_sqs = SqsSensor("), "{script}");
    assert!(script.contains("task_id=\"_yard_wait_sqs\""), "{script}");
    assert!(script.contains("sqs_queue=\"https://sqs.us-east-1.amazonaws.com/123456789012/myqueue\""), "{script}");
    assert!(script.contains("wait_time_seconds=20"), "{script}");
    assert!(script.contains("max_messages=5"), "{script}");
    assert!(script.contains("delete_message_on_reception=True"), "{script}");
    assert!(script.contains("deferrable=True"), "{script}");
    assert!(script.contains("_yard_wait_sqs >> t_worker"), "{script}");
    assert!(script.contains("schedule=None"), "{script}");
}

#[test]
fn dag_trigger_sqs_with_user_knob_overrides_renders_overrides() {
    let source = SingleSource::Sqs {
        queue_url: QUEUE.to_string(),
        wait_time_seconds: Some(10),
        max_messages: Some(1),
        delete_message_on_reception: Some(false),
    };
    let script = render(triggered(Trigger::Single(source)), vec![bash("worker", "echo work")]);
    assert!(script.contains("wait_time_seconds=10"), "{script}");
    assert!(script.contains("max_messages=1"), "{script}");
    assert!(script.contains("delete_message_on_reception=False"), "{script}");
    assert!(!script.contains("delete_message_on_reception=True"), "{script}");
}

#[test]
fn dag_trigger_sqs_inherits_aws_conn_id_from_assume_role() {
    let script = generate(
        triggered(Trigger::Single(sqs(QUEUE))),
        vec![bash("worker", "echo work")],
        root_aws("arn:aws:iam::123456789012:role/MyRole"),
        vec![],
    )
    .unwrap();
    assert!(script.contains("aws_conn_id=\"yard_123456789012_MyRole\""), "{script}");
}

#[test]
fn dag_trigger_api_emits_schedule_none_with_header_docstring() {
    let api = SingleSource::Api { description: Some("Manual replay".to_string()), payload_schema: None };
    let script = render(triggered(Trigger::Single(api)), vec![bash("worker", "echo work")]);
    assert!(script.contains("schedule=None"), "{script}");
    assert!(script.contains("# Manual replay"), "{script}");
    assert!(script.contains("$AIRFLOW_URL"), "{script}");
    assert!(script.contains("curl -X POST"), "{script}");
    assert!(script.contains("airflow dags trigger"), "{script}");
    assert!(script.contains("max_active_runs=1"), "{script}");
}

#[test]
fn dag_trigger_heterogeneous_all_emits_join_operator() {
    let script = render(
        triggered(Trigger::All(vec![s3("mybucket", "input/"), sqs(QUEUE)])),
        vec![bash("worker", "echo work")],
    );
    assert!(script.contains("_yard_wait_s3 = S3KeySensor("), "{script}");
    assert!(script.contains("_yard_wait_sqs = SqsSensor("), "{script}");
    assert!(script.contains("_yard_join = EmptyOperator("), "{script}");
    assert!(script.contains("task_id=\"_yard_join\""), "{script}");
    assert!(script.contains("trigger_rule=\"all_success\""), "{script}");
    assert!(script.contains("_yard_wait_s3 >> _yard_join"), "{script}");
    assert!(script.contains("_yard_wait_sqs >> _yard_join"), "{script}");
    assert!(script.contains("_yard_join >> t_worker"), "{script}");
    assert!(script.contains("from airflow.operators.empty import EmptyOperator"), "{script}");
    assert!(script.contains("max_active_runs=1"), "{script}");
    assert!(script.contains("schedule=None"), "{script}");
}

#[test]
fn dag_trigger_max_active_runs_user_override_wins() {
    let mut config = triggered(Trigger::Single(s3("mybucket", "input/")));
    config.max_active_runs = Some(4);
    let script = render(config, vec![bash("worker", "echo work")]);
    assert!(script.contains("max_active_runs=4"), "{script}");
    assert!(!script.contains("max_active_runs=1"), "{script}");
}

#[test]
fn dag_schedule_only_with_explicit_max_active_runs_renders_user_value() {
    let mut config = scheduled("@daily");
    config.max_active_runs = Some(8);
    let script = render(config, vec![bash("worker", "echo work")]);
    assert!(script.contains("max_active_runs=8"), "{script}");
}

#[test]
fn dag_trigger_api_with_payload_schema_documents_fields() {
    let api = SingleSource::Api {
        description: None,
        payload_schema: Some(vec![
            ("customer_id".to_string(), "string".to_string()),
            ("event_id".to_string(), "string".to_string()),
        ]),
    };
    let script = render(triggered(Trigger::Single(api)), vec![bash("worker", "echo work")]);
    assert!(script.contains("customer_id"), "{script}");
    assert!(script.contains("event_id"), "{script}");
}

#[test]
fn trigger_overrides_inherited_schedule() {
    let mut config = scheduled("@daily");
    config.trigger = Some(Trigger::Single(ds("s3://warehouse/foo")));
    let script = render(config, vec![bash("task", "echo hi")]);
    assert!(script.contains("schedule=[Dataset(\"s3://warehouse/foo\")]"));
    assert!(!script.contains("@daily"));
}

#[test]
fn multiple_publishes_on_one_task() {
    let script = render(
        scheduled("@daily"),
        vec![publishing(bash("multi", "echo done"), &["s3://warehouse/a", "s3://warehouse/b"])],
    );
    assert!(script.contains("outlets=[Dataset(\"s3://warehouse/a\"), Dataset(\"s3://warehouse/b\")]"));
}

#[test]
fn dag_with_publishes_emits_yard_publish_task() {
    let mut config = scheduled("@daily");
    config.publishes = strs(&["s3://warehouse/sales/orders", "s3://warehouse/sales/processed"]);
    let script = render(config, vec![bash("orders", "echo orders"), bash("shipments", "echo shipments")]);
    assert!(script.contains("_yard_publish = EmptyOperator("), "{script}");
    assert!(script.contains("        task_id=\"_yard_publish\","), "{script}");
    assert!(
        script.contains(
            "outlets=[Dataset(\"s3://warehouse/sales/orders\"), Dataset(\"s3://warehouse/sales/processed\")]"
        ),
        "{script}"
    );
    let order_a = script.contains("[t_orders, t_shipments] >> _yard_publish");
    let order_b = script.contains("[t_shipments, t_orders] >> _yard_publish");
    assert!(order_a || order_b, "{script}");
    assert!(script.contains("from airflow.operators.empty import EmptyOperator"), "{script}");
    assert!(script.contains("from airflow.datasets import Dataset"), "{script}");
}

#[test]
fn yard_publish_outlets_alpha_sorted() {
    let mut config = scheduled("@daily");
    config.publishes = strs(&["s3://b", "s3://a"]);
    let script = render(config, vec![bash("only", "echo only")]);
    assert!(script.contains("outlets=[Dataset(\"s3://a\"), Dataset(\"s3://b\")]"), "{script}");
}

#[test]
fn yard_publish_skipped_when_publishes_empty() {
    let script = render(scheduled("@daily"), vec![bash("runit", "echo hi")]);
    assert!(!script.contains("_yard_publish"), "{script}");
    assert!(!script.contains("from airflow.operators.empty import EmptyOperator"), "{script}");
}

#[test]
fn yard_publish_single_leaf_emits_list_form() {
    let mut config = scheduled("@daily");
    config.publishes = strs(&["s3://a"]);
    let script = render(config, vec![bash("only", "echo only")]);
    assert!(script.contains("[t_only] >> _yard_publish"), "{script}");
}

#[test]
fn yard_publish_with_chain_picks_terminal_leaf() {
    let mut config = scheduled("@daily");
    config.publishes = strs(&["s3://x"]);
    let script = render(config, vec![bash("a", "echo a"), after(bash("b", "echo b"), &["a"])]);
    assert!(script.contains("[t_b] >> _yard_publish"), "{script}");
    assert!(!script.contains("[t_a, t_b]") && !script.contains("[t_b, t_a]"), "{script}");
    assert!(!script.contains("[t_a] >> _yard_publish"), "{script}");
}

#[test]
fn version_banner_renders_on_event_driven_dag_render() {
    let script = render(triggered(Trigger::Single(ds("s3://x"))), vec![bash("agg", "echo agg")]);
    assert!(script.contains("# Airflow version contract:"), "{script}");
    assert!(script.contains("#   - apache-airflow >= 2.9"), "{script}");
    assert!(script.contains("#   - apache-airflow-providers-amazon >= 8.13.0"), "{script}");
    assert!(script.contains("#   - aiobotocore >= 2.1.1"), "{script}");
    assert!(script.contains("#   - Triggerer process required"), "{script}");
}

#[test]
fn version_banner_absent_on_schedule_only_dag_render() {
    let script = render(scheduled("@daily"), vec![bash("runit", "echo hi")]);
    assert!(!script.contains("# Airflow version contract:"), "{script}");
    assert!(!script.contains("apache-airflow >= 2.9"), "{script}");
}

#[test]
fn dag_trigger_single_dataset_v3_emits_asset() {
    let script = render(v3(triggered(Trigger::Single(ds("s3://warehouse/foo")))), vec![bash("agg", "echo agg")]);
    assert!(script.contains("from airflow.sdk import Asset"), "{script}");
    assert!(script.contains("schedule=[Asset(\"s3://warehouse/foo\")]"), "{script}");
    assert!(!script.contains("from airflow.datasets import Dataset"), "{script}");
    assert!(!script.contains("Dataset("), "{script}");
}

#[test]
fn dag_trigger_homogeneous_all_datasets_v3_emits_asset_amp_chain() {
    let script = render(
        v3(triggered(Trigger::All(vec![ds("s3://warehouse/zzz"), ds("s3://warehouse/aaa")]))),
        vec![bash("agg", "echo agg")],
    );
    assert!(
        script.contains("schedule=(Asset(\"s3://warehouse/aaa\") & Asset(\"s3://warehouse/zzz\"))"),
        "{script}"
    );
    assert!(script.contains("from airflow.sdk import Asset"), "{script}");
    assert!(!script.contains("Dataset"), "{script}");
}

#[test]
fn dag_trigger_homogeneous_any_datasets_v3_emits_asset_pipe_chain() {
    let script = render(
        v3(triggered(Trigger::Any(vec![ds("s3://warehouse/zzz"), ds("s3://warehouse/aaa")]))),
        vec![bash("agg", "echo agg")],
    );
    assert!(
        script.contains("schedule=(Asset(\"s3://warehouse/aaa\") | Asset(\"s3://warehouse/zzz\"))"),
        "{script}"
    );
}

#[test]
fn dag_single_bash_task_v3_emits_providers_standard_import() {
    let script = render(v3(scheduled("@daily")), vec![bash("runit", "echo hi")]);
    assert!(script.contains("from airflow.providers.standard.operators.bash import BashOperator"), "{script}");
    assert!(!script.contains("from airflow.operators.bash import BashOperator"), "{script}");
}

#[test]
fn dag_trigger_heterogeneous_all_v3_emits_providers_standard_empty_op() {
    let script = render(
        v3(triggered(Trigger::All(vec![s3("mybucket", "input/"), sqs(QUEUE)]))),
        vec![bash("worker", "echo work")],
    );
    assert!(script.contains("from airflow.providers.standard.operators.empty import EmptyOperator"), "{script}");
    assert!(!script.contains("from airflow.operators.empty import EmptyOperator"), "{script}");
    assert!(script.contains("from airflow.providers.standard.operators.bash import BashOperator"), "{script}");
}

#[test]
fn dag_with_publishes_v3_emits_asset_outlets() {
    let script = render(
        v3(scheduled("@daily")),
        vec![publishing(bash("pub_task", "echo done"), &["s3://warehouse/orders"])],
    );
    assert!(script.contains("outlets=[Asset(\"s3://warehouse/orders\")]"), "{script}");
    assert!(!script.contains("Dataset("), "{script}");
}

#[test]
fn dag_with_dag_level_publishes_v3_emits_asset_in_yard_publish() {
    let mut config = v3(scheduled("@daily"));
    config.publishes = strs(&["s3://a", "s3://b"]);
    let script = render(config, vec![bash("t1", "echo t1"), bash("t2", "echo t2")]);
    assert!(script.contains("outlets=[Asset(\"s3://a\"), Asset(\"s3://b\")]"), "{script}");
    assert!(script.contains("from airflow.providers.standard.operators.empty import EmptyOperator"), "{script}");
    assert!(script.contains("from airflow.sdk import Asset"), "{script}");
    assert!(!script.contains("from airflow.datasets import Dataset"), "{script}");
}

#[test]
fn dag_trigger_v3_event_driven_emits_v3_banner() {
    let script = render(v3(triggered(Trigger::Single(ds("s3://x")))), vec![bash("agg", "echo agg")]);
    assert!(script.contains("# Airflow version contract:"), "{script}");
    assert!(script.contains("#   - apache-airflow >= 3.0"), "{script}");
    assert!(script.contains("#   - apache-airflow-providers-amazon >= 9.0.0"), "{script}");
    assert!(script.contains("#   - apache-airflow-providers-standard"), "{script}");
    assert!(!script.contains("apache-airflow >= 2.9"), "{script}");
    assert!(!script.contains("aiobotocore"), "{script}");
    assert!(!script.contains("Triggerer"), "{script}");
}

#[test]
fn dag_v3_schedule_only_still_no_banner() {
    let script = render(v3(scheduled("@daily")), vec![bash("runit", "echo hi")]);
    assert!(!script.contains("# Airflow version contract:"), "{script}");
}

#[test]
fn dag_v3_no_v2_import_strings_leak() {
    let mut config = v3(triggered(Trigger::All(vec![ds("s3://warehouse/foo"), s3("mybucket", "input/"), sqs(QUEUE)])));
    config.publishes = strs(&["s3://warehouse/output_a", "s3://warehouse/output_b"]);
    let script = render(config, vec![publishing(bash("worker", "echo work"), &["s3://warehouse/per_task_out"])]);
    assert!(script.contains("from airflow.sdk import Asset"), "{script}");
    assert!(script.contains("from airflow.providers.standard.operators.bash import BashOperator"), "{script}");
    assert!(script.contains("from airflow.providers.standard.operators.empty import EmptyOperator"), "{script}");
    assert!(script.contains("Asset("), "{script}");
    assert!(!script.contains("from airflow.datasets import Dataset"), "{script}");
    assert!(!script.contains("from airflow.operators.bash import BashOperator"), "{script}");
    assert!(!script.contains("from airflow.operators.empty import EmptyOperator"), "{script}");
    assert!(!script.contains("Dataset("), "{script}");
}

#[test]
fn dag_v2_default_byte_identical_to_pre_phase_56() {
    let script_no_version = render(scheduled("@daily"), vec![bash("runit", "echo hi")]);
    let mut explicit = scheduled("@daily");
    explicit.version = Some(AirflowMajorVersion::V2);
    let script_explicit_v2 = render(explicit, vec![bash("runit", "echo hi")]);
    assert_eq!(script_no_version, script_explicit_v2);
}

#[test]
fn dag_v2_event_driven_byte_identical_to_pre_phase_56() {
    let script_no_version = render(triggered(Trigger::Single(ds("s3://warehouse/foo"))), vec![bash("agg", "echo agg")]);
    let mut explicit = triggered(Trigger::Single(ds("s3://warehouse/foo")));
    explicit.version = Some(AirflowMajorVersion::V2);
    let script_explicit_v2 = render(explicit, vec![bash("agg", "echo agg")]);
    assert_eq!(script_no_version, script_explicit_v2);
}

#[test]
fn dag_with_unknown_task_is_refused() {
    let mut config = scheduled("@daily");
    config.publishes = vec![];
    let dag = ResolvedDag {
        name: "test_pipeline".to_string(),
        dir: path("/p/pipeline"),
        config,
        tasks: strs(&["ghost"]),
        depends_on: vec![],
    };
    let err = generate_dag_context(&dag, &vec![], &no_aws(), &vec![]).err().unwrap();
    assert_eq!(err, "DAG 'test_pipeline' references task 'ghost' that is not in the manifest");
}

#[test]
fn generation_is_repeatable() {
    let tasks = || vec![bash("a", "echo a"), after(bash("b", "echo b"), &["a"]), publishing(bash("c", "echo c"), &["s3://z/x", "s3://a/y"])];
    let first = render(triggered(Trigger::Single(s3("bucket", "in/"))), tasks());
    let second = render(triggered(Trigger::Single(s3("bucket", "in/"))), tasks());
    assert_eq!(first, second);
}

#[test]
fn topo_order_takes_smallest_ready_task() {
    let dags = collect(&[bash("b", "echo b"), after(bash("a", "echo a"), &["c"]), bash("c", "echo c")]).unwrap();
    assert_eq!(dags[0].tasks, vec!["b".to_string(), "c".to_string(), "a".to_string()]);
}

#[test]
fn every_dependency_becomes_an_edge() {
    let script = render(
        scheduled("@daily"),
        vec![bash("a", "echo a"), bash("b", "echo b"), after(bash("c", "echo c"), &["a", "b"])],
    );
    assert!(script.contains("t_a >> t_c"));
    assert!(script.contains("t_b >> t_c"));
    assert!(!script.contains("# No task dependencies"));
}
