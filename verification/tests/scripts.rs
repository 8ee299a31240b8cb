use yard_core::airflow::JobType;
use yard_core::codegen::{Import, ScriptJob, Sink, Source, Transform};
use yard_core::json::Json;
use yard_core::script::{external_script, plan_script, render_run_body, script_imports, ScriptPlan};

fn obj(entries: Vec<(&str, Json)>) -> Json {
    let mut es: Vec<(String, Json)> = entries.into_iter().map(|(k, v)| (k.to_string(), v)).collect();
    es.sort_by(|a, b| a.0.cmp(&b.0));
    Json::Object(es)
}

fn base_job() -> ScriptJob {
    ScriptJob {
        job_type: JobType::Glue,
        config: obj(vec![("type", Json::Str("glue".to_string()))]),
        sources: vec![],
        sink: None,
        transforms: vec![],
        partition_by: vec![],
        create_timestamp: false,
        partition_timestamp_column: None,
        mask_pii: vec![],
        imports: vec![],
        job_file: None,
        body: None,
    }
}

fn s3_source(name: &str, path: &str) -> Source {
    Source {
        name: name.to_string(),
        source_type: "s3".to_string(),
        format: Some("parquet".to_string()),
        path: Some(path.to_string()),
        connection_url: None,
        table: None,
        database: None,
        secret_id: None,
        engine: None,
        connection_type: None,
        topic: None,
        url: None,
        headers: vec![],
        options: Json::Null,
        auth: None,
    }
}

fn transform(kind: &str) -> Transform {
    Transform {
        transform_type: kind.to_string(),
        source: None,
        output: None,
        condition: None,
        query: None,
        columns: vec![],
        mapping: vec![],
        name: None,
        expression: None,
        left: None,
        right: None,
        on: None,
        how: None,
        group_by: vec![],
        aggs: vec![],
        partition_by: vec![],
        order_by: vec![],
    }
}

fn s3_sink(source: Option<&str>) -> Sink {
    Sink {
        source: source.map(|s| s.to_string()),
        sink_type: "s3".to_string(),
        format: Some("parquet".to_string()),
        path: Some("s3://b/out/".to_string()),
        connection_url: None,
        table: None,
        database: None,
        secret_id: None,
        mode: Some("overwrite".to_string()),
        partition_by: vec![],
        fill_nulls: None,
        connection_type: None,
        auth: None,
    }
}

fn body(job: &ScriptJob) -> String {
    render_run_body(job).unwrap()
}

#[test]
fn default_body_is_pass() {
    assert_eq!(body(&base_job()), "    pass");
}

#[test]
fn single_source_named() {
    let mut job = base_job();
    job.sources = vec![s3_source("events", "s3://bucket/events/")];
    let b = body(&job);
    assert!(b.starts_with("    # --- Sources ---\n"));
    assert!(b.contains("df_events = spark.read.format(\"parquet\").load(\"s3://bucket/events/\")"), "{b}");
}

#[test]
fn multiple_sources_named() {
    let mut job = base_job();
    job.sources = vec![s3_source("orders", "s3://bucket/orders/"), s3_source("customers", "s3://bucket/customers/")];
    let b = body(&job);
    assert!(b.contains("df_orders = spark.read"));
    assert!(b.contains("df_customers = spark.read"));
}

#[test]
fn transform_defaults_to_first_source() {
    let mut job = base_job();
    job.sources = vec![s3_source("events", "s3://b/in")];
    let mut t = transform("filter");
    t.condition = Some("col('active')".to_string());
    job.transforms = vec![t];
    let b = body(&job);
    assert!(b.contains("    # --- Transforms ---\n"));
    assert!(b.contains("df_events = df_events.filter(col('active'))"), "{b}");
}

#[test]
fn transform_explicit_source_and_output() {
    let mut job = base_job();
    job.sources = vec![s3_source("orders", "s3://b/orders"), s3_source("customers", "s3://b/customers")];
    let mut t = transform("filter");
    t.source = Some("customers".to_string());
    t.output = Some("active_customers".to_string());
    t.condition = Some("col('active')".to_string());
    job.transforms = vec![t];
    assert!(body(&job).contains("df_active_customers = df_customers.filter(col('active'))"));
}

#[test]
fn join_transform() {
    let mut job = base_job();
    job.sources = vec![s3_source("orders", "s3://b/orders"), s3_source("customers", "s3://b/customers")];
    let mut t = transform("join");
    t.output = Some("enriched".to_string());
    t.left = Some("orders".to_string());
    t.right = Some("customers".to_string());
    t.on = Some("customer_id".to_string());
    t.how = Some("left".to_string());
    job.transforms = vec![t];
    assert!(body(&job).contains("df_enriched = df_orders.join(df_customers, on=\"customer_id\", how=\"left\")"));
}

#[test]
fn sql_registers_all_sources_as_views() {
    let mut job = base_job();
    job.sources = vec![s3_source("orders", "s3://b/orders"), s3_source("customers", "s3://b/customers")];
    let mut t = transform("sql");
    t.output = Some("enriched".to_string());
    t.query = Some("SELECT o.*, c.name FROM orders o JOIN customers c ON o.cid = c.id".to_string());
    job.transforms = vec![t];
    let b = body(&job);
    assert!(b.contains("df_orders.createOrReplaceTempView(\"orders\")"));
    assert!(b.contains("df_customers.createOrReplaceTempView(\"customers\")"));
    assert!(b.contains("df_enriched = spark.sql("));
}

#[test]
fn sink_defaults_to_first_source() {
    let mut job = base_job();
    job.sources = vec![s3_source("events", "s3://b/in")];
    job.sink = Some(s3_sink(None));
    let b = body(&job);
    assert!(b.contains("    # --- Sink ---\n"));
    assert!(b.contains("df_events.write.format(\"parquet\")"), "{b}");
}

#[test]
fn sink_explicit_source() {
    let mut job = base_job();
    job.sources = vec![s3_source("orders", "s3://b/orders"), s3_source("customers", "s3://b/customers")];
    let mut t = transform("join");
    t.output = Some("enriched".to_string());
    t.left = Some("orders".to_string());
    t.right = Some("customers".to_string());
    t.on = Some("customer_id".to_string());
    t.how = Some("inner".to_string());
    job.transforms = vec![t];
    job.sink = Some(s3_sink(Some("enriched")));
    assert!(body(&job).contains("df_enriched.write.format(\"parquet\")"));
}

#[test]
fn body_override_skips_source_sink() {
    let mut job = base_job();
    job.sources = vec![s3_source("events", "s3://b/in")];
    job.sink = Some(s3_sink(None));
    job.body = Some("df = spark.range(10)\ndf.show()".to_string());
    let b = body(&job);
    assert_eq!(b, "    df = spark.range(10)\n    df.show()");
}

#[test]
fn s3_source_missing_path_errors() {
    let mut job = base_job();
    let mut s = s3_source("events", "x");
    s.path = None;
    job.sources = vec![s];
    let err = render_run_body(&job).unwrap_err();
    assert!(err.contains("path"), "got: {err}");
}

#[test]
fn s3_sink_missing_path_errors() {
    let mut job = base_job();
    job.sources = vec![s3_source("events", "s3://b/in")];
    let mut k = s3_sink(None);
    k.path = None;
    job.sink = Some(k);
    let err = render_run_body(&job).unwrap_err();
    assert!(err.contains("path"), "got: {err}");
}

#[test]
fn join_missing_right_errors() {
    let mut job = base_job();
    job.sources = vec![s3_source("orders", "s3://b/orders")];
    let mut t = transform("join");
    t.left = Some("orders".to_string());
    t.on = Some("id".to_string());
    job.transforms = vec![t];
    let err = render_run_body(&job).unwrap_err();
    assert!(err.contains("right"), "got: {err}");
}

#[test]
fn pii_block_between_transforms_and_sink() {
    let mut job = base_job();
    job.sources = vec![s3_source("events", "s3://b/in")];
    job.sink = Some(s3_sink(None));
    job.mask_pii = vec!["EMAIL".to_string()];
    let b = body(&job);
    let i_pii = b.find("# --- PII Masking ---").expect("pii block");
    let i_sink = b.find("# --- Sink ---").expect("sink block");
    assert!(i_pii < i_sink);
    assert!(b.contains("DynamicFrame.fromDF(df_events"));
}

#[test]
fn pii_uses_sink_source_variable() {
    let mut job = base_job();
    job.sources = vec![s3_source("events", "s3://b/in")];
    job.sink = Some(s3_sink(Some("cleaned")));
    job.mask_pii = vec!["EMAIL".to_string()];
    let b = body(&job);
    assert!(b.contains("DynamicFrame.fromDF(df_cleaned"));
    assert!(b.contains("df_cleaned = _yard_pii_dyf.toDF()"));
}

#[test]
fn pii_empty_mask_no_artifacts() {
    let mut job = base_job();
    job.sources = vec![s3_source("events", "s3://b/in")];
    job.sink = Some(s3_sink(None));
    let b = body(&job);
    let imports = script_imports(&job, "spark");
    assert!(!b.contains("PII"));
    assert!(!b.contains("EntityDetector") && !imports.contains("EntityDetector"));
    assert!(!b.contains("_yard_pii_") && !imports.contains("_yard_pii_"));
    assert!(!imports.contains("awsglueml"));
}

#[test]
fn pii_body_override_skips_pii() {
    let mut job = base_job();
    job.mask_pii = vec!["EMAIL".to_string()];
    job.sources = vec![s3_source("events", "s3://b/in")];
    job.body = Some("print('custom')".to_string());
    let b = body(&job);
    let imports = script_imports(&job, "spark");
    assert!(!b.contains("EntityDetector") && !imports.contains("EntityDetector"));
    assert!(!b.contains("_yard_pii_") && !imports.contains("_yard_pii_"));
    assert!(b.contains("print('custom')"));
}

#[test]
fn pii_no_duplicate_dynamicframe_import() {
    let mut job = base_job();
    let mut src = s3_source("catalog_src", "x");
    src.source_type = "catalog".to_string();
    src.path = None;
    src.format = None;
    src.database = Some("mydb".to_string());
    src.table = Some("mytable".to_string());
    job.sources = vec![src];
    job.sink = Some(s3_sink(None));
    job.mask_pii = vec!["USA_SSN".to_string()];
    let imports = script_imports(&job, "spark");
    assert_eq!(imports.matches("from awsglue.dynamicframe import DynamicFrame").count(), 1, "{imports}");
    assert!(imports.contains("from awsglueml.transforms import EntityDetector"));
    assert!(render_run_body(&job).is_ok());
}

#[test]
fn user_imports_come_before_feature_imports() {
    let mut job = base_job();
    job.imports = vec![Import { name: "os".to_string(), from: None }];
    job.transforms = vec![transform("window")];
    let imports = script_imports(&job, "spark");
    assert_eq!(imports, "import os\nfrom pyspark.sql import functions as F\nfrom pyspark.sql.window import Window");
}

#[test]
fn bash_job_generates_empty_script() {
    let mut job = base_job();
    job.job_type = JobType::Bash;
    assert!(matches!(plan_script(&job), Ok(ScriptPlan::NoScript)));
}

#[test]
fn job_file_uses_external_script() {
    let mut job = base_job();
    job.job_file = Some("scripts/custom.py".to_string());
    match plan_script(&job) {
        Ok(ScriptPlan::External(p)) => assert_eq!(p, "scripts/custom.py"),
        _ => panic!("expected the job's own file"),
    }
}

#[test]
fn template_plan_reads_glue_settings() {
    let mut job = base_job();
    job.config = obj(vec![
        ("type", Json::Str("glue".to_string())),
        (
            "glue",
            obj(vec![
                ("warehouse", Json::Str("s3://wh/".to_string())),
                ("catalog_id", Json::Str("123".to_string())),
            ]),
        ),
    ]);
    match plan_script(&job) {
        Ok(ScriptPlan::Template { job_type, imports_block, body, warehouse, catalog_id }) => {
            assert!(job_type == JobType::Glue);
            assert_eq!(imports_block, "");
            assert_eq!(body, "    pass");
            assert_eq!(warehouse, "s3://wh/");
            assert_eq!(catalog_id, "123");
        }
        _ => panic!("expected a template plan"),
    }
}

#[test]
fn template_plan_carries_body_errors() {
    let mut job = base_job();
    let mut s = s3_source("events", "x");
    s.path = None;
    job.sources = vec![s];
    assert!(plan_script(&job).is_err());
}

#[test]
fn missing_field_errors_name_source_and_field() {
    let mut job = base_job();
    let mut s = s3_source("events", "x");
    s.path = None;
    job.sources = vec![s];
    assert_eq!(render_run_body(&job).unwrap_err(), "source 'events': 'path' is required");
    let mut job = base_job();
    job.sources = vec![s3_source("events", "s3://b/in")];
    let mut k = s3_sink(None);
    k.path = None;
    job.sink = Some(k);
    assert_eq!(render_run_body(&job).unwrap_err(), "sink: 'path' is required for s3 sink");
}

#[test]
fn external_script_is_used_verbatim_or_names_the_file() {
    assert_eq!(external_script("jobs/x.py", Some("print('custom script')\n".to_string())), Ok("print('custom script')\n".to_string()));
    assert_eq!(external_script("jobs/x.py", None), Err("Failed to read job_file: jobs/x.py".to_string()));
}
