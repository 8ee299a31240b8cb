use yard_core::airflow::JobType;
use yard_core::codegen::{JdbcAuth, OrderBy, ScriptJob, Sink, Source, Transform};
use yard_core::json::Json;
use yard_core::script::{plan_script, ScriptPlan};

fn obj(entries: Vec<(&str, Json)>) -> Json {
    let mut es: Vec<(String, Json)> = entries.into_iter().map(|(k, v)| (k.to_string(), v)).collect();
    es.sort_by(|a, b| a.0.cmp(&b.0));
    Json::Object(es)
}

fn base_job() -> ScriptJob {
    ScriptJob {
        job_type: JobType::Glue,
        config: obj(vec![("type", Json::Str("glue".to_string()))]),
        sources: vec![],
        sink: None,
        transforms: vec![],
        partition_by: vec![],
        create_timestamp: false,
        partition_timestamp_column: None,
        mask_pii: vec![],
        imports: vec![],
        job_file: None,
        body: None,
    }
}

fn source(name: &str, kind: &str) -> Source {
    Source {
        name: name.to_string(),
        source_type: kind.to_string(),
        format: None,
        path: None,
        connection_url: None,
        table: None,
        database: None,
        secret_id: None,
        engine: None,
        connection_type: None,
        topic: None,
        url: None,
        headers: vec![],
        options: Json::Null,
        auth: None,
    }
}

fn s3_source(name: &str, path: &str) -> Source {
    let mut s = source(name, "s3");
    s.format = Some("parquet".to_string());
    s.path = Some(path.to_string());
    s
}

fn sink(kind: &str) -> Sink {
    Sink {
        source: None,
        sink_type: kind.to_string(),
        format: None,
        path: None,
        connection_url: None,
        table: None,
        database: None,
        secret_id: None,
        mode: None,
        partition_by: vec![],
        fill_nulls: None,
        connection_type: None,
        auth: None,
    }
}

fn s3_sink(path: &str) -> Sink {
    let mut s = sink("s3");
    s.format = Some("parquet".to_string());
    s.path = Some(path.to_string());
    s.mode = Some("overwrite".to_string());
    s
}

fn iceberg_sink(database: &str, table: &str, path: Option<&str>) -> Sink {
    let mut s = sink("iceberg");
    s.database = Some(database.to_string());
    s.table = Some(table.to_string());
    s.path = path.map(|p| p.to_string());
    s.mode = Some("append".to_string());
    s
}

fn transform(kind: &str) -> Transform {
    Transform {
        transform_type: kind.to_string(),
        source: None,
        output: None,
        condition: None,
        query: None,
        columns: vec![],
        mapping: vec![],
        name: None,
        expression: None,
        left: None,
        right: None,
        on: None,
        how: None,
        group_by: vec![],
        aggs: vec![],
        partition_by: vec![],
        order_by: vec![],
    }
}

fn rds_iam_auth(username: Option<&str>) -> JdbcAuth {
    JdbcAuth::RdsIam {
        username: username.map(|u| u.to_string()),
        host: "orders.cluster-abc.us-east-1.rds.amazonaws.com".to_string(),
        port: 5432,
        region: "us-east-1".to_string(),
    }
}

/// The imports block and run body the script template is filled with.
fn script(job: &ScriptJob) -> Result<String, String> {
    match plan_script(job)? {
        ScriptPlan::Template { imports_block, body, .. } => Ok(format!("{imports_block}\n\ndef run():\n{body}\n")),
        _ => panic!("expected a template plan"),
    }
}

fn err(job: &ScriptJob) -> String {
    match script(job) {
        Ok(s) => panic!("expected an error, got:\n{s}"),
        Err(e) => e,
    }
}

#[test]
fn codegen_iceberg_sink_without_path_omits_location() {
    let mut job = base_job();
    job.sources = vec![s3_source("events", "s3://b/in")];
    job.sink = Some(iceberg_sink("analytics", "events", None));
    let script = script(&job).unwrap();
    assert!(script.contains("\"glue_catalog.analytics.events\""));
    assert!(!script.contains(".tableProperty(\"location\""));
}

#[test]
fn mod_iceberg_sink_with_path_emits_location_property() {
    let mut job = base_job();
    job.sources = vec![s3_source("events", "s3://b/in")];
    job.sink = Some(iceberg_sink("analytics", "events", Some("s3://my-warehouse/analytics/events/")));
    let script = script(&job).unwrap();
    assert!(script.contains(".tableProperty(\"location\", \"s3://my-warehouse/analytics/events/\")"));
    assert!(script.contains(".writeTo(_tbl).option(\"merge-schema\", \"true\").append()"));
}

#[test]
fn codegen_iceberg_sink_empty_path_omits_location() {
    let mut job = base_job();
    job.sources = vec![s3_source("events", "s3://b/in")];
    job.sink = Some(iceberg_sink("analytics", "events", Some("")));
    let script = script(&job).unwrap();
    assert!(!script.contains(".tableProperty(\"location\""));
}

#[test]
fn mod_iceberg_sink_without_path_omits_location() {
    let mut job = base_job();
    job.sources = vec![s3_source("events", "s3://b/in")];
    job.sink = Some(iceberg_sink("analytics", "events", None));
    let script = script(&job).unwrap();
    assert!(script.contains("\"glue_catalog.analytics.events\""));
    assert!(!script.contains(".tableProperty(\"location\""));
}

#[test]
fn mod_iceberg_sink_empty_path_omits_location() {
    let mut job = base_job();
    job.sources = vec![s3_source("events", "s3://b/in")];
    job.sink = Some(iceberg_sink("analytics", "events", Some("")));
    let script = script(&job).unwrap();
    assert!(!script.contains(".tableProperty(\"location\""));
}

fn jdbc_users() -> Source {
    let mut s = source("users", "jdbc");
    s.connection_url = Some("jdbc:postgresql://host:5432/db".to_string());
    s.table = Some("public.users".to_string());
    s.secret_id = Some("my-rds-secret".to_string());
    s
}

#[test]
fn mod_jdbc_source_secret_named() {
    let mut job = base_job();
    job.sources = vec![jdbc_users()];
    let script = script(&job).unwrap();
    assert!(script.contains("import boto3"));
    assert!(script.contains("get_secret_value(SecretId=\"my-rds-secret\")"));
    assert!(script.contains("users_secret[\"username\"]"), "{script}");
    assert!(script.contains("df_users = spark.read.format(\"jdbc\")"));
}

#[test]
fn jdbc_source_rds_iam_auth_alone_uses_config_username() {
    let mut job = base_job();
    let mut s = source("orders", "jdbc");
    s.connection_url = Some("jdbc:postgresql://h:5432/db".to_string());
    s.table = Some("public.orders".to_string());
    s.auth = Some(rds_iam_auth(Some("yard_app")));
    job.sources = vec![s];
    let script = script(&job).unwrap();
    assert!(script.contains("import boto3"), "{script}");
    assert!(script.contains("_orders_rds = boto3.client(\"rds\", region_name=\"us-east-1\")"), "{script}");
    assert!(script.contains("orders_token = _orders_rds.generate_db_auth_token("), "{script}");
    assert!(script.contains("DBHostname=\"orders.cluster-abc.us-east-1.rds.amazonaws.com\","), "{script}");
    assert!(script.contains("Port=5432,"), "{script}");
    assert!(script.contains("DBUsername=\"yard_app\","), "{script}");
    assert!(script.contains("Region=\"us-east-1\","), "{script}");
    assert!(script.contains(".option(\"user\", \"yard_app\").option(\"password\", orders_token)"), "{script}");
    assert!(!script.contains("get_secret_value"), "{script}");
}

#[test]
fn jdbc_source_rds_iam_auth_with_secret_uses_secret_username() {
    let mut job = base_job();
    let mut s = source("orders", "jdbc");
    s.connection_url = Some("jdbc:postgresql://h:5432/db".to_string());
    s.table = Some("public.orders".to_string());
    s.secret_id = Some("rds-secret".to_string());
    s.auth = Some(rds_iam_auth(None));
    job.sources = vec![s];
    let script = script(&job).unwrap();
    assert!(script.contains("get_secret_value(SecretId=\"rds-secret\")"), "{script}");
    assert!(script.contains("orders_token = _orders_rds.generate_db_auth_token("), "{script}");
    assert!(script.contains("DBUsername=orders_secret[\"username\"],"), "{script}");
    assert!(
        script.contains(".option(\"user\", orders_secret[\"username\"]).option(\"password\", orders_token)"),
        "{script}"
    );
}

#[test]
fn jdbc_source_rds_iam_auth_glue_engine() {
    let mut job = base_job();
    let mut s = source("orders", "jdbc");
    s.connection_url = Some("jdbc:postgresql://h:5432/db".to_string());
    s.table = Some("public.orders".to_string());
    s.engine = Some("glue".to_string());
    s.connection_type = Some("postgresql".to_string());
    s.auth = Some(rds_iam_auth(Some("yard_app")));
    job.sources = vec![s];
    let script = script(&job).unwrap();
    assert!(script.contains("orders_token = _orders_rds.generate_db_auth_token("), "{script}");
    assert!(script.contains("\"user\": \"yard_app\", \"password\": orders_token"), "{script}");
    assert!(script.contains("create_dynamic_frame.from_options"), "{script}");
}

#[test]
fn jdbc_source_rds_iam_derives_url_from_auth() {
    let mut job = base_job();
    let mut s = source("orders", "jdbc");
    s.database = Some("orders".to_string());
    s.table = Some("public.orders".to_string());
    s.connection_type = Some("postgresql".to_string());
    s.auth = Some(rds_iam_auth(Some("yard_app")));
    job.sources = vec![s];
    let script = script(&job).unwrap();
    assert!(script.contains("jdbc:postgresql://orders.cluster-abc.us-east-1.rds.amazonaws.com:5432/orders"), "{script}");
    assert!(script.contains("orders_token = _orders_rds.generate_db_auth_token("), "{script}");
}

#[test]
fn jdbc_sink_rds_iam_auth_alone() {
    let mut job = base_job();
    job.sources = vec![s3_source("events", "s3://b/in")];
    let mut k = sink("jdbc");
    k.connection_url = Some("jdbc:postgresql://h:5432/db".to_string());
    k.table = Some("public.events".to_string());
    k.mode = Some("append".to_string());
    k.auth = Some(rds_iam_auth(Some("yard_app")));
    job.sink = Some(k);
    let script = script(&job).unwrap();
    assert!(script.contains("_sink_rds = boto3.client(\"rds\", region_name=\"us-east-1\")"), "{script}");
    assert!(script.contains("sink_token = _sink_rds.generate_db_auth_token("), "{script}");
    assert!(script.contains("DBUsername=\"yard_app\","), "{script}");
    assert!(script.contains(".option(\"user\", \"yard_app\").option(\"password\", sink_token)"), "{script}");
}

fn full_pipeline_job() -> ScriptJob {
    let mut job = base_job();
    job.sources = vec![s3_source("orders", "s3://raw/orders/"), s3_source("customers", "s3://raw/customers/")];
    let mut filter = transform("filter");
    filter.source = Some("orders".to_string());
    filter.condition = Some("col('status') != 'cancelled'".to_string());
    let mut join = transform("join");
    join.output = Some("enriched".to_string());
    join.left = Some("orders".to_string());
    join.right = Some("customers".to_string());
    join.on = Some("customer_id".to_string());
    join.how = Some("left".to_string());
    let mut drop = transform("drop_columns");
    drop.source = Some("enriched".to_string());
    drop.columns = vec!["debug".to_string()];
    job.transforms = vec![filter, join, drop];
    let mut k = s3_sink("s3://curated/enriched_orders/");
    k.source = Some("enriched".to_string());
    job.sink = Some(k);
    job
}

#[test]
fn codegen_full_pipeline_with_join() {
    let script = script(&full_pipeline_job()).unwrap();
    assert!(script.contains("df_orders = spark.read"));
    assert!(script.contains("df_customers = spark.read"));
    assert!(script.contains("df_orders = df_orders.filter("));
    assert!(script.contains("df_enriched = df_orders.join(df_customers"));
    assert!(script.contains("df_enriched = df_enriched.drop("));
    assert!(script.contains("df_enriched.write.format(\"parquet\")"));
}

#[test]
fn mod_full_pipeline_with_join() {
    let script = script(&full_pipeline_job()).unwrap();
    assert!(script.contains("df_orders = spark.read"));
    assert!(script.contains("df_customers = spark.read"));
    assert!(script.contains("df_orders = df_orders.filter("));
    assert!(script.contains("df_enriched = df_orders.join(df_customers"));
    assert!(script.contains("df_enriched = df_enriched.drop("));
    assert!(script.contains("df_enriched.write.format(\"parquet\")"));
}

fn jdbc_without_url() -> ScriptJob {
    let mut job = base_job();
    let mut s = source("users", "jdbc");
    s.table = Some("public.users".to_string());
    job.sources = vec![s];
    job
}

fn jdbc_without_table() -> ScriptJob {
    let mut job = base_job();
    let mut s = source("users", "jdbc");
    s.connection_url = Some("jdbc:postgresql://host/db".to_string());
    job.sources = vec![s];
    job
}

fn catalog_without_database() -> ScriptJob {
    let mut job = base_job();
    let mut s = source("catalog_src", "catalog");
    s.table = Some("my_table".to_string());
    job.sources = vec![s];
    job
}

fn catalog_without_table() -> ScriptJob {
    let mut job = base_job();
    let mut s = source("catalog_src", "catalog");
    s.database = Some("my_db".to_string());
    job.sources = vec![s];
    job
}

fn join_without_on() -> ScriptJob {
    let mut job = base_job();
    job.sources = vec![s3_source("orders", "s3://b/orders")];
    let mut t = transform("join");
    t.left = Some("orders".to_string());
    t.right = Some("customers".to_string());
    job.transforms = vec![t];
    job
}

fn add_column_without_name() -> ScriptJob {
    let mut job = base_job();
    job.sources = vec![s3_source("events", "s3://b/in")];
    let mut t = transform("add_column");
    t.expression = Some("lit(1)".to_string());
    job.transforms = vec![t];
    job
}

fn with_sink(k: Sink) -> ScriptJob {
    let mut job = base_job();
    job.sources = vec![s3_source("events", "s3://b/in")];
    job.sink = Some(k);
    job
}

fn jdbc_sink_without_url() -> ScriptJob {
    let mut k = sink("jdbc");
    k.table = Some("output_table".to_string());
    with_sink(k)
}

fn jdbc_sink_without_table() -> ScriptJob {
    let mut k = sink("jdbc");
    k.connection_url = Some("jdbc:postgresql://host/db".to_string());
    with_sink(k)
}

fn catalog_sink_without_database() -> ScriptJob {
    let mut k = sink("catalog");
    k.table = Some("my_table".to_string());
    with_sink(k)
}

fn catalog_sink_without_table() -> ScriptJob {
    let mut k = sink("catalog");
    k.database = Some("my_db".to_string());
    with_sink(k)
}

#[test]
fn codegen_jdbc_source_missing_connection_url_errors() {
    let msg = err(&jdbc_without_url());
    assert!(msg.contains("connection_url"), "error should mention 'connection_url': {msg}");
}

#[test]
fn mod_jdbc_source_missing_connection_url_errors() {
    let msg = err(&jdbc_without_url());
    assert!(msg.contains("connection_url"), "error should mention 'connection_url': {msg}");
}

#[test]
fn codegen_jdbc_source_missing_table_errors() {
    let msg = err(&jdbc_without_table());
    assert!(msg.contains("table"), "error should mention 'table': {msg}");
}

#[test]
fn mod_jdbc_source_missing_table_errors() {
    let msg = err(&jdbc_without_table());
    assert!(msg.contains("table"), "error should mention 'table': {msg}");
}

#[test]
fn codegen_catalog_source_missing_database_errors() {
    let msg = err(&catalog_without_database());
    assert!(msg.contains("database"), "error should mention 'database': {msg}");
}

#[test]
fn mod_catalog_source_missing_database_errors() {
    let msg = err(&catalog_without_database());
    assert!(msg.contains("database"), "error should mention 'database': {msg}");
}

#[test]
fn codegen_catalog_source_missing_table_errors() {
    let msg = err(&catalog_without_table());
    assert!(msg.contains("table"), "error should mention 'table': {msg}");
}

#[test]
fn mod_catalog_source_missing_table_errors() {
    let msg = err(&catalog_without_table());
    assert!(msg.contains("table"), "error should mention 'table': {msg}");
}

#[test]
fn codegen_join_missing_on_errors() {
    let msg = err(&join_without_on());
    assert!(msg.contains("on"), "error should mention 'on': {msg}");
}

#[test]
fn mod_join_missing_on_errors() {
    let msg = err(&join_without_on());
    assert!(msg.contains("on"), "error should mention 'on': {msg}");
}

#[test]
fn codegen_add_column_missing_name_errors() {
    let msg = err(&add_column_without_name());
    assert!(msg.contains("name"), "error should mention 'name': {msg}");
}

#[test]
fn mod_add_column_missing_name_errors() {
    let msg = err(&add_column_without_name());
    assert!(msg.contains("name"), "error should mention 'name': {msg}");
}

#[test]
fn codegen_jdbc_sink_missing_connection_url_errors() {
    let msg = err(&jdbc_sink_without_url());
    assert!(msg.contains("connection_url"), "error should mention 'connection_url': {msg}");
}

#[test]
fn mod_jdbc_sink_missing_connection_url_errors() {
    let msg = err(&jdbc_sink_without_url());
    assert!(msg.contains("connection_url"), "error should mention 'connection_url': {msg}");
}

#[test]
fn codegen_jdbc_sink_missing_table_errors() {
    let msg = err(&jdbc_sink_without_table());
    assert!(msg.contains("table"), "error should mention 'table': {msg}");
}

#[test]
fn mod_jdbc_sink_missing_table_errors() {
    let msg = err(&jdbc_sink_without_table());
    assert!(msg.contains("table"), "error should mention 'table': {msg}");
}

#[test]
fn codegen_catalog_sink_missing_database_errors() {
    let msg = err(&catalog_sink_without_database());
    assert!(msg.contains("database"), "error should mention 'database': {msg}");
}

#[test]
fn mod_catalog_sink_missing_database_errors() {
    let msg = err(&catalog_sink_without_database());
    assert!(msg.contains("database"), "error should mention 'database': {msg}");
}

#[test]
fn codegen_catalog_sink_missing_table_errors() {
    let msg = err(&catalog_sink_without_table());
    assert!(msg.contains("table"), "error should mention 'table': {msg}");
}

#[test]
fn mod_catalog_sink_missing_table_errors() {
    let msg = err(&catalog_sink_without_table());
    assert!(msg.contains("table"), "error should mention 'table': {msg}");
}

fn aggregate_job() -> ScriptJob {
    let mut job = base_job();
    job.sources = vec![s3_source("orders", "s3://b/orders")];
    let mut t = transform("aggregate");
    t.source = Some("orders".to_string());
    t.output = Some("daily".to_string());
    t.group_by = vec!["region".to_string(), "day".to_string()];
    t.aggs = vec![("n".to_string(), "count(*)".to_string()), ("total".to_string(), "sum(amount)".to_string())];
    job.transforms = vec![t];
    job
}

#[test]
fn codegen_aggregate_transform_basic() {
    let script = script(&aggregate_job()).unwrap();
    assert!(script.contains("from pyspark.sql import functions as F"));
    assert!(script.contains(
        "df_daily = df_orders.groupBy(\"region\", \"day\").agg(F.expr(\"count(*)\").alias(\"n\"), F.expr(\"sum(amount)\").alias(\"total\"))"
    ));
}

#[test]
fn mod_aggregate_transform_basic() {
    let script = script(&aggregate_job()).unwrap();
    assert!(script.contains("from pyspark.sql import functions as F"));
    assert!(script.contains(
        "df_daily = df_orders.groupBy(\"region\", \"day\").agg(F.expr(\"count(*)\").alias(\"n\"), F.expr(\"sum(amount)\").alias(\"total\"))"
    ));
}

fn aggregate_default_job() -> ScriptJob {
    let mut job = base_job();
    job.sources = vec![s3_source("events", "s3://b/events")];
    let mut t = transform("aggregate");
    t.group_by = vec!["user".to_string()];
    t.aggs = vec![("n".to_string(), "count(*)".to_string())];
    job.transforms = vec![t];
    job
}

#[test]
fn codegen_aggregate_defaults_to_first_source() {
    let script = script(&aggregate_default_job()).unwrap();
    assert!(script.contains("df_events = df_events.groupBy(\"user\").agg(F.expr(\"count(*)\").alias(\"n\"))"));
}

#[test]
fn mod_aggregate_defaults_to_first_source() {
    let script = script(&aggregate_default_job()).unwrap();
    assert!(script.contains("df_events = df_events.groupBy(\"user\").agg(F.expr(\"count(*)\").alias(\"n\"))"));
}

fn window_job() -> ScriptJob {
    let mut job = base_job();
    job.sources = vec![s3_source("orders", "s3://b/orders")];
    let mut t = transform("window");
    t.source = Some("orders".to_string());
    t.output = Some("ranked".to_string());
    t.name = Some("row_num".to_string());
    t.expression = Some("row_number()".to_string());
    t.partition_by = vec!["customer_id".to_string()];
    t.order_by = vec![
        OrderBy { column: "created_at".to_string(), desc: true },
        OrderBy { column: "id".to_string(), desc: false },
    ];
    job.transforms = vec![t];
    job
}

#[test]
fn codegen_window_transform_partition_and_order() {
    let script = script(&window_job()).unwrap();
    assert!(script.contains("from pyspark.sql import functions as F"));
    assert!(script.contains("from pyspark.sql.window import Window"));
    assert!(script.contains(
        "_w_row_num = Window.partitionBy(\"customer_id\").orderBy(F.col(\"created_at\").desc(), F.col(\"id\").asc())"
    ));
    assert!(script.contains("df_ranked = df_orders.withColumn(\"row_num\", F.expr(\"row_number()\").over(_w_row_num))"));
}

#[test]
fn mod_window_transform_partition_and_order() {
    let script = script(&window_job()).unwrap();
    assert!(script.contains("from pyspark.sql import functions as F"));
    assert!(script.contains("from pyspark.sql.window import Window"));
    assert!(script.contains(
        "_w_row_num = Window.partitionBy(\"customer_id\").orderBy(F.col(\"created_at\").desc(), F.col(\"id\").asc())"
    ));
    assert!(script.contains("df_ranked = df_orders.withColumn(\"row_num\", F.expr(\"row_number()\").over(_w_row_num))"));
}

fn window_partition_only_job() -> ScriptJob {
    let mut job = base_job();
    job.sources = vec![s3_source("events", "s3://b/events")];
    let mut t = transform("window");
    t.name = Some("cnt".to_string());
    t.expression = Some("count(*)".to_string());
    t.partition_by = vec!["user".to_string()];
    job.transforms = vec![t];
    job
}

#[test]
fn codegen_window_transform_partition_only() {
    let script = script(&window_partition_only_job()).unwrap();
    assert!(script.contains("_w_cnt = Window.partitionBy(\"user\")"));
    assert!(!script.contains(".orderBy("));
}

#[test]
fn mod_window_transform_partition_only() {
    let script = script(&window_partition_only_job()).unwrap();
    assert!(script.contains("_w_cnt = Window.partitionBy(\"user\")"));
    assert!(!script.contains(".orderBy("));
}

fn aggregate_and_window_job() -> ScriptJob {
    let mut job = base_job();
    job.sources = vec![s3_source("orders", "s3://b/orders")];
    let mut a = transform("aggregate");
    a.output = Some("totals".to_string());
    a.group_by = vec!["region".to_string()];
    a.aggs = vec![("total".to_string(), "sum(amount)".to_string())];
    let mut w = transform("window");
    w.source = Some("totals".to_string());
    w.output = Some("ranked".to_string());
    w.name = Some("rank".to_string());
    w.expression = Some("rank()".to_string());
    w.partition_by = vec!["region".to_string()];
    job.transforms = vec![a, w];
    job
}

#[test]
fn codegen_aggregate_and_window_share_functions_import() {
    let script = script(&aggregate_and_window_job()).unwrap();
    assert_eq!(script.matches("from pyspark.sql import functions as F").count(), 1, "F import should only appear once");
    assert!(script.contains("from pyspark.sql.window import Window"));
}

#[test]
fn mod_aggregate_and_window_share_functions_import() {
    let script = script(&aggregate_and_window_job()).unwrap();
    assert_eq!(script.matches("from pyspark.sql import functions as F").count(), 1, "F import should only appear once");
    assert!(script.contains("from pyspark.sql.window import Window"));
}

fn pii_job(entities: &[&str]) -> ScriptJob {
    let mut job = base_job();
    job.sources = vec![s3_source("events", "s3://b/in")];
    job.sink = Some(s3_sink("s3://b/out"));
    job.mask_pii = entities.iter().map(|e| e.to_string()).collect();
    job
}

#[test]
fn pii_single_entity_generates_detect_block() {
    let script = script(&pii_job(&["USA_SSN"])).unwrap();
    assert!(script.contains("# --- PII Masking ---"));
    assert!(script.contains("from awsglueml.transforms import EntityDetector"));
    assert!(script.contains("from awsglue.dynamicframe import DynamicFrame"));
    assert!(script.contains("DynamicFrame.fromDF(df_events"));
    assert!(script.contains(".toDF()"));
    assert!(script.contains("EntityDetector.detect("));
    assert!(script.contains("\"USA_SSN\""));
    assert!(script.contains("\"REDACT\""));
    assert!(script.contains("\"****\""));
    assert!(script.contains("_yard_pii_dyf"));
    assert!(script.contains(".drop(\"DetectedEntities\")"));
}

#[test]
fn pii_multiple_entities_all_present() {
    let script = script(&pii_job(&["USA_SSN", "CREDIT_CARD", "EMAIL"])).unwrap();
    assert!(script.contains("\"USA_SSN\""));
    assert!(script.contains("\"CREDIT_CARD\""));
    assert!(script.contains("\"EMAIL\""));
}

#[test]
fn pii_existing_non_pii_jobs_unchanged() {
    let script = script(&pii_job(&[])).unwrap();
    assert!(!script.contains("_yard_pii_"));
    assert!(!script.contains("awsglueml"));
    assert!(script.contains("df_events.write.format(\"parquet\").mode(\"overwrite\").save(\"s3://b/out\")"));
}

#[test]
fn non_iceberg_sink_output_unchanged() {
    let mut job = base_job();
    job.sources = vec![s3_source("events", "s3://b/in")];
    job.sink = Some(s3_sink("s3://b/out"));
    let script = script(&job).unwrap();
    assert!(script.contains(
        "    # --- Sink ---\n    df_events.write.format(\"parquet\").mode(\"overwrite\").save(\"s3://b/out\")"
    ));
    assert!(!script.contains("_yard_"));
    assert!(!script.contains("df.to("));
    assert!(!script.contains("from pyspark.sql.types import"));
    assert!(!script.contains("glue_catalog"));
}

#[test]
fn pii_job_file_skips_pii() {
    let mut job = pii_job(&["USA_SSN"]);
    job.job_file = Some("scripts/external.py".to_string());
    match plan_script(&job) {
        Ok(ScriptPlan::External(p)) => assert_eq!(p, "scripts/external.py"),
        _ => panic!("a job file replaces the generated script, PII block included"),
    }
}

/// The canonical single-source Iceberg job.
fn iceberg_script() -> String {
    let mut job = base_job();
    job.sources = vec![s3_source("events", "s3://b/in")];
    job.sink = Some(iceberg_sink("analytics", "events", None));
    script(&job).unwrap()
}

/// The new-table and existing-table branches around the `tableExists` check.
fn split_branches(script: &str) -> (String, String) {
    let if_idx = script.find("if not spark.catalog.tableExists(_tbl):").expect("if/tableExists block must be present");
    let else_idx = script[if_idx..]
        .find("\n    else:\n")
        .map(|o| if_idx + o)
        .expect("else: branch must follow the tableExists check");
    (script[if_idx..else_idx].to_string(), script[else_idx..].to_string())
}

#[test]
fn conform_uses_exact_null_type_check() {
    let script = iceberg_script();
    assert!(script.contains("isinstance(dt, NullType)"));
    assert!(!script.contains("\"void\" in dt.simpleString()"));
}

#[test]
fn dual_arm_machinery_is_gone() {
    let script = iceberg_script();
    assert!(!script.contains(".otherwise("));
    assert!(!script.contains("F.when("));
    assert!(script.contains("_yard_conform("));
}

#[test]
fn voids_are_dropped_never_invented() {
    let script = iceberg_script();
    assert!(!script.contains("F.lit(0)"));
    assert!(!script.contains("F.lit(0.0)"));
    assert!(!script.contains("F.lit(False)"));
    assert!(!script.contains("F.lit(\"\")"));
    assert!(!script.contains("F.coalesce("));
}

#[test]
fn conform_helpers_defined_in_prelude() {
    let script = iceberg_script();
    assert!(script.contains("def _yard_void_free_schema(schema):"));
    assert!(script.contains("def _yard_merge_schema(live, batch):"));
    assert!(script.contains("def _yard_kind_mismatch(src_dt, tgt_dt):"));
    assert!(script.contains("def _yard_conform(df, target_schema):"));
    assert!(script.contains("def _yard_read_iceberg_schema(spark, tbl):"));
    assert!(script.contains("return df.to(target_schema)"));
}

#[test]
fn recursive_void_helpers_kept() {
    let script = iceberg_script();
    assert!(script.contains("def _yard_has_void(dt):"));
    assert!(script.contains("def _yard_void_free_ddl(dt):"));
    assert!(script.contains("isinstance(dt, StructType)"));
    assert!(script.contains("isinstance(dt, ArrayType)"));
    assert!(script.contains("isinstance(dt, MapType)"));
}

#[test]
fn void_free_schema_drops_void_leaves_at_any_depth() {
    let script = iceberg_script();
    assert!(script.contains("if isinstance(dt, NullType):\n        return None"));
    assert!(script.contains("fields.append(StructField(f.name, sub, True))"));
    assert!(script.contains("return ArrayType(inner, True)"));
    assert!(script.contains("return MapType(k, v, True)"));
    assert!(script.contains("def _yard_void_free_schema(schema):"));
    assert!(script.contains("return StructType(fields)"));
    assert!(script.contains("StructType, StructField, ArrayType, MapType"));
}

#[test]
fn merge_schema_unions_live_and_batch() {
    let script = iceberg_script();
    assert!(script.contains("def _yard_merge_schema(live, batch):"));
    assert!(script.contains("batch_map = {f.name: f.dataType for f in batch.fields}"));
    assert!(script.contains("if f.name not in seen:"));
    assert!(script.contains("def _yard_merge_dt(live_dt, batch_dt):"));
    assert!(script.contains("return _yard_merge_schema(live_dt, batch_dt)"));
}

#[test]
fn kind_mismatch_predicate_distinguishes_containers() {
    let script = iceberg_script();
    assert!(script.contains("def _yard_kind_mismatch(src_dt, tgt_dt):"));
    assert!(script.contains("return ks != \"scalar\" or kt != \"scalar\""));
}

#[test]
fn new_table_branch_conforms_via_void_free_schema() {
    let script = iceberg_script();
    let (new_table, _existing) = split_branches(&script);
    assert!(new_table.contains("_target = _yard_void_free_schema(df_events.schema)"));
    assert!(new_table.contains("df_events = _yard_conform(df_events, _target)"));
    assert!(new_table.contains(".create())"));
    assert!(script.contains("return df.to(target_schema)"));
}

#[test]
fn new_table_branch_does_not_read_live_schema() {
    let script = iceberg_script();
    let (new_table, _existing) = split_branches(&script);
    assert!(!new_table.contains("_yard_read_iceberg_schema"));
    assert!(!new_table.contains("_yard_merge_schema"));
}

#[test]
fn existing_table_branch_merges_and_evolves_append() {
    let script = iceberg_script();
    let (_new_table, existing) = split_branches(&script);
    assert!(existing.contains("_live = _yard_read_iceberg_schema(spark, _tbl)"));
    assert!(existing.contains("_batch = _yard_void_free_schema(df_events.schema)"));
    assert!(existing.contains("_target = _yard_merge_schema(_live, _batch)"));
    assert!(existing.contains("df_events = _yard_conform(df_events, _target)"));
    assert!(existing.contains("df_events.writeTo(_tbl).option(\"merge-schema\", \"true\").append()"));
}

#[test]
fn existing_table_branch_reorders_columns_to_match_table() {
    let script = iceberg_script();
    let (new_table, existing) = split_branches(&script);
    assert!(existing.contains("_existing_cols = spark.table(_tbl).columns"));
    assert!(existing.contains("_ordered = [_c for _c in _existing_cols if _c in df_events.columns]"));
    assert!(existing.contains("_new = [_c for _c in df_events.columns if _c not in _existing_cols]"));
    assert!(existing.contains("df_events = df_events.select(_ordered + _new)"));
    assert!(!new_table.contains("_existing_cols"));
}

fn iceberg_job_with(f: impl FnOnce(&mut Sink)) -> String {
    let mut job = base_job();
    job.sources = vec![s3_source("events", "s3://b/in")];
    let mut k = iceberg_sink("analytics", "events", None);
    f(&mut k);
    job.sink = Some(k);
    script(&job).unwrap()
}

#[test]
fn column_reorder_present_when_fill_nulls_false() {
    let script = iceberg_job_with(|s| s.fill_nulls = Some(false));
    let (_new_table, existing) = split_branches(&script);
    assert!(existing.contains("_existing_cols = spark.table(_tbl).columns"));
    assert!(existing.contains("df_events = df_events.select(_ordered + _new)"));
}

#[test]
fn existing_table_branch_overwrite_maps_to_overwrite_partitions() {
    let script = iceberg_job_with(|s| s.mode = Some("overwrite".to_string()));
    assert!(script.contains("_target = _yard_merge_schema(_live, _batch)"));
    assert!(script.contains("df_events.writeTo(_tbl).option(\"merge-schema\", \"true\").overwritePartitions()"));
}

#[test]
fn existing_table_branch_emits_kind_mismatch_guard() {
    let script = iceberg_script();
    let (new_table, existing) = split_branches(&script);
    assert!(existing.contains("_yard_kind_mismatch(_f.dataType, _live_types[_f.name])"));
    assert!(existing.contains("raise ValueError(\"yard: schema kind mismatch for column "));
    assert!(!new_table.contains("_yard_kind_mismatch"));
}

#[test]
fn no_try_except_around_write() {
    let script = iceberg_script();
    assert!(!script.contains("try:\n        df_events.writeTo(_tbl)"));
    assert!(!script.contains(".append()\n    except"));
    assert!(!script.contains(".overwritePartitions()\n    except"));
    assert!(!script.contains(".create())\n    except"));
}

#[test]
fn fill_nulls_false_emits_neither_path() {
    let script = iceberg_job_with(|s| s.fill_nulls = Some(false));
    assert!(!script.contains("_yard_conform("));
    assert!(!script.contains("_yard_void_free_schema("));
    assert!(!script.contains("_yard_merge_schema("));
    assert!(!script.contains("def _yard_"));
    assert!(script.contains("if not spark.catalog.tableExists(_tbl):"));
    assert!(script.contains("df_events.writeTo(_tbl).option(\"merge-schema\", \"true\").append()"));
}
