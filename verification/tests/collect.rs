use yard_core::airflow::{AirflowJobBlock, AirflowSection};
use yard_core::collect::{collect_dags, display_path, sort_dag_dirs, CollectError};
use yard_core::dag::{validate_orphan_airflow_blocks, DagJob};

fn path(s: &str) -> Vec<String> {
    let mut out = vec!["/".to_string()];
    for c in s.split('/').filter(|c| !c.is_empty()) {
        out.push(c.to_string());
    }
    out
}

fn section() -> AirflowSection {
    AirflowSection {
        schedule: None,
        owner: None,
        retries: None,
        dags_bucket: None,
        dags_prefix: None,
        max_active_runs: None,
        publishes: vec![],
        aws_conn_id: None,
        trigger: None,
        version: None,
    }
}

fn job(name: &str, base: &str, dir: &str, deps: &[&str]) -> DagJob {
    DagJob {
        name: name.to_string(),
        base_name: base.to_string(),
        dir: path(dir),
        airflow: if deps.is_empty() {
            None
        } else {
            Some(AirflowJobBlock {
                depends_on: deps.iter().map(|d| d.to_string()).collect(),
                publishes: vec![],
                overrides: section(),
            })
        },
    }
}

fn message(r: Result<Vec<yard_core::collect::CollectedDag>, CollectError>) -> String {
    match r {
        Ok(_) => panic!("expected an error"),
        Err(e) => e.message(),
    }
}

#[test]
fn empty_dag_dir_errors() {
    let err = message(collect_dags("test", &vec![path("/p/pipeline")], vec![]));
    assert!(err.contains("no task files"), "got: {err}");
    assert_eq!(err, "dag.yaml at '/p/pipeline' has no task files");
}

#[test]
fn single_bash_task_dag_collects() {
    let dags = collect_dags("test", &vec![path("/p/pipeline")], vec![job("runit", "", "/p/pipeline", &[])]).ok().unwrap();
    assert_eq!(dags.len(), 1);
    assert_eq!(dags[0].name, "test_pipeline");
    assert_eq!(dags[0].tasks, vec!["runit".to_string()]);
}

#[test]
fn linear_dependencies_collect_in_order() {
    let jobs = vec![
        job("c", "", "/p/pipeline", &["b"]),
        job("a", "", "/p/pipeline", &[]),
        job("b", "", "/p/pipeline", &["a"]),
    ];
    let dags = collect_dags("test", &vec![path("/p/pipeline")], jobs).ok().unwrap();
    assert_eq!(dags[0].tasks, vec!["a", "b", "c"]);
    assert_eq!(dags[0].depends_on[1], ("b".to_string(), vec!["a".to_string()]));
    assert_eq!(dags[0].depends_on[2], ("c".to_string(), vec!["b".to_string()]));
}

#[test]
fn fan_out_collects_in_name_order() {
    let jobs = vec![
        job("c", "", "/p/pipeline", &["a"]),
        job("b", "", "/p/pipeline", &["a"]),
        job("a", "", "/p/pipeline", &[]),
    ];
    let dags = collect_dags("test", &vec![path("/p/pipeline")], jobs).ok().unwrap();
    assert_eq!(dags[0].tasks, vec!["a", "b", "c"]);
}

#[test]
fn cycle_detection_errors() {
    let jobs = vec![job("a", "", "/p/pipeline", &["b"]), job("b", "", "/p/pipeline", &["a"])];
    let err = message(collect_dags("test", &vec![path("/p/pipeline")], jobs));
    assert!(err.contains("cycle"), "got: {err}");
    assert_eq!(err, "cycle detected in DAG dependencies involving: a, b");
}

#[test]
fn missing_depends_on_errors() {
    let jobs = vec![job("a", "", "/p/pipeline", &["ghost"])];
    let err = message(collect_dags("test", &vec![path("/p/pipeline")], jobs));
    assert!(err.contains("ghost"), "got: {err}");
}

#[test]
fn cross_dag_depends_on_errors() {
    let jobs = vec![job("a", "", "/p/one", &[]), job("b", "", "/p/two", &["a"])];
    let err = message(collect_dags("test", &vec![path("/p/two"), path("/p/one")], jobs));
    assert!(err.contains("cross-DAG"), "got: {err}");
}

#[test]
fn nested_dag_yaml_errors() {
    let err = message(collect_dags("test", &vec![path("/p/outer/inner"), path("/p/outer")], vec![]));
    assert!(err.contains("nested dag.yaml"), "got: {err}");
    assert_eq!(err, "nested dag.yaml: '/p/outer/inner' is inside another DAG at '/p/outer'");
}

#[test]
fn two_tasks_with_dag_level_overrides_errors() {
    let mut a = job("a", "", "/p/pipeline", &[]);
    let mut b = job("b", "", "/p/pipeline", &[]);
    let mut sa = section();
    sa.schedule = Some("@hourly".to_string());
    let mut sb = section();
    sb.retries = Some(3);
    a.airflow = Some(AirflowJobBlock { depends_on: vec![], publishes: vec![], overrides: sa });
    b.airflow = Some(AirflowJobBlock { depends_on: vec![], publishes: vec![], overrides: sb });
    let err = message(collect_dags("test", &vec![path("/p/pipeline")], vec![b, a]));
    assert!(err.contains("DAG-level overrides"), "got: {err}");
    assert!(err.contains("'a' and 'b'"), "got: {err}");
}

#[test]
fn self_dependency_errors() {
    let err = message(collect_dags("test", &vec![path("/p/pipeline")], vec![job("a", "", "/p/pipeline", &["a"])]));
    assert!(err.contains("depends on itself"), "got: {err}");
}

#[test]
fn short_name_dependency_is_recorded_by_full_name() {
    let jobs = vec![
        job("sales-orders", "orders", "/p/pipeline", &[]),
        job("sales-shipments", "shipments", "/p/pipeline", &["orders"]),
    ];
    let dags = collect_dags("test", &vec![path("/p/pipeline")], jobs).ok().unwrap();
    assert_eq!(dags[0].tasks, vec!["sales-orders", "sales-shipments"]);
    assert_eq!(dags[0].depends_on[1].1, vec!["sales-orders".to_string()]);
}

#[test]
fn full_name_dependency_is_recorded() {
    let jobs = vec![
        job("sales-orders", "orders", "/p/pipeline", &[]),
        job("sales-shipments", "shipments", "/p/pipeline", &["sales-orders"]),
    ];
    let dags = collect_dags("test", &vec![path("/p/pipeline")], jobs).ok().unwrap();
    assert_eq!(dags[0].depends_on[1].1, vec!["sales-orders".to_string()]);
}

#[test]
fn depends_on_ambiguous_short_name_errors() {
    let jobs = vec![
        job("sales-orders", "orders", "/p/pipeline", &[]),
        job("billing-orders", "orders", "/p/pipeline", &[]),
        job("pipeline-notify", "notify", "/p/pipeline", &["orders"]),
    ];
    let err = message(collect_dags("test", &vec![path("/p/pipeline")], jobs));
    assert!(err.contains("ambiguous"), "got: {err}");
}

#[test]
fn depends_on_self_via_short_name_errors() {
    let jobs = vec![job("sales-orders", "orders", "/p/pipeline", &["orders"])];
    let err = message(collect_dags("test", &vec![path("/p/pipeline")], jobs));
    assert!(err.contains("depends on itself"), "got: {err}");
}

#[test]
fn jobs_go_to_their_nearest_dag_and_others_to_none() {
    let jobs = vec![
        job("x", "", "/p/a/deep/er", &[]),
        job("y", "", "/p/b", &[]),
        job("loose", "", "/p/elsewhere", &[]),
    ];
    let dags = collect_dags("proj", &vec![path("/p/b"), path("/p/a")], jobs).ok().unwrap();
    assert_eq!(dags.len(), 2);
    assert_eq!(dags[0].name, "proj_a");
    assert_eq!(dags[0].tasks, vec!["x"]);
    assert_eq!(dags[1].name, "proj_b");
    assert_eq!(dags[1].tasks, vec!["y"]);
}

#[test]
fn repeated_dag_dir_is_an_empty_dag() {
    let jobs = vec![job("x", "", "/p/a", &[])];
    let err = message(collect_dags("proj", &vec![path("/p/a"), path("/p/a")], jobs));
    assert!(err.contains("no task files"), "got: {err}");
}

#[test]
fn dirs_sort_component_wise() {
    let sorted = sort_dag_dirs(&vec![path("/p/b"), path("/p/a-x"), path("/p/a/z"), path("/p/a")]);
    let shown: Vec<String> = sorted.iter().map(display_path).collect();
    assert_eq!(shown, vec!["/p/a", "/p/a/z", "/p/a-x", "/p/b"]);
    assert_eq!(display_path(&vec!["rel".to_string(), "dir".to_string()]), "rel/dir");
}

fn with_block(mut j: DagJob) -> DagJob {
    j.airflow = Some(AirflowJobBlock { depends_on: vec![], publishes: vec![], overrides: section() });
    j
}

fn orphan_errors(jobs: Vec<DagJob>) -> Vec<(String, String)> {
    let dags = collect_dags("test", &vec![path("/p/pipeline")], jobs.iter().map(copy_job).collect()).ok().unwrap();
    let tasks: Vec<String> = dags.iter().flat_map(|d| d.tasks.clone()).collect();
    validate_orphan_airflow_blocks(&jobs, &tasks)
}

fn copy_job(j: &DagJob) -> DagJob {
    DagJob {
        name: j.name.clone(),
        base_name: j.base_name.clone(),
        dir: j.dir.clone(),
        airflow: j.airflow.as_ref().map(|b| AirflowJobBlock {
            depends_on: b.depends_on.clone(),
            publishes: b.publishes.clone(),
            overrides: section(),
        }),
    }
}

#[test]
fn mod_orphan_airflow_block_detected() {
    let errors = orphan_errors(vec![
        with_block(job("task_a", "", "/p/pipeline", &[])),
        with_block(job("orphan_job", "", "/p/standalone", &[])),
    ]);
    assert_eq!(errors.len(), 1);
    assert_eq!(errors[0].0, "orphan_job");
    assert_eq!(
        errors[0].1,
        "Job \"orphan_job\" has an airflow: block but is not inside a DAG directory (no ancestor dag.yaml found). Remove the airflow: block or add a dag.yaml."
    );
}

#[test]
fn mod_no_orphan_when_all_in_dag() {
    let errors = orphan_errors(vec![with_block(job("task_a", "", "/p/pipeline", &[]))]);
    assert!(errors.is_empty());
}

#[test]
fn jobs_without_airflow_blocks_are_never_orphans() {
    let errors = orphan_errors(vec![job("task_a", "", "/p/pipeline", &[]), job("loose", "", "/p/standalone", &[])]);
    assert!(errors.is_empty());
}

#[test]
fn first_failing_dir_in_path_order_is_reported() {
    // `/p/a` has a cycle, `/p/b` has no jobs: `/p/a` comes first.
    let jobs = vec![job("x", "", "/p/a", &["y"]), job("y", "", "/p/a", &["x"])];
    let err = message(collect_dags("test", &vec![path("/p/b"), path("/p/a")], jobs));
    assert!(err.contains("cycle"), "got: {err}");
    // `/p/a` builds, so the empty `/p/b` is reported.
    let jobs = vec![job("x", "", "/p/a", &[])];
    let err = message(collect_dags("test", &vec![path("/p/b"), path("/p/a")], jobs));
    assert_eq!(err, "dag.yaml at '/p/b' has no task files");
}
