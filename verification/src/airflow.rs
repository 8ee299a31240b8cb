//! The Airflow settings a job or a DAG directory carries, as plain values.
use vstd::prelude::*;
use crate::version::AirflowMajorVersion;

verus! {

/// One source a DAG can be triggered by.
pub enum SingleSource {
    /// A cron expression or preset such as `@daily`.
    Schedule { value: String },
    /// An Airflow dataset, by URI.
    Dataset { uri: String },
    /// An S3 key sensor.
    S3 {
        bucket: String,
        prefix: Option<String>,
        key: Option<String>,
        poke_interval: Option<u64>,
        timeout: Option<u64>,
        deferrable: Option<bool>,
        aws_conn_id: Option<String>,
    },
    /// An SQS queue sensor.
    Sqs {
        queue_url: String,
        wait_time_seconds: Option<u64>,
        max_messages: Option<u64>,
        delete_message_on_reception: Option<bool>,
    },
    /// Manual invocation through Airflow's REST API or CLI; the payload
    /// fields are documentation only, in key order.
    Api { description: Option<String>, payload_schema: Option<Vec<(String, String)>> },
}

/// The `trigger:` block of a DAG.
pub enum Trigger {
    Single(SingleSource),
    /// Fire when all sources have fired.
    All(Vec<SingleSource>),
    /// Fire when any source fires.
    Any(Vec<SingleSource>),
}

/// The DAG-level Airflow settings, after the configuration cascade.
pub struct AirflowSection {
    pub schedule: Option<String>,
    pub owner: Option<String>,
    pub retries: Option<u64>,
    pub dags_bucket: Option<String>,
    pub dags_prefix: Option<String>,
    pub max_active_runs: Option<u32>,
    /// Dataset URIs the DAG publishes once all of its tasks succeed.
    pub publishes: Vec<String>,
    /// The cascaded `airflow.aws.aws_conn_id`.
    pub aws_conn_id: Option<String>,
    pub trigger: Option<Trigger>,
    /// The Airflow major version to generate for; Airflow 2 when unset.
    pub version: Option<AirflowMajorVersion>,
}

/// The `airflow:` block of one job.
pub struct AirflowJobBlock {
    /// Upstream tasks, by full or short name.
    pub depends_on: Vec<String>,
    /// Dataset URIs the task publishes.
    pub publishes: Vec<String>,
    /// DAG-level settings set on the task itself.
    pub overrides: AirflowSection,
}

/// The kinds of job the tool deploys.
#[derive(PartialEq, Eq, Structural, Clone, Copy)]
pub enum JobType {
    Glue,
    Emr,
    Bash,
}

/// The wire name of a job type (`glue`, `emr`, `bash`).
pub open spec fn job_type_name(t: JobType) -> Seq<char> {
    match t {
        JobType::Glue => "glue"@,
        JobType::Emr => "emr"@,
        JobType::Bash => "bash"@,
    }
}

/// Task-only job types produce no standalone script: they only take part
/// in an Airflow DAG.
pub open spec fn task_only(t: JobType) -> bool {
    t == JobType::Bash
}

/// Whether jobs of this type are task-only (deployed only as DAG tasks).
pub fn is_task_only(t: JobType) -> (r: bool)
    ensures
        r == task_only(t),
{
    match t {
        JobType::Bash => true,
        _ => false,
    }
}

} // verus!
