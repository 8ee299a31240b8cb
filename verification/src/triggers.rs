//! Rendering a DAG's `trigger:` block: the `schedule=` expression, sensor
//! tasks and their edges, the imports they need, and the documentation
//! header of API-triggered DAGs.
//!
//! Sensors render in alphabetical order of their source kind; dataset URIs
//! inside `&` / `|` chains are sorted.
use vstd::prelude::*;
use crate::airflow::{SingleSource, Trigger};
use crate::json::{json_quote, json_string_text};
use crate::version::{banner_of, class_import_of, class_of, empty_import_of, AirflowMajorVersion};
use crate::text::{contains_text, decimal, join, lemma_contains_middle, lemma_sorted_names_unique, lemma_sorted_same_elements, lemma_views_same_elements, joined, owned, python_var, python_var_name, push_str, sort_strings, sorted, sorted_set, strictly_sorted, u64_to_decimal, views};

verus! {

/// What a trigger contributes to the generated DAG.
pub struct TriggerRender {
    /// The `schedule=` expression: `None`, a quoted preset, or datasets.
    pub schedule_expr: String,
    /// Sensor task assignments, in order.
    pub sensor_tasks: Vec<String>,
    /// Edges from the sensors.
    pub sensor_deps: Vec<String>,
    /// Import lines, sorted and distinct.
    pub extra_imports: Vec<String>,
    /// One active run at a time for every triggered DAG.
    pub max_active_runs: Option<u32>,
    /// The comment block of API-triggered DAGs.
    pub header_docstring: String,
}

/// A [`TriggerRender`] as text; the imports as a set.
pub struct RenderSpec {
    pub schedule: Seq<char>,
    pub tasks: Seq<Seq<char>>,
    pub deps: Seq<Seq<char>>,
    pub imports: Set<Seq<char>>,
    pub max_active_runs: Option<u32>,
    pub header: Seq<char>,
}

/// `r` renders `s`: the imports sorted and distinct, exactly those of `s`.
pub open spec fn renders(r: TriggerRender, s: RenderSpec) -> bool {
    &&& r.schedule_expr@ == s.schedule
    &&& views(r.sensor_tasks@) == s.tasks
    &&& views(r.sensor_deps@) == s.deps
    &&& strictly_sorted(views(r.extra_imports@))
    &&& forall|x: Seq<char>| #[trigger] views(r.extra_imports@).contains(x) <==> s.imports.contains(x)
    &&& r.max_active_runs == s.max_active_runs
    &&& r.header_docstring@ == s.header
}

/// A Python string literal (JSON string text).
pub open spec fn pyq(s: Seq<char>) -> Seq<char> {
    json_string_text(s)
}

pub open spec fn py_bool(b: bool) -> Seq<char> {
    if b {
        "True"@
    } else {
        "False"@
    }
}

/// `<Class>("<uri>")`: a dataset (an asset on Airflow 3) by URI.
pub open spec fn dataset_ref(v: AirflowMajorVersion, uri: Seq<char>) -> Seq<char> {
    class_of(v) + "("@ + pyq(uri) + ")"@
}

/// `<from> >> t_<root>` for each root.
pub open spec fn edges_to_roots(from: Seq<char>, roots: Seq<Seq<char>>) -> Seq<Seq<char>> {
    roots.map_values(|r: Seq<char>| from + " >> "@ + python_var(r))
}

pub open spec fn conn_line(conn: Option<Seq<char>>) -> Seq<char> {
    match conn {
        Some(c) => "        aws_conn_id="@ + pyq(c) + ",\n"@,
        None => Seq::empty(),
    }
}

pub open spec fn s3_sensor(
    bucket: Seq<char>,
    bucket_key: Seq<char>,
    poke: nat,
    timeout: nat,
    deferrable: bool,
    conn: Option<Seq<char>>,
) -> Seq<char> {
    "    _yard_wait_s3 = S3KeySensor(\n"@ + "        task_id=\"_yard_wait_s3\",\n"@ + "        bucket_name="@ + pyq(bucket)
        + ",\n"@ + "        bucket_key="@ + pyq(bucket_key) + ",\n"@ + "        poke_interval="@ + decimal(poke) + ",\n"@
        + "        timeout="@ + decimal(timeout) + ",\n"@ + "        deferrable="@ + py_bool(deferrable) + ",\n"@
        + conn_line(conn) + "    )"@
}

pub open spec fn sqs_sensor(queue: Seq<char>, wait: nat, max_msgs: nat, delete: bool, conn: Option<Seq<char>>) -> Seq<char> {
    "    _yard_wait_sqs = SqsSensor(\n"@ + "        task_id=\"_yard_wait_sqs\",\n"@ + "        sqs_queue="@ + pyq(queue)
        + ",\n"@ + "        wait_time_seconds="@ + decimal(wait) + ",\n"@ + "        max_messages="@ + decimal(max_msgs)
        + ",\n"@ + "        delete_message_on_reception="@ + py_bool(delete) + ",\n"@ + "        deferrable=True,\n"@
        + conn_line(conn) + "    )"@
}

pub open spec fn schema_lines(schema: Seq<(String, String)>) -> Seq<char>
    decreases schema.len(),
{
    if schema.len() == 0 {
        Seq::empty()
    } else {
        schema_lines(schema.drop_last()) + "#   "@ + schema.last().0@ + ": "@ + schema.last().1@ + "\n"@
    }
}

/// The comment block documenting how to trigger an API-driven DAG.
pub open spec fn api_header(description: Option<String>, schema: Option<Vec<(String, String)>>) -> Seq<char> {
    "# Trigger: API (manual / external invocation)\n"@ + (match description {
        Some(d) => "# "@ + d@ + "\n"@,
        None => Seq::empty(),
    }) + "#\n"@ + "# This DAG is triggered manually via Airflow's REST API or CLI.\n"@
        + "# yard does NOT manage Airflow REST auth \u{2014} configure JWT, Basic,\n"@
        + "# or IAM SigV4 credentials in your Airflow deployment.\n"@ + "#\n"@ + "# Invoke via REST:\n"@
        + "#   curl -X POST \"$AIRFLOW_URL/api/v1/dags/<dag_id>/dagRuns\" \\\n"@
        + "#        -u \"$AIRFLOW_USER:$AIRFLOW_PASS\" \\\n"@ + "#        -H \"Content-Type: application/json\" \\\n"@
        + "#        -d '{\"conf\": {\"key\": \"value\"}}'\n"@ + "#\n"@ + "# Invoke via CLI:\n"@
        + "#   airflow dags trigger <dag_id> --conf '{\"key\": \"value\"}'\n"@ + (match schema {
        Some(s) => "#\n"@ + "# Expected payload fields (doc-only \u{2014} no runtime enforcement in v1.6):\n"@ + schema_lines(s@),
        None => Seq::empty(),
    })
}

/// The header of a dataset source, with what backfills do to it.
pub open spec fn dataset_header(v: AirflowMajorVersion, uri: Seq<char>) -> Seq<char> {
    "# Trigger: "@ + class_of(v) + " ("@ + uri + ")\n"@ + "# Backfill caveat: "@ + class_of(v)
        + "s have no logical_date \u{2014} a backfill run does not replay their events.\n"@
}

/// The header of an S3 source, with what backfills do to it.
pub open spec fn s3_header(bucket: Seq<char>, bucket_key: Seq<char>) -> Seq<char> {
    "# Trigger: S3 (s3://"@ + bucket + "/"@ + bucket_key + ")\n"@
        + "# Backfill caveat: each backfill run's deferrable sensor re-pokes the live bucket, not past objects.\n"@
}

/// The header of an SQS source, with what backfills do to it.
pub open spec fn sqs_header(queue: Seq<char>) -> Seq<char> {
    "# Trigger: SQS ("@ + queue + ")\n"@
        + "# Backfill caveat: each backfill run's sensor drains the real queue \u{2014} the messages it takes are gone.\n"@
}

/// What one source renders to for Airflow version `v`. `default_conn` is
/// the DAG's AWS connection; `roots` are the tasks without upstream.
pub open spec fn single_spec(
    v: AirflowMajorVersion,
    s: SingleSource,
    default_conn: Option<Seq<char>>,
    roots: Seq<Seq<char>>,
) -> RenderSpec {
    match s {
        SingleSource::Schedule { value } => RenderSpec {
            schedule: pyq(value@),
            tasks: Seq::empty(),
            deps: Seq::empty(),
            imports: Set::empty(),
            max_active_runs: None,
            header: Seq::empty(),
        },
        SingleSource::Dataset { uri } => RenderSpec {
            schedule: "["@ + dataset_ref(v, uri@) + "]"@,
            tasks: Seq::empty(),
            deps: Seq::empty(),
            imports: set![class_import_of(v)],
            max_active_runs: None,
            header: dataset_header(v, uri@),
        },
        SingleSource::S3 { bucket, prefix, key, poke_interval, timeout, deferrable, aws_conn_id } => {
            let conn = match aws_conn_id {
                Some(c) => Some(c@),
                None => default_conn,
            };
            let bucket_key = match key {
                Some(k) => k@,
                None => match prefix {
                    Some(p) => p@,
                    None => Seq::empty(),
                },
            };
            RenderSpec {
                schedule: "None"@,
                tasks: seq![s3_sensor(bucket@, bucket_key, match poke_interval {
                    Some(p) => p as nat,
                    None => 60,
                }, match timeout {
                    Some(t) => t as nat,
                    None => 86400,
                }, match deferrable {
                    Some(d) => d,
                    None => true,
                }, conn)],
                deps: edges_to_roots("_yard_wait_s3"@, roots),
                imports: set!["from airflow.providers.amazon.aws.sensors.s3 import S3KeySensor"@],
                max_active_runs: None,
                header: s3_header(bucket@, bucket_key),
            }
        },
        SingleSource::Sqs { queue_url, wait_time_seconds, max_messages, delete_message_on_reception } => RenderSpec {
            schedule: "None"@,
            tasks: seq![sqs_sensor(queue_url@, match wait_time_seconds {
                Some(w) => w as nat,
                None => 20,
            }, match max_messages {
                Some(m) => m as nat,
                None => 5,
            }, match delete_message_on_reception {
                Some(d) => d,
                None => true,
            }, default_conn)],
            deps: edges_to_roots("_yard_wait_sqs"@, roots),
            imports: set!["from airflow.providers.amazon.aws.sensors.sqs import SqsSensor"@],
            max_active_runs: None,
            header: sqs_header(queue_url@),
        },
        SingleSource::Api { description, payload_schema } => RenderSpec {
            schedule: "None"@,
            tasks: Seq::empty(),
            deps: Seq::empty(),
            imports: Set::empty(),
            max_active_runs: None,
            header: api_header(description, payload_schema),
        },
    }
}

fn quote(s: &str) -> (r: String)
    ensures
        r@ == pyq(s@),
{
    json_quote(s)
}

fn root_edges(from: &str, roots: &Vec<String>) -> (r: Vec<String>)
    ensures
        views(r@) == edges_to_roots(from@, views(roots@)),
{
    let mut out: Vec<String> = Vec::new();
    let mut i: usize = 0;
    while i < roots.len()
        invariant
            i <= roots.len(),
            views(out@) == edges_to_roots(from@, views(roots@).take(i as int)),
        decreases roots.len() - i,
    {
        let mut e = owned(from);
        push_str(&mut e, " >> ");
        let v = python_var_name(roots[i].as_str());
        push_str(&mut e, v.as_str());
        let ghost before = views(out@);
        out.push(e);
        proof {
            assert(views(out@) =~= before.push(e@));
            assert(edges_to_roots(from@, views(roots@).take(i + 1)) =~= edges_to_roots(from@, views(roots@).take(i as int)).push(
                from@ + " >> "@ + python_var(roots@[i as int]@),
            ));
        }
        i = i + 1;
    }
    proof {
        assert(views(roots@).take(roots@.len() as int) =~= views(roots@));
    }
    out
}

fn one_line(s: String) -> (r: Vec<String>)
    ensures
        views(r@) == seq![s@],
{
    let mut v: Vec<String> = Vec::new();
    v.push(s);
    proof {
        assert(views(v@) =~= seq![s@]);
    }
    v
}

fn no_lines() -> (r: Vec<String>)
    ensures
        views(r@) == Seq::<Seq<char>>::empty(),
{
    let v: Vec<String> = Vec::new();
    proof {
        assert(views(v@) =~= Seq::<Seq<char>>::empty());
    }
    v
}

proof fn lemma_one_import(v: Seq<Seq<char>>, x: Seq<char>)
    requires
        v == seq![x],
    ensures
        strictly_sorted(v),
        forall|y: Seq<char>| #[trigger] v.contains(y) <==> set![x].contains(y),
{
    assert forall|y: Seq<char>| #[trigger] v.contains(y) <==> set![x].contains(y) by {
        if y == x {
            assert(v[0] == x);
        }
    }
}

fn push_conn(sensor: &mut String, conn: Option<&str>)
    ensures
        final(sensor)@ == old(sensor)@ + conn_line(match conn {
            Some(c) => Some(c@),
            None => None,
        }),
{
    match conn {
        Some(c) => {
            push_str(sensor, "        aws_conn_id=");
            let q = quote(c);
            push_str(sensor, q.as_str());
            push_str(sensor, ",\n");
        },
        None => {},
    }
}

fn s3_sensor_text(bucket: &str, bucket_key: &str, poke: u64, timeout: u64, deferrable: bool, conn: Option<&str>) -> (r: String)
    ensures
        r@ == s3_sensor(bucket@, bucket_key@, poke as nat, timeout as nat, deferrable, match conn {
            Some(c) => Some(c@),
            None => None,
        }),
{
    let mut sensor = owned("    _yard_wait_s3 = S3KeySensor(\n");
    push_str(&mut sensor, "        task_id=\"_yard_wait_s3\",\n");
    push_str(&mut sensor, "        bucket_name=");
    let b = quote(bucket);
    push_str(&mut sensor, b.as_str());
    push_str(&mut sensor, ",\n");
    push_str(&mut sensor, "        bucket_key=");
    let k = quote(bucket_key);
    push_str(&mut sensor, k.as_str());
    push_str(&mut sensor, ",\n");
    push_str(&mut sensor, "        poke_interval=");
    let p = u64_to_decimal(poke);
    push_str(&mut sensor, p.as_str());
    push_str(&mut sensor, ",\n");
    push_str(&mut sensor, "        timeout=");
    let t = u64_to_decimal(timeout);
    push_str(&mut sensor, t.as_str());
    push_str(&mut sensor, ",\n");
    push_str(&mut sensor, "        deferrable=");
    push_str(&mut sensor, if deferrable {
        "True"
    } else {
        "False"
    });
    push_str(&mut sensor, ",\n");
    push_conn(&mut sensor, conn);
    push_str(&mut sensor, "    )");
    proof {
        assert(sensor@ =~= s3_sensor(bucket@, bucket_key@, poke as nat, timeout as nat, deferrable, match conn {
            Some(c) => Some(c@),
            None => None,
        }));
    }
    sensor
}

fn sqs_sensor_text(queue: &str, wait: u64, max_msgs: u64, delete: bool, conn: Option<&str>) -> (r: String)
    ensures
        r@ == sqs_sensor(queue@, wait as nat, max_msgs as nat, delete, match conn {
            Some(c) => Some(c@),
            None => None,
        }),
{
    let mut sensor = owned("    _yard_wait_sqs = SqsSensor(\n");
    push_str(&mut sensor, "        task_id=\"_yard_wait_sqs\",\n");
    push_str(&mut sensor, "        sqs_queue=");
    let q = quote(queue);
    push_str(&mut sensor, q.as_str());
    push_str(&mut sensor, ",\n");
    push_str(&mut sensor, "        wait_time_seconds=");
    let w = u64_to_decimal(wait);
    push_str(&mut sensor, w.as_str());
    push_str(&mut sensor, ",\n");
    push_str(&mut sensor, "        max_messages=");
    let m = u64_to_decimal(max_msgs);
    push_str(&mut sensor, m.as_str());
    push_str(&mut sensor, ",\n");
    push_str(&mut sensor, "        delete_message_on_reception=");
    push_str(&mut sensor, if delete {
        "True"
    } else {
        "False"
    });
    push_str(&mut sensor, ",\n");
    push_str(&mut sensor, "        deferrable=True,\n");
    push_conn(&mut sensor, conn);
    push_str(&mut sensor, "    )");
    proof {
        assert(sensor@ =~= sqs_sensor(queue@, wait as nat, max_msgs as nat, delete, match conn {
            Some(c) => Some(c@),
            None => None,
        }));
    }
    sensor
}

fn api_header_text(description: &Option<String>, schema: &Option<Vec<(String, String)>>) -> (r: String)
    ensures
        r@ == api_header(*description, *schema),
{
    let mut h = owned("# Trigger: API (manual / external invocation)\n");
    match description {
        Some(d) => {
            push_str(&mut h, "# ");
            push_str(&mut h, d.as_str());
            push_str(&mut h, "\n");
        },
        None => {},
    }
    push_str(&mut h, "#\n");
    push_str(&mut h, "# This DAG is triggered manually via Airflow's REST API or CLI.\n");
    push_str(&mut h, "# yard does NOT manage Airflow REST auth \u{2014} configure JWT, Basic,\n");
    push_str(&mut h, "# or IAM SigV4 credentials in your Airflow deployment.\n");
    push_str(&mut h, "#\n");
    push_str(&mut h, "# Invoke via REST:\n");
    push_str(&mut h, "#   curl -X POST \"$AIRFLOW_URL/api/v1/dags/<dag_id>/dagRuns\" \\\n");
    push_str(&mut h, "#        -u \"$AIRFLOW_USER:$AIRFLOW_PASS\" \\\n");
    push_str(&mut h, "#        -H \"Content-Type: application/json\" \\\n");
    push_str(&mut h, "#        -d '{\"conf\": {\"key\": \"value\"}}'\n");
    push_str(&mut h, "#\n");
    push_str(&mut h, "# Invoke via CLI:\n");
    push_str(&mut h, "#   airflow dags trigger <dag_id> --conf '{\"key\": \"value\"}'\n");
    let ghost mid = h@;
    match schema {
        Some(s) => {
            push_str(&mut h, "#\n");
            push_str(&mut h, "# Expected payload fields (doc-only \u{2014} no runtime enforcement in v1.6):\n");
            let ghost base = h@;
            let mut i: usize = 0;
            proof {
                assert(s@.take(0) =~= Seq::<(String, String)>::empty());
                assert(h@ =~= base + schema_lines(s@.take(0)));
            }
            while i < s.len()
                invariant
                    i <= s.len(),
                    h@ == base + schema_lines(s@.take(i as int)),
                decreases s.len() - i,
            {
                proof {
                    assert(s@.take(i + 1).drop_last() =~= s@.take(i as int));
                    assert(s@.take(i + 1).last() == s@[i as int]);
                }
                push_str(&mut h, "#   ");
                push_str(&mut h, s[i].0.as_str());
                push_str(&mut h, ": ");
                push_str(&mut h, s[i].1.as_str());
                push_str(&mut h, "\n");
                proof {
                    assert(h@ =~= base + schema_lines(s@.take(i + 1)));
                }
                i = i + 1;
            }
            proof {
                assert(s@.take(s@.len() as int) =~= s@);
            }
        },
        None => {},
    }
    proof {
        assert(h@ =~= api_header(*description, *schema));
    }
    h
}

pub(crate) fn dataset_ref_text(version: AirflowMajorVersion, uri: &str) -> (r: String)
    ensures
        r@ == dataset_ref(version, uri@),
{
    let mut d = owned(version.class_name());
    push_str(&mut d, "(");
    let q = quote(uri);
    push_str(&mut d, q.as_str());
    push_str(&mut d, ")");
    d
}

/// Render one trigger source for Airflow version `version`.
pub fn render_single(
    version: AirflowMajorVersion,
    s: &SingleSource,
    default_aws_conn_id: Option<&str>,
    roots: &Vec<String>,
) -> (r: TriggerRender)
    ensures
        renders(r, single_spec(version, *s, match default_aws_conn_id {
            Some(c) => Some(c@),
            None => None,
        }, views(roots@))),
{
    match s {
        SingleSource::Schedule { value } => {
            let r = TriggerRender {
                schedule_expr: quote(value.as_str()),
                sensor_tasks: no_lines(),
                sensor_deps: no_lines(),
                extra_imports: no_lines(),
                max_active_runs: None,
                header_docstring: String::new(),
            };
            proof {
                assert(r.header_docstring@ =~= Seq::<char>::empty());
                assert forall|x: Seq<char>| #[trigger] views(r.extra_imports@).contains(x) <==> Set::<Seq<char>>::empty().contains(x) by {
                    if views(r.extra_imports@).contains(x) {
                        let k = choose|k: int| 0 <= k < views(r.extra_imports@).len() && views(r.extra_imports@)[k] == x;
                    }
                }
                let sp = single_spec(version, *s, match default_aws_conn_id {
                    Some(c) => Some(c@),
                    None => None,
                }, views(roots@));
                assert(r.schedule_expr@ == sp.schedule);
                assert(views(r.sensor_tasks@) == sp.tasks);
                assert(views(r.sensor_deps@) == sp.deps);
                assert(strictly_sorted(views(r.extra_imports@)));
                assert(r.max_active_runs == sp.max_active_runs);
                assert(r.header_docstring@ == sp.header);
                assert(renders(r, sp));
            }
            r
        },
        SingleSource::Dataset { uri } => {
            let class = version.class_name();
            let mut sched = owned("[");
            let d = dataset_ref_text(version, uri.as_str());
            push_str(&mut sched, d.as_str());
            push_str(&mut sched, "]");
            let imports = one_line(owned(version.class_import()));
            proof {
                lemma_one_import(views(imports@), class_import_of(version));
            }
            let mut h = owned("# Trigger: ");
            push_str(&mut h, class);
            push_str(&mut h, " (");
            push_str(&mut h, uri.as_str());
            push_str(&mut h, ")\n");
            push_str(&mut h, "# Backfill caveat: ");
            push_str(&mut h, class);
            push_str(&mut h, "s have no logical_date \u{2014} a backfill run does not replay their events.\n");
            let r = TriggerRender {
                schedule_expr: sched,
                sensor_tasks: no_lines(),
                sensor_deps: no_lines(),
                extra_imports: imports,
                max_active_runs: None,
                header_docstring: h,
            };
            proof {
                assert(r.schedule_expr@ =~= "["@ + dataset_ref(version, uri@) + "]"@);
                assert(r.header_docstring@ =~= dataset_header(version, uri@));
            }
            r
        },
        SingleSource::S3 { bucket, prefix, key, poke_interval, timeout, deferrable, aws_conn_id } => {
            let poke = match poke_interval {
                Some(p) => *p,
                None => 60,
            };
            let tmo = match timeout {
                Some(t) => *t,
                None => 86400,
            };
            let defer = match deferrable {
                Some(d) => *d,
                None => true,
            };
            let conn: Option<&str> = match aws_conn_id {
                Some(c) => Some(c.as_str()),
                None => default_aws_conn_id,
            };
            let bucket_key: &str = match key {
                Some(k) => k.as_str(),
                None => match prefix {
                    Some(p) => p.as_str(),
                    None => "",
                },
            };
            proof {
                reveal_strlit("");
            }
            let sensor = s3_sensor_text(bucket.as_str(), bucket_key, poke, tmo, defer, conn);
            let imports = one_line(owned("from airflow.providers.amazon.aws.sensors.s3 import S3KeySensor"));
            proof {
                lemma_one_import(views(imports@), "from airflow.providers.amazon.aws.sensors.s3 import S3KeySensor"@);
            }
            let mut h = owned("# Trigger: S3 (s3://");
            push_str(&mut h, bucket.as_str());
            push_str(&mut h, "/");
            push_str(&mut h, bucket_key);
            push_str(&mut h, ")\n");
            push_str(&mut h, "# Backfill caveat: each backfill run's deferrable sensor re-pokes the live bucket, not past objects.\n");
            let r = TriggerRender {
                schedule_expr: owned("None"),
                sensor_tasks: one_line(sensor),
                sensor_deps: root_edges("_yard_wait_s3", roots),
                extra_imports: imports,
                max_active_runs: None,
                header_docstring: h,
            };
            proof {
                assert(bucket_key@ == (match key {
                    Some(k) => k@,
                    None => match prefix {
                        Some(p) => p@,
                        None => Seq::<char>::empty(),
                    },
                }));
                assert(renders(r, single_spec(version, *s, match default_aws_conn_id {
                    Some(c) => Some(c@),
                    None => None,
                }, views(roots@))));
            }
            r
        },
        SingleSource::Sqs { queue_url, wait_time_seconds, max_messages, delete_message_on_reception } => {
            let wait = match wait_time_seconds {
                Some(w) => *w,
                None => 20,
            };
            let max_msgs = match max_messages {
                Some(m) => *m,
                None => 5,
            };
            let delete = match delete_message_on_reception {
                Some(d) => *d,
                None => true,
            };
            let sensor = sqs_sensor_text(queue_url.as_str(), wait, max_msgs, delete, default_aws_conn_id);
            let imports = one_line(owned("from airflow.providers.amazon.aws.sensors.sqs import SqsSensor"));
            proof {
                lemma_one_import(views(imports@), "from airflow.providers.amazon.aws.sensors.sqs import SqsSensor"@);
            }
            let mut h = owned("# Trigger: SQS (");
            push_str(&mut h, queue_url.as_str());
            push_str(&mut h, ")\n");
            push_str(&mut h, "# Backfill caveat: each backfill run's sensor drains the real queue \u{2014} the messages it takes are gone.\n");
            let r = TriggerRender {
                schedule_expr: owned("None"),
                sensor_tasks: one_line(sensor),
                sensor_deps: root_edges("_yard_wait_sqs", roots),
                extra_imports: imports,
                max_active_runs: None,
                header_docstring: h,
            };
            proof {
                assert(renders(r, single_spec(version, *s, match default_aws_conn_id {
                    Some(c) => Some(c@),
                    None => None,
                }, views(roots@))));
            }
            r
        },
        SingleSource::Api { description, payload_schema } => {
            let h = api_header_text(description, payload_schema);
            let r = TriggerRender {
                schedule_expr: owned("None"),
                sensor_tasks: no_lines(),
                sensor_deps: no_lines(),
                extra_imports: no_lines(),
                max_active_runs: None,
                header_docstring: h,
            };
            proof {
                assert forall|x: Seq<char>| #[trigger] views(r.extra_imports@).contains(x) <==> Set::<Seq<char>>::empty().contains(x) by {
                    if views(r.extra_imports@).contains(x) {
                        let k = choose|k: int| 0 <= k < views(r.extra_imports@).len() && views(r.extra_imports@)[k] == x;
                    }
                }
                assert(renders(r, single_spec(version, *s, match default_aws_conn_id {
                    Some(c) => Some(c@),
                    None => None,
                }, views(roots@))));
            }
            r
        },
    }
}

// ------------------------------------------------------------------
// Composite triggers
// ------------------------------------------------------------------

/// The rank of a source kind in alphabetical order of kind names
/// (`api`, `dataset`, `s3`, `schedule`, `sqs`).
pub open spec fn kind_rank(s: SingleSource) -> int {
    match s {
        SingleSource::Api { .. } => 0,
        SingleSource::Dataset { .. } => 1,
        SingleSource::S3 { .. } => 2,
        SingleSource::Schedule { .. } => 3,
        SingleSource::Sqs { .. } => 4,
    }
}

/// The sources of one rank, in order.
pub open spec fn of_rank(items: Seq<SingleSource>, k: int) -> Seq<SingleSource>
    decreases items.len(),
{
    if items.len() == 0 {
        Seq::empty()
    } else if kind_rank(items.last()) == k {
        of_rank(items.drop_last(), k).push(items.last())
    } else {
        of_rank(items.drop_last(), k)
    }
}

/// The non-dataset sources sorted by kind, stably.
pub open spec fn sensor_order(items: Seq<SingleSource>) -> Seq<SingleSource> {
    of_rank(items, 0) + of_rank(items, 2) + of_rank(items, 3) + of_rank(items, 4)
}

/// The URIs of the dataset sources, in order.
pub open spec fn dataset_uris(items: Seq<SingleSource>) -> Seq<String>
    decreases items.len(),
{
    if items.len() == 0 {
        Seq::empty()
    } else {
        match items.last() {
            SingleSource::Dataset { uri } => dataset_uris(items.drop_last()).push(uri),
            _ => dataset_uris(items.drop_last()),
        }
    }
}

pub open spec fn all_datasets(items: Seq<SingleSource>) -> bool {
    forall|i: int| 0 <= i < items.len() ==> (#[trigger] items[i]) is Dataset
}

/// `Dataset("a") <sep> Dataset("b") ...` (`Asset` on Airflow 3).
pub open spec fn dataset_chain(v: AirflowMajorVersion, uris: Seq<Seq<char>>, sep: Seq<char>) -> Seq<char> {
    joined(uris.map_values(|u: Seq<char>| dataset_ref(v, u)), sep)
}

pub open spec fn sensor_tasks_of(v: AirflowMajorVersion, order: Seq<SingleSource>, conn: Option<Seq<char>>) -> Seq<Seq<char>>
    decreases order.len(),
{
    if order.len() == 0 {
        Seq::empty()
    } else {
        sensor_tasks_of(v, order.drop_last(), conn) + single_spec(v, order.last(), conn, Seq::empty()).tasks
    }
}

pub open spec fn imports_of(v: AirflowMajorVersion, order: Seq<SingleSource>, conn: Option<Seq<char>>) -> Set<Seq<char>>
    decreases order.len(),
{
    if order.len() == 0 {
        Set::empty()
    } else {
        imports_of(v, order.drop_last(), conn).union(single_spec(v, order.last(), conn, Seq::empty()).imports)
    }
}

pub open spec fn headers_of(v: AirflowMajorVersion, order: Seq<SingleSource>, conn: Option<Seq<char>>) -> Seq<char>
    decreases order.len(),
{
    if order.len() == 0 {
        Seq::empty()
    } else {
        headers_of(v, order.drop_last(), conn) + single_spec(v, order.last(), conn, Seq::empty()).header
    }
}

/// The sensor task id of a source, if it has a sensor.
pub open spec fn sensor_id(s: SingleSource) -> Option<Seq<char>> {
    match s {
        SingleSource::S3 { .. } => Some("_yard_wait_s3"@),
        SingleSource::Sqs { .. } => Some("_yard_wait_sqs"@),
        _ => None,
    }
}

pub open spec fn join_edges(order: Seq<SingleSource>) -> Seq<Seq<char>>
    decreases order.len(),
{
    if order.len() == 0 {
        Seq::empty()
    } else {
        match sensor_id(order.last()) {
            Some(id) => join_edges(order.drop_last()).push(id + " >> _yard_join"@),
            None => join_edges(order.drop_last()),
        }
    }
}

pub open spec fn first_sensor_id(order: Seq<SingleSource>) -> Seq<char>
    decreases order.len(),
{
    if order.len() == 0 {
        "_yard_wait_unknown"@
    } else {
        match sensor_id(order[0]) {
            Some(id) => id,
            None => first_sensor_id(order.skip(1)),
        }
    }
}

pub open spec fn join_task() -> Seq<char> {
    "    _yard_join = EmptyOperator(\n"@ + "        task_id=\"_yard_join\",\n"@ + "        trigger_rule=\"all_success\",\n"@
        + "    )"@
}

/// What a composite trigger renders to, its dataset URIs sorted as `uris`:
/// an all-dataset trigger chains the datasets with `sep` at schedule level;
/// otherwise the datasets go to the schedule and the other sources render
/// as sensors, joined by a `_yard_join` task when there are two or more.
pub open spec fn composite_spec(
    v: AirflowMajorVersion,
    items: Seq<SingleSource>,
    sep: Seq<char>,
    conn: Option<Seq<char>>,
    roots: Seq<Seq<char>>,
    uris: Seq<Seq<char>>,
) -> RenderSpec {
    if all_datasets(items) {
        RenderSpec {
            schedule: "("@ + dataset_chain(v, uris, sep) + ")"@,
            tasks: Seq::empty(),
            deps: Seq::empty(),
            imports: set![class_import_of(v)],
            max_active_runs: None,
            header: Seq::empty(),
        }
    } else {
        let order = sensor_order(items);
        let tasks = sensor_tasks_of(v, order, conn);
        let base_imports = if uris.len() > 0 {
            imports_of(v, order, conn).insert(class_import_of(v))
        } else {
            imports_of(v, order, conn)
        };
        RenderSpec {
            schedule: if uris.len() == 0 {
                "None"@
            } else if uris.len() == 1 {
                "["@ + dataset_ref(v, uris[0]) + "]"@
            } else {
                "("@ + dataset_chain(v, uris, " & "@) + ")"@
            },
            tasks: if tasks.len() >= 2 {
                tasks.push(join_task())
            } else {
                tasks
            },
            deps: if tasks.len() >= 2 {
                join_edges(order) + edges_to_roots("_yard_join"@, roots)
            } else if tasks.len() == 1 {
                edges_to_roots(first_sensor_id(order), roots)
            } else {
                Seq::empty()
            },
            imports: if tasks.len() >= 2 {
                base_imports.insert(empty_import_of(v))
            } else {
                base_imports
            },
            max_active_runs: None,
            header: headers_of(v, order, conn),
        }
    }
}

pub open spec fn conn_view(c: Option<&str>) -> Option<Seq<char>> {
    match c {
        Some(x) => Some(x@),
        None => None,
    }
}

fn of_rank_exec<'a>(items: &'a Vec<SingleSource>, k: u8, out: &mut Vec<&'a SingleSource>)
    requires
        k <= 4,
    ensures
        final(out)@.map_values(|x: &SingleSource| *x) == old(out)@.map_values(|x: &SingleSource| *x) + of_rank(items@, k as int),
{
    let ghost start = out@.map_values(|x: &SingleSource| *x);
    let mut i: usize = 0;
    proof {
        assert(items@.take(0) =~= Seq::<SingleSource>::empty());
        assert(out@.map_values(|x: &SingleSource| *x) =~= start + of_rank(items@.take(0), k as int));
    }
    while i < items.len()
        invariant
            k <= 4,
            i <= items.len(),
            out@.map_values(|x: &SingleSource| *x) == start + of_rank(items@.take(i as int), k as int),
        decreases items.len() - i,
    {
        proof {
            assert(items@.take(i + 1).drop_last() =~= items@.take(i as int));
            assert(items@.take(i + 1).last() == items@[i as int]);
        }
        let r: u8 = match &items[i] {
            SingleSource::Api { .. } => 0,
            SingleSource::Dataset { .. } => 1,
            SingleSource::S3 { .. } => 2,
            SingleSource::Schedule { .. } => 3,
            SingleSource::Sqs { .. } => 4,
        };
        let ghost before = out@;
        if r == k {
            out.push(&items[i]);
            proof {
                assert(out@.map_values(|x: &SingleSource| *x) =~= before.map_values(|x: &SingleSource| *x).push(items@[i as int]));
            }
        }
        i = i + 1;
    }
    proof {
        assert(items@.take(items@.len() as int) =~= items@);
    }
}

fn dataset_uri_list(items: &Vec<SingleSource>) -> (r: Vec<String>)
    ensures
        r@ == dataset_uris(items@),
{
    let mut out: Vec<String> = Vec::new();
    let mut i: usize = 0;
    while i < items.len()
        invariant
            i <= items.len(),
            out@ == dataset_uris(items@.take(i as int)),
        decreases items.len() - i,
    {
        proof {
            assert(items@.take(i + 1).drop_last() =~= items@.take(i as int));
            assert(items@.take(i + 1).last() == items@[i as int]);
        }
        match &items[i] {
            SingleSource::Dataset { uri } => out.push(uri.clone()),
            _ => {},
        }
        i = i + 1;
    }
    proof {
        assert(items@.take(items@.len() as int) =~= items@);
    }
    out
}

fn chain_text(version: AirflowMajorVersion, uris: &Vec<String>, sep: &str) -> (r: String)
    ensures
        r@ == dataset_chain(version, views(uris@), sep@),
{
    let mut parts: Vec<String> = Vec::new();
    let mut i: usize = 0;
    while i < uris.len()
        invariant
            i <= uris.len(),
            views(parts@) == views(uris@).take(i as int).map_values(|u: Seq<char>| dataset_ref(version, u)),
        decreases uris.len() - i,
    {
        let d = dataset_ref_text(version, uris[i].as_str());
        let ghost before = views(parts@);
        parts.push(d);
        proof {
            assert(views(parts@) =~= before.push(d@));
            assert(views(uris@).take(i + 1).map_values(|u: Seq<char>| dataset_ref(version, u)) =~= views(uris@).take(
                i as int,
            ).map_values(|u: Seq<char>| dataset_ref(version, u)).push(d@));
        }
        i = i + 1;
    }
    proof {
        assert(views(uris@).take(uris@.len() as int) =~= views(uris@));
    }
    join(&parts, sep)
}

fn all_dataset_sources(items: &Vec<SingleSource>) -> (r: bool)
    ensures
        r == all_datasets(items@),
{
    let mut i: usize = 0;
    while i < items.len()
        invariant
            i <= items.len(),
            forall|k: int| 0 <= k < i ==> (#[trigger] items@[k]) is Dataset,
        decreases items.len() - i,
    {
        match &items[i] {
            SingleSource::Dataset { .. } => {},
            _ => {
                return false;
            },
        }
        i = i + 1;
    }
    true
}

fn extend_lines(dst: &mut Vec<String>, src: &Vec<String>)
    ensures
        views(final(dst)@) == views(old(dst)@) + views(src@),
{
    let ghost start = views(dst@);
    let mut i: usize = 0;
    while i < src.len()
        invariant
            i <= src.len(),
            views(dst@) == start + views(src@).take(i as int),
        decreases src.len() - i,
    {
        let ghost before = dst@;
        dst.push(src[i].clone());
        proof {
            assert(views(dst@) =~= views(before).push(src@[i as int]@));
            assert(views(dst@) =~= start + views(src@).take(i + 1));
        }
        i = i + 1;
    }
    proof {
        assert(views(src@).take(src@.len() as int) =~= views(src@));
    }
}

fn sensor_order_exec<'a>(items: &'a Vec<SingleSource>) -> (r: Vec<&'a SingleSource>)
    ensures
        r@.map_values(|x: &SingleSource| *x) == sensor_order(items@),
{
    let mut order: Vec<&SingleSource> = Vec::new();
    proof {
        assert(order@.map_values(|x: &SingleSource| *x) =~= Seq::<SingleSource>::empty());
    }
    of_rank_exec(items, 0, &mut order);
    of_rank_exec(items, 2, &mut order);
    of_rank_exec(items, 3, &mut order);
    of_rank_exec(items, 4, &mut order);
    proof {
        assert(order@.map_values(|x: &SingleSource| *x) =~= sensor_order(items@));
    }
    order
}

/// Adds `src`'s lines to the set held by `dst`.
fn add_imports(dst: &mut Vec<String>, src: &Vec<String>)
    ensures
        forall|x: Seq<char>| #[trigger] views(final(dst)@).contains(x) <==> (views(old(dst)@).contains(x) || views(src@).contains(x)),
{
    let ghost i0 = views(dst@);
    extend_lines(dst, src);
    proof {
        assert forall|x: Seq<char>| #[trigger] views(dst@).contains(x) <==> (i0.contains(x) || views(src@).contains(x)) by {
            let d = views(dst@);
            assert(d == i0 + views(src@));
            if d.contains(x) {
                let q = choose|q: int| 0 <= q < d.len() && d[q] == x;
                if q < i0.len() {
                    assert(i0[q] == x);
                } else {
                    assert(views(src@)[q - i0.len()] == x);
                }
            }
            if i0.contains(x) {
                let q = choose|q: int| 0 <= q < i0.len() && i0[q] == x;
                assert(d[q] == x);
            }
            if views(src@).contains(x) {
                let q = choose|q: int| 0 <= q < views(src@).len() && views(src@)[q] == x;
                assert(d[q + i0.len()] == x);
            }
        }
    }
}

/// The sensor tasks, imports and headers of the sources in `order`.
fn collect_sensors(
    version: AirflowMajorVersion,
    order: &Vec<&SingleSource>,
    default_aws_conn_id: Option<&str>,
    imps: &mut Vec<String>,
) -> (r: (Vec<String>, String))
    ensures
        views(r.0@) == sensor_tasks_of(version, order@.map_values(|x: &SingleSource| *x), conn_view(default_aws_conn_id)),
        r.1@ == headers_of(version, order@.map_values(|x: &SingleSource| *x), conn_view(default_aws_conn_id)),
        forall|x: Seq<char>| #[trigger] views(final(imps)@).contains(x) <==> (views(old(imps)@).contains(x)
            || imports_of(version, order@.map_values(|x: &SingleSource| *x), conn_view(default_aws_conn_id)).contains(x)),
{
    let ghost ord = order@.map_values(|x: &SingleSource| *x);
    let ghost conn = conn_view(default_aws_conn_id);
    let ghost i_start = views(imps@);
    let empty_roots: Vec<String> = Vec::new();
    let mut tasks: Vec<String> = Vec::new();
    let mut header = String::new();
    let mut k: usize = 0;
    proof {
        assert(ord.take(0) =~= Seq::<SingleSource>::empty());
        assert(views(tasks@) =~= Seq::<Seq<char>>::empty());
        assert(header@ =~= Seq::<char>::empty());
    }
    while k < order.len()
        invariant
            ord == order@.map_values(|x: &SingleSource| *x),
            conn == conn_view(default_aws_conn_id),
            empty_roots@.len() == 0,
            k <= order.len(),
            views(tasks@) == sensor_tasks_of(version, ord.take(k as int), conn),
            header@ == headers_of(version, ord.take(k as int), conn),
            forall|x: Seq<char>| #[trigger] views(imps@).contains(x) <==> (i_start.contains(x) || imports_of(version, ord.take(k as int), conn).contains(x)),
        decreases order.len() - k,
    {
        proof {
            assert(ord.take(k + 1).drop_last() =~= ord.take(k as int));
            assert(ord.take(k + 1).last() == ord[k as int]);
            assert(views(empty_roots@) =~= Seq::<Seq<char>>::empty());
        }
        let r = render_single(version, order[k], default_aws_conn_id, &empty_roots);
        let ghost sp = single_spec(version, ord[k as int], conn, Seq::empty());
        let ghost before = views(imps@);
        extend_lines(&mut tasks, &r.sensor_tasks);
        add_imports(imps, &r.extra_imports);
        push_str(&mut header, r.header_docstring.as_str());
        proof {
            assert(views(tasks@) =~= sensor_tasks_of(version, ord.take(k + 1), conn));
            assert(header@ =~= headers_of(version, ord.take(k + 1), conn));
            assert forall|x: Seq<char>| #[trigger] views(imps@).contains(x) <==> (i_start.contains(x) || imports_of(version, ord.take(k + 1), conn).contains(x)) by {
                assert(views(r.extra_imports@).contains(x) <==> sp.imports.contains(x));
                assert(before.contains(x) <==> (i_start.contains(x) || imports_of(version, ord.take(k as int), conn).contains(x)));
            }
        }
        k = k + 1;
    }
    proof {
        assert(ord.take(ord.len() as int) =~= ord);
    }
    (tasks, header)
}

fn join_edge_lines(order: &Vec<&SingleSource>) -> (r: Vec<String>)
    ensures
        views(r@) == join_edges(order@.map_values(|x: &SingleSource| *x)),
{
    let ghost ord = order@.map_values(|x: &SingleSource| *x);
    let mut deps: Vec<String> = Vec::new();
    let mut m: usize = 0;
    proof {
        assert(ord.take(0) =~= Seq::<SingleSource>::empty());
        assert(views(deps@) =~= join_edges(ord.take(0)));
    }
    while m < order.len()
        invariant
            ord == order@.map_values(|x: &SingleSource| *x),
            m <= order.len(),
            views(deps@) == join_edges(ord.take(m as int)),
        decreases order.len() - m,
    {
        proof {
            assert(ord.take(m + 1).drop_last() =~= ord.take(m as int));
            assert(ord.take(m + 1).last() == ord[m as int]);
        }
        let ghost before = deps@;
        match order[m] {
            SingleSource::S3 { .. } => {
                let e = owned("_yard_wait_s3 >> _yard_join");
                deps.push(e);
                proof {
                    assert(e@ =~= "_yard_wait_s3"@ + " >> _yard_join"@) by {
                        reveal_strlit("_yard_wait_s3 >> _yard_join");
                        reveal_strlit("_yard_wait_s3");
                        reveal_strlit(" >> _yard_join");
                    }
                    assert(views(deps@) =~= views(before).push("_yard_wait_s3"@ + " >> _yard_join"@));
                }
            },
            SingleSource::Sqs { .. } => {
                let e = owned("_yard_wait_sqs >> _yard_join");
                deps.push(e);
                proof {
                    assert(e@ =~= "_yard_wait_sqs"@ + " >> _yard_join"@) by {
                        reveal_strlit("_yard_wait_sqs >> _yard_join");
                        reveal_strlit("_yard_wait_sqs");
                        reveal_strlit(" >> _yard_join");
                    }
                    assert(views(deps@) =~= views(before).push("_yard_wait_sqs"@ + " >> _yard_join"@));
                }
            },
            _ => {
                proof {
                    assert(deps@ == before);
                }
            },
        }
        m = m + 1;
    }
    proof {
        assert(ord.take(ord.len() as int) =~= ord);
    }
    deps
}

fn first_sensor(order: &Vec<&SingleSource>) -> (r: &'static str)
    ensures
        r@ == first_sensor_id(order@.map_values(|x: &SingleSource| *x)),
{
    let ghost ord = order@.map_values(|x: &SingleSource| *x);
    let mut m: usize = 0;
    proof {
        assert(ord.skip(0) =~= ord);
    }
    while m < order.len()
        invariant
            ord == order@.map_values(|x: &SingleSource| *x),
            m <= order.len(),
            first_sensor_id(ord) == first_sensor_id(ord.skip(m as int)),
        decreases order.len() - m,
    {
        proof {
            assert(ord.skip(m as int).skip(1) =~= ord.skip(m + 1));
            assert(ord.skip(m as int)[0] == ord[m as int]);
        }
        match order[m] {
            SingleSource::S3 { .. } => {
                return "_yard_wait_s3";
            },
            SingleSource::Sqs { .. } => {
                return "_yard_wait_sqs";
            },
            _ => {},
        }
        m = m + 1;
    }
    proof {
        assert(ord.skip(ord.len() as int) =~= Seq::<SingleSource>::empty());
    }
    "_yard_wait_unknown"
}

fn schedule_level(version: AirflowMajorVersion, uris: &Vec<String>) -> (r: String)
    ensures
        r@ == if uris@.len() == 0 {
            "None"@
        } else if uris@.len() == 1 {
            "["@ + dataset_ref(version, uris@[0]@) + "]"@
        } else {
            "("@ + dataset_chain(version, views(uris@), " & "@) + ")"@
        },
{
    if uris.len() == 0 {
        owned("None")
    } else if uris.len() == 1 {
        let mut s = owned("[");
        let d = dataset_ref_text(version, uris[0].as_str());
        push_str(&mut s, d.as_str());
        push_str(&mut s, "]");
        s
    } else {
        let chain = chain_text(version, uris, " & ");
        let mut s = owned("(");
        push_str(&mut s, chain.as_str());
        push_str(&mut s, ")");
        s
    }
}

fn join_task_text() -> (r: String)
    ensures
        r@ == join_task(),
{
    let mut jt = owned("    _yard_join = EmptyOperator(\n");
    push_str(&mut jt, "        task_id=\"_yard_join\",\n");
    push_str(&mut jt, "        trigger_rule=\"all_success\",\n");
    push_str(&mut jt, "    )");
    jt
}

/// Render a composite trigger (`all:` joined by ` & `, `any:` by ` | `)
/// for Airflow version `version`.
pub fn render_composite(
    version: AirflowMajorVersion,
    items: &Vec<SingleSource>,
    separator: &str,
    default_aws_conn_id: Option<&str>,
    roots: &Vec<String>,
) -> (r: TriggerRender)
    ensures
        exists|u: Seq<String>| {
            &&& sorted(views(u))
            &&& u.to_multiset() == dataset_uris(items@).to_multiset()
            &&& renders(r, composite_spec(version, items@, separator@, conn_view(default_aws_conn_id), views(roots@), views(u)))
        },
{
    let ghost conn = conn_view(default_aws_conn_id);
    let uris = sort_strings(dataset_uri_list(items));
    let ghost u = uris@;
    if all_dataset_sources(items) {
        let chain = chain_text(version, &uris, separator);
        let mut sched = owned("(");
        push_str(&mut sched, chain.as_str());
        push_str(&mut sched, ")");
        let imports = one_line(owned(version.class_import()));
        proof {
            lemma_one_import(views(imports@), class_import_of(version));
        }
        let r = TriggerRender {
            schedule_expr: sched,
            sensor_tasks: no_lines(),
            sensor_deps: no_lines(),
            extra_imports: imports,
            max_active_runs: None,
            header_docstring: String::new(),
        };
        proof {
            assert(r.header_docstring@ =~= Seq::<char>::empty());
            assert(renders(r, composite_spec(version, items@, separator@, conn, views(roots@), views(u))));
        }
        return r;
    }
    let schedule_expr = schedule_level(version, &uris);
    let order = sensor_order_exec(items);
    let ghost ord = order@.map_values(|x: &SingleSource| *x);
    let mut imps: Vec<String> = Vec::new();
    if uris.len() > 0 {
        imps.push(owned(version.class_import()));
    }
    let ghost i0 = views(imps@);
    let (mut tasks, header) = collect_sensors(version, &order, default_aws_conn_id, &mut imps);
    let ghost base = if u.len() > 0 {
        imports_of(version, ord, conn).insert(class_import_of(version))
    } else {
        imports_of(version, ord, conn)
    };
    proof {
        assert forall|x: Seq<char>| #[trigger] views(imps@).contains(x) <==> base.contains(x) by {
            if u.len() > 0 {
                assert(i0 =~= seq![class_import_of(version)]);
                if x == class_import_of(version) {
                    assert(i0[0] == x);
                }
            } else {
                assert(i0 =~= Seq::<Seq<char>>::empty());
            }
        }
    }
    let ghost t0 = views(tasks@);
    let mut deps: Vec<String> = Vec::new();
    if tasks.len() >= 2 {
        let jt = join_task_text();
        tasks.push(jt);
        let mut extra: Vec<String> = Vec::new();
        extra.push(owned(version.empty_op_import()));
        let ghost ib = views(imps@);
        add_imports(&mut imps, &extra);
        proof {
            assert(views(tasks@) =~= t0.push(join_task()));
            assert(views(extra@) =~= seq![empty_import_of(version)]);
            assert forall|x: Seq<char>| #[trigger] views(imps@).contains(x) <==> base.insert(empty_import_of(version)).contains(x) by {
                if x == empty_import_of(version) {
                    assert(views(extra@)[0] == x);
                }
                if views(extra@).contains(x) {
                    let q = choose|q: int| 0 <= q < views(extra@).len() && views(extra@)[q] == x;
                }
                assert(ib.contains(x) <==> base.contains(x));
            }
        }
        let je = join_edge_lines(&order);
        extend_lines(&mut deps, &je);
        let edges = root_edges("_yard_join", roots);
        extend_lines(&mut deps, &edges);
        proof {
            assert(views(deps@) =~= join_edges(ord) + edges_to_roots("_yard_join"@, views(roots@)));
        }
    } else if tasks.len() == 1 {
        let id = first_sensor(&order);
        deps = root_edges(id, roots);
    } else {
        proof {
            assert(views(deps@) =~= Seq::<Seq<char>>::empty());
        }
    }
    let r = TriggerRender {
        schedule_expr,
        sensor_tasks: tasks,
        sensor_deps: deps,
        extra_imports: sorted_set(imps),
        max_active_runs: None,
        header_docstring: header,
    };
    proof {
        let sp = composite_spec(version, items@, separator@, conn, views(roots@), views(u));
        assert(uris@.len() == 0 ==> views(uris@) =~= Seq::<Seq<char>>::empty());
        assert(uris@.len() > 0 ==> views(uris@)[0] == uris@[0]@);
        assert(renders(r, sp));
    }
    r
}

/// A triggered DAG: one active run at a time, and the version banner of
/// `v` above its header.
pub open spec fn one_run(v: AirflowMajorVersion, s: RenderSpec) -> RenderSpec {
    RenderSpec { max_active_runs: Some(1), header: banner_of(v) + s.header, ..s }
}

/// The single source a trigger comes down to: a bare source, or a
/// composite of one.
pub open spec fn lone_source(t: Trigger) -> Option<SingleSource> {
    match t {
        Trigger::Single(s) => Some(s),
        Trigger::All(v) => if v@.len() == 1 {
            Some(v@[0])
        } else {
            None
        },
        Trigger::Any(v) => if v@.len() == 1 {
            Some(v@[0])
        } else {
            None
        },
    }
}

pub open spec fn composite_parts(t: Trigger) -> (Seq<SingleSource>, Seq<char>) {
    match t {
        Trigger::All(v) => (v@, " & "@),
        Trigger::Any(v) => (v@, " | "@),
        Trigger::Single(s) => (seq![s], " & "@),
    }
}

/// What a DAG's trigger renders to for Airflow version `v`. Without a
/// trigger: the top-level schedule as a quoted string, or `None`. With
/// one: its lone source, or the composite; any trigger limits the DAG to
/// one active run.
pub open spec fn trigger_renders(
    r: TriggerRender,
    v: AirflowMajorVersion,
    trigger: Option<Trigger>,
    schedule: Option<Seq<char>>,
    conn: Option<Seq<char>>,
    roots: Seq<Seq<char>>,
) -> bool {
    match trigger {
        None => renders(r, RenderSpec {
            schedule: match schedule {
                Some(s) => pyq(s),
                None => "None"@,
            },
            tasks: Seq::empty(),
            deps: Seq::empty(),
            imports: Set::empty(),
            max_active_runs: None,
            header: Seq::empty(),
        }),
        Some(t) => match lone_source(t) {
            Some(s) => renders(r, one_run(v, single_spec(v, s, conn, roots))),
            None => exists|u: Seq<String>| {
                &&& sorted(views(u))
                &&& u.to_multiset() == dataset_uris(composite_parts(t).0).to_multiset()
                &&& renders(r, one_run(v, composite_spec(v, composite_parts(t).0, composite_parts(t).1, conn, roots, views(u))))
            },
        },
    }
}

/// Render a DAG's trigger for Airflow version `version`: sensors,
/// schedule expression and imports. `schedule` is the DAG's top-level
/// schedule, used when there is no trigger; `default_aws_conn_id` the
/// connection sensors use unless they name their own; `roots` the tasks
/// without upstream.
#[verifier::rlimit(40)]
pub fn render_trigger_for(
    version: AirflowMajorVersion,
    trigger: Option<&Trigger>,
    schedule: Option<&str>,
    default_aws_conn_id: Option<&str>,
    roots: &Vec<String>,
) -> (r: TriggerRender)
    ensures
        trigger_renders(r, version, match trigger {
            Some(t) => Some(*t),
            None => None,
        }, conn_view(schedule), conn_view(default_aws_conn_id), views(roots@)),
{
    match trigger {
        None => {
            let sched = match schedule {
                Some(s) => quote(s),
                None => owned("None"),
            };
            let r = TriggerRender {
                schedule_expr: sched,
                sensor_tasks: no_lines(),
                sensor_deps: no_lines(),
                extra_imports: no_lines(),
                max_active_runs: None,
                header_docstring: String::new(),
            };
            proof {
                assert(r.header_docstring@ =~= Seq::<char>::empty());
                assert forall|x: Seq<char>| #[trigger] views(r.extra_imports@).contains(x) <==> Set::<Seq<char>>::empty().contains(x) by {
                    if views(r.extra_imports@).contains(x) {
                        let k = choose|k: int| 0 <= k < views(r.extra_imports@).len() && views(r.extra_imports@)[k] == x;
                    }
                }
            }
            r
        },
        Some(t) => {
            let lone: Option<&SingleSource> = match t {
                Trigger::Single(s) => Some(s),
                Trigger::All(v) => if v.len() == 1 {
                    Some(&v[0])
                } else {
                    None
                },
                Trigger::Any(v) => if v.len() == 1 {
                    Some(&v[0])
                } else {
                    None
                },
            };
            let mut r = match lone {
                Some(s) => render_single(version, s, default_aws_conn_id, roots),
                None => match t {
                    Trigger::All(v) => render_composite(version, v, " & ", default_aws_conn_id, roots),
                    Trigger::Any(v) => render_composite(version, v, " | ", default_aws_conn_id, roots),
                    Trigger::Single(s) => render_single(version, s, default_aws_conn_id, roots),
                },
            };
            let ghost before = r;
            r.max_active_runs = Some(1);
            let mut h = owned(version.version_banner());
            push_str(&mut h, r.header_docstring.as_str());
            r.header_docstring = h;
            proof {
                match lone_source(*t) {
                    Some(s) => {
                        assert(renders(r, one_run(version, single_spec(version, s, conn_view(default_aws_conn_id), views(roots@)))));
                    },
                    None => {
                        let (items, sep) = composite_parts(*t);
                        let u = choose|u: Seq<String>| {
                            &&& sorted(views(u))
                            &&& u.to_multiset() == dataset_uris(items).to_multiset()
                            &&& renders(
                                before,
                                composite_spec(version, items, sep, conn_view(default_aws_conn_id), views(roots@), views(u)),
                            )
                        };
                        assert(renders(
                            r,
                            one_run(version, composite_spec(version, items, sep, conn_view(default_aws_conn_id), views(roots@), views(u))),
                        ));
                    },
                }
            }
            r
        },
    }
}

/// Render a DAG's trigger for Airflow 2, the version a DAG is generated
/// for when it names none.
pub fn render_trigger(
    trigger: Option<&Trigger>,
    schedule: Option<&str>,
    default_aws_conn_id: Option<&str>,
    roots: &Vec<String>,
) -> (r: TriggerRender)
    ensures
        trigger_renders(r, AirflowMajorVersion::V2, match trigger {
            Some(t) => Some(*t),
            None => None,
        }, conn_view(schedule), conn_view(default_aws_conn_id), views(roots@)),
{
    render_trigger_for(AirflowMajorVersion::V2, trigger, schedule, default_aws_conn_id, roots)
}

/// The import lines a trigger can ask for under Airflow version `v`.
pub open spec fn trigger_import_pool(v: AirflowMajorVersion) -> Set<Seq<char>> {
    set![
        class_import_of(v),
        empty_import_of(v),
        "from airflow.providers.amazon.aws.sensors.s3 import S3KeySensor"@,
        "from airflow.providers.amazon.aws.sensors.sqs import SqsSensor"@,
    ]
}

proof fn lemma_single_imports_in_pool(v: AirflowMajorVersion, s: SingleSource, conn: Option<Seq<char>>, roots: Seq<Seq<char>>)
    ensures
        forall|x: Seq<char>| #[trigger] single_spec(v, s, conn, roots).imports.contains(x) ==> trigger_import_pool(v).contains(x),
{
}

proof fn lemma_imports_of_in_pool(v: AirflowMajorVersion, order: Seq<SingleSource>, conn: Option<Seq<char>>)
    ensures
        forall|x: Seq<char>| #[trigger] imports_of(v, order, conn).contains(x) ==> trigger_import_pool(v).contains(x),
    decreases order.len(),
{
    if order.len() > 0 {
        lemma_imports_of_in_pool(v, order.drop_last(), conn);
        lemma_single_imports_in_pool(v, order.last(), conn, Seq::empty());
        assert forall|x: Seq<char>| #[trigger] imports_of(v, order, conn).contains(x) implies trigger_import_pool(v).contains(x) by {
            if !imports_of(v, order.drop_last(), conn).contains(x) {
                assert(single_spec(v, order.last(), conn, Seq::empty()).imports.contains(x));
            }
        }
    }
}

/// Every import line a rendered trigger asks for comes from
/// [`trigger_import_pool`].
pub proof fn lemma_trigger_imports_in_pool(
    r: TriggerRender,
    v: AirflowMajorVersion,
    trigger: Option<Trigger>,
    schedule: Option<Seq<char>>,
    conn: Option<Seq<char>>,
    roots: Seq<Seq<char>>,
)
    requires
        trigger_renders(r, v, trigger, schedule, conn, roots),
    ensures
        forall|x: Seq<char>| #[trigger] views(r.extra_imports@).contains(x) ==> trigger_import_pool(v).contains(x),
{
    match trigger {
        None => {},
        Some(t) => match lone_source(t) {
            Some(s) => {
                lemma_single_imports_in_pool(v, s, conn, roots);
            },
            None => {
                let (items, sep) = composite_parts(t);
                let u = choose|u: Seq<String>| {
                    &&& sorted(views(u))
                    &&& u.to_multiset() == dataset_uris(items).to_multiset()
                    &&& renders(r, one_run(v, composite_spec(v, items, sep, conn, roots, views(u))))
                };
                lemma_imports_of_in_pool(v, sensor_order(items), conn);
            },
        },
    }
}

/// A DAG without a trigger renders no sensors, edges, imports, header or
/// run limit, whatever its Airflow version.
pub proof fn law_schedule_only_is_plain(
    r: TriggerRender,
    v: AirflowMajorVersion,
    schedule: Option<Seq<char>>,
    conn: Option<Seq<char>>,
    roots: Seq<Seq<char>>,
)
    requires
        trigger_renders(r, v, None, schedule, conn, roots),
    ensures
        r.sensor_tasks@.len() == 0,
        r.sensor_deps@.len() == 0,
        r.extra_imports@.len() == 0,
        r.header_docstring@.len() == 0,
        r.max_active_runs is None,
{
    let imps = views(r.extra_imports@);
    if r.extra_imports@.len() > 0 {
        assert(imps.contains(imps[0]));
    }
}

/// A triggered DAG runs one at a time, and its header opens with the
/// version contract of its Airflow version.
pub proof fn law_triggered_dag_opens_with_banner(
    r: TriggerRender,
    v: AirflowMajorVersion,
    t: Trigger,
    schedule: Option<Seq<char>>,
    conn: Option<Seq<char>>,
    roots: Seq<Seq<char>>,
)
    requires
        trigger_renders(r, v, Some(t), schedule, conn, roots),
    ensures
        r.max_active_runs == Some(1u32),
        r.header_docstring@.len() >= banner_of(v).len(),
        r.header_docstring@.take(banner_of(v).len() as int) == banner_of(v),
{
    match lone_source(t) {
        Some(s) => {
            assert(r.header_docstring@.take(banner_of(v).len() as int) =~= banner_of(v));
        },
        None => {
            let (items, sep) = composite_parts(t);
            let u = choose|u: Seq<String>| {
                &&& sorted(views(u))
                &&& u.to_multiset() == dataset_uris(items).to_multiset()
                &&& renders(r, one_run(v, composite_spec(v, items, sep, conn, roots, views(u))))
            };
            assert(r.header_docstring@.take(banner_of(v).len() as int) =~= banner_of(v));
        },
    }
}

/// A composite of one source renders as that source alone.
pub proof fn law_single_element_composite_is_bare(
    r: TriggerRender,
    v: AirflowMajorVersion,
    s: SingleSource,
    items: Vec<SingleSource>,
    schedule: Option<Seq<char>>,
    conn: Option<Seq<char>>,
    roots: Seq<Seq<char>>,
)
    requires
        items@ == seq![s],
    ensures
        trigger_renders(r, v, Some(Trigger::All(items)), schedule, conn, roots) <==> trigger_renders(
            r,
            v,
            Some(Trigger::Single(s)),
            schedule,
            conn,
            roots,
        ),
        trigger_renders(r, v, Some(Trigger::Any(items)), schedule, conn, roots) <==> trigger_renders(
            r,
            v,
            Some(Trigger::Single(s)),
            schedule,
            conn,
            roots,
        ),
{
}


/// The S3 sensor rules. The trigger's own `aws_conn_id` wins over the DAG
/// default: it renders exactly as if it were the default, and the sensor
/// then holds `aws_conn_id=` with it. The object key wins over the prefix:
/// with a key, the prefix changes nothing. And the sensor fans out to every
/// root task, in order.
#[verifier::rlimit(50)]
pub proof fn law_s3_sensor_rules(
    v: AirflowMajorVersion,
    bucket: String,
    prefix: Option<String>,
    other_prefix: Option<String>,
    key: Option<String>,
    poke_interval: Option<u64>,
    timeout: Option<u64>,
    deferrable: Option<bool>,
    own_conn: String,
    default_conn: Option<Seq<char>>,
    roots: Seq<Seq<char>>,
)
    ensures
        single_spec(v, SingleSource::S3 { bucket, prefix, key, poke_interval, timeout, deferrable, aws_conn_id: Some(own_conn) }, default_conn, roots)
            == single_spec(v, SingleSource::S3 { bucket, prefix, key, poke_interval, timeout, deferrable, aws_conn_id: None }, Some(own_conn@), roots),
        ({
            let t = single_spec(v, SingleSource::S3 { bucket, prefix, key, poke_interval, timeout, deferrable, aws_conn_id: Some(own_conn) }, default_conn, roots).tasks;
            t.len() == 1 && exists|i: int| 0 <= i && #[trigger] t[0].subrange(i, i + ("        aws_conn_id="@ + pyq(own_conn@)).len()) == "        aws_conn_id="@ + pyq(own_conn@) && i + ("        aws_conn_id="@ + pyq(own_conn@)).len() <= t[0].len()
        }),
        key is Some ==> single_spec(v, SingleSource::S3 { bucket, prefix, key, poke_interval, timeout, deferrable, aws_conn_id: None }, default_conn, roots)
            == single_spec(v, SingleSource::S3 { bucket, prefix: other_prefix, key, poke_interval, timeout, deferrable, aws_conn_id: None }, default_conn, roots),
        ({
            let d = single_spec(v, SingleSource::S3 { bucket, prefix, key, poke_interval, timeout, deferrable, aws_conn_id: None }, default_conn, roots).deps;
            d.len() == roots.len() && forall|i: int| 0 <= i < roots.len() ==> #[trigger] d[i] == "_yard_wait_s3"@ + " >> "@ + python_var(roots[i])
        }),
{
    let spec = single_spec(v, SingleSource::S3 { bucket, prefix, key, poke_interval, timeout, deferrable, aws_conn_id: Some(own_conn) }, default_conn, roots);
    let t0 = spec.tasks[0];
    let line = "        aws_conn_id="@ + pyq(own_conn@);
    let bucket_key = match key {
        Some(k) => k@,
        None => match prefix {
            Some(p) => p@,
            None => Seq::<char>::empty(),
        },
    };
    let pre = "    _yard_wait_s3 = S3KeySensor(\n"@ + "        task_id=\"_yard_wait_s3\",\n"@ + "        bucket_name="@ + pyq(bucket@)
        + ",\n"@ + "        bucket_key="@ + pyq(bucket_key) + ",\n"@ + "        poke_interval="@ + decimal(match poke_interval {
            Some(p) => p as nat,
            None => 60,
        }) + ",\n"@ + "        timeout="@ + decimal(match timeout {
            Some(t) => t as nat,
            None => 86400,
        }) + ",\n"@ + "        deferrable="@ + py_bool(match deferrable {
            Some(d) => d,
            None => true,
        }) + ",\n"@;
    let post = ",\n"@ + "    )"@;
    assert(t0 =~= pre + line + post);
    let i = pre.len() as int;
    assert(t0.subrange(i, i + line.len()) =~= line);
}


/// Two renders that meet the same spec agree in everything, their import
/// lines included.
proof fn lemma_renders_unique(r1: TriggerRender, r2: TriggerRender, s: RenderSpec)
    requires
        renders(r1, s),
        renders(r2, s),
    ensures
        r1.schedule_expr@ == r2.schedule_expr@,
        views(r1.sensor_tasks@) == views(r2.sensor_tasks@),
        views(r1.sensor_deps@) == views(r2.sensor_deps@),
        views(r1.extra_imports@) == views(r2.extra_imports@),
        r1.max_active_runs == r2.max_active_runs,
        r1.header_docstring@ == r2.header_docstring@,
{
    let a = views(r1.extra_imports@);
    let b = views(r2.extra_imports@);
    assert(a.to_set() =~= b.to_set()) by {
        assert forall|x: Seq<char>| a.to_set().contains(x) <==> b.to_set().contains(x) by {
            assert(a.contains(x) <==> s.imports.contains(x));
            assert(b.contains(x) <==> s.imports.contains(x));
        }
    }
    lemma_sorted_names_unique(a, b);
}

/// A trigger renders one way: two renders of the same trigger, schedule,
/// default connection and roots agree on the schedule expression, the
/// sensors and their edges, the run limit, the header and the import lines.
pub proof fn law_trigger_render_is_unique(
    r1: TriggerRender,
    r2: TriggerRender,
    v: AirflowMajorVersion,
    trigger: Option<Trigger>,
    schedule: Option<Seq<char>>,
    conn: Option<Seq<char>>,
    roots: Seq<Seq<char>>,
)
    requires
        trigger_renders(r1, v, trigger, schedule, conn, roots),
        trigger_renders(r2, v, trigger, schedule, conn, roots),
    ensures
        r1.schedule_expr@ == r2.schedule_expr@,
        views(r1.sensor_tasks@) == views(r2.sensor_tasks@),
        views(r1.sensor_deps@) == views(r2.sensor_deps@),
        views(r1.extra_imports@) == views(r2.extra_imports@),
        r1.max_active_runs == r2.max_active_runs,
        r1.header_docstring@ == r2.header_docstring@,
{
    match trigger {
        None => {
            let s = RenderSpec {
                schedule: match schedule {
                    Some(x) => pyq(x),
                    None => "None"@,
                },
                tasks: Seq::empty(),
                deps: Seq::empty(),
                imports: Set::empty(),
                max_active_runs: None,
                header: Seq::empty(),
            };
            lemma_renders_unique(r1, r2, s);
        },
        Some(t) => match lone_source(t) {
            Some(src) => {
                lemma_renders_unique(r1, r2, one_run(v, single_spec(v, src, conn, roots)));
            },
            None => {
                let items = composite_parts(t).0;
                let sep = composite_parts(t).1;
                let u1 = choose|u: Seq<String>| {
                    &&& sorted(views(u))
                    &&& u.to_multiset() == dataset_uris(items).to_multiset()
                    &&& renders(r1, one_run(v, composite_spec(v, items, sep, conn, roots, views(u))))
                };
                let u2 = choose|u: Seq<String>| {
                    &&& sorted(views(u))
                    &&& u.to_multiset() == dataset_uris(items).to_multiset()
                    &&& renders(r2, one_run(v, composite_spec(v, items, sep, conn, roots, views(u))))
                };
                lemma_views_same_elements(u1, u2);
                lemma_sorted_same_elements(views(u1), views(u2));
                lemma_renders_unique(r1, r2, one_run(v, composite_spec(v, items, sep, conn, roots, views(u1))));
            },
        },
    }
}


/// The connection line is the only thing a connection adds to an S3 sensor:
/// with neither the trigger's own connection nor a DAG default, the sensor
/// is the connected sensor with its `aws_conn_id=` line taken out.
pub proof fn law_s3_sensor_without_connection(
    v: AirflowMajorVersion,
    bucket: String,
    prefix: Option<String>,
    key: Option<String>,
    poke_interval: Option<u64>,
    timeout: Option<u64>,
    deferrable: Option<bool>,
    conn: String,
    roots: Seq<Seq<char>>,
)
    ensures
        ({
            let without = single_spec(v, SingleSource::S3 { bucket, prefix, key, poke_interval, timeout, deferrable, aws_conn_id: None }, None, roots).tasks;
            let with = single_spec(v, SingleSource::S3 { bucket, prefix, key, poke_interval, timeout, deferrable, aws_conn_id: Some(conn) }, None, roots).tasks;
            &&& without.len() == 1
            &&& with.len() == 1
            &&& exists|pre: Seq<char>, post: Seq<char>|
                #[trigger] (pre + post) == without[0] && pre + ("        aws_conn_id="@ + pyq(conn@) + ",\n"@) + post == with[0]
        }),
{
    let without = single_spec(v, SingleSource::S3 { bucket, prefix, key, poke_interval, timeout, deferrable, aws_conn_id: None }, None, roots).tasks;
    let with = single_spec(v, SingleSource::S3 { bucket, prefix, key, poke_interval, timeout, deferrable, aws_conn_id: Some(conn) }, None, roots).tasks;
    let bucket_key = match key {
        Some(k) => k@,
        None => match prefix {
            Some(p) => p@,
            None => Seq::<char>::empty(),
        },
    };
    let pre = "    _yard_wait_s3 = S3KeySensor(\n"@ + "        task_id=\"_yard_wait_s3\",\n"@ + "        bucket_name="@ + pyq(bucket@)
        + ",\n"@ + "        bucket_key="@ + pyq(bucket_key) + ",\n"@ + "        poke_interval="@ + decimal(match poke_interval {
            Some(p) => p as nat,
            None => 60,
        }) + ",\n"@ + "        timeout="@ + decimal(match timeout {
            Some(t) => t as nat,
            None => 86400,
        }) + ",\n"@ + "        deferrable="@ + py_bool(match deferrable {
            Some(d) => d,
            None => true,
        }) + ",\n"@;
    let post = "    )"@;
    let line = "        aws_conn_id="@ + pyq(conn@) + ",\n"@;
    assert(without[0] =~= pre + post);
    assert(with[0] =~= pre + line + post);
}


/// The `schedule=` expression of a DAG: without a trigger, its schedule as a
/// quoted string, or `None`; with a single source, a cron or preset
/// schedule as a quoted string, a dataset as a one-element list of the
/// dataset (an asset on Airflow 3), and a sensor or API trigger `None`.
pub proof fn law_schedule_expression(
    r: TriggerRender,
    v: AirflowMajorVersion,
    trigger: Option<Trigger>,
    schedule: Option<Seq<char>>,
    conn: Option<Seq<char>>,
    roots: Seq<Seq<char>>,
)
    requires
        trigger_renders(r, v, trigger, schedule, conn, roots),
    ensures
        trigger is None ==> (schedule matches Some(x) ==> r.schedule_expr@ == json_string_text(x)),
        (trigger is None && schedule is None) ==> r.schedule_expr@ == "None"@,
        trigger matches Some(Trigger::Single(SingleSource::Schedule { value })) ==> r.schedule_expr@ == json_string_text(value@),
        trigger matches Some(Trigger::Single(SingleSource::Dataset { uri })) ==> r.schedule_expr@ == "["@ + class_of(v) + "("@
            + json_string_text(uri@) + ")"@ + "]"@,
        trigger matches Some(Trigger::Single(src)) ==> ((src is S3 || src is Sqs || src is Api) ==> r.schedule_expr@ == "None"@),
{
}

/// An SQS trigger waits on its queue and fans out to every root task, in
/// order; an S3 or SQS trigger is a single sensor task.
#[verifier::rlimit(50)]
pub proof fn law_sqs_sensor_waits_on_its_queue(
    v: AirflowMajorVersion,
    queue_url: String,
    wait_time_seconds: Option<u64>,
    max_messages: Option<u64>,
    delete_message_on_reception: Option<bool>,
    conn: Option<Seq<char>>,
    roots: Seq<Seq<char>>,
)
    ensures
        ({
            let sp = single_spec(
                v,
                SingleSource::Sqs { queue_url, wait_time_seconds, max_messages, delete_message_on_reception },
                conn,
                roots,
            );
            &&& sp.tasks.len() == 1
            &&& contains_text(sp.tasks[0], "        sqs_queue="@ + json_string_text(queue_url@) + ",\n"@)
            &&& sp.deps.len() == roots.len()
            &&& forall|i: int| 0 <= i < roots.len() ==> #[trigger] sp.deps[i] == "_yard_wait_sqs"@ + " >> "@ + python_var(roots[i])
        }),
{
    let sp = single_spec(
        v,
        SingleSource::Sqs { queue_url, wait_time_seconds, max_messages, delete_message_on_reception },
        conn,
        roots,
    );
    let mid = "        sqs_queue="@ + pyq(queue_url@) + ",\n"@;
    let a = "    _yard_wait_sqs = SqsSensor(\n"@ + "        task_id=\"_yard_wait_sqs\",\n"@;
    let c = "        wait_time_seconds="@ + decimal(match wait_time_seconds {
        Some(w) => w as nat,
        None => 20,
    }) + ",\n"@ + "        max_messages="@ + decimal(match max_messages {
        Some(m) => m as nat,
        None => 5,
    }) + ",\n"@ + "        delete_message_on_reception="@ + py_bool(match delete_message_on_reception {
        Some(d) => d,
        None => true,
    }) + ",\n"@ + "        deferrable=True,\n"@ + conn_line(conn) + "    )"@;
    assert(sp.tasks[0] =~= a + mid + c);
    lemma_contains_middle(a, mid, c);
}

} // verus!
