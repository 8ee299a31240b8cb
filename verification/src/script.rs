//! Planning a job's PySpark script: the imports block and the body of
//! its `run()` function, assembled from the rendered sources, transforms,
//! partition columns, PII masking and sink.
use vstd::prelude::*;
use crate::airflow::{is_task_only, task_only, JobType};
use crate::codegen::{
    default_engine, default_engine_for, fills_nulls, has_transform, has_source_type, iceberg_sink, import_line,
    indent_body, indented, needs_dynamic_frame_import, needs_functions_import, needs_jdbc_auth_imports,
    needs_requests_import, needs_secrets_imports, needs_window_import, partition_derivation, pii_block, render_imports,
    render_partition_derivation, render_pii, should_fill_nulls, has_iceberg_sink, uses_dynamic_frame, uses_jdbc_auth,
    uses_secrets, ScriptJob, Sink, Source,
};
use crate::json::{get, get_member, get_str, str_member, JsonV};
use crate::render::{render_sink, render_sources, sink_code, sources_code};
use crate::text::{contains_text, join, joined, lemma_joined_contains_part, owned, push_str, views};
use crate::transform::{aliases_prefix, render_transforms, transforms_code};

verus! {

/// Helper functions emitted at module scope before an Iceberg sink that
/// fills nulls.
pub const ICEBERG_FILL_NULLS_HELPERS: &'static str = r#"def _yard_has_void(dt):
    if isinstance(dt, NullType):
        return True
    if isinstance(dt, StructType):
        if len(dt.fields) == 0:
            return True
        return any(_yard_has_void(f.dataType) for f in dt.fields)
    if isinstance(dt, ArrayType):
        return _yard_has_void(dt.elementType)
    if isinstance(dt, MapType):
        return _yard_has_void(dt.keyType) or _yard_has_void(dt.valueType)
    return False


def _yard_void_free_ddl(dt):
    if isinstance(dt, NullType):
        return None
    if isinstance(dt, StructType):
        if len(dt.fields) == 0:
            return "struct<>"
        parts = []
        for f in dt.fields:
            sub = _yard_void_free_ddl(f.dataType)
            if sub is not None:
                parts.append("`" + f.name.replace("`", "``") + "`:" + sub)
        if not parts:
            return "struct<>"
        return "struct<" + ",".join(parts) + ">"
    if isinstance(dt, ArrayType):
        inner = _yard_void_free_ddl(dt.elementType)
        if inner is None:
            return None
        return "array<" + inner + ">"
    if isinstance(dt, MapType):
        k = _yard_void_free_ddl(dt.keyType)
        v = _yard_void_free_ddl(dt.valueType)
        if k is None or v is None:
            return None
        return "map<" + k + "," + v + ">"
    return dt.simpleString()


def _yard_void_free_dt(dt):
    # Recursively drop void leaves, empty structs, array<void>, map<..void..> at
    # any depth. Returns a cleaned DataType, or None when the type collapses
    # entirely (caller drops the field). Voids are dropped, never invented: a
    # NullType column carries zero inferable type, so the only honest move is to
    # omit it until a real value re-introduces it via schema evolution.
    if isinstance(dt, NullType):
        return None
    if isinstance(dt, StructType):
        fields = []
        for f in dt.fields:
            sub = _yard_void_free_dt(f.dataType)
            if sub is not None:
                fields.append(StructField(f.name, sub, True))
        if not fields:
            return None
        return StructType(fields)
    if isinstance(dt, ArrayType):
        inner = _yard_void_free_dt(dt.elementType)
        if inner is None:
            return None
        return ArrayType(inner, True)
    if isinstance(dt, MapType):
        k = _yard_void_free_dt(dt.keyType)
        v = _yard_void_free_dt(dt.valueType)
        if k is None or v is None:
            return None
        return MapType(k, v, True)
    return dt


def _yard_void_free_schema(schema):
    fields = []
    for f in schema.fields:
        sub = _yard_void_free_dt(f.dataType)
        if sub is not None:
            fields.append(StructField(f.name, sub, True))
    return StructType(fields)


def _yard_kind(dt):
    if isinstance(dt, StructType):
        return "struct"
    if isinstance(dt, ArrayType):
        return "array"
    if isinstance(dt, MapType):
        return "map"
    return "scalar"


def _yard_kind_mismatch(src_dt, tgt_dt):
    # True when the source-inferred kind diverges from the target kind in a way
    # df.to() cannot reconcile (struct vs list/map, or scalar vs container).
    # Scalar-vs-scalar is left to df.to()'s safe up-cast.
    ks, kt = _yard_kind(src_dt), _yard_kind(tgt_dt)
    if ks == kt:
        return False
    return ks != "scalar" or kt != "scalar"


def _yard_merge_dt(live_dt, batch_dt):
    if isinstance(live_dt, StructType) and isinstance(batch_dt, StructType):
        return _yard_merge_schema(live_dt, batch_dt)
    if isinstance(live_dt, ArrayType) and isinstance(batch_dt, ArrayType):
        return ArrayType(_yard_merge_dt(live_dt.elementType, batch_dt.elementType), True)
    if isinstance(live_dt, MapType) and isinstance(batch_dt, MapType):
        return MapType(live_dt.keyType, _yard_merge_dt(live_dt.valueType, batch_dt.valueType), True)
    return live_dt


def _yard_merge_schema(live, batch):
    # Union: live field types win; genuinely-new typed fields from the batch are
    # added (including nested); nested structs merge field-by-field. The result
    # is the auto-evolve target the dataframe is conformed to before writing.
    batch_map = {f.name: f.dataType for f in batch.fields}
    out = []
    seen = set()
    for f in live.fields:
        seen.add(f.name)
        if f.name in batch_map:
            out.append(StructField(f.name, _yard_merge_dt(f.dataType, batch_map[f.name]), True))
        else:
            out.append(StructField(f.name, f.dataType, True))
    for f in batch.fields:
        if f.name not in seen:
            out.append(StructField(f.name, f.dataType, True))
    return StructType(out)


def _yard_read_iceberg_schema(spark, tbl):
    return spark.read.format("iceberg").load(tbl).schema


def _yard_conform(df, target_schema):
    return df.to(target_schema)
"#;

/// The script masks PII: entities are listed and the run body is
/// generated, not given by the job.
pub open spec fn masks_pii(job: ScriptJob) -> bool {
    job.mask_pii@.len() > 0 && job.body is None
}

/// The import lines the script's features need, in this order.
pub open spec fn feature_imports(job: ScriptJob, engine: Seq<char>) -> Seq<Seq<char>> {
    let fill = fills_nulls(job);
    (if uses_secrets(job) || uses_jdbc_auth(job) || iceberg_sink(job) {
        seq!["import boto3"@] + (if uses_secrets(job) {
            seq!["import json"@]
        } else {
            Seq::empty()
        })
    } else {
        Seq::empty()
    }) + (if has_source_type(job, "api"@) {
        seq!["import requests"@]
    } else {
        Seq::empty()
    }) + (if uses_dynamic_frame(job, engine) || masks_pii(job) {
        seq!["from awsglue.dynamicframe import DynamicFrame"@]
    } else {
        Seq::empty()
    }) + (if has_transform(job, "aggregate"@) || has_transform(job, "window"@) || job.partition_by@.len() > 0 || fill {
        seq!["from pyspark.sql import functions as F"@]
    } else {
        Seq::empty()
    }) + (if fill {
        seq![types_import()]
    } else {
        Seq::empty()
    }) + (if has_transform(job, "window"@) {
        seq!["from pyspark.sql.window import Window"@]
    } else {
        Seq::empty()
    }) + (if masks_pii(job) {
        seq!["from awsglueml.transforms import EntityDetector"@]
    } else {
        Seq::empty()
    })
}

pub open spec fn types_import() -> Seq<char> {
    "from pyspark.sql.types import (StructType, StructField, ArrayType, MapType, DoubleType, FloatType, IntegerType, LongType, ShortType, ByteType, TimestampType, DateType, DecimalType, BinaryType, BooleanType, NullType)"@
}

/// The script's imports block: the user's imports, then the feature
/// imports, then the null-filling helpers when the sink fills nulls.
pub open spec fn imports_text(job: ScriptJob, engine: Seq<char>) -> Seq<char> {
    let user = joined(job.imports@.map_values(|i: crate::codegen::Import| import_line(i)), "\n"@);
    let extra = feature_imports(job, engine);
    let all = if extra.len() == 0 {
        user
    } else if user.len() == 0 {
        joined(extra, "\n"@)
    } else {
        user + "\n"@ + joined(extra, "\n"@)
    };
    if fills_nulls(job) {
        all + "\n\n\n"@ + ICEBERG_FILL_NULLS_HELPERS@
    } else {
        all
    }
}

fn push_if(v: &mut Vec<String>, b: bool, l: &str)
    ensures
        views(final(v)@) == views(old(v)@) + if b {
            seq![l@]
        } else {
            Seq::<Seq<char>>::empty()
        },
{
    let ghost before = views(v@);
    if b {
        v.push(owned(l));
    }
    proof {
        assert(views(v@) =~= before + if b {
            seq![l@]
        } else {
            Seq::<Seq<char>>::empty()
        });
    }
}

/// The imports block of the job's script.
pub fn script_imports(job: &ScriptJob, engine: &str) -> (r: String)
    ensures
        r@ == imports_text(*job, engine@),
{
    let secrets = needs_secrets_imports(job);
    let jdbc = needs_jdbc_auth_imports(job);
    let iceberg = has_iceberg_sink(job);
    let fill = should_fill_nulls(job);
    let pii = job.mask_pii.len() > 0 && job.body.is_none();
    let mut extra: Vec<String> = Vec::new();
    push_if(&mut extra, secrets || jdbc || iceberg, "import boto3");
    push_if(&mut extra, (secrets || jdbc || iceberg) && secrets, "import json");
    push_if(&mut extra, needs_requests_import(job), "import requests");
    push_if(
        &mut extra,
        needs_dynamic_frame_import(job, engine) || pii,
        "from awsglue.dynamicframe import DynamicFrame",
    );
    push_if(&mut extra, needs_functions_import(job) || job.partition_by.len() > 0 || fill, "from pyspark.sql import functions as F");
    push_if(&mut extra, fill, "from pyspark.sql.types import (StructType, StructField, ArrayType, MapType, DoubleType, FloatType, IntegerType, LongType, ShortType, ByteType, TimestampType, DateType, DecimalType, BinaryType, BooleanType, NullType)");
    push_if(&mut extra, needs_window_import(job), "from pyspark.sql.window import Window");
    push_if(&mut extra, pii, "from awsglueml.transforms import EntityDetector");
    proof {
        assert(views(extra@) =~= feature_imports(*job, engine@));
    }
    let user = render_imports(&job.imports);
    let mut all = if extra.len() == 0 {
        user
    } else if user.unicode_len() == 0 {
        join(&extra, "\n")
    } else {
        let mut a = user;
        push_str(&mut a, "\n");
        let e = join(&extra, "\n");
        push_str(&mut a, e.as_str());
        a
    };
    if fill {
        push_str(&mut all, "\n\n\n");
        push_str(&mut all, ICEBERG_FILL_NULLS_HELPERS);
    }
    all
}

fn clone_opt(o: &Option<String>) -> (r: Option<String>)
    ensures
        r == *o,
{
    match o {
        Some(s) => {
            let c = s.clone();
            proof {
                assert(c@ == s@);
                assert(c == *s);
            }
            Some(c)
        },
        None => None,
    }
}

fn clone_strings(v: &Vec<String>) -> (r: Vec<String>)
    ensures
        r@ == v@,
{
    let mut out: Vec<String> = Vec::new();
    let mut i: usize = 0;
    while i < v.len()
        invariant
            i <= v.len(),
            out@ == v@.take(i as int),
        decreases v.len() - i,
    {
        let c = v[i].clone();
        proof {
            assert(c == v@[i as int]);
        }
        out.push(c);
        proof {
            assert(out@ =~= v@.take(i + 1));
        }
        i = i + 1;
    }
    proof {
        assert(v@.take(v@.len() as int) =~= v@);
    }
    out
}

fn clone_auth(a: &Option<crate::codegen::JdbcAuth>) -> (r: Option<crate::codegen::JdbcAuth>)
    ensures
        r == *a,
{
    match a {
        Some(crate::codegen::JdbcAuth::RdsIam { username, host, port, region }) => {
            let h = host.clone();
            let g = region.clone();
            proof {
                assert(h == *host);
                assert(g == *region);
            }
            Some(crate::codegen::JdbcAuth::RdsIam { username: clone_opt(username), host: h, port: *port, region: g })
        },
        None => None,
    }
}

/// The sink as it is written: an Iceberg sink of a job with partition
/// columns takes the job's columns.
pub open spec fn effective_sink(k: Sink, job_partition_by: Vec<String>) -> Sink {
    if k.sink_type@ == "iceberg"@ && job_partition_by@.len() > 0 {
        Sink { partition_by: job_partition_by, ..k }
    } else {
        k
    }
}

/// Two sinks that differ at most in their partition columns' vectors, not
/// in the columns, render alike.
proof fn lemma_sink_code_same(a: Sink, b: Sink, ds: Seq<char>, fill: bool)
    requires
        a.source == b.source,
        a.sink_type == b.sink_type,
        a.format == b.format,
        a.path == b.path,
        a.connection_url == b.connection_url,
        a.table == b.table,
        a.database == b.database,
        a.secret_id == b.secret_id,
        a.mode == b.mode,
        a.partition_by@ == b.partition_by@,
        a.fill_nulls == b.fill_nulls,
        a.connection_type == b.connection_type,
        a.auth == b.auth,
    ensures
        sink_code(a, ds, fill) == sink_code(b, ds, fill),
{
}

fn sink_for_write(k: &Sink, job_partition_by: &Vec<String>) -> (r: Sink)
    ensures
        r.source == effective_sink(*k, *job_partition_by).source,
        r.sink_type == effective_sink(*k, *job_partition_by).sink_type,
        r.format == effective_sink(*k, *job_partition_by).format,
        r.path == effective_sink(*k, *job_partition_by).path,
        r.connection_url == effective_sink(*k, *job_partition_by).connection_url,
        r.table == effective_sink(*k, *job_partition_by).table,
        r.database == effective_sink(*k, *job_partition_by).database,
        r.secret_id == effective_sink(*k, *job_partition_by).secret_id,
        r.mode == effective_sink(*k, *job_partition_by).mode,
        r.partition_by@ == effective_sink(*k, *job_partition_by).partition_by@,
        r.fill_nulls == effective_sink(*k, *job_partition_by).fill_nulls,
        r.connection_type == effective_sink(*k, *job_partition_by).connection_type,
        r.auth == effective_sink(*k, *job_partition_by).auth,
{
    let iceberg = crate::text::str_eq(k.sink_type.as_str(), "iceberg") && job_partition_by.len() > 0;
    let pb = if iceberg {
        clone_strings(job_partition_by)
    } else {
        clone_strings(&k.partition_by)
    };
    let t = k.sink_type.clone();
    proof {
        assert(t == k.sink_type);
    }
    Sink {
        source: clone_opt(&k.source),
        sink_type: t,
        format: clone_opt(&k.format),
        path: clone_opt(&k.path),
        connection_url: clone_opt(&k.connection_url),
        table: clone_opt(&k.table),
        database: clone_opt(&k.database),
        secret_id: clone_opt(&k.secret_id),
        mode: clone_opt(&k.mode),
        partition_by: pb,
        fill_nulls: k.fill_nulls,
        connection_type: clone_opt(&k.connection_type),
        auth: clone_auth(&k.auth),
    }
}

/// The name the script's steps fall back on: the first source's, or
/// `source`.
pub open spec fn default_source_of(job: ScriptJob) -> Seq<char> {
    if job.sources@.len() > 0 {
        job.sources@[0].name@
    } else {
        "source"@
    }
}

pub open spec fn source_names(job: ScriptJob) -> Seq<Seq<char>> {
    job.sources@.map_values(|s: Source| s.name@)
}

pub open spec fn ts_column(job: ScriptJob) -> Option<Seq<char>> {
    match job.partition_timestamp_column {
        Some(c) => Some(c@),
        None => None,
    }
}

/// What the transforms render to, for the sorted aliases `us` of the
/// first `us.len()` transforms.
pub open spec fn transforms_result(job: ScriptJob, us: Seq<Seq<String>>) -> Result<Seq<Seq<char>>, Seq<char>> {
    transforms_code(job.transforms@.take(us.len() as int), default_source_of(job), source_names(job), us)
}

/// `us` is a way the transforms' aliases can be ordered: sorted, and
/// covering every transform unless a transform before the last fails.
pub open spec fn alias_choice(job: ScriptJob, us: Seq<Seq<String>>) -> bool {
    &&& aliases_prefix(job.transforms@, us)
    &&& (transforms_result(job, us) is Ok ==> us.len() == job.transforms@.len())
}

/// The parts of the body that follow from the sink: the partition column
/// derivation, the PII masking and the write.
pub open spec fn sink_sections(job: ScriptJob, k: Sink) -> Result<Seq<Seq<char>>, Seq<char>> {
    let ds = default_source_of(job);
    let ss = match k.source {
        Some(x) => x@,
        None => ds,
    };
    let deriv = match partition_derivation(views(job.partition_by@), job.create_timestamp, ts_column(job), ss) {
        Some(t) => seq![t],
        None => Seq::empty(),
    };
    let pii = if job.mask_pii@.len() > 0 {
        seq!["    # --- PII Masking ---\n"@ + pii_block(views(job.mask_pii@), "df_"@ + ss)]
    } else {
        Seq::empty()
    };
    match sink_code(effective_sink(k, job.partition_by), ds, fills_nulls(job)) {
        Ok(c) => Ok(deriv + pii + seq!["    # --- Sink ---\n"@ + c]),
        Err(e) => Err(e),
    }
}

pub open spec fn source_section(job: ScriptJob, engine: Seq<char>) -> Result<Seq<Seq<char>>, Seq<char>> {
    if job.sources@.len() == 0 {
        Ok(Seq::empty())
    } else {
        match sources_code(job.sources@, engine) {
            Ok(v) => Ok(seq!["    # --- Sources ---\n"@ + joined(v, "\n"@)]),
            Err(e) => Err(e),
        }
    }
}

pub open spec fn transform_section(job: ScriptJob, us: Seq<Seq<String>>) -> Result<Seq<Seq<char>>, Seq<char>> {
    if job.transforms@.len() == 0 {
        Ok(Seq::empty())
    } else {
        match transforms_result(job, us) {
            Ok(v) => Ok(seq!["    # --- Transforms ---\n"@ + joined(v, "\n"@)]),
            Err(e) => Err(e),
        }
    }
}

/// Where the PII masking goes: with entities to mask, the masking block is
/// the section right before the sink's write, and it masks the DataFrame
/// the sink writes (`df_<sink source>`); with none, the sink sections are
/// only the optional partition derivation and the write.
pub proof fn law_pii_block_precedes_the_write(job: ScriptJob, k: Sink)
    ensures
        sink_sections(job, k) matches Ok(secs) ==> {
            let ss = match k.source {
                Some(x) => x@,
                None => default_source_of(job),
            };
            let d: int = if partition_derivation(views(job.partition_by@), job.create_timestamp, ts_column(job), ss) is Some {
                1
            } else {
                0
            };
            &&& job.mask_pii@.len() > 0 ==> secs.len() == d + 2 && secs[d]
                == "    # --- PII Masking ---\n"@ + pii_block(views(job.mask_pii@), "df_"@ + ss)
            &&& job.mask_pii@.len() == 0 ==> secs.len() == d + 1
        },
{
    if sink_sections(job, k) is Ok {
        let secs = sink_sections(job, k)->Ok_0;
        let ds = default_source_of(job);
        let ss = match k.source {
            Some(x) => x@,
            None => ds,
        };
        let deriv = match partition_derivation(views(job.partition_by@), job.create_timestamp, ts_column(job), ss) {
            Some(t) => seq![t],
            None => Seq::empty(),
        };
        let c = sink_code(effective_sink(k, job.partition_by), ds, fills_nulls(job))->Ok_0;
        let pii_line = "    # --- PII Masking ---\n"@ + pii_block(views(job.mask_pii@), "df_"@ + ss);
        if job.mask_pii@.len() > 0 {
            assert(secs =~= deriv + seq![pii_line] + seq!["    # --- Sink ---\n"@ + c]);
            assert(secs[deriv.len() as int] == pii_line);
        } else {
            assert(secs =~= deriv + seq!["    # --- Sink ---\n"@ + c]);
        }
    }
}

/// A job that gives its own run body gets exactly that body, indented, and
/// no PII masking: its imports do not bring in the entity detector, even
/// when it lists entities to mask.
pub proof fn law_body_override_masks_nothing(job: ScriptJob, engine: Seq<char>, us: Seq<Seq<String>>)
    requires
        job.body is Some,
    ensures
        run_body(job, us) == Ok::<Seq<char>, Seq<char>>(indented(job.body->Some_0@)),
        !feature_imports(job, engine).contains("from awsglueml.transforms import EntityDetector"@),
{
    law_entity_detector_import(job, engine);
}

/// The entity detector is imported exactly when the script masks PII: the
/// job lists entities to mask and its body is generated.
pub proof fn law_entity_detector_import(job: ScriptJob, engine: Seq<char>)
    ensures
        feature_imports(job, engine).contains("from awsglueml.transforms import EntityDetector"@) <==> masks_pii(job),
{
    reveal_strlit("import boto3");
    reveal_strlit("import json");
    reveal_strlit("import requests");
    reveal_strlit("from awsglue.dynamicframe import DynamicFrame");
    reveal_strlit("from pyspark.sql import functions as F");
    reveal_strlit("from pyspark.sql.window import Window");
    reveal_strlit("from awsglueml.transforms import EntityDetector");
    reveal_strlit("from pyspark.sql.types import (StructType, StructField, ArrayType, MapType, DoubleType, FloatType, IntegerType, LongType, ShortType, ByteType, TimestampType, DateType, DecimalType, BinaryType, BooleanType, NullType)");
    let f = feature_imports(job, engine);
    let target = "from awsglueml.transforms import EntityDetector"@;
    if masks_pii(job) {
        assert(f[f.len() - 1] == target);
    } else {
        assert forall|i: int| 0 <= i < f.len() implies f[i].len() != target.len() by {}
        if f.contains(target) {
            let i = choose|i: int| 0 <= i < f.len() && f[i] == target;
            assert(f[i].len() != target.len());
        }
    }
}

/// A generated `run()` body with nothing to do is `pass`: a job with no
/// sources, no transforms and no sink; otherwise each generated section
/// appears in it, separated by blank lines.
pub proof fn law_run_body_sections(job: ScriptJob, us: Seq<Seq<String>>, i: int)
    requires
        job.body is None,
    ensures
        (job.sources@.len() == 0 && job.transforms@.len() == 0 && job.sink is None) ==> run_body(job, us)
            == Ok::<Seq<char>, Seq<char>>("    pass"@),
        body_sections(job, default_engine(job.job_type, job.config@), us) matches Ok(ps) ==> (0 <= i < ps.len() ==> (run_body(
            job,
            us,
        ) is Ok && contains_text(run_body(job, us)->Ok_0, ps[i]))),
{
    if job.sources@.len() == 0 && job.transforms@.len() == 0 && job.sink is None {
        let ps = body_sections(job, default_engine(job.job_type, job.config@), us)->Ok_0;
        assert(ps =~= Seq::<Seq<char>>::empty() + Seq::<Seq<char>>::empty());
    }
    if body_sections(job, default_engine(job.job_type, job.config@), us) is Ok {
        let ps = body_sections(job, default_engine(job.job_type, job.config@), us)->Ok_0;
        if 0 <= i < ps.len() {
            lemma_joined_contains_part(ps, "\n\n"@, i);
        }
    }
}

/// The sections of the generated body in order, or the first error.
pub open spec fn body_sections(job: ScriptJob, engine: Seq<char>, us: Seq<Seq<String>>) -> Result<Seq<Seq<char>>, Seq<char>> {
    match source_section(job, engine) {
        Err(e) => Err(e),
        Ok(a) => match transform_section(job, us) {
            Err(e) => Err(e),
            Ok(b) => match job.sink {
                None => Ok(a + b),
                Some(k) => match sink_sections(job, k) {
                    Ok(c) => Ok(a + b + c),
                    Err(e) => Err(e),
                },
            },
        },
    }
}

/// The body of the script's `run()` function: the job's own body,
/// indented, or the generated sections separated by blank lines, or
/// `pass` when there are none.
pub open spec fn run_body(job: ScriptJob, us: Seq<Seq<String>>) -> Result<Seq<char>, Seq<char>> {
    match job.body {
        Some(b) => Ok(indented(b@)),
        None => match body_sections(job, default_engine(job.job_type, job.config@), us) {
            Ok(ps) => Ok(
                if ps.len() == 0 {
                    "    pass"@
                } else {
                    joined(ps, "\n\n"@)
                },
            ),
            Err(e) => Err(e),
        },
    }
}

fn prefixed(head: &str, t: &str) -> (r: String)
    ensures
        r@ == head@ + t@,
{
    let mut out = owned(head);
    push_str(&mut out, t);
    out
}

fn sink_parts(job: &ScriptJob, k: &Sink, ds: &str, parts: &mut Vec<String>) -> (r: Result<(), String>)
    requires
        ds@ == default_source_of(*job),
    ensures
        match sink_sections(*job, *k) {
            Ok(c) => r is Ok && views(final(parts)@) == views(old(parts)@) + c,
            Err(e) => r matches Err(m) && m@ == e,
        },
{
    let ss: &str = match &k.source {
        Some(x) => x.as_str(),
        None => ds,
    };
    let ghost before = views(parts@);
    let ghost deriv_spec = match partition_derivation(views(job.partition_by@), job.create_timestamp, ts_column(*job), ss@) {
        Some(t) => seq![t],
        None => Seq::<Seq<char>>::empty(),
    };
    match render_partition_derivation(job, ss) {
        Some(d) => parts.push(d),
        None => {},
    }
    proof {
        assert(views(parts@) =~= before + deriv_spec);
    }
    let ghost mid = views(parts@);
    let ghost pii_spec = if job.mask_pii@.len() > 0 {
        seq!["    # --- PII Masking ---\n"@ + pii_block(views(job.mask_pii@), "df_"@ + ss@)]
    } else {
        Seq::<Seq<char>>::empty()
    };
    if job.mask_pii.len() > 0 {
        let var = prefixed("df_", ss);
        let block = render_pii(&job.mask_pii, var.as_str());
        parts.push(prefixed("    # --- PII Masking ---\n", block.as_str()));
    }
    proof {
        assert(views(parts@) =~= mid + pii_spec);
    }
    let ghost mid2 = views(parts@);
    let fill = should_fill_nulls(job);
    let w = sink_for_write(k, &job.partition_by);
    proof {
        lemma_sink_code_same(w, effective_sink(*k, job.partition_by), ds@, fill);
    }
    match render_sink(&w, ds, fill) {
        Ok(c) => {
            parts.push(prefixed("    # --- Sink ---\n", c.as_str()));
            proof {
                assert(views(parts@) =~= before + (deriv_spec + pii_spec + seq!["    # --- Sink ---\n"@ + c@]));
            }
            Ok(())
        },
        Err(m) => Err(m),
    }
}

fn source_names_exec(job: &ScriptJob) -> (r: Vec<String>)
    ensures
        views(r@) == source_names(*job),
{
    let mut out: Vec<String> = Vec::new();
    let mut i: usize = 0;
    while i < job.sources.len()
        invariant
            i <= job.sources.len(),
            views(out@) == job.sources@.take(i as int).map_values(|s: Source| s.name@),
        decreases job.sources.len() - i,
    {
        let ghost before = views(out@);
        out.push(job.sources[i].name.clone());
        proof {
            assert(views(out@) =~= before.push(job.sources@[i as int].name@));
            assert(job.sources@.take(i + 1).map_values(|s: Source| s.name@) =~= job.sources@.take(i as int).map_values(
                |s: Source| s.name@,
            ).push(job.sources@[i as int].name@));
        }
        i = i + 1;
    }
    proof {
        assert(job.sources@.take(job.sources@.len() as int) =~= job.sources@);
    }
    out
}

/// Render the body of the job's `run()` function.
pub fn render_run_body(job: &ScriptJob) -> (r: Result<String, String>)
    ensures
        match job.body {
            Some(b) => r matches Ok(x) && x@ == indented(b@),
            None => match source_section(*job, default_engine(job.job_type, job.config@)) {
                Err(e) => r matches Err(m) && m@ == e,
                Ok(_) => exists|us: Seq<Seq<String>>|
                    #[trigger] alias_choice(*job, us) && match run_body(*job, us) {
                        Ok(t) => r matches Ok(x) && x@ == t,
                        Err(e) => r matches Err(m) && m@ == e,
                    },
            },
        },
{
    if let Some(b) = &job.body {
        return Ok(indent_body(b.as_str()));
    }
    let engine = default_engine_for(job);
    let ds: &str = if job.sources.len() > 0 {
        job.sources[0].name.as_str()
    } else {
        "source"
    };
    let mut parts: Vec<String> = Vec::new();
    if job.sources.len() > 0 {
        match render_sources(&job.sources, engine.as_str()) {
            Ok(c) => {
                parts.push(prefixed("    # --- Sources ---\n", c.as_str()));
                proof {
                    assert(views(parts@) =~= seq!["    # --- Sources ---\n"@ + c@]);
                }
            },
            Err(m) => {
                return Err(m);
            },
        }
    } else {
        proof {
            assert(views(parts@) =~= Seq::<Seq<char>>::empty());
        }
    }
    let ghost a = views(parts@);
    assert(source_section(*job, engine@) == Ok::<Seq<Seq<char>>, Seq<char>>(a));
    let ghost mut us = Seq::<Seq<String>>::empty();
    proof {
        assert(job.transforms@.take(0) =~= Seq::<crate::codegen::Transform>::empty());
    }
    if job.transforms.len() > 0 {
        let names = source_names_exec(job);
        let t = render_transforms(&job.transforms, ds, &names);
        proof {
            us = choose|u: Seq<Seq<String>>|
                #[trigger] aliases_prefix(job.transforms@, u) && match t {
                    Ok(x) => u.len() == job.transforms@.len() && (transforms_code(
                        job.transforms@,
                        ds@,
                        views(names@),
                        u,
                    ) matches Ok(v) && x@ == joined(v, "\n"@)),
                    Err(m) => transforms_code(job.transforms@.take(u.len() as int), ds@, views(names@), u) == Err::<
                        Seq<Seq<char>>,
                        Seq<char>,
                    >(m@),
                };
            assert(job.transforms@.take(job.transforms@.len() as int) =~= job.transforms@);
        }
        match t {
            Ok(c) => {
                parts.push(prefixed("    # --- Transforms ---\n", c.as_str()));
                proof {
                    assert(ds@ == default_source_of(*job));
                    assert(transforms_result(*job, us) == transforms_code(job.transforms@, ds@, views(names@), us));
                    assert(views(parts@) =~= a + seq!["    # --- Transforms ---\n"@ + c@]);
                }
            },
            Err(m) => {
                proof {
                    assert(alias_choice(*job, us));
                }
                return Err(m);
            },
        }
    }
    proof {
        assert(alias_choice(*job, us));
    }
    let ghost ab = views(parts@);
    assert(transform_section(*job, us) == Ok::<Seq<Seq<char>>, Seq<char>>(ab.skip(a.len() as int))) by {
        if job.transforms@.len() == 0 {
            assert(ab.skip(a.len() as int) =~= Seq::<Seq<char>>::empty());
        } else {
            assert(ab.skip(a.len() as int) =~= seq![ab.last()]);
        }
    }
    proof {
        assert(ab =~= a + ab.skip(a.len() as int));
    }
    match &job.sink {
        Some(k) => {
            match sink_parts(job, k, ds, &mut parts) {
                Ok(()) => {},
                Err(m) => {
                    return Err(m);
                },
            }
        },
        None => {},
    }
    if parts.len() == 0 {
        Ok(owned("    pass"))
    } else {
        Ok(join(&parts, "\n\n"))
    }
}

/// What a job's script is made of.
pub enum ScriptPlan {
    /// A task-only job has no script of its own (it is empty).
    NoScript,
    /// The script is the file at this path, as it stands.
    External(String),
    /// The script is the template of the job type filled in with these
    /// values.
    Template {
        job_type: JobType,
        imports_block: String,
        body: String,
        warehouse: String,
        catalog_id: String,
    },
}

/// The script of a job with its own script file: the file's text as it
/// stands, or, when it could not be read (`contents` is `None`), the error
/// naming the file.
pub fn external_script(path: &str, contents: Option<String>) -> (r: Result<String, String>)
    ensures
        match contents {
            Some(c) => r matches Ok(s) && s@ == c@,
            None => r matches Err(m) && m@ == "Failed to read job_file: "@ + path@,
        },
{
    match contents {
        Some(c) => Ok(c),
        None => {
            let mut m = owned("Failed to read job_file: ");
            push_str(&mut m, path);
            proof {
                reveal_strlit("Failed to read job_file: ");
            }
            Err(m)
        },
    }
}

/// A string member of the job's `glue` configuration, or empty.
pub open spec fn glue_setting(config: JsonV, key: Seq<char>) -> Seq<char> {
    match get_member(config, "glue"@) {
        Some(g) => match str_member(g, key) {
            Some(v) => v,
            None => Seq::empty(),
        },
        None => Seq::empty(),
    }
}

fn glue_setting_exec(job: &ScriptJob, key: &str) -> (r: String)
    ensures
        r@ == glue_setting(job.config@, key@),
{
    match get(&job.config, "glue") {
        Some(g) => match get_str(g, key) {
            Some(v) => owned(v),
            None => String::new(),
        },
        None => String::new(),
    }
}

/// The plan built from the template values, given how the body rendered.
pub open spec fn template_outcome(job: ScriptJob, body: Result<Seq<char>, Seq<char>>, r: Result<ScriptPlan, String>) -> bool {
    match body {
        Ok(b) => r matches Ok(ScriptPlan::Template { job_type, imports_block, body: x, warehouse, catalog_id }) && job_type
            == job.job_type && imports_block@ == imports_text(job, default_engine(job.job_type, job.config@)) && x@ == b
            && warehouse@ == glue_setting(job.config@, "warehouse"@) && catalog_id@ == glue_setting(
            job.config@,
            "catalog_id"@,
        ),
        Err(e) => r matches Err(m) && m@ == e,
    }
}

/// Plan the job's script: nothing for a task-only job, the job's own file
/// where it names one, else the template values (imports, `run()` body,
/// Iceberg warehouse and catalog id from the `glue` configuration).
pub fn plan_script(job: &ScriptJob) -> (r: Result<ScriptPlan, String>)
    ensures
        task_only(job.job_type) ==> r matches Ok(ScriptPlan::NoScript),
        !task_only(job.job_type) && job.job_file is Some ==> (r matches Ok(ScriptPlan::External(p)) && p@
            == job.job_file->0@),
        !task_only(job.job_type) && job.job_file is None ==> match job.body {
            Some(b) => template_outcome(*job, Ok(indented(b@)), r),
            None => match source_section(*job, default_engine(job.job_type, job.config@)) {
                Err(e) => template_outcome(*job, Err(e), r),
                Ok(_) => exists|us: Seq<Seq<String>>|
                    #[trigger] alias_choice(*job, us) && template_outcome(*job, run_body(*job, us), r),
            },
        },
{
    if is_task_only(job.job_type) {
        return Ok(ScriptPlan::NoScript);
    }
    if let Some(p) = &job.job_file {
        return Ok(ScriptPlan::External(p.clone()));
    }
    let engine = default_engine_for(job);
    let imports_block = script_imports(job, engine.as_str());
    let body = match render_run_body(job) {
        Ok(b) => b,
        Err(m) => {
            return Err(m);
        },
    };
    Ok(ScriptPlan::Template {
        job_type: job.job_type,
        imports_block,
        body,
        warehouse: glue_setting_exec(job, "warehouse"),
        catalog_id: glue_setting_exec(job, "catalog_id"),
    })
}

} // verus!
