//! Rendering the sources and the sink of a PySpark job into the lines of
//! its `run()` body.
use vstd::prelude::*;
use crate::codegen::{
    engine_of, glue_read, glue_from_options, jdbc_auth, missing_sink_field, missing_source_field, opt_view, py_lit,
    python_literal, quoted_cols, quoted_list, render_jdbc_auth, render_secret_fetch, require_sink_str, require_str,
    secret_fetch, effective_engine, JdbcAuth, Sink, Source,
};
use crate::json::{entries_view, insert_entry, lemma_entries_view, json_view, set_entry, clone_json, Json, JsonV};
use crate::text::{contains_text, decimal, join, lemma_contains_middle, lemma_contains_text_trans, lemma_joined_contains_part, joined, owned, push_str, str_eq, u64_to_decimal, views};

verus! {

// ------------------------------------------------------------------
// Option dictionaries
// ------------------------------------------------------------------

/// `base` with each pair of `add` set in turn.
pub open spec fn with_entries(base: Seq<(Seq<char>, JsonV)>, add: Seq<(Seq<char>, JsonV)>) -> Seq<(Seq<char>, JsonV)>
    decreases add.len(),
{
    if add.len() == 0 {
        base
    } else {
        set_entry(with_entries(base, add.drop_last()), add.last().0, add.last().1)
    }
}

/// The entries of an object; nothing for other values.
pub open spec fn object_entries(j: JsonV) -> Seq<(Seq<char>, JsonV)> {
    match j {
        JsonV::Object(es) => es,
        _ => Seq::empty(),
    }
}

pub open spec fn seed_view(seed: Seq<(String, Json)>) -> Seq<(Seq<char>, JsonV)> {
    seed.map_values(|p: (String, Json)| (p.0@, p.1@))
}

/// The dict literal of the seed pairs with the user's options laid over
/// them, keys in order.
pub open spec fn options_dict(seed: Seq<(Seq<char>, JsonV)>, user: JsonV) -> Seq<char> {
    py_lit(JsonV::Object(with_entries(with_entries(Seq::empty(), seed), object_entries(user))))
}

/// Build a Python dict literal from seed pairs, with the user-supplied
/// options merged in afterwards.
pub fn build_options_dict(seed: Vec<(String, Json)>, user_opts: &Json) -> (r: String)
    ensures
        r@ == options_dict(seed_view(seed@), user_opts@),
{
    let ghost sv = seed_view(seed@);
    let mut es: Vec<(String, Json)> = Vec::new();
    let mut i: usize = 0;
    proof {
        assert(entries_view(es@, 0) =~= Seq::<(Seq<char>, JsonV)>::empty());
        assert(sv.take(0) =~= Seq::<(Seq<char>, JsonV)>::empty());
    }
    while i < seed.len()
        invariant
            sv == seed_view(seed@),
            i <= seed.len(),
            entries_view(es@, es@.len()) == with_entries(Seq::empty(), sv.take(i as int)),
        decreases seed.len() - i,
    {
        proof {
            assert(sv.take(i + 1).drop_last() =~= sv.take(i as int));
            assert(sv.take(i + 1).last() == (seed@[i as int].0@, seed@[i as int].1@));
        }
        let k = seed[i].0.clone();
        let v = clone_json(&seed[i].1);
        insert_entry(&mut es, k, v);
        i = i + 1;
    }
    proof {
        assert(sv.take(sv.len() as int) =~= sv);
    }
    let ghost base = with_entries(Seq::empty(), sv);
    match user_opts {
        Json::Object(u) => {
            let ghost uv = entries_view(u@, u@.len());
            proof {
                lemma_entries_view(u@, u@.len());
                assert(uv.take(0) =~= Seq::<(Seq<char>, JsonV)>::empty());
            }
            let mut j: usize = 0;
            while j < u.len()
                invariant
                    uv == entries_view(u@, u@.len()),
                    uv.len() == u.len(),
                    forall|k: int| 0 <= k < u.len() ==> #[trigger] uv[k] == (u@[k].0@, json_view(u@[k].1)),
                    j <= u.len(),
                    entries_view(es@, es@.len()) == with_entries(base, uv.take(j as int)),
                decreases u.len() - j,
            {
                proof {
                    assert(uv.take(j + 1).drop_last() =~= uv.take(j as int));
                    assert(uv.take(j + 1).last() == uv[j as int]);
                }
                let k = u[j].0.clone();
                let v = clone_json(&u[j].1);
                insert_entry(&mut es, k, v);
                j = j + 1;
            }
            proof {
                assert(uv.take(uv.len() as int) =~= uv);
            }
        },
        _ => {
            proof {
                assert(with_entries(base, object_entries(user_opts@)) == base);
            }
        },
    }
    let obj = Json::Object(es);
    python_literal(&obj)
}

/// `.option("k", "v")` for each seed pair.
proof fn lemma_seed_options_two(a: (Seq<char>, Seq<char>), b: (Seq<char>, Seq<char>))
    ensures
        seed_options(seq![a, b]) == ".option(\""@ + a.0 + "\", \""@ + a.1 + "\")"@ + ".option(\""@ + b.0 + "\", \""@ + b.1 + "\")"@,
{
    assert(seq![a, b].drop_last() =~= seq![a]);
    assert(seed_options(Seq::<(Seq<char>, Seq<char>)>::empty()) =~= Seq::<char>::empty());
    assert(seq![a].drop_last() =~= Seq::<(Seq<char>, Seq<char>)>::empty());
    assert(seed_options(seq![a]) =~= ".option(\""@ + a.0 + "\", \""@ + a.1 + "\")"@);
    assert(seed_options(seq![a, b]) =~= ".option(\""@ + a.0 + "\", \""@ + a.1 + "\")"@ + ".option(\""@ + b.0 + "\", \""@ + b.1 + "\")"@);
}

pub open spec fn seed_options(seed: Seq<(Seq<char>, Seq<char>)>) -> Seq<char>
    decreases seed.len(),
{
    if seed.len() == 0 {
        Seq::empty()
    } else {
        seed_options(seed.drop_last()) + ".option(\""@ + seed.last().0 + "\", \""@ + seed.last().1 + "\")"@
    }
}

/// `.option("k", <literal>)` for each user option, in key order.
pub open spec fn extra_options(es: Seq<(Seq<char>, JsonV)>) -> Seq<char>
    decreases es.len(),
{
    if es.len() == 0 {
        Seq::empty()
    } else {
        extra_options(es.drop_last()) + ".option(\""@ + es.last().0 + "\", "@ + py_lit(es.last().1) + ")"@
    }
}

/// Append `.option(k, v)` calls to a Spark reader chain: the seed pairs as
/// string literals, then the user's options as Python literals.
pub fn append_spark_options(chain: &mut String, seed: &Vec<(String, String)>, extra: &Json)
    ensures
        final(chain)@ == old(chain)@ + seed_options(seed@.map_values(|p: (String, String)| (p.0@, p.1@)))
            + extra_options(object_entries(extra@)),
{
    let ghost start = chain@;
    let ghost sv = seed@.map_values(|p: (String, String)| (p.0@, p.1@));
    let mut i: usize = 0;
    proof {
        assert(sv.take(0) =~= Seq::<(Seq<char>, Seq<char>)>::empty());
        assert(chain@ =~= start + seed_options(sv.take(0)));
    }
    while i < seed.len()
        invariant
            sv == seed@.map_values(|p: (String, String)| (p.0@, p.1@)),
            i <= seed.len(),
            chain@ == start + seed_options(sv.take(i as int)),
        decreases seed.len() - i,
    {
        proof {
            assert(sv.take(i + 1).drop_last() =~= sv.take(i as int));
            assert(sv.take(i + 1).last() == (seed@[i as int].0@, seed@[i as int].1@));
        }
        push_str(chain, ".option(\"");
        push_str(chain, seed[i].0.as_str());
        push_str(chain, "\", \"");
        push_str(chain, seed[i].1.as_str());
        push_str(chain, "\")");
        proof {
            assert(chain@ =~= start + seed_options(sv.take(i + 1)));
        }
        i = i + 1;
    }
    proof {
        assert(sv.take(sv.len() as int) =~= sv);
    }
    let ghost mid = chain@;
    match extra {
        Json::Object(u) => {
            let ghost uv = entries_view(u@, u@.len());
            proof {
                lemma_entries_view(u@, u@.len());
                assert(uv.take(0) =~= Seq::<(Seq<char>, JsonV)>::empty());
                assert(chain@ =~= mid + extra_options(uv.take(0)));
            }
            let mut j: usize = 0;
            while j < u.len()
                invariant
                    uv == entries_view(u@, u@.len()),
                    uv.len() == u.len(),
                    forall|k: int| 0 <= k < u.len() ==> #[trigger] uv[k] == (u@[k].0@, json_view(u@[k].1)),
                    j <= u.len(),
                    chain@ == mid + extra_options(uv.take(j as int)),
                decreases u.len() - j,
            {
                proof {
                    assert(uv.take(j + 1).drop_last() =~= uv.take(j as int));
                    assert(uv.take(j + 1).last() == uv[j as int]);
                }
                push_str(chain, ".option(\"");
                push_str(chain, u[j].0.as_str());
                push_str(chain, "\", ");
                let lit = python_literal(&u[j].1);
                push_str(chain, lit.as_str());
                push_str(chain, ")");
                proof {
                    assert(chain@ =~= mid + extra_options(uv.take(j + 1)));
                }
                j = j + 1;
            }
            proof {
                assert(uv.take(uv.len() as int) =~= uv);
            }
        },
        _ => {
            proof {
                assert(chain@ =~= mid + extra_options(object_entries(extra@)));
            }
        },
    }
}

// ------------------------------------------------------------------
// Sources
// ------------------------------------------------------------------

pub open spec fn str_opt(o: Option<String>) -> Option<Seq<char>> {
    match o {
        Some(s) => Some(s@),
        None => None,
    }
}

pub open spec fn auth_opt(o: Option<JdbcAuth>) -> Option<JdbcAuth> {
    o
}

/// The message for a jdbc source on the Glue engine without a connection type.
pub open spec fn missing_connection_type(name: Seq<char>) -> Seq<char> {
    "source '"@ + name
        + "': 'connection_type' is required for jdbc+glue (mysql, postgresql, sqlserver, oracle, redshift)"@
}

/// The JDBC URL of a source: its `connection_url`; without one, under RDS
/// IAM auth with a connection type and a database,
/// `jdbc:<type>://<host>:<port>/<database>`.
pub open spec fn jdbc_url(s: Source) -> Option<Seq<char>> {
    match s.connection_url {
        Some(u) => Some(u@),
        None => match (s.auth, s.connection_type, s.database) {
            (Some(JdbcAuth::RdsIam { host, port, .. }), Some(ct), Some(db)) => Some(
                "jdbc:"@ + ct@ + "://"@ + host@ + ":"@ + decimal(port as nat) + "/"@ + db@,
            ),
            _ => None,
        },
    }
}

fn jdbc_url_text(s: &Source) -> (r: Option<String>)
    ensures
        match jdbc_url(*s) {
            Some(u) => r matches Some(x) && x@ == u,
            None => r is None,
        },
{
    match &s.connection_url {
        Some(u) => Some(owned(u.as_str())),
        None => match (&s.auth, &s.connection_type, &s.database) {
            (Some(JdbcAuth::RdsIam { host, port, .. }), Some(ct), Some(db)) => {
                let mut u = owned("jdbc:");
                push_str(&mut u, ct.as_str());
                push_str(&mut u, "://");
                push_str(&mut u, host.as_str());
                push_str(&mut u, ":");
                let p = u64_to_decimal(*port);
                push_str(&mut u, p.as_str());
                push_str(&mut u, "/");
                push_str(&mut u, db.as_str());
                Some(u)
            },
            _ => None,
        },
    }
}

pub open spec fn header_entries(h: Seq<(String, String)>) -> Seq<(Seq<char>, JsonV)> {
    h.map_values(|p: (String, String)| (p.0@, JsonV::Str(p.1@)))
}

/// The lines reading source `s` into `df_<name>`, after any secret fetch;
/// or the error for a missing field.
pub open spec fn source_body(s: Source, default_engine: Seq<char>) -> Result<Seq<Seq<char>>, Seq<char>> {
    let name = s.name@;
    let var = "df_"@ + name;
    let ctx = name + "_ctx"@;
    let engine = engine_of(s, default_engine);
    let t = s.source_type@;
    if t == "s3"@ {
        match s.path {
            None => Err(missing_source_field(name, "path"@)),
            Some(path) => {
                let format = match s.format {
                    Some(f) => f@,
                    None => "parquet"@,
                };
                if engine == "glue"@ {
                    Ok(seq![glue_read(var, "s3"@, options_dict(seq![("paths"@, JsonV::Array(seq![JsonV::Str(path@)]))], s.options@), ctx, Some(format))])
                } else {
                    Ok(seq!["    "@ + var + " = "@ + "spark.read.format(\""@ + format + "\")"@ + extra_options(object_entries(s.options@))
                        + ".load(\""@ + path@ + "\")"@])
                }
            },
        }
    } else if t == "jdbc"@ {
        match (jdbc_url(s), s.table) {
            (None, _) => Err(missing_source_field(name, "connection_url"@)),
            (Some(_), None) => Err(missing_source_field(name, "table"@)),
            (Some(url), Some(table)) => {
                let auth = jdbc_auth(name, str_opt(s.secret_id), s.auth);
                let pre = match auth {
                    Some((_, _, p)) => p,
                    None => Seq::empty(),
                };
                if engine == "glue"@ {
                    match s.connection_type {
                        None => Err(missing_connection_type(name)),
                        Some(ct) => {
                            let base = options_dict(seq![("url"@, JsonV::Str(url)), ("dbtable"@, JsonV::Str(table@))], s.options@);
                            match auth {
                                Some((u, p, _)) => {
                                    let opts_var = "_opts_"@ + name;
                                    Ok(pre + seq![
                                        "    "@ + opts_var + " = {**"@ + base + ", \"user\": "@ + u + ", \"password\": "@ + p + "}"@,
                                        glue_read(var, ct@, opts_var, ctx, None),
                                    ])
                                },
                                None => Ok(pre + seq![glue_read(var, ct@, base, ctx, None)]),
                            }
                        },
                    }
                } else {
                    let creds = match auth {
                        Some((u, p, _)) => ".option(\"user\", "@ + u + ").option(\"password\", "@ + p + ")"@,
                        None => Seq::empty(),
                    };
                    Ok(pre + seq!["    "@ + var + " = "@ + "spark.read.format(\"jdbc\")"@ + seed_options(seq![("url"@, url), ("dbtable"@, table@)])
                        + extra_options(object_entries(s.options@)) + creds + ".load()"@])
                }
            },
        }
    } else if t == "catalog"@ {
        match (s.database, s.table) {
            (None, _) => Err(missing_source_field(name, "database"@)),
            (Some(_), None) => Err(missing_source_field(name, "table"@)),
            (Some(db), Some(table)) => Ok(seq![
                "    "@ + var + " = glueContext.create_dynamic_frame.from_catalog(database=\""@ + db@ + "\", table_name=\""@
                    + table@ + "\", transformation_ctx=\""@ + ctx + "\").toDF()"@,
            ]),
        }
    } else if t == "kafka"@ {
        match (s.connection_url, s.topic) {
            (None, _) => Err(missing_source_field(name, "connection_url"@)),
            (Some(_), None) => Err(missing_source_field(name, "topic"@)),
            (Some(servers), Some(topic)) => Ok(seq![
                "    "@ + var + " = "@ + "spark.read.format(\"kafka\")"@ + seed_options(seq![("kafka.bootstrap.servers"@, servers@), ("subscribe"@, topic@)])
                    + extra_options(object_entries(s.options@)) + ".load()"@,
            ]),
        }
    } else if t == "api"@ {
        match s.url {
            None => Err(missing_source_field(name, "url"@)),
            Some(url) => {
                let resp = "_resp_"@ + name;
                let headers = py_lit(JsonV::Object(with_entries(Seq::empty(), header_entries(s.headers@))));
                Ok(seq![
                    "    "@ + resp + " = requests.get(\""@ + url@ + "\", headers="@ + headers + ")"@,
                    "    "@ + resp + ".raise_for_status()"@,
                    "    "@ + var + " = spark.createDataFrame("@ + resp + ".json())"@,
                ])
            },
        }
    } else {
        Ok(seq!["    # Unsupported source type: "@ + t])
    }
}

/// The code reading one source: the secret fetch, if any, then the read.
pub open spec fn source_code(s: Source, default_engine: Seq<char>) -> Result<Seq<char>, Seq<char>> {
    let pre = match s.secret_id {
        Some(id) => seq![secret_fetch(id@, s.name@)],
        None => Seq::empty(),
    };
    match source_body(s, default_engine) {
        Ok(lines) => Ok(joined(pre + lines, "\n"@)),
        Err(e) => Err(e),
    }
}

/// The code of a source that renders holds its last line.
proof fn lemma_source_code_has_line(s: Source, default_engine: Seq<char>, line: Seq<char>)
    requires
        source_body(s, default_engine) is Ok,
        source_body(s, default_engine)->Ok_0.len() > 0,
        source_body(s, default_engine)->Ok_0.last() == line,
    ensures
        source_code(s, default_engine) is Ok,
        contains_text(source_code(s, default_engine)->Ok_0, line),
{
    let pre = match s.secret_id {
        Some(id) => seq![secret_fetch(id@, s.name@)],
        None => Seq::<Seq<char>>::empty(),
    };
    let all = pre + source_body(s, default_engine)->Ok_0;
    lemma_joined_contains_part(all, "\n"@, all.len() - 1);
}

/// An S3 source read by Spark loads its path, in its format (parquet when
/// unset), into `df_<name>`.
#[verifier::rlimit(50)]
pub proof fn law_s3_source_loads_its_path(s: Source, default_engine: Seq<char>)
    requires
        s.source_type@ == "s3"@,
        s.path is Some,
        engine_of(s, default_engine) != "glue"@,
    ensures
        source_code(s, default_engine) is Ok,
        contains_text(
            source_code(s, default_engine)->Ok_0,
            "    "@ + ("df_"@ + s.name@) + " = "@ + "spark.read.format(\""@ + (match s.format {
                Some(f) => f@,
                None => "parquet"@,
            }) + "\")"@,
        ),
        contains_text(source_code(s, default_engine)->Ok_0, ".load(\""@ + s.path->Some_0@ + "\")"@),
{
    let var = "df_"@ + s.name@;
    let format = match s.format {
        Some(f) => f@,
        None => "parquet"@,
    };
    let path = s.path->Some_0@;
    let a = "    "@ + var + " = "@ + "spark.read.format(\""@ + format + "\")"@;
    let opts = extra_options(object_entries(s.options@));
    let b = ".load(\""@ + path + "\")"@;
    let line = a + opts + b;
    assert(source_code(s, default_engine) is Ok && contains_text(source_code(s, default_engine)->Ok_0, line)) by {
        assert(line =~= "    "@ + var + " = "@ + "spark.read.format(\""@ + format + "\")"@ + opts + ".load(\""@ + path + "\")"@);
        assert(source_body(s, default_engine)->Ok_0 == seq![line]);
        lemma_source_code_has_line(s, default_engine, line);
    }
    lemma_ends(a, opts, b);
    lemma_contains_text_trans(source_code(s, default_engine)->Ok_0, line, a);
    lemma_contains_text_trans(source_code(s, default_engine)->Ok_0, line, b);
}

/// Both ends of a concatenation occur in it.
proof fn lemma_ends(a: Seq<char>, m: Seq<char>, b: Seq<char>)
    ensures
        contains_text(a + m + b, a),
        contains_text(a + m + b, b),
{
    lemma_contains_middle(Seq::empty(), a, m + b);
    assert(Seq::<char>::empty() + a + (m + b) =~= a + m + b);
    lemma_contains_middle(a + m, b, Seq::empty());
    assert(a + m + b + Seq::<char>::empty() =~= a + m + b);
}

/// A catalog source reads its database and its table, in that order: the
/// database name, then `", table_name="`, then the table name.
#[verifier::rlimit(60)]
pub proof fn law_catalog_source_reads_its_table(s: Source, default_engine: Seq<char>)
    requires
        s.source_type@ == "catalog"@,
        s.database is Some,
        s.table is Some,
    ensures
        source_code(s, default_engine) is Ok,
        contains_text(source_code(s, default_engine)->Ok_0, s.database->Some_0@ + "\", table_name=\""@ + s.table->Some_0@),
{
    reveal_strlit("s3");
    reveal_strlit("jdbc");
    reveal_strlit("catalog");
    assert("catalog"@ != "s3"@ && "catalog"@ != "jdbc"@) by {
        assert("catalog"@.len() != "s3"@.len());
        assert("catalog"@.len() != "jdbc"@.len());
    }
    let var = "df_"@ + s.name@;
    let db = s.database->Some_0@;
    let table = s.table->Some_0@;
    let a = "    "@ + var + " = glueContext.create_dynamic_frame.from_catalog(database=\""@;
    let mid = db + "\", table_name=\""@ + table;
    let c = "\", transformation_ctx=\""@ + (s.name@ + "_ctx"@) + "\").toDF()"@;
    let line = "    "@ + var + " = glueContext.create_dynamic_frame.from_catalog(database=\""@ + db + "\", table_name=\""@
        + table + "\", transformation_ctx=\""@ + (s.name@ + "_ctx"@) + "\").toDF()"@;
    assert(source_code(s, default_engine) is Ok && contains_text(source_code(s, default_engine)->Ok_0, line)) by {
        assert(source_body(s, default_engine)->Ok_0 == seq![line]);
        lemma_source_code_has_line(s, default_engine, line);
    }
    lemma_catalog_line(var, db, table, s.name@ + "_ctx"@);
    lemma_contains_text_trans(source_code(s, default_engine)->Ok_0, line, mid);
}

proof fn lemma_catalog_line(var: Seq<char>, db: Seq<char>, table: Seq<char>, ctx: Seq<char>)
    ensures
        contains_text(
            "    "@ + var + " = glueContext.create_dynamic_frame.from_catalog(database=\""@ + db + "\", table_name=\""@ + table
                + "\", transformation_ctx=\""@ + ctx + "\").toDF()"@,
            db + "\", table_name=\""@ + table,
        ),
{
    let a = "    "@ + var + " = glueContext.create_dynamic_frame.from_catalog(database=\""@;
    let mid = db + "\", table_name=\""@ + table;
    let c = "\", transformation_ctx=\""@ + ctx + "\").toDF()"@;
    assert("    "@ + var + " = glueContext.create_dynamic_frame.from_catalog(database=\""@ + db + "\", table_name=\""@ + table
        + "\", transformation_ctx=\""@ + ctx + "\").toDF()"@ =~= a + mid + c);
    lemma_contains_middle(a, mid, c);
}

/// A Kafka source subscribes to its topic on its bootstrap servers: the
/// servers are passed as `kafka.bootstrap.servers`, then the topic as
/// `subscribe`.
pub proof fn law_kafka_source_subscribes_to_its_topic(s: Source, default_engine: Seq<char>)
    requires
        s.source_type@ == "kafka"@,
        s.connection_url is Some,
        s.topic is Some,
    ensures
        source_code(s, default_engine) is Ok,
        contains_text(
            source_code(s, default_engine)->Ok_0,
            ".option(\""@ + "kafka.bootstrap.servers"@ + "\", \""@ + s.connection_url->Some_0@ + "\")"@ + ".option(\""@
                + "subscribe"@ + "\", \""@ + s.topic->Some_0@ + "\")"@,
        ),
{
    reveal_strlit("s3");
    reveal_strlit("jdbc");
    reveal_strlit("catalog");
    reveal_strlit("kafka");
    assert("kafka"@ != "s3"@ && "kafka"@ != "jdbc"@ && "kafka"@ != "catalog"@) by {
        assert("kafka"@.len() != "s3"@.len());
        assert("kafka"@.len() != "jdbc"@.len());
        assert("kafka"@.len() != "catalog"@.len());
    }
    let var = "df_"@ + s.name@;
    let servers = s.connection_url->Some_0@;
    let topic = s.topic->Some_0@;
    let seed = seq![("kafka.bootstrap.servers"@, servers), ("subscribe"@, topic)];
    let a = "    "@ + var + " = "@ + "spark.read.format(\"kafka\")"@;
    let mid = seed_options(seed);
    let c = extra_options(object_entries(s.options@)) + ".load()"@;
    let line = a + mid + c;
    assert(line =~= "    "@ + var + " = "@ + "spark.read.format(\"kafka\")"@ + mid + extra_options(object_entries(s.options@))
        + ".load()"@);
    assert(source_body(s, default_engine)->Ok_0 == seq![line]);
    lemma_source_code_has_line(s, default_engine, line);
    assert(seed.drop_last().drop_last() =~= Seq::<(Seq<char>, Seq<char>)>::empty());
    assert(seed.drop_last().last() == ("kafka.bootstrap.servers"@, servers));
    assert(seed.last() == ("subscribe"@, topic));
    assert(seed_options(seed.drop_last().drop_last()) == Seq::<char>::empty());
    assert(seed_options(seed.drop_last()) =~= ".option(\""@ + "kafka.bootstrap.servers"@ + "\", \""@ + servers + "\")"@);
    assert(mid =~= ".option(\""@ + "kafka.bootstrap.servers"@ + "\", \""@ + servers + "\")"@ + ".option(\""@ + "subscribe"@
        + "\", \""@ + topic + "\")"@);
    lemma_contains_middle(a, mid, c);
    lemma_contains_text_trans(source_code(s, default_engine)->Ok_0, line, mid);
}

/// A JDBC source read by Spark reads its table from its URL (the connection
/// URL, or the one built for RDS IAM authentication), in that order.
#[verifier::rlimit(60)]
pub proof fn law_jdbc_source_reads_its_table(s: Source, default_engine: Seq<char>)
    requires
        s.source_type@ == "jdbc"@,
        jdbc_url(s) is Some,
        s.table is Some,
        engine_of(s, default_engine) != "glue"@,
    ensures
        source_code(s, default_engine) is Ok,
        contains_text(
            source_code(s, default_engine)->Ok_0,
            ".option(\""@ + "url"@ + "\", \""@ + jdbc_url(s)->Some_0 + "\")"@ + ".option(\""@ + "dbtable"@ + "\", \""@
                + s.table->Some_0@ + "\")"@,
        ),
{
    reveal_strlit("s3");
    reveal_strlit("jdbc");
    assert("jdbc"@ != "s3"@) by {
        assert("jdbc"@.len() != "s3"@.len());
    }
    let name = s.name@;
    let var = "df_"@ + name;
    let url = jdbc_url(s)->Some_0;
    let table = s.table->Some_0@;
    let auth = jdbc_auth(name, str_opt(s.secret_id), s.auth);
    let pre = match auth {
        Some((_, _, p)) => p,
        None => Seq::<Seq<char>>::empty(),
    };
    let creds = match auth {
        Some((u, p, _)) => ".option(\"user\", "@ + u + ").option(\"password\", "@ + p + ")"@,
        None => Seq::<char>::empty(),
    };
    let seed = seq![("url"@, url), ("dbtable"@, table)];
    let a = "    "@ + var + " = "@ + "spark.read.format(\"jdbc\")"@;
    let mid = seed_options(seed);
    let c = extra_options(object_entries(s.options@)) + creds + ".load()"@;
    let line = a + mid + c;
    assert(source_code(s, default_engine) is Ok && contains_text(source_code(s, default_engine)->Ok_0, line)) by {
        assert(line =~= "    "@ + var + " = "@ + "spark.read.format(\"jdbc\")"@ + mid + extra_options(object_entries(s.options@))
            + creds + ".load()"@);
        assert(source_body(s, default_engine)->Ok_0 == pre + seq![line]);
        let lines = source_body(s, default_engine)->Ok_0;
        let pre2 = match s.secret_id {
            Some(id) => seq![secret_fetch(id@, s.name@)],
            None => Seq::<Seq<char>>::empty(),
        };
        let all = pre2 + lines;
        lemma_joined_contains_part(all, "\n"@, all.len() - 1);
        assert(all[all.len() - 1] == line);
    }
    assert(mid =~= ".option(\""@ + "url"@ + "\", \""@ + url + "\")"@ + ".option(\""@ + "dbtable"@ + "\", \""@ + table + "\")"@) by {
        assert(seed.drop_last().drop_last() =~= Seq::<(Seq<char>, Seq<char>)>::empty());
        assert(seed.drop_last().last() == ("url"@, url));
        assert(seed.last() == ("dbtable"@, table));
        assert(seed_options(seed.drop_last().drop_last()) == Seq::<char>::empty());
        assert(seed_options(seed.drop_last()) =~= ".option(\""@ + "url"@ + "\", \""@ + url + "\")"@);
    }
    lemma_contains_middle(a, mid, c);
    lemma_contains_text_trans(source_code(s, default_engine)->Ok_0, line, mid);
}

/// An API source fetches its URL.
pub proof fn law_api_source_fetches_its_url(s: Source, default_engine: Seq<char>)
    requires
        s.source_type@ == "api"@,
        s.url is Some,
    ensures
        source_code(s, default_engine) is Ok,
        contains_text(source_code(s, default_engine)->Ok_0, "requests.get(\""@ + s.url->Some_0@ + "\""@),
{
    reveal_strlit("s3");
    reveal_strlit("jdbc");
    reveal_strlit("catalog");
    reveal_strlit("kafka");
    reveal_strlit("api");
    let name = s.name@;
    let var = "df_"@ + name;
    assert("api"@ != "s3"@ && "api"@ != "jdbc"@ && "api"@ != "catalog"@ && "api"@ != "kafka"@) by {
        assert("api"@.len() != "s3"@.len());
        assert("api"@.len() != "jdbc"@.len());
        assert("api"@.len() != "catalog"@.len());
        assert("api"@.len() != "kafka"@.len());
    }

        let url = s.url->Some_0@;
        let resp = "_resp_"@ + name;
        let headers = py_lit(JsonV::Object(with_entries(Seq::empty(), header_entries(s.headers@))));
        let line0 = "    "@ + resp + " = requests.get(\""@ + url + "\", headers="@ + headers + ")"@;
        let lines = seq![
            line0,
            "    "@ + resp + ".raise_for_status()"@,
            "    "@ + var + " = spark.createDataFrame("@ + resp + ".json())"@,
        ];
        assert(source_body(s, default_engine)->Ok_0 == lines);
        let pre = match s.secret_id {
            Some(id) => seq![secret_fetch(id@, s.name@)],
            None => Seq::<Seq<char>>::empty(),
        };
        let all = pre + lines;
        lemma_joined_contains_part(all, "\n"@, pre.len() as int);
        assert(all[pre.len() as int] == line0);
        let a = "    "@ + resp + " = "@;
        let mid = "requests.get(\""@ + url + "\""@;
        let c = ", headers="@ + headers + ")"@;
        reveal_strlit(" = requests.get(\"");
        reveal_strlit(" = ");
        reveal_strlit("requests.get(\"");
        reveal_strlit("\", headers=");
        reveal_strlit("\"");
        reveal_strlit(", headers=");
        assert(line0 =~= a + mid + c);
        lemma_contains_middle(a, mid, c);
        lemma_contains_text_trans(source_code(s, default_engine)->Ok_0, line0, mid);
    }

fn push_line(lines: &mut Vec<String>, l: String)
    ensures
        views(final(lines)@) == views(old(lines)@).push(l@),
{
    lines.push(l);
    proof {
        assert(views(final(lines)@) =~= views(old(lines)@).push(l@));
    }
}

fn push_lines(lines: &mut Vec<String>, more: &Vec<String>)
    ensures
        views(final(lines)@) == views(old(lines)@) + views(more@),
{
    let ghost start = views(lines@);
    let mut i: usize = 0;
    while i < more.len()
        invariant
            i <= more.len(),
            views(lines@) == start + views(more@).take(i as int),
        decreases more.len() - i,
    {
        push_line(lines, more[i].clone());
        proof {
            assert(views(more@).take(i + 1) =~= views(more@).take(i as int).push(more@[i as int]@));
            assert(views(lines@) =~= start + views(more@).take(i + 1));
        }
        i = i + 1;
    }
    proof {
        assert(views(more@).take(more.len() as int) =~= views(more@));
    }
}

fn s3_source_body(s: &Source, default_engine: &str) -> (r: Result<Vec<String>, String>)
    requires
        s.source_type@ == "s3"@,
    ensures
        match source_body(*s, default_engine@) {
            Ok(lines) => r matches Ok(v) && views(v@) == lines,
            Err(e) => r matches Err(m) && m@ == e,
        },
{
    let name = s.name.as_str();
    let mut var = owned("df_");
    push_str(&mut var, name);
    let mut ctx = owned(name);
    push_str(&mut ctx, "_ctx");
    let engine = effective_engine(s, default_engine);
    let t = s.source_type.as_str();
    let mut lines: Vec<String> = Vec::new();
        let path = match require_str(match &s.path {
            Some(p) => Some(p.as_str()),
            None => None,
        }, name, "path") {
            Ok(p) => p,
            Err(e) => return Err(e),
        };
        let format = match &s.format {
            Some(f) => f.as_str(),
            None => "parquet",
        };
        proof {
            assert(format@ == (match s.format {
                Some(f) => f@,
                None => "parquet"@,
            }));
            assert(s.path == Some(s.path->Some_0) && path@ == s.path->Some_0@);
        }
        if str_eq(engine.as_str(), "glue") {
            let mut seed: Vec<(String, Json)> = Vec::new();
            let mut paths: Vec<Json> = Vec::new();
            paths.push(Json::Str(owned(path)));
            seed.push((owned("paths"), Json::Array(paths)));
            proof {
                assert(json_view(seed@[0].1) == JsonV::Array(seq![JsonV::Str(path@)])) by {
                    lemma_items_view_one(seed@[0].1);
                }
                assert(seed_view(seed@) =~= seq![("paths"@, JsonV::Array(seq![JsonV::Str(path@)]))]);
            }
            let opts = build_options_dict(seed, &s.options);
            let l = glue_from_options(var.as_str(), "s3", opts.as_str(), ctx.as_str(), Some(format));
            proof {
                reveal_strlit("s3");
                assert(l@ == glue_read("df_"@ + s.name@, "s3"@, options_dict(seq![("paths"@, JsonV::Array(seq![JsonV::Str(path@)]))], s.options@), s.name@ + "_ctx"@, Some(format@)));
            }
            push_line(&mut lines, l);
        } else {
            let mut chain = owned("spark.read.format(\"");
            push_str(&mut chain, format);
            push_str(&mut chain, "\")");
            let empty: Vec<(String, String)> = Vec::new();
            append_spark_options(&mut chain, &empty, &s.options);
            proof {
                assert(empty@.map_values(|p: (String, String)| (p.0@, p.1@)) =~= Seq::<(Seq<char>, Seq<char>)>::empty());
            }
            push_str(&mut chain, ".load(\"");
            push_str(&mut chain, path);
            push_str(&mut chain, "\")");
            proof {
                assert(seed_options(Seq::<(Seq<char>, Seq<char>)>::empty()) =~= Seq::<char>::empty());
                assert(chain@ =~= "spark.read.format(\""@ + format@ + "\")"@ + extra_options(object_entries(s.options@)) + ".load(\""@ + path@ + "\")"@);
            }
            let mut l = owned("    ");
            push_str(&mut l, var.as_str());
            push_str(&mut l, " = ");
            push_str(&mut l, chain.as_str());
            proof {
                assert(var@ == "df_"@ + s.name@);
                assert(l@ =~= "    "@ + ("df_"@ + s.name@) + " = "@ + "spark.read.format(\""@ + format@ + "\")"@ + extra_options(object_entries(s.options@)) + ".load(\""@ + path@ + "\")"@);
                assert(engine@ != "glue"@);
                assert(s.source_type@ == "s3"@);
                assert(source_body(*s, default_engine@) == Ok::<Seq<Seq<char>>, Seq<char>>(seq![l@]));
            }
            push_line(&mut lines, l);
        }
        proof {
            assert(views(lines@) =~= source_body(*s, default_engine@)->Ok_0);
        }
        Ok(lines)
}

#[verifier::rlimit(60)]
fn jdbc_source_body(s: &Source, default_engine: &str) -> (r: Result<Vec<String>, String>)
    requires
        s.source_type@ != "s3"@,
        s.source_type@ == "jdbc"@,
    ensures
        match source_body(*s, default_engine@) {
            Ok(lines) => r matches Ok(v) && views(v@) == lines,
            Err(e) => r matches Err(m) && m@ == e,
        },
{
    let name = s.name.as_str();
    let mut var = owned("df_");
    push_str(&mut var, name);
    let mut ctx = owned(name);
    push_str(&mut ctx, "_ctx");
    let engine = effective_engine(s, default_engine);
    let t = s.source_type.as_str();
    let mut lines: Vec<String> = Vec::new();
        let derived = jdbc_url_text(s);
        let url_text = match derived {
            Some(u) => u,
            None => {
                let mut m = owned("source '");
                push_str(&mut m, name);
                push_str(&mut m, "': '");
                push_str(&mut m, "connection_url");
                push_str(&mut m, "' is required");
                return Err(m);
            },
        };
        let url = url_text.as_str();
        let table = match require_str(match &s.table {
            Some(p) => Some(p.as_str()),
            None => None,
        }, name, "table") {
            Ok(p) => p,
            Err(e) => return Err(e),
        };
        let sid: Option<&str> = match &s.secret_id {
            Some(p) => Some(p.as_str()),
            None => None,
        };
        let auth = render_jdbc_auth(name, sid, match &s.auth {
            Some(a) => Some(a),
            None => None,
        });
        proof {
            assert(opt_view(sid) == str_opt(s.secret_id));
        }
        let ghost a = jdbc_auth(name@, str_opt(s.secret_id), s.auth);
        let ghost pre_v = match a {
            Some((_, _, p)) => p,
            None => Seq::<Seq<char>>::empty(),
        };
        match &auth {
            Some((_, _, pre)) => push_lines(&mut lines, pre),
            None => {},
        }
        proof {
            assert(views(lines@) =~= pre_v);
            assert(var@ == "df_"@ + s.name@);
            assert(ctx@ == s.name@ + "_ctx"@);
            assert(url@ == jdbc_url(*s)->Some_0);
            assert(table@ == s.table->Some_0@);
        }
        if str_eq(engine.as_str(), "glue") {
            let ct = match &s.connection_type {
                Some(c) => c.as_str(),
                None => {
                    let mut m = owned("source '");
                    push_str(&mut m, name);
                    push_str(&mut m, "': 'connection_type' is required for jdbc+glue (mysql, postgresql, sqlserver, oracle, redshift)");
                    proof {
                        assert(m@ =~= missing_connection_type(name@));
                    }
                    return Err(m);
                },
            };
            let mut seed: Vec<(String, Json)> = Vec::new();
            seed.push((owned("url"), Json::Str(owned(url))));
            seed.push((owned("dbtable"), Json::Str(owned(table))));
            proof {
                assert(seed_view(seed@) =~= seq![("url"@, JsonV::Str(url@)), ("dbtable"@, JsonV::Str(table@))]);
            }
            let base = build_options_dict(seed, &s.options);
            match &auth {
                Some((u, p, _)) => {
                    let mut opts_var = owned("_opts_");
                    push_str(&mut opts_var, name);
                    let mut l = owned("    ");
                    push_str(&mut l, opts_var.as_str());
                    push_str(&mut l, " = {**");
                    push_str(&mut l, base.as_str());
                    push_str(&mut l, ", \"user\": ");
                    push_str(&mut l, u.as_str());
                    push_str(&mut l, ", \"password\": ");
                    push_str(&mut l, p.as_str());
                    push_str(&mut l, "}");
                    push_line(&mut lines, l);
                    let g = glue_from_options(var.as_str(), ct, opts_var.as_str(), ctx.as_str(), None);
                    push_line(&mut lines, g);
                    proof {
                        assert(l@ =~= "    "@ + ("_opts_"@ + s.name@) + " = {**"@ + base@ + ", \"user\": "@ + u@ + ", \"password\": "@ + p@ + "}"@);
                        assert(views(lines@) =~= pre_v + seq![l@, g@]);
                    }
                },
                None => {
                    let g = glue_from_options(var.as_str(), ct, base.as_str(), ctx.as_str(), None);
                    push_line(&mut lines, g);
                    proof {
                        assert(views(lines@) =~= pre_v + seq![g@]);
                    }
                },
            }
        } else {
            let mut chain = owned("spark.read.format(\"jdbc\")");
            let mut seed: Vec<(String, String)> = Vec::new();
            seed.push((owned("url"), owned(url)));
            seed.push((owned("dbtable"), owned(table)));
            proof {
                assert(seed@.map_values(|p: (String, String)| (p.0@, p.1@)) =~= seq![("url"@, url@), ("dbtable"@, table@)]);
                lemma_seed_options_two(("url"@, url@), ("dbtable"@, table@));
            }
            append_spark_options(&mut chain, &seed, &s.options);
            match &auth {
                Some((u, p, _)) => {
                    push_str(&mut chain, ".option(\"user\", ");
                    push_str(&mut chain, u.as_str());
                    push_str(&mut chain, ").option(\"password\", ");
                    push_str(&mut chain, p.as_str());
                    push_str(&mut chain, ")");
                },
                None => {},
            }
            push_str(&mut chain, ".load()");
            let mut l = owned("    ");
            push_str(&mut l, var.as_str());
            push_str(&mut l, " = ");
            push_str(&mut l, chain.as_str());
            proof {
                let creds = match a {
                    Some((u, p, _)) => ".option(\"user\", "@ + u + ").option(\"password\", "@ + p + ")"@,
                    None => Seq::<char>::empty(),
                };
                assert(l@ =~= "    "@ + ("df_"@ + s.name@) + " = "@ + "spark.read.format(\"jdbc\")"@ + seed_options(seq![("url"@, url@), ("dbtable"@, table@)])
                    + extra_options(object_entries(s.options@)) + creds + ".load()"@);
            }
            push_line(&mut lines, l);
            proof {
                assert(views(lines@) =~= pre_v + seq![l@]);
            }
        }
        proof {
            assert(views(lines@) =~= source_body(*s, default_engine@)->Ok_0);
        }
        Ok(lines)
}

fn catalog_source_body(s: &Source, default_engine: &str) -> (r: Result<Vec<String>, String>)
    requires
        s.source_type@ != "s3"@,
        s.source_type@ != "jdbc"@,
        s.source_type@ == "catalog"@,
    ensures
        match source_body(*s, default_engine@) {
            Ok(lines) => r matches Ok(v) && views(v@) == lines,
            Err(e) => r matches Err(m) && m@ == e,
        },
{
    let name = s.name.as_str();
    let mut var = owned("df_");
    push_str(&mut var, name);
    let mut ctx = owned(name);
    push_str(&mut ctx, "_ctx");
    let engine = effective_engine(s, default_engine);
    let t = s.source_type.as_str();
    let mut lines: Vec<String> = Vec::new();
        let db = match require_str(match &s.database {
            Some(p) => Some(p.as_str()),
            None => None,
        }, name, "database") {
            Ok(p) => p,
            Err(e) => return Err(e),
        };
        let table = match require_str(match &s.table {
            Some(p) => Some(p.as_str()),
            None => None,
        }, name, "table") {
            Ok(p) => p,
            Err(e) => return Err(e),
        };
        let mut l = owned("    ");
        push_str(&mut l, var.as_str());
        push_str(&mut l, " = glueContext.create_dynamic_frame.from_catalog(database=\"");
        push_str(&mut l, db);
        push_str(&mut l, "\", table_name=\"");
        push_str(&mut l, table);
        push_str(&mut l, "\", transformation_ctx=\"");
        push_str(&mut l, ctx.as_str());
        push_str(&mut l, "\").toDF()");
        push_line(&mut lines, l);
        proof {
            assert(views(lines@) =~= source_body(*s, default_engine@)->Ok_0);
        }
        Ok(lines)
}

fn kafka_source_body(s: &Source, default_engine: &str) -> (r: Result<Vec<String>, String>)
    requires
        s.source_type@ != "s3"@,
        s.source_type@ != "jdbc"@,
        s.source_type@ != "catalog"@,
        s.source_type@ == "kafka"@,
    ensures
        match source_body(*s, default_engine@) {
            Ok(lines) => r matches Ok(v) && views(v@) == lines,
            Err(e) => r matches Err(m) && m@ == e,
        },
{
    let name = s.name.as_str();
    let mut var = owned("df_");
    push_str(&mut var, name);
    let mut ctx = owned(name);
    push_str(&mut ctx, "_ctx");
    let engine = effective_engine(s, default_engine);
    let t = s.source_type.as_str();
    let mut lines: Vec<String> = Vec::new();
        let servers = match require_str(match &s.connection_url {
            Some(p) => Some(p.as_str()),
            None => None,
        }, name, "connection_url") {
            Ok(p) => p,
            Err(e) => return Err(e),
        };
        let topic = match require_str(match &s.topic {
            Some(p) => Some(p.as_str()),
            None => None,
        }, name, "topic") {
            Ok(p) => p,
            Err(e) => return Err(e),
        };
        let mut chain = owned("spark.read.format(\"kafka\")");
        let mut seed: Vec<(String, String)> = Vec::new();
        seed.push((owned("kafka.bootstrap.servers"), owned(servers)));
        seed.push((owned("subscribe"), owned(topic)));
        proof {
            assert(seed@.map_values(|p: (String, String)| (p.0@, p.1@)) =~= seq![("kafka.bootstrap.servers"@, servers@), ("subscribe"@, topic@)]);
            lemma_seed_options_two(("kafka.bootstrap.servers"@, servers@), ("subscribe"@, topic@));
        }
        append_spark_options(&mut chain, &seed, &s.options);
        push_str(&mut chain, ".load()");
        let mut l = owned("    ");
        push_str(&mut l, var.as_str());
        push_str(&mut l, " = ");
        push_str(&mut l, chain.as_str());
        proof {
            assert(var@ == "df_"@ + s.name@);
            assert(l@ =~= "    "@ + ("df_"@ + s.name@) + " = "@ + "spark.read.format(\"kafka\")"@ + seed_options(seq![("kafka.bootstrap.servers"@, servers@), ("subscribe"@, topic@)])
                + extra_options(object_entries(s.options@)) + ".load()"@);
            assert(servers@ == s.connection_url->Some_0@);
            assert(topic@ == s.topic->Some_0@);
            assert(source_body(*s, default_engine@) == Ok::<Seq<Seq<char>>, Seq<char>>(seq![l@]));
        }
        push_line(&mut lines, l);
        proof {
            assert(views(lines@) =~= source_body(*s, default_engine@)->Ok_0);
        }
        Ok(lines)
}

fn api_source_body(s: &Source, default_engine: &str) -> (r: Result<Vec<String>, String>)
    requires
        s.source_type@ != "s3"@,
        s.source_type@ != "jdbc"@,
        s.source_type@ != "catalog"@,
        s.source_type@ != "kafka"@,
        s.source_type@ == "api"@,
    ensures
        match source_body(*s, default_engine@) {
            Ok(lines) => r matches Ok(v) && views(v@) == lines,
            Err(e) => r matches Err(m) && m@ == e,
        },
{
    let name = s.name.as_str();
    let mut var = owned("df_");
    push_str(&mut var, name);
    let mut ctx = owned(name);
    push_str(&mut ctx, "_ctx");
    let engine = effective_engine(s, default_engine);
    let t = s.source_type.as_str();
    let mut lines: Vec<String> = Vec::new();
        let url = match require_str(match &s.url {
            Some(p) => Some(p.as_str()),
            None => None,
        }, name, "url") {
            Ok(p) => p,
            Err(e) => return Err(e),
        };
        let mut es: Vec<(String, Json)> = Vec::new();
        let ghost hv = header_entries(s.headers@);
        let mut k: usize = 0;
        proof {
            assert(entries_view(es@, 0) =~= Seq::<(Seq<char>, JsonV)>::empty());
            assert(hv.take(0) =~= Seq::<(Seq<char>, JsonV)>::empty());
        }
        while k < s.headers.len()
            invariant
                hv == header_entries(s.headers@),
                k <= s.headers.len(),
                entries_view(es@, es@.len()) == with_entries(Seq::empty(), hv.take(k as int)),
            decreases s.headers.len() - k,
        {
            proof {
                assert(hv.take(k + 1).drop_last() =~= hv.take(k as int));
                assert(hv.take(k + 1).last() == (s.headers@[k as int].0@, JsonV::Str(s.headers@[k as int].1@)));
            }
            let key = s.headers[k].0.clone();
            let val = Json::Str(s.headers[k].1.clone());
            insert_entry(&mut es, key, val);
            k = k + 1;
        }
        proof {
            assert(hv.take(hv.len() as int) =~= hv);
        }
        let obj = Json::Object(es);
        let headers = python_literal(&obj);
        let mut resp = owned("_resp_");
        push_str(&mut resp, name);
        let mut l1 = owned("    ");
        push_str(&mut l1, resp.as_str());
        push_str(&mut l1, " = requests.get(\"");
        push_str(&mut l1, url);
        push_str(&mut l1, "\", headers=");
        push_str(&mut l1, headers.as_str());
        push_str(&mut l1, ")");
        push_line(&mut lines, l1);
        let mut l2 = owned("    ");
        push_str(&mut l2, resp.as_str());
        push_str(&mut l2, ".raise_for_status()");
        push_line(&mut lines, l2);
        let mut l3 = owned("    ");
        push_str(&mut l3, var.as_str());
        push_str(&mut l3, " = spark.createDataFrame(");
        push_str(&mut l3, resp.as_str());
        push_str(&mut l3, ".json())");
        push_line(&mut lines, l3);
        proof {
            assert(views(lines@) =~= source_body(*s, default_engine@)->Ok_0);
        }
        Ok(lines)
}

fn source_body_exec(s: &Source, default_engine: &str) -> (r: Result<Vec<String>, String>)
    ensures
        match source_body(*s, default_engine@) {
            Ok(lines) => r matches Ok(v) && views(v@) == lines,
            Err(e) => r matches Err(m) && m@ == e,
        },
{
    let t = s.source_type.as_str();
    if str_eq(t, "s3") {
        s3_source_body(s, default_engine)
    } else if str_eq(t, "jdbc") {
        jdbc_source_body(s, default_engine)
    } else if str_eq(t, "catalog") {
        catalog_source_body(s, default_engine)
    } else if str_eq(t, "kafka") {
        kafka_source_body(s, default_engine)
    } else if str_eq(t, "api") {
        api_source_body(s, default_engine)
    } else {
        let mut lines: Vec<String> = Vec::new();
        let mut l = owned("    # Unsupported source type: ");
        push_str(&mut l, t);
        push_line(&mut lines, l);
        proof {
            assert(views(lines@) =~= source_body(*s, default_engine@)->Ok_0);
        }
        Ok(lines)
    }
}

proof fn lemma_items_view_one(j: Json)
    requires
        j matches Json::Array(v) && v@.len() == 1,
    ensures
        json_view(j) == JsonV::Array(seq![json_view(j->Array_0@[0])]),
{
    let v = j->Array_0;
    crate::json::lemma_items_view(v@, 1);
    assert(crate::json::items_view(v@, 1) =~= seq![json_view(v@[0])]);
}

/// Render the code reading one source into `df_<name>`.
pub fn render_source(source: &Source, default_engine: &str) -> (r: Result<String, String>)
    ensures
        match source_code(*source, default_engine@) {
            Ok(t) => r matches Ok(x) && x@ == t,
            Err(e) => r matches Err(m) && m@ == e,
        },
{
    let mut lines: Vec<String> = Vec::new();
    match &source.secret_id {
        Some(id) => {
            let f = render_secret_fetch(id.as_str(), source.name.as_str());
            push_line(&mut lines, f);
        },
        None => {},
    }
    let ghost pre = views(lines@);
    proof {
        assert(pre =~= match source.secret_id {
            Some(id) => seq![secret_fetch(id@, source.name@)],
            None => Seq::<Seq<char>>::empty(),
        });
    }
    match source_body_exec(source, default_engine) {
        Ok(body) => {
            push_lines(&mut lines, &body);
            Ok(join(&lines, "\n"))
        },
        Err(e) => Err(e),
    }
}

/// The code of all sources, one after the other; the first failing
/// source's error.
pub open spec fn sources_code(ss: Seq<Source>, default_engine: Seq<char>) -> Result<Seq<Seq<char>>, Seq<char>>
    decreases ss.len(),
{
    if ss.len() == 0 {
        Ok(Seq::empty())
    } else {
        match sources_code(ss.drop_last(), default_engine) {
            Err(e) => Err(e),
            Ok(v) => match source_code(ss.last(), default_engine) {
                Ok(c) => Ok(v.push(c)),
                Err(e) => Err(e),
            },
        }
    }
}

proof fn lemma_sources_err_stays(ss: Seq<Source>, de: Seq<char>, k: int, j: int)
    requires
        0 <= k <= j <= ss.len(),
        sources_code(ss.take(k), de) is Err,
    ensures
        sources_code(ss.take(j), de) == sources_code(ss.take(k), de),
    decreases j - k,
{
    if k < j {
        lemma_sources_err_stays(ss, de, k, j - 1);
        assert(ss.take(j).drop_last() =~= ss.take(j - 1));
    }
}

/// Render all sources, joined with newlines.
pub fn render_sources(sources: &Vec<Source>, default_engine: &str) -> (r: Result<String, String>)
    ensures
        match sources_code(sources@, default_engine@) {
            Ok(v) => r matches Ok(x) && x@ == joined(v, "\n"@),
            Err(e) => r matches Err(m) && m@ == e,
        },
{
    let mut parts: Vec<String> = Vec::new();
    let mut i: usize = 0;
    proof {
        assert(sources@.take(0) =~= Seq::<Source>::empty());
        assert(views(parts@) =~= Seq::<Seq<char>>::empty());
    }
    while i < sources.len()
        invariant
            i <= sources.len(),
            sources_code(sources@.take(i as int), default_engine@) == Ok::<Seq<Seq<char>>, Seq<char>>(views(parts@)),
        decreases sources.len() - i,
    {
        proof {
            assert(sources@.take(i + 1).drop_last() =~= sources@.take(i as int));
            assert(sources@.take(i + 1).last() == sources@[i as int]);
        }
        match render_source(&sources[i], default_engine) {
            Ok(c) => push_line(&mut parts, c),
            Err(e) => {
                proof {
                    lemma_sources_err_stays(sources@, default_engine@, i + 1, sources@.len() as int);
                    assert(sources@.take(sources@.len() as int) =~= sources@);
                }
                return Err(e);
            },
        }
        i = i + 1;
    }
    proof {
        assert(sources@.take(sources@.len() as int) =~= sources@);
    }
    Ok(join(&parts, "\n"))
}

// ------------------------------------------------------------------
// The sink
// ------------------------------------------------------------------

/// The Iceberg table properties every new table gets.
pub open spec fn iceberg_properties() -> Seq<char> {
    "\n            .tableProperty(\"format-version\", \"2\")"@
        + "\n            .tableProperty(\"write.spark.accept-any-schema\", \"true\")"@
        + "\n            .tableProperty(\"write.target-file-size-bytes\", \"536870912\")"@
        + "\n            .tableProperty(\"write.parquet.compression-codec\", \"zstd\")"@
        + "\n            .tableProperty(\"write.distribution-mode\", \"hash\")"@
}

/// Creating the Glue database of an Iceberg table when it is missing.
pub open spec fn iceberg_db_line(db: Seq<char>) -> Seq<char> {
    "    _glue = boto3.client(\"glue\")\n    try:\n        _glue.get_database(Name=\""@ + db
        + "\")\n    except _glue.exceptions.EntityNotFoundException:\n        _glue.create_database(DatabaseInput={\"Name\": \""@
        + db + "\"})"@
}

/// The schema the first batch of a new Iceberg table is conformed to: its
/// own, void columns dropped.
pub open spec fn iceberg_new_conform(var: Seq<char>) -> Seq<char> {
    "_target = _yard_void_free_schema("@ + var + ".schema)\n        "@ + var + " = _yard_conform("@ + var
        + ", _target)\n        "@
}

/// Conforming a batch to an existing table: the table's schema merged with
/// the batch's void-free schema, refusing a column whose kind (struct, list,
/// map or scalar) differs from the table's.
pub open spec fn iceberg_existing_conform(var: Seq<char>) -> Seq<char> {
    "_live = _yard_read_iceberg_schema(spark, _tbl)\n        "@ + "_batch = _yard_void_free_schema("@ + var
        + ".schema)\n        "@ + "_target = _yard_merge_schema(_live, _batch)\n        "@
        + "_live_types = {_f.name: _f.dataType for _f in _live.fields}\n        "@
        + "for _f in _batch.fields:\n            "@
        + "if _f.name in _live_types and _yard_kind_mismatch(_f.dataType, _live_types[_f.name]):\n                "@
        + "raise ValueError(\"yard: schema kind mismatch for column \" + _f.name + \": the batch holds \" + _f.dataType.simpleString() + \", the table holds \" + _live_types[_f.name].simpleString())\n        "@
        + var + " = _yard_conform("@ + var + ", _target)\n        "@
}

/// Putting the table's columns first, in the table's order, new columns
/// after them.
pub open spec fn iceberg_reorder(var: Seq<char>) -> Seq<char> {
    "_existing_cols = spark.table(_tbl).columns\n        "@ + "_ordered = [_c for _c in _existing_cols if _c in "@ + var
        + ".columns]\n        "@ + "_new = [_c for _c in "@ + var + ".columns if _c not in _existing_cols]\n        "@ + var
        + " = "@ + var + ".select(_ordered + _new)\n        "@
}

/// Creating the Iceberg table on first write, appending or overwriting
/// partitions afterwards with schema merging; with `fill_nulls`, the batch
/// is conformed to the target schema first.
pub open spec fn iceberg_write_line(var: Seq<char>, fill_nulls: bool, partition_clause: Seq<char>, props: Seq<char>, write_op: Seq<char>) -> Seq<char> {
    let new_conform = if fill_nulls {
        iceberg_new_conform(var)
    } else {
        Seq::empty()
    };
    let existing_conform = if fill_nulls {
        iceberg_existing_conform(var)
    } else {
        Seq::empty()
    };
    "    if not spark.catalog.tableExists(_tbl):\n        "@ + new_conform + "("@ + var
        + ".writeTo(_tbl)\n            .using(\"iceberg\")"@ + partition_clause + props
        + "\n            .create())\n    else:\n        "@ + existing_conform + iceberg_reorder(var) + var
        + ".writeTo(_tbl).option(\"merge-schema\", \"true\")."@ + write_op + "()"@
}

fn iceberg_db(db: &str) -> (r: String)
    ensures
        r@ == iceberg_db_line(db@),
{
    let mut l1 = owned("    _glue = boto3.client(\"glue\")\n    try:\n        _glue.get_database(Name=\"");
    push_str(&mut l1, db);
    push_str(&mut l1, "\")\n    except _glue.exceptions.EntityNotFoundException:\n        _glue.create_database(DatabaseInput={\"Name\": \"");
    push_str(&mut l1, db);
    push_str(&mut l1, "\"})");
    proof {
        assert(l1@ =~= iceberg_db_line(db@));
    }
    l1
}

fn push_new_conform(l: &mut String, v: &str)
    ensures
        final(l)@ == old(l)@ + iceberg_new_conform(v@),
{
    push_str(l, "_target = _yard_void_free_schema(");
    push_str(l, v);
    push_str(l, ".schema)\n        ");
    push_str(l, v);
    push_str(l, " = _yard_conform(");
    push_str(l, v);
    push_str(l, ", _target)\n        ");
    proof {
        assert(l@ =~= old(l)@ + iceberg_new_conform(v@));
    }
}

fn push_existing_conform(l: &mut String, v: &str)
    ensures
        final(l)@ == old(l)@ + iceberg_existing_conform(v@),
{
    push_str(l, "_live = _yard_read_iceberg_schema(spark, _tbl)\n        ");
    push_str(l, "_batch = _yard_void_free_schema(");
    push_str(l, v);
    push_str(l, ".schema)\n        ");
    push_str(l, "_target = _yard_merge_schema(_live, _batch)\n        ");
    push_str(l, "_live_types = {_f.name: _f.dataType for _f in _live.fields}\n        ");
    push_str(l, "for _f in _batch.fields:\n            ");
    push_str(l, "if _f.name in _live_types and _yard_kind_mismatch(_f.dataType, _live_types[_f.name]):\n                ");
    push_str(l, "raise ValueError(\"yard: schema kind mismatch for column \" + _f.name + \": the batch holds \" + _f.dataType.simpleString() + \", the table holds \" + _live_types[_f.name].simpleString())\n        ");
    push_str(l, v);
    push_str(l, " = _yard_conform(");
    push_str(l, v);
    push_str(l, ", _target)\n        ");
    proof {
        assert(l@ =~= old(l)@ + iceberg_existing_conform(v@));
    }
}

fn push_reorder(l: &mut String, v: &str)
    ensures
        final(l)@ == old(l)@ + iceberg_reorder(v@),
{
    push_str(l, "_existing_cols = spark.table(_tbl).columns\n        ");
    push_str(l, "_ordered = [_c for _c in _existing_cols if _c in ");
    push_str(l, v);
    push_str(l, ".columns]\n        ");
    push_str(l, "_new = [_c for _c in ");
    push_str(l, v);
    push_str(l, ".columns if _c not in _existing_cols]\n        ");
    push_str(l, v);
    push_str(l, " = ");
    push_str(l, v);
    push_str(l, ".select(_ordered + _new)\n        ");
    proof {
        assert(l@ =~= old(l)@ + iceberg_reorder(v@));
    }
}

fn iceberg_write(v: &str, fill_nulls: bool, partition_clause: &str, props: &str, write_op: &str) -> (r: String)
    ensures
        r@ == iceberg_write_line(v@, fill_nulls, partition_clause@, props@, write_op@),
{
    let mut l3 = owned("    if not spark.catalog.tableExists(_tbl):\n        ");
    let ghost h0 = l3@;
    if fill_nulls {
        push_new_conform(&mut l3, v);
    }
    let ghost h1 = l3@;
    push_str(&mut l3, "(");
    push_str(&mut l3, v);
    push_str(&mut l3, ".writeTo(_tbl)\n            .using(\"iceberg\")");
    push_str(&mut l3, partition_clause);
    push_str(&mut l3, props);
    push_str(&mut l3, "\n            .create())\n    else:\n        ");
    let ghost h2 = l3@;
    if fill_nulls {
        push_existing_conform(&mut l3, v);
    }
    let ghost h3 = l3@;
    push_reorder(&mut l3, v);
    push_str(&mut l3, v);
    push_str(&mut l3, ".writeTo(_tbl).option(\"merge-schema\", \"true\").");
    push_str(&mut l3, write_op);
    push_str(&mut l3, "()");
    proof {
        assert(h1 == h0 + if fill_nulls {
            iceberg_new_conform(v@)
        } else {
            Seq::<char>::empty()
        });
        assert(h3 == h2 + if fill_nulls {
            iceberg_existing_conform(v@)
        } else {
            Seq::<char>::empty()
        });
        assert(l3@ =~= iceberg_write_line(v@, fill_nulls, partition_clause@, props@, write_op@));
    }
    l3
}

/// The lines writing the sink, after any secret fetch; or the error for a
/// missing field. `default_source` names the DataFrame written when the
/// sink names none; `fill_nulls` adds the null-filling passes of an Iceberg
/// sink.
pub open spec fn sink_body(k: Sink, default_source: Seq<char>, fill_nulls: bool) -> Result<Seq<Seq<char>>, Seq<char>> {
    let source_name = match k.source {
        Some(x) => x@,
        None => default_source,
    };
    let var = "df_"@ + source_name;
    let mode = match k.mode {
        Some(m) => m@,
        None => "overwrite"@,
    };
    let t = k.sink_type@;
    if t == "s3"@ {
        match k.path {
            None => Err(missing_sink_field("s3"@, "path"@)),
            Some(path) => {
                let format = match k.format {
                    Some(f) => f@,
                    None => "parquet"@,
                };
                let parts = if k.partition_by@.len() == 0 {
                    Seq::empty()
                } else {
                    ".partitionBy("@ + quoted_cols(views(k.partition_by@)) + ")"@
                };
                Ok(seq!["    "@ + var + ".write.format(\""@ + format + "\").mode(\""@ + mode + "\")"@ + parts + ".save(\""@ + path@ + "\")"@])
            },
        }
    } else if t == "jdbc"@ {
        match (k.connection_url, k.table) {
            (None, _) => Err(missing_sink_field("jdbc"@, "connection_url"@)),
            (Some(_), None) => Err(missing_sink_field("jdbc"@, "table"@)),
            (Some(url), Some(table)) => {
                let auth = jdbc_auth("sink"@, str_opt(k.secret_id), k.auth);
                let first = "    "@ + var + ".write.format(\"jdbc\").option(\"url\", \""@ + url@ + "\").option(\"dbtable\", \""@ + table@ + "\")\\"@;
                let last = "        .mode(\""@ + mode + "\").save()"@;
                match auth {
                    Some((u, p, pre)) => Ok(pre + seq![first, "        .option(\"user\", "@ + u + ").option(\"password\", "@ + p + ")\\"@, last]),
                    None => Ok(seq![first, last]),
                }
            },
        }
    } else if t == "catalog"@ {
        match (k.database, k.table) {
            (None, _) => Err(missing_sink_field("catalog"@, "database"@)),
            (Some(_), None) => Err(missing_sink_field("catalog"@, "table"@)),
            (Some(db), Some(table)) => Ok(seq![
                "    sink_frame = DynamicFrame.fromDF("@ + var + ", glueContext, \"sink_frame\")"@,
                "    glueContext.write_dynamic_frame.from_catalog(frame=sink_frame, database=\""@ + db@ + "\", table_name=\""@ + table@ + "\")"@,
            ]),
        }
    } else if t == "iceberg"@ {
        match (k.database, k.table) {
            (None, _) => Err(missing_sink_field("iceberg"@, "database"@)),
            (Some(_), None) => Err(missing_sink_field("iceberg"@, "table"@)),
            (Some(db), Some(table)) => {
                let write_op = if mode == "overwrite"@ {
                    "overwritePartitions"@
                } else {
                    "append"@
                };
                let partition_clause = if k.partition_by@.len() == 0 {
                    Seq::empty()
                } else {
                    "\n            .partitionedBy("@ + quoted_cols(views(k.partition_by@)) + ")"@
                };
                let location = match k.path {
                    Some(p) => if p@.len() > 0 {
                        "\n            .tableProperty(\"location\", \""@ + p@ + "\")"@
                    } else {
                        Seq::empty()
                    },
                    None => Seq::empty(),
                };
                Ok(seq![
                    iceberg_db_line(db@),
                    "    _tbl = \"glue_catalog."@ + db@ + "."@ + table@ + "\""@,
                    iceberg_write_line(var, fill_nulls, partition_clause, iceberg_properties() + location, write_op),
                ])
            },
        }
    } else {
        Ok(seq!["    # Unsupported sink type: "@ + t])
    }
}

/// The code writing the sink: the secret fetch, if any, then the write.
pub open spec fn sink_code(k: Sink, default_source: Seq<char>, fill_nulls: bool) -> Result<Seq<char>, Seq<char>> {
    let pre = match k.secret_id {
        Some(id) => seq![secret_fetch(id@, "sink"@)],
        None => Seq::empty(),
    };
    match sink_body(k, default_source, fill_nulls) {
        Ok(lines) => Ok(joined(pre + lines, "\n"@)),
        Err(e) => Err(e),
    }
}

/// The sink field a write cannot do without, absent from `k`.
pub open spec fn sink_field_absent(k: Sink, field: Seq<char>) -> bool {
    ||| field == "path"@ && k.path is None
    ||| field == "connection_url"@ && k.connection_url is None
    ||| field == "table"@ && k.table is None
    ||| field == "database"@ && k.database is None
}

/// A sink that cannot be written fails naming its type and a field it
/// lacks.
pub proof fn law_sink_error_names_the_field(k: Sink, default_source: Seq<char>, fill_nulls: bool)
    ensures
        sink_code(k, default_source, fill_nulls) matches Err(e) ==> exists|field: Seq<char>|
            #[trigger] missing_sink_field(k.sink_type@, field) == e && sink_field_absent(k, field),
{
    if sink_code(k, default_source, fill_nulls) is Err {
        let e = sink_code(k, default_source, fill_nulls)->Err_0;
        let t = k.sink_type@;
        if t == "s3"@ {
            assert(missing_sink_field(t, "path"@) == e && sink_field_absent(k, "path"@));
        } else if t == "jdbc"@ {
            if k.connection_url is None {
                assert(missing_sink_field(t, "connection_url"@) == e && sink_field_absent(k, "connection_url"@));
            } else {
                assert(missing_sink_field(t, "table"@) == e && sink_field_absent(k, "table"@));
            }
        } else {
            if k.database is None {
                assert(missing_sink_field(t, "database"@) == e && sink_field_absent(k, "database"@));
            } else {
                assert(missing_sink_field(t, "table"@) == e && sink_field_absent(k, "table"@));
            }
        }
    }
}

/// A source that cannot be read fails naming the source and what it
/// lacks: one of its fields, or, read through Glue over JDBC, its
/// connection type.
pub proof fn law_source_error_names_the_field(s: Source, default_engine: Seq<char>)
    ensures
        source_code(s, default_engine) matches Err(e) ==> e == missing_connection_type(s.name@) && s.connection_type is None
            || exists|field: Seq<char>| #[trigger] missing_source_field(s.name@, field) == e && (
                field == "path"@ && s.path is None
                || field == "connection_url"@ && (s.connection_url is None)
                || field == "table"@ && s.table is None
                || field == "database"@ && s.database is None
                || field == "topic"@ && s.topic is None
                || field == "url"@ && s.url is None),
{
    if source_code(s, default_engine) is Err {
        let e = source_code(s, default_engine)->Err_0;
        let name = s.name@;
        let t = s.source_type@;
        if t == "s3"@ {
            assert(missing_source_field(name, "path"@) == e);
        } else if t == "jdbc"@ {
            if jdbc_url(s) is None {
                assert(missing_source_field(name, "connection_url"@) == e);
            } else if s.table is None {
                assert(missing_source_field(name, "table"@) == e);
            }
        } else if t == "catalog"@ {
            if s.database is None {
                assert(missing_source_field(name, "database"@) == e);
            } else {
                assert(missing_source_field(name, "table"@) == e);
            }
        } else if t == "kafka"@ {
            if s.connection_url is None {
                assert(missing_source_field(name, "connection_url"@) == e);
            } else {
                assert(missing_source_field(name, "topic"@) == e);
            }
        } else {
            assert(missing_source_field(name, "url"@) == e);
        }
    }
}

/// An S3 sink with partition columns writes partitioned: its write line
/// holds `.partitionBy(<the quoted columns>)` right before `.save("<path>")`.
pub proof fn law_s3_sink_writes_partitioned(k: Sink, default_source: Seq<char>, fill_nulls: bool)
    requires
        k.sink_type@ == "s3"@,
        k.path is Some,
        k.partition_by@.len() > 0,
    ensures
        sink_code(k, default_source, fill_nulls) is Ok,
        contains_text(
            sink_code(k, default_source, fill_nulls)->Ok_0,
            ".partitionBy("@ + quoted_cols(views(k.partition_by@)) + ")"@ + ".save(\""@ + k.path->Some_0@ + "\")"@,
        ),
{
    let source_name = match k.source {
        Some(x) => x@,
        None => default_source,
    };
    let var = "df_"@ + source_name;
    let mode = match k.mode {
        Some(m) => m@,
        None => "overwrite"@,
    };
    let format = match k.format {
        Some(f) => f@,
        None => "parquet"@,
    };
    let path = k.path->Some_0;
    let parts = ".partitionBy("@ + quoted_cols(views(k.partition_by@)) + ")"@;
    let head = "    "@ + var + ".write.format(\""@ + format + "\").mode(\""@ + mode + "\")"@;
    let tail = parts + ".save(\""@ + path@ + "\")"@;
    let line = head + tail;
    assert(sink_body(k, default_source, fill_nulls) == Ok::<Seq<Seq<char>>, Seq<char>>(seq![line])) by {
        assert(line =~= "    "@ + var + ".write.format(\""@ + format + "\").mode(\""@ + mode + "\")"@ + parts + ".save(\""@
            + path@ + "\")"@);
    }
    let pre = match k.secret_id {
        Some(id) => seq![secret_fetch(id@, "sink"@)],
        None => Seq::<Seq<char>>::empty(),
    };
    let all = pre + seq![line];
    assert(sink_code(k, default_source, fill_nulls) == Ok::<Seq<char>, Seq<char>>(joined(all, "\n"@)));
    lemma_joined_contains_part(all, "\n"@, all.len() - 1);
    lemma_contains_middle(head, tail, Seq::empty());
    assert(head + tail + Seq::<char>::empty() =~= line);
    lemma_contains_text_trans(joined(all, "\n"@), line, tail);
}

/// The code of a sink that renders holds each of its lines.
proof fn lemma_sink_code_has_line(k: Sink, default_source: Seq<char>, fill_nulls: bool, i: int)
    requires
        sink_body(k, default_source, fill_nulls) is Ok,
        0 <= i < sink_body(k, default_source, fill_nulls)->Ok_0.len(),
    ensures
        sink_code(k, default_source, fill_nulls) is Ok,
        contains_text(sink_code(k, default_source, fill_nulls)->Ok_0, sink_body(k, default_source, fill_nulls)->Ok_0[i]),
{
    let pre = match k.secret_id {
        Some(id) => seq![secret_fetch(id@, "sink"@)],
        None => Seq::<Seq<char>>::empty(),
    };
    let lines = sink_body(k, default_source, fill_nulls)->Ok_0;
    let all = pre + lines;
    lemma_joined_contains_part(all, "\n"@, pre.len() + i);
    assert(all[pre.len() + i] == lines[i]);
}

/// An S3 sink writes the DataFrame it names (the default source when
/// unset) in its format (parquet when unset) with its mode (overwrite when
/// unset), and saves to its path.
#[verifier::rlimit(50)]
pub proof fn law_s3_sink_writes_its_frame(k: Sink, default_source: Seq<char>, fill_nulls: bool)
    requires
        k.sink_type@ == "s3"@,
        k.path is Some,
    ensures
        sink_code(k, default_source, fill_nulls) is Ok,
        contains_text(
            sink_code(k, default_source, fill_nulls)->Ok_0,
            "    "@ + ("df_"@ + (match k.source {
                Some(x) => x@,
                None => default_source,
            })) + ".write.format(\""@ + (match k.format {
                Some(f) => f@,
                None => "parquet"@,
            }) + "\").mode(\""@ + (match k.mode {
                Some(m) => m@,
                None => "overwrite"@,
            }) + "\")"@,
        ),
        contains_text(sink_code(k, default_source, fill_nulls)->Ok_0, ".save(\""@ + k.path->Some_0@ + "\")"@),
{
    let var = "df_"@ + (match k.source {
        Some(x) => x@,
        None => default_source,
    });
    let format = match k.format {
        Some(f) => f@,
        None => "parquet"@,
    };
    let mode = match k.mode {
        Some(m) => m@,
        None => "overwrite"@,
    };
    let parts = if k.partition_by@.len() == 0 {
        Seq::<char>::empty()
    } else {
        ".partitionBy("@ + quoted_cols(views(k.partition_by@)) + ")"@
    };
    let head = "    "@ + var + ".write.format(\""@ + format + "\").mode(\""@ + mode + "\")"@;
    let save = ".save(\""@ + k.path->Some_0@ + "\")"@;
    let line = head + parts + save;
    assert(sink_body(k, default_source, fill_nulls)->Ok_0 == seq![line]) by {
        assert(line =~= "    "@ + var + ".write.format(\""@ + format + "\").mode(\""@ + mode + "\")"@ + parts + ".save(\""@
            + k.path->Some_0@ + "\")"@);
    }
    lemma_sink_code_has_line(k, default_source, fill_nulls, 0);
    lemma_ends(head, parts, save);
    lemma_contains_text_trans(sink_code(k, default_source, fill_nulls)->Ok_0, line, head);
    lemma_contains_text_trans(sink_code(k, default_source, fill_nulls)->Ok_0, line, save);
}

/// A JDBC sink writes to its URL and table, in that order.
pub proof fn law_jdbc_sink_writes_its_table(k: Sink, default_source: Seq<char>, fill_nulls: bool)
    requires
        k.sink_type@ == "jdbc"@,
        k.connection_url is Some,
        k.table is Some,
    ensures
        sink_code(k, default_source, fill_nulls) is Ok,
        contains_text(
            sink_code(k, default_source, fill_nulls)->Ok_0,
            ".option(\"url\", \""@ + k.connection_url->Some_0@ + "\").option(\"dbtable\", \""@ + k.table->Some_0@ + "\")\\"@,
        ),
{
    reveal_strlit("s3");
    reveal_strlit("jdbc");
    assert("jdbc"@ != "s3"@) by {
        assert("jdbc"@.len() != "s3"@.len());
    }
    let var = "df_"@ + (match k.source {
        Some(x) => x@,
        None => default_source,
    });
    let url = k.connection_url->Some_0@;
    let table = k.table->Some_0@;
    let a = "    "@ + var + ".write.format(\"jdbc\")"@;
    let mid = ".option(\"url\", \""@ + url + "\").option(\"dbtable\", \""@ + table + "\")\\"@;
    let first = "    "@ + var + ".write.format(\"jdbc\").option(\"url\", \""@ + url + "\").option(\"dbtable\", \""@ + table + "\")\\"@;
    let lines = sink_body(k, default_source, fill_nulls)->Ok_0;
    let auth = jdbc_auth("sink"@, str_opt(k.secret_id), k.auth);
    let i: int = match auth {
        Some((_, _, pre)) => pre.len() as int,
        None => 0,
    };
    assert(lines[i] == first);
    lemma_sink_code_has_line(k, default_source, fill_nulls, i);
    reveal_strlit(".write.format(\"jdbc\").option(\"url\", \"");
    reveal_strlit(".write.format(\"jdbc\")");
    reveal_strlit(".option(\"url\", \"");
    assert(first =~= a + mid + Seq::<char>::empty());
    lemma_contains_middle(a, mid, Seq::empty());
    lemma_contains_text_trans(sink_code(k, default_source, fill_nulls)->Ok_0, first, mid);
}

/// A catalog sink converts the DataFrame it names into a DynamicFrame and
/// writes it to its database and table, in that order.
#[verifier::rlimit(50)]
pub proof fn law_catalog_sink_writes_its_table(k: Sink, default_source: Seq<char>, fill_nulls: bool)
    requires
        k.sink_type@ == "catalog"@,
        k.database is Some,
        k.table is Some,
    ensures
        sink_code(k, default_source, fill_nulls) is Ok,
        contains_text(
            sink_code(k, default_source, fill_nulls)->Ok_0,
            "    sink_frame = DynamicFrame.fromDF("@ + ("df_"@ + (match k.source {
                Some(x) => x@,
                None => default_source,
            })),
        ),
        contains_text(sink_code(k, default_source, fill_nulls)->Ok_0, k.database->Some_0@ + "\", table_name=\""@ + k.table->Some_0@),
{
    reveal_strlit("s3");
    reveal_strlit("jdbc");
    reveal_strlit("catalog");
    assert("catalog"@ != "s3"@ && "catalog"@ != "jdbc"@) by {
        assert("catalog"@.len() != "s3"@.len());
        assert("catalog"@.len() != "jdbc"@.len());
    }
    let var = "df_"@ + (match k.source {
        Some(x) => x@,
        None => default_source,
    });
    let db = k.database->Some_0@;
    let table = k.table->Some_0@;
    let l0 = "    sink_frame = DynamicFrame.fromDF("@ + var + ", glueContext, \"sink_frame\")"@;
    let l1 = "    glueContext.write_dynamic_frame.from_catalog(frame=sink_frame, database=\""@ + db + "\", table_name=\""@ + table + "\")"@;
    assert(sink_body(k, default_source, fill_nulls)->Ok_0 == seq![l0, l1]);
    lemma_sink_code_has_line(k, default_source, fill_nulls, 0);
    lemma_sink_code_has_line(k, default_source, fill_nulls, 1);
    let code = sink_code(k, default_source, fill_nulls)->Ok_0;
    lemma_ends("    sink_frame = DynamicFrame.fromDF("@ + var, Seq::empty(), ", glueContext, \"sink_frame\")"@);
    assert(("    sink_frame = DynamicFrame.fromDF("@ + var) + Seq::<char>::empty() + ", glueContext, \"sink_frame\")"@ =~= l0);
    lemma_contains_text_trans(code, l0, "    sink_frame = DynamicFrame.fromDF("@ + var);
    let a = "    glueContext.write_dynamic_frame.from_catalog(frame=sink_frame, database=\""@;
    let mid = db + "\", table_name=\""@ + table;
    assert(l1 =~= a + mid + "\")"@);
    lemma_contains_middle(a, mid, "\")"@);
    lemma_contains_text_trans(code, l1, mid);
}

/// An Iceberg sink writes the table `glue_catalog.<database>.<table>`, and
/// to an existing table it overwrites the partitions it writes when the
/// mode is `overwrite` (or unset) and appends otherwise.
#[verifier::rlimit(60)]
pub proof fn law_iceberg_sink_writes_its_table(k: Sink, default_source: Seq<char>, fill_nulls: bool)
    requires
        k.sink_type@ == "iceberg"@,
        k.database is Some,
        k.table is Some,
    ensures
        sink_code(k, default_source, fill_nulls) is Ok,
        contains_text(
            sink_code(k, default_source, fill_nulls)->Ok_0,
            "    _tbl = \"glue_catalog."@ + k.database->Some_0@ + "."@ + k.table->Some_0@ + "\""@,
        ),
        contains_text(
            sink_code(k, default_source, fill_nulls)->Ok_0,
            ".writeTo(_tbl).option(\"merge-schema\", \"true\")."@ + (if (match k.mode {
                Some(m) => m@,
                None => "overwrite"@,
            }) == "overwrite"@ {
                "overwritePartitions"@
            } else {
                "append"@
            }) + "()"@,
        ),
{
    reveal_strlit("s3");
    reveal_strlit("jdbc");
    reveal_strlit("catalog");
    reveal_strlit("iceberg");
    assert("iceberg"@ != "s3"@ && "iceberg"@ != "jdbc"@ && "iceberg"@ != "catalog"@) by {
        assert("iceberg"@.len() != "s3"@.len());
        assert("iceberg"@.len() != "jdbc"@.len());
        assert("iceberg"@[0] != "catalog"@[0]);
    }
    let var = "df_"@ + (match k.source {
        Some(x) => x@,
        None => default_source,
    });
    let mode = match k.mode {
        Some(m) => m@,
        None => "overwrite"@,
    };
    let db = k.database->Some_0@;
    let table = k.table->Some_0@;
    let write_op = if mode == "overwrite"@ {
        "overwritePartitions"@
    } else {
        "append"@
    };
    let partition_clause = if k.partition_by@.len() == 0 {
        Seq::<char>::empty()
    } else {
        "\n            .partitionedBy("@ + quoted_cols(views(k.partition_by@)) + ")"@
    };
    let location = match k.path {
        Some(p) => if p@.len() > 0 {
            "\n            .tableProperty(\"location\", \""@ + p@ + "\")"@
        } else {
            Seq::<char>::empty()
        },
        None => Seq::<char>::empty(),
    };
    let l1 = "    _tbl = \"glue_catalog."@ + db + "."@ + table + "\""@;
    let l2 = iceberg_write_line(var, fill_nulls, partition_clause, iceberg_properties() + location, write_op);
    assert(sink_body(k, default_source, fill_nulls)->Ok_0 == seq![iceberg_db_line(db), l1, l2]);
    lemma_sink_code_has_line(k, default_source, fill_nulls, 1);
    lemma_sink_code_has_line(k, default_source, fill_nulls, 2);
    let code = sink_code(k, default_source, fill_nulls)->Ok_0;
    let tail = ".writeTo(_tbl).option(\"merge-schema\", \"true\")."@ + write_op + "()"@;
    let existing_conform = if fill_nulls {
        iceberg_existing_conform(var)
    } else {
        Seq::<char>::empty()
    };
    let new_conform = if fill_nulls {
        iceberg_new_conform(var)
    } else {
        Seq::<char>::empty()
    };
    let head = "    if not spark.catalog.tableExists(_tbl):\n        "@ + new_conform + "("@ + var
        + ".writeTo(_tbl)\n            .using(\"iceberg\")"@ + partition_clause + (iceberg_properties() + location)
        + "\n            .create())\n    else:\n        "@ + existing_conform + iceberg_reorder(var) + var;
    assert(l2 =~= head + tail);
    lemma_contains_middle(head, tail, Seq::empty());
    assert(head + tail + Seq::<char>::empty() =~= l2);
    lemma_contains_text_trans(code, l2, tail);
}

fn sink_var(k: &Sink, default_source: &str) -> (r: String)
    ensures
        r@ == "df_"@ + match k.source {
            Some(x) => x@,
            None => default_source@,
        },
{
    let mut var = owned("df_");
    match &k.source {
        Some(x) => push_str(&mut var, x.as_str()),
        None => push_str(&mut var, default_source),
    }
    var
}

fn sink_mode(k: &Sink) -> (r: &str)
    ensures
        r@ == match k.mode {
            Some(m) => m@,
            None => "overwrite"@,
        },
{
    match &k.mode {
        Some(m) => m.as_str(),
        None => "overwrite",
    }
}

fn s3_sink_body(k: &Sink, default_source: &str, fill_nulls: bool) -> (r: Result<Vec<String>, String>)
    requires
        k.sink_type@ == "s3"@,
    ensures
        match sink_body(*k, default_source@, fill_nulls) {
            Ok(lines) => r matches Ok(v) && views(v@) == lines,
            Err(e) => r matches Err(m) && m@ == e,
        },
{
    let var = sink_var(k, default_source);
    let mode = sink_mode(k);
    let path = match require_sink_str(match &k.path {
        Some(p) => Some(p.as_str()),
        None => None,
    }, "s3", "path") {
        Ok(p) => p,
        Err(e) => return Err(e),
    };
    let format = match &k.format {
        Some(f) => f.as_str(),
        None => "parquet",
    };
    let mut w = owned("    ");
    push_str(&mut w, var.as_str());
    push_str(&mut w, ".write.format(\"");
    push_str(&mut w, format);
    push_str(&mut w, "\").mode(\"");
    push_str(&mut w, mode);
    push_str(&mut w, "\")");
    if k.partition_by.len() > 0 {
        push_str(&mut w, ".partitionBy(");
        let q = quoted_list(&k.partition_by);
        push_str(&mut w, q.as_str());
        push_str(&mut w, ")");
    }
    push_str(&mut w, ".save(\"");
    push_str(&mut w, path);
    push_str(&mut w, "\")");
    let mut lines: Vec<String> = Vec::new();
    push_line(&mut lines, w);
    proof {
        let parts = if k.partition_by@.len() == 0 {
            Seq::<char>::empty()
        } else {
            ".partitionBy("@ + quoted_cols(views(k.partition_by@)) + ")"@
        };
        assert(w@ =~= "    "@ + var@ + ".write.format(\""@ + format@ + "\").mode(\""@ + mode@ + "\")"@ + parts + ".save(\""@ + path@ + "\")"@);
        assert(views(lines@) =~= sink_body(*k, default_source@, fill_nulls)->Ok_0);
    }
    Ok(lines)
}

fn jdbc_sink_body(k: &Sink, default_source: &str, fill_nulls: bool) -> (r: Result<Vec<String>, String>)
    requires
        k.sink_type@ != "s3"@,
        k.sink_type@ == "jdbc"@,
    ensures
        match sink_body(*k, default_source@, fill_nulls) {
            Ok(lines) => r matches Ok(v) && views(v@) == lines,
            Err(e) => r matches Err(m) && m@ == e,
        },
{
    let var = sink_var(k, default_source);
    let mode = sink_mode(k);
    let url = match require_sink_str(match &k.connection_url {
        Some(p) => Some(p.as_str()),
        None => None,
    }, "jdbc", "connection_url") {
        Ok(p) => p,
        Err(e) => return Err(e),
    };
    let table = match require_sink_str(match &k.table {
        Some(p) => Some(p.as_str()),
        None => None,
    }, "jdbc", "table") {
        Ok(p) => p,
        Err(e) => return Err(e),
    };
    let sid: Option<&str> = match &k.secret_id {
        Some(p) => Some(p.as_str()),
        None => None,
    };
    let auth = render_jdbc_auth("sink", sid, match &k.auth {
        Some(a) => Some(a),
        None => None,
    });
    proof {
        assert(opt_view(sid) == str_opt(k.secret_id));
    }
    let mut lines: Vec<String> = Vec::new();
    match &auth {
        Some((_, _, pre)) => push_lines(&mut lines, pre),
        None => {},
    }
    let mut first = owned("    ");
    push_str(&mut first, var.as_str());
    push_str(&mut first, ".write.format(\"jdbc\").option(\"url\", \"");
    push_str(&mut first, url);
    push_str(&mut first, "\").option(\"dbtable\", \"");
    push_str(&mut first, table);
    push_str(&mut first, "\")\\");
    push_line(&mut lines, first);
    let mut last = owned("        .mode(\"");
    push_str(&mut last, mode);
    push_str(&mut last, "\").save()");
    match &auth {
        Some((u, p, _)) => {
            let mut l = owned("        .option(\"user\", ");
            push_str(&mut l, u.as_str());
            push_str(&mut l, ").option(\"password\", ");
            push_str(&mut l, p.as_str());
            push_str(&mut l, ")\\");
            push_line(&mut lines, l);
        },
        None => {},
    }
    push_line(&mut lines, last);
    proof {
        assert(views(lines@) =~= sink_body(*k, default_source@, fill_nulls)->Ok_0);
    }
    Ok(lines)
}

fn catalog_sink_body(k: &Sink, default_source: &str, fill_nulls: bool) -> (r: Result<Vec<String>, String>)
    requires
        k.sink_type@ != "s3"@,
        k.sink_type@ != "jdbc"@,
        k.sink_type@ == "catalog"@,
    ensures
        match sink_body(*k, default_source@, fill_nulls) {
            Ok(lines) => r matches Ok(v) && views(v@) == lines,
            Err(e) => r matches Err(m) && m@ == e,
        },
{
    let var = sink_var(k, default_source);
    let db = match require_sink_str(match &k.database {
        Some(p) => Some(p.as_str()),
        None => None,
    }, "catalog", "database") {
        Ok(p) => p,
        Err(e) => return Err(e),
    };
    let table = match require_sink_str(match &k.table {
        Some(p) => Some(p.as_str()),
        None => None,
    }, "catalog", "table") {
        Ok(p) => p,
        Err(e) => return Err(e),
    };
    let mut lines: Vec<String> = Vec::new();
    let mut l1 = owned("    sink_frame = DynamicFrame.fromDF(");
    push_str(&mut l1, var.as_str());
    push_str(&mut l1, ", glueContext, \"sink_frame\")");
    push_line(&mut lines, l1);
    let mut l2 = owned("    glueContext.write_dynamic_frame.from_catalog(frame=sink_frame, database=\"");
    push_str(&mut l2, db);
    push_str(&mut l2, "\", table_name=\"");
    push_str(&mut l2, table);
    push_str(&mut l2, "\")");
    push_line(&mut lines, l2);
    proof {
        assert(views(lines@) =~= sink_body(*k, default_source@, fill_nulls)->Ok_0);
    }
    Ok(lines)
}

#[verifier::rlimit(60)]
fn iceberg_sink_body(k: &Sink, default_source: &str, fill_nulls: bool) -> (r: Result<Vec<String>, String>)
    requires
        k.sink_type@ != "s3"@,
        k.sink_type@ != "jdbc"@,
        k.sink_type@ != "catalog"@,
        k.sink_type@ == "iceberg"@,
    ensures
        match sink_body(*k, default_source@, fill_nulls) {
            Ok(lines) => r matches Ok(v) && views(v@) == lines,
            Err(e) => r matches Err(m) && m@ == e,
        },
{
    let var = sink_var(k, default_source);
    let mode = sink_mode(k);
    let v = var.as_str();
    let db = match require_sink_str(match &k.database {
        Some(p) => Some(p.as_str()),
        None => None,
    }, "iceberg", "database") {
        Ok(p) => p,
        Err(e) => return Err(e),
    };
    let table = match require_sink_str(match &k.table {
        Some(p) => Some(p.as_str()),
        None => None,
    }, "iceberg", "table") {
        Ok(p) => p,
        Err(e) => return Err(e),
    };
    let write_op = if str_eq(mode, "overwrite") {
        "overwritePartitions"
    } else {
        "append"
    };
    let mut partition_clause = String::new();
    if k.partition_by.len() > 0 {
        push_str(&mut partition_clause, "\n            .partitionedBy(");
        let q = quoted_list(&k.partition_by);
        push_str(&mut partition_clause, q.as_str());
        push_str(&mut partition_clause, ")");
    }
    let mut props = owned("\n            .tableProperty(\"format-version\", \"2\")");
    push_str(&mut props, "\n            .tableProperty(\"write.spark.accept-any-schema\", \"true\")");
    push_str(&mut props, "\n            .tableProperty(\"write.target-file-size-bytes\", \"536870912\")");
    push_str(&mut props, "\n            .tableProperty(\"write.parquet.compression-codec\", \"zstd\")");
    push_str(&mut props, "\n            .tableProperty(\"write.distribution-mode\", \"hash\")");
    match &k.path {
        Some(p) => {
            if p.unicode_len() > 0 {
                push_str(&mut props, "\n            .tableProperty(\"location\", \"");
                push_str(&mut props, p.as_str());
                push_str(&mut props, "\")");
            }
        },
        None => {},
    }
    let l1 = iceberg_db(db);
    let mut l2 = owned("    _tbl = \"glue_catalog.");
    push_str(&mut l2, db);
    push_str(&mut l2, ".");
    push_str(&mut l2, table);
    push_str(&mut l2, "\"");
    let l3 = iceberg_write(v, fill_nulls, partition_clause.as_str(), props.as_str(), write_op);
    let mut lines: Vec<String> = Vec::new();
    push_line(&mut lines, l1);
    push_line(&mut lines, l2);
    push_line(&mut lines, l3);
    proof {
        assert(props@ =~= iceberg_properties() + match k.path {
            Some(p) => if p@.len() > 0 {
                "\n            .tableProperty(\"location\", \""@ + p@ + "\")"@
            } else {
                Seq::<char>::empty()
            },
            None => Seq::<char>::empty(),
        });
        let pc = if k.partition_by@.len() == 0 {
            Seq::<char>::empty()
        } else {
            "\n            .partitionedBy("@ + quoted_cols(views(k.partition_by@)) + ")"@
        };
        assert(partition_clause@ =~= pc);
        assert(l2@ =~= "    _tbl = \"glue_catalog."@ + db@ + "."@ + table@ + "\""@);
        assert(views(lines@) =~= sink_body(*k, default_source@, fill_nulls)->Ok_0);
    }
    Ok(lines)
}

fn sink_body_exec(k: &Sink, default_source: &str, fill_nulls: bool) -> (r: Result<Vec<String>, String>)
    ensures
        match sink_body(*k, default_source@, fill_nulls) {
            Ok(lines) => r matches Ok(v) && views(v@) == lines,
            Err(e) => r matches Err(m) && m@ == e,
        },
{
    let t = k.sink_type.as_str();
    if str_eq(t, "s3") {
        s3_sink_body(k, default_source, fill_nulls)
    } else if str_eq(t, "jdbc") {
        jdbc_sink_body(k, default_source, fill_nulls)
    } else if str_eq(t, "catalog") {
        catalog_sink_body(k, default_source, fill_nulls)
    } else if str_eq(t, "iceberg") {
        iceberg_sink_body(k, default_source, fill_nulls)
    } else {
        let mut lines: Vec<String> = Vec::new();
        let mut l = owned("    # Unsupported sink type: ");
        push_str(&mut l, t);
        push_line(&mut lines, l);
        proof {
            assert(views(lines@) =~= sink_body(*k, default_source@, fill_nulls)->Ok_0);
        }
        Ok(lines)
    }
}

/// Render the code writing the job's sink.
pub fn render_sink(sink: &Sink, default_source: &str, fill_nulls: bool) -> (r: Result<String, String>)
    ensures
        match sink_code(*sink, default_source@, fill_nulls) {
            Ok(t) => r matches Ok(x) && x@ == t,
            Err(e) => r matches Err(m) && m@ == e,
        },
{
    let mut lines: Vec<String> = Vec::new();
    match &sink.secret_id {
        Some(id) => {
            let f = render_secret_fetch(id.as_str(), "sink");
            push_line(&mut lines, f);
        },
        None => {},
    }
    let ghost pre = views(lines@);
    proof {
        assert(pre =~= match sink.secret_id {
            Some(id) => seq![secret_fetch(id@, "sink"@)],
            None => Seq::<Seq<char>>::empty(),
        });
    }
    match sink_body_exec(sink, default_source, fill_nulls) {
        Ok(body) => {
            push_lines(&mut lines, &body);
            Ok(join(&lines, "\n"))
        },
        Err(e) => Err(e),
    }
}

} // verus!
