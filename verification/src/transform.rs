//! Rendering the transform steps of a PySpark job.
use vstd::prelude::*;
use crate::codegen::{is_ws, is_ws_exec, quoted_cols, quoted_list, OrderBy, Transform};
use crate::text::{chars_of, contains_text, lemma_joined_contains_part, join, joined, owned, push_str, sort_strings, sorted, str_eq, string_of_range, views};

verus! {

// ------------------------------------------------------------------
// Trimming
// ------------------------------------------------------------------

/// Index of the first non-white-space character (the length when none).
pub open spec fn first_non_ws(s: Seq<char>) -> int
    decreases s.len(),
{
    if s.len() == 0 {
        0
    } else if !is_ws(s[0]) {
        0
    } else {
        1 + first_non_ws(s.skip(1))
    }
}

/// Index just past the last non-white-space character (0 when none).
pub open spec fn end_non_ws(s: Seq<char>) -> int
    decreases s.len(),
{
    if s.len() == 0 {
        0
    } else if !is_ws(s.last()) {
        s.len() as int
    } else {
        end_non_ws(s.drop_last())
    }
}

/// `str::trim`: the text without leading and trailing white space.
pub open spec fn trimmed(s: Seq<char>) -> Seq<char> {
    if first_non_ws(s) >= end_non_ws(s) {
        Seq::empty()
    } else {
        s.subrange(first_non_ws(s), end_non_ws(s))
    }
}

proof fn lemma_first_non_ws(s: Seq<char>, i: int)
    requires
        0 <= i <= s.len(),
        forall|k: int| 0 <= k < i ==> is_ws(#[trigger] s[k]),
        i == s.len() || !is_ws(s[i]),
    ensures
        first_non_ws(s) == i,
    decreases i,
{
    if i > 0 {
        assert forall|k: int| 0 <= k < i - 1 implies is_ws(#[trigger] s.skip(1)[k]) by {
            assert(s.skip(1)[k] == s[k + 1]);
        }
        if i < s.len() {
            assert(s.skip(1)[i - 1] == s[i]);
        }
        lemma_first_non_ws(s.skip(1), i - 1);
    }
}

proof fn lemma_end_non_ws(s: Seq<char>, j: int)
    requires
        0 <= j <= s.len(),
        forall|k: int| j <= k < s.len() ==> is_ws(#[trigger] s[k]),
        j == 0 || !is_ws(s[j - 1]),
    ensures
        end_non_ws(s) == j,
    decreases s.len(),
{
    if s.len() > j {
        assert forall|k: int| j <= k < s.len() - 1 implies is_ws(#[trigger] s.drop_last()[k]) by {
            assert(s.drop_last()[k] == s[k]);
        }
        if j > 0 {
            assert(s.drop_last()[j - 1] == s[j - 1]);
        }
        assert(is_ws(s[s.len() - 1]));
        lemma_end_non_ws(s.drop_last(), j);
    }
}

/// The text without leading and trailing white space.
pub fn trim(s: &str) -> (r: String)
    ensures
        r@ == trimmed(s@),
{
    let cs = chars_of(s);
    let mut i: usize = 0;
    while i < cs.len() && is_ws_exec(cs[i])
        invariant
            cs@ == s@,
            i <= cs.len(),
            forall|k: int| 0 <= k < i ==> is_ws(#[trigger] cs@[k]),
        decreases cs.len() - i,
    {
        i = i + 1;
    }
    proof {
        lemma_first_non_ws(cs@, i as int);
    }
    let mut j: usize = cs.len();
    while j > 0 && is_ws_exec(cs[j - 1])
        invariant
            cs@ == s@,
            j <= cs.len(),
            forall|k: int| j <= k < cs.len() ==> is_ws(#[trigger] cs@[k]),
        decreases j,
    {
        j = j - 1;
    }
    proof {
        lemma_end_non_ws(cs@, j as int);
    }
    if i >= j {
        String::new()
    } else {
        string_of_range(&cs, i, j)
    }
}

// ------------------------------------------------------------------
// Transforms
// ------------------------------------------------------------------

pub open spec fn or_default(o: Option<String>, d: Seq<char>) -> Seq<char> {
    match o {
        Some(s) => s@,
        None => d,
    }
}

/// The input and output DataFrame variables of a transform.
pub open spec fn input_df(t: Transform, default_source: Seq<char>) -> Seq<char> {
    "df_"@ + or_default(t.source, default_source)
}

pub open spec fn output_df(t: Transform, default_source: Seq<char>) -> Seq<char> {
    "df_"@ + or_default(t.output, or_default(t.source, default_source))
}

pub open spec fn rename_lines(m: Seq<(String, String)>, input: Seq<char>, output: Seq<char>) -> Seq<Seq<char>>
    decreases m.len(),
{
    if m.len() == 0 {
        Seq::empty()
    } else {
        let from = if m.len() == 1 {
            input
        } else {
            output
        };
        rename_lines(m.drop_last(), input, output).push(
            "    "@ + output + " = "@ + from + ".withColumnRenamed(\""@ + m.last().0@ + "\", \""@ + m.last().1@ + "\")"@,
        )
    }
}

/// The expression of the first aggregation with alias `a`.
pub open spec fn agg_expr(aggs: Seq<(String, String)>, a: Seq<char>) -> Seq<char>
    decreases aggs.len(),
{
    if aggs.len() == 0 {
        Seq::empty()
    } else if aggs[0].0@ == a {
        aggs[0].1@
    } else {
        agg_expr(aggs.skip(1), a)
    }
}

/// The aggregations in the order of `aliases`.
pub open spec fn agg_list(aggs: Seq<(String, String)>, aliases: Seq<Seq<char>>) -> Seq<char> {
    joined(aliases.map_values(|a: Seq<char>| "F.expr(\""@ + trimmed(agg_expr(aggs, a)) + "\").alias(\""@ + a + "\")"@), ", "@)
}

pub open spec fn order_list(o: Seq<OrderBy>) -> Seq<char> {
    joined(o.map_values(|x: OrderBy| "F.col(\""@ + x.column@ + "\")."@ + (if x.desc {
        "desc"@
    } else {
        "asc"@
    }) + "()"@), ", "@)
}

pub open spec fn window_spec(t: Transform) -> Seq<char> {
    "Window"@ + (if t.partition_by@.len() == 0 {
        Seq::empty()
    } else {
        ".partitionBy("@ + quoted_cols(views(t.partition_by@)) + ")"@
    }) + (if t.order_by@.len() == 0 {
        Seq::empty()
    } else {
        ".orderBy("@ + order_list(t.order_by@) + ")"@
    })
}

/// The lines of one transform, or its missing-field error. `aliases` are
/// the transform's aggregation aliases in increasing order.
pub open spec fn transform_code(
    t: Transform,
    default_source: Seq<char>,
    all_sources: Seq<Seq<char>>,
    aliases: Seq<Seq<char>>,
) -> Result<Seq<char>, Seq<char>> {
    let kind = t.transform_type@;
    let input = input_df(t, default_source);
    let output = output_df(t, default_source);
    if kind == "filter"@ {
        Ok("    "@ + output + " = "@ + input + ".filter("@ + trimmed(or_default(t.condition, "True"@)) + ")"@)
    } else if kind == "sql"@ {
        let out_var = "df_"@ + or_default(t.output, default_source);
        let query = trimmed(or_default(t.query, "SELECT * FROM source"@));
        Ok(joined(all_sources.map_values(|n: Seq<char>| "    df_"@ + n + ".createOrReplaceTempView(\""@ + n + "\")"@).push(
            "    "@ + out_var + " = spark.sql(\""@ + query + "\")"@,
        ), "\n"@))
    } else if kind == "join"@ {
        match (t.right, t.on) {
            (None, _) => Err("join transform: 'right' is required"@),
            (Some(_), None) => Err("join transform: 'on' is required"@),
            (Some(right), Some(on)) => {
                let left = or_default(t.left, default_source);
                let how = or_default(t.how, "inner"@);
                let out_var = "df_"@ + or_default(t.output, left);
                Ok("    "@ + out_var + " = df_"@ + left + ".join(df_"@ + right@ + ", on=\""@ + on@ + "\", how=\""@ + how + "\")"@)
            },
        }
    } else if kind == "drop_columns"@ {
        Ok("    "@ + output + " = "@ + input + ".drop("@ + quoted_cols(views(t.columns@)) + ")"@)
    } else if kind == "select"@ {
        Ok("    "@ + output + " = "@ + input + ".select("@ + quoted_cols(views(t.columns@)) + ")"@)
    } else if kind == "rename"@ {
        Ok(joined(rename_lines(t.mapping@, input, output), "\n"@))
    } else if kind == "add_column"@ {
        match t.name {
            None => Err("add_column transform: 'name' is required"@),
            Some(n) => Ok("    "@ + output + " = "@ + input + ".withColumn(\""@ + trimmed(n@) + "\", "@ + trimmed(
                or_default(t.expression, "lit(None)"@),
            ) + ")"@),
        }
    } else if kind == "aggregate"@ {
        Ok("    "@ + output + " = "@ + input + ".groupBy("@ + quoted_cols(views(t.group_by@)) + ").agg("@ + agg_list(t.aggs@, aliases)
            + ")"@)
    } else if kind == "window"@ {
        match (t.name, t.expression) {
            (None, _) => Err("window transform: 'name' is required"@),
            (Some(_), None) => Err("window transform: 'expression' is required"@),
            (Some(n), Some(e)) => {
                let col = trimmed(n@);
                let w = "_w_"@ + col;
                Ok("    "@ + w + " = "@ + window_spec(t) + "\n"@ + "    "@ + output + " = "@ + input + ".withColumn(\""@ + col
                    + "\", F.expr(\""@ + trimmed(e@) + "\").over("@ + w + "))"@)
            },
        }
    } else {
        Ok("    # Unsupported transform type: "@ + kind)
    }
}

/// A transform that cannot be rendered lacks a field its kind requires, and
/// its error names that field: a join its `right` or `on`, an added column
/// its `name`, a window column its `name` or `expression`.
pub proof fn law_transform_error_names_the_field(
    t: Transform,
    default_source: Seq<char>,
    all_sources: Seq<Seq<char>>,
    aliases: Seq<Seq<char>>,
)
    ensures
        transform_code(t, default_source, all_sources, aliases) matches Err(e) ==> {
            ||| t.transform_type@ == "join"@ && t.right is None && e == "join transform: 'right' is required"@
            ||| t.transform_type@ == "join"@ && t.right is Some && t.on is None && e == "join transform: 'on' is required"@
            ||| t.transform_type@ == "add_column"@ && t.name is None && e == "add_column transform: 'name' is required"@
            ||| t.transform_type@ == "window"@ && t.name is None && e == "window transform: 'name' is required"@
            ||| t.transform_type@ == "window"@ && t.name is Some && t.expression is None
                && e == "window transform: 'expression' is required"@
        },
{
}

proof fn lemma_rename_lines_at(m: Seq<(String, String)>, input: Seq<char>, output: Seq<char>)
    ensures
        rename_lines(m, input, output).len() == m.len(),
        forall|i: int|
            0 <= i < m.len() ==> #[trigger] rename_lines(m, input, output)[i] == "    "@ + output + " = "@ + (if i == 0 {
                input
            } else {
                output
            }) + ".withColumnRenamed(\""@ + m[i].0@ + "\", \""@ + m[i].1@ + "\")"@,
    decreases m.len(),
{
    if m.len() > 0 {
        lemma_rename_lines_at(m.drop_last(), input, output);
        assert forall|i: int| 0 <= i < m.len() - 1 implies m.drop_last()[i] == m[i] by {}
    }
}

/// A rename renames each mapped column in mapping order, one line per pair:
/// line `i` renames the existing column `m[i].0` (the first argument of
/// `withColumnRenamed`) to the new name `m[i].1` (the second). The first
/// line reads the transform's input DataFrame and every later line the
/// output it is building; all of them assign the output.
pub proof fn law_rename_renames_old_to_new(t: Transform, default_source: Seq<char>, all_sources: Seq<Seq<char>>, aliases: Seq<Seq<char>>)
    requires
        t.transform_type@ == "rename"@,
    ensures
        exists|lines: Seq<Seq<char>>| {
            &&& transform_code(t, default_source, all_sources, aliases) == Ok::<Seq<char>, Seq<char>>(joined(lines, "\n"@))
            &&& lines.len() == t.mapping@.len()
            &&& forall|i: int|
                0 <= i < lines.len() ==> #[trigger] lines[i] == "    "@ + output_df(t, default_source) + " = "@ + (if i == 0 {
                    input_df(t, default_source)
                } else {
                    output_df(t, default_source)
                }) + ".withColumnRenamed(\""@ + t.mapping@[i].0@ + "\", \""@ + t.mapping@[i].1@ + "\")"@
        },
{
    reveal_strlit("rename");
    reveal_strlit("filter");
    reveal_strlit("sql");
    reveal_strlit("join");
    reveal_strlit("drop_columns");
    reveal_strlit("select");
    assert("rename"@ != "filter"@) by {
        assert("rename"@[0] != "filter"@[0]);
    }
    assert("rename"@ != "select"@) by {
        assert("rename"@[0] != "select"@[0]);
    }
    assert("rename"@ != "sql"@ && "rename"@ != "join"@ && "rename"@ != "drop_columns"@) by {
        assert("rename"@.len() != "sql"@.len());
        assert("rename"@.len() != "join"@.len());
        assert("rename"@.len() != "drop_columns"@.len());
    }
    let lines = rename_lines(t.mapping@, input_df(t, default_source), output_df(t, default_source));
    lemma_rename_lines_at(t.mapping@, input_df(t, default_source), output_df(t, default_source));
    assert(transform_code(t, default_source, all_sources, aliases) == Ok::<Seq<char>, Seq<char>>(joined(lines, "\n"@)));
}

/// A join joins its left input (the default source when unset) with its
/// right DataFrame on its key, with its join type (`inner` when unset), and
/// assigns the output (the left input's name when unset).
pub proof fn law_join_joins_left_with_right(t: Transform, default_source: Seq<char>, all_sources: Seq<Seq<char>>, aliases: Seq<Seq<char>>)
    requires
        t.transform_type@ == "join"@,
        t.right is Some,
        t.on is Some,
    ensures
        ({
            let left = or_default(t.left, default_source);
            transform_code(t, default_source, all_sources, aliases) == Ok::<Seq<char>, Seq<char>>(
                "    "@ + ("df_"@ + or_default(t.output, left)) + " = df_"@ + left + ".join(df_"@ + t.right->Some_0@ + ", on=\""@
                    + t.on->Some_0@ + "\", how=\""@ + or_default(t.how, "inner"@) + "\")"@,
            )
        }),
{
    reveal_strlit("join");
    reveal_strlit("filter");
    reveal_strlit("sql");
    assert("join"@ != "filter"@ && "join"@ != "sql"@) by {
        assert("join"@.len() != "filter"@.len());
        assert("join"@.len() != "sql"@.len());
    }
}

/// A filter keeps the rows of its input that meet its condition (`True`,
/// all rows, when unset), and assigns its output.
pub proof fn law_filter_keeps_matching_rows(t: Transform, default_source: Seq<char>, all_sources: Seq<Seq<char>>, aliases: Seq<Seq<char>>)
    requires
        t.transform_type@ == "filter"@,
    ensures
        transform_code(t, default_source, all_sources, aliases) == Ok::<Seq<char>, Seq<char>>(
            "    "@ + output_df(t, default_source) + " = "@ + input_df(t, default_source) + ".filter("@ + trimmed(
                or_default(t.condition, "True"@),
            ) + ")"@,
        ),
{
}

/// Selecting and dropping columns name the transform's columns, quoted and
/// in order, on its input, and assign its output.
pub proof fn law_select_and_drop_name_the_columns(t: Transform, default_source: Seq<char>, all_sources: Seq<Seq<char>>, aliases: Seq<Seq<char>>)
    ensures
        t.transform_type@ == "select"@ ==> transform_code(t, default_source, all_sources, aliases) == Ok::<Seq<char>, Seq<char>>(
            "    "@ + output_df(t, default_source) + " = "@ + input_df(t, default_source) + ".select("@ + quoted_cols(views(t.columns@))
                + ")"@,
        ),
        t.transform_type@ == "drop_columns"@ ==> transform_code(t, default_source, all_sources, aliases) == Ok::<Seq<char>, Seq<char>>(
            "    "@ + output_df(t, default_source) + " = "@ + input_df(t, default_source) + ".drop("@ + quoted_cols(views(t.columns@))
                + ")"@,
        ),
{
    reveal_strlit("select");
    reveal_strlit("drop_columns");
    reveal_strlit("filter");
    reveal_strlit("sql");
    reveal_strlit("join");
    assert("select"@ != "filter"@) by {
        assert("select"@[0] != "filter"@[0]);
    }
    assert("select"@ != "sql"@ && "select"@ != "join"@ && "select"@ != "drop_columns"@) by {
        assert("select"@.len() != "sql"@.len());
        assert("select"@.len() != "join"@.len());
        assert("select"@.len() != "drop_columns"@.len());
    }
    assert("drop_columns"@ != "filter"@ && "drop_columns"@ != "sql"@ && "drop_columns"@ != "join"@) by {
        assert("drop_columns"@.len() != "filter"@.len());
        assert("drop_columns"@.len() != "sql"@.len());
        assert("drop_columns"@.len() != "join"@.len());
    }
}

/// An SQL transform registers every source as a view under its own name,
/// then runs its query (trimmed; `SELECT * FROM source` when unset) into its
/// output (the default source when unset).
pub proof fn law_sql_registers_every_source(t: Transform, default_source: Seq<char>, all_sources: Seq<Seq<char>>, aliases: Seq<Seq<char>>, i: int)
    requires
        t.transform_type@ == "sql"@,
    ensures
        transform_code(t, default_source, all_sources, aliases) is Ok,
        0 <= i < all_sources.len() ==> contains_text(
            transform_code(t, default_source, all_sources, aliases)->Ok_0,
            "    df_"@ + all_sources[i] + ".createOrReplaceTempView(\""@ + all_sources[i] + "\")"@,
        ),
        contains_text(
            transform_code(t, default_source, all_sources, aliases)->Ok_0,
            "    "@ + ("df_"@ + or_default(t.output, default_source)) + " = spark.sql(\""@ + trimmed(
                or_default(t.query, "SELECT * FROM source"@),
            ) + "\")"@,
        ),
{
    reveal_strlit("sql");
    reveal_strlit("filter");
    assert("sql"@ != "filter"@) by {
        assert("sql"@.len() != "filter"@.len());
    }
    let views_lines = all_sources.map_values(|n: Seq<char>| "    df_"@ + n + ".createOrReplaceTempView(\""@ + n + "\")"@);
    let last = "    "@ + ("df_"@ + or_default(t.output, default_source)) + " = spark.sql(\""@ + trimmed(
        or_default(t.query, "SELECT * FROM source"@),
    ) + "\")"@;
    let lines = views_lines.push(last);
    assert(transform_code(t, default_source, all_sources, aliases) == Ok::<Seq<char>, Seq<char>>(joined(lines, "\n"@)));
    lemma_joined_contains_part(lines, "\n"@, lines.len() - 1);
    if 0 <= i < all_sources.len() {
        assert(lines[i] == views_lines[i]);
        lemma_joined_contains_part(lines, "\n"@, i);
    }
}

/// An added column is computed on the input by its expression (trimmed;
/// `lit(None)` when unset) under its trimmed name, into the output.
pub proof fn law_add_column_adds_its_column(t: Transform, default_source: Seq<char>, all_sources: Seq<Seq<char>>, aliases: Seq<Seq<char>>)
    requires
        t.transform_type@ == "add_column"@,
        t.name is Some,
    ensures
        transform_code(t, default_source, all_sources, aliases) == Ok::<Seq<char>, Seq<char>>(
            "    "@ + output_df(t, default_source) + " = "@ + input_df(t, default_source) + ".withColumn(\""@ + trimmed(t.name->Some_0@)
                + "\", "@ + trimmed(or_default(t.expression, "lit(None)"@)) + ")"@,
        ),
{
    reveal_strlit("add_column");
    reveal_strlit("filter");
    reveal_strlit("sql");
    reveal_strlit("join");
    reveal_strlit("drop_columns");
    reveal_strlit("select");
    reveal_strlit("rename");
    assert("add_column"@ != "filter"@ && "add_column"@ != "sql"@ && "add_column"@ != "join"@ && "add_column"@ != "drop_columns"@
        && "add_column"@ != "select"@ && "add_column"@ != "rename"@) by {
        assert("add_column"@.len() != "filter"@.len());
        assert("add_column"@.len() != "sql"@.len());
        assert("add_column"@.len() != "join"@.len());
        assert("add_column"@.len() != "drop_columns"@.len());
        assert("add_column"@.len() != "select"@.len());
        assert("add_column"@.len() != "rename"@.len());
    }
}

pub open spec fn alias_list(aggs: Seq<(String, String)>) -> Seq<String> {
    aggs.map_values(|p: (String, String)| p.0)
}

fn opt_or<'a>(o: &'a Option<String>, d: &'a str) -> (r: &'a str)
    ensures
        r@ == or_default(*o, d@),
{
    match o {
        Some(s) => s.as_str(),
        None => d,
    }
}

fn df_of(name: &str) -> (r: String)
    ensures
        r@ == "df_"@ + name@,
{
    let mut r = owned("df_");
    push_str(&mut r, name);
    r
}

fn assign(output: &str, input: &str, call: &str, arg: &str, close: &str) -> (r: String)
    ensures
        r@ == "    "@ + output@ + " = "@ + input@ + call@ + arg@ + close@,
{
    let mut r = owned("    ");
    push_str(&mut r, output);
    push_str(&mut r, " = ");
    push_str(&mut r, input);
    push_str(&mut r, call);
    push_str(&mut r, arg);
    push_str(&mut r, close);
    proof {
        assert(r@ =~= "    "@ + output@ + " = "@ + input@ + call@ + arg@ + close@);
    }
    r
}

fn rename_text(m: &Vec<(String, String)>, input: &str, output: &str) -> (r: String)
    ensures
        r@ == joined(rename_lines(m@, input@, output@), "\n"@),
{
    let mut lines: Vec<String> = Vec::new();
    let mut i: usize = 0;
    proof {
        assert(m@.take(0) =~= Seq::<(String, String)>::empty());
        assert(views(lines@) =~= rename_lines(m@.take(0), input@, output@));
    }
    while i < m.len()
        invariant
            i <= m.len(),
            views(lines@) == rename_lines(m@.take(i as int), input@, output@),
        decreases m.len() - i,
    {
        proof {
            assert(m@.take(i + 1).drop_last() =~= m@.take(i as int));
            assert(m@.take(i + 1).last() == m@[i as int]);
        }
        let from = if i == 0 {
            input
        } else {
            output
        };
        let mut l = owned("    ");
        push_str(&mut l, output);
        push_str(&mut l, " = ");
        push_str(&mut l, from);
        push_str(&mut l, ".withColumnRenamed(\"");
        push_str(&mut l, m[i].0.as_str());
        push_str(&mut l, "\", \"");
        push_str(&mut l, m[i].1.as_str());
        push_str(&mut l, "\")");
        let ghost before = views(lines@);
        lines.push(l);
        proof {
            assert(views(lines@) =~= before.push(l@));
        }
        i = i + 1;
    }
    proof {
        assert(m@.take(m@.len() as int) =~= m@);
    }
    join(&lines, "\n")
}

fn find_agg(aggs: &Vec<(String, String)>, a: &str) -> (r: String)
    ensures
        r@ == agg_expr(aggs@, a@),
{
    let mut i: usize = 0;
    proof {
        assert(aggs@.skip(0) =~= aggs@);
    }
    while i < aggs.len()
        invariant
            i <= aggs.len(),
            agg_expr(aggs@, a@) == agg_expr(aggs@.skip(i as int), a@),
        decreases aggs.len() - i,
    {
        proof {
            assert(aggs@.skip(i as int).skip(1) =~= aggs@.skip(i + 1));
            assert(aggs@.skip(i as int)[0] == aggs@[i as int]);
        }
        if str_eq(aggs[i].0.as_str(), a) {
            return aggs[i].1.clone();
        }
        i = i + 1;
    }
    proof {
        assert(aggs@.skip(aggs@.len() as int) =~= Seq::<(String, String)>::empty());
    }
    String::new()
}

fn sorted_aliases(aggs: &Vec<(String, String)>) -> (r: Vec<String>)
    ensures
        sorted(views(r@)),
        r@.to_multiset() == alias_list(aggs@).to_multiset(),
{
    let mut v: Vec<String> = Vec::new();
    let mut i: usize = 0;
    while i < aggs.len()
        invariant
            i <= aggs.len(),
            v@ == alias_list(aggs@.take(i as int)),
        decreases aggs.len() - i,
    {
        v.push(aggs[i].0.clone());
        proof {
            assert(v@ =~= alias_list(aggs@.take(i + 1)));
        }
        i = i + 1;
    }
    proof {
        assert(aggs@.take(aggs@.len() as int) =~= aggs@);
    }
    sort_strings(v)
}

fn agg_text(aggs: &Vec<(String, String)>, aliases: &Vec<String>) -> (r: String)
    ensures
        r@ == agg_list(aggs@, views(aliases@)),
{
    let mut parts: Vec<String> = Vec::new();
    let mut i: usize = 0;
    while i < aliases.len()
        invariant
            i <= aliases.len(),
            views(parts@) == views(aliases@).take(i as int).map_values(|a: Seq<char>| "F.expr(\""@ + trimmed(agg_expr(aggs@, a)) + "\").alias(\""@ + a + "\")"@),
        decreases aliases.len() - i,
    {
        let e = find_agg(aggs, aliases[i].as_str());
        let te = trim(e.as_str());
        let mut p = owned("F.expr(\"");
        push_str(&mut p, te.as_str());
        push_str(&mut p, "\").alias(\"");
        push_str(&mut p, aliases[i].as_str());
        push_str(&mut p, "\")");
        let ghost before = views(parts@);
        parts.push(p);
        proof {
            assert(views(parts@) =~= before.push(p@));
            assert(views(aliases@).take(i + 1).map_values(|a: Seq<char>| "F.expr(\""@ + trimmed(agg_expr(aggs@, a)) + "\").alias(\""@ + a + "\")"@)
                =~= views(aliases@).take(i as int).map_values(|a: Seq<char>| "F.expr(\""@ + trimmed(agg_expr(aggs@, a)) + "\").alias(\""@ + a + "\")"@).push(p@));
        }
        i = i + 1;
    }
    proof {
        assert(views(aliases@).take(aliases@.len() as int) =~= views(aliases@));
    }
    join(&parts, ", ")
}

fn order_text(o: &Vec<OrderBy>) -> (r: String)
    ensures
        r@ == order_list(o@),
{
    let mut parts: Vec<String> = Vec::new();
    let mut i: usize = 0;
    while i < o.len()
        invariant
            i <= o.len(),
            views(parts@) == o@.take(i as int).map_values(|x: OrderBy| "F.col(\""@ + x.column@ + "\")."@ + (if x.desc {
                "desc"@
            } else {
                "asc"@
            }) + "()"@),
        decreases o.len() - i,
    {
        let mut p = owned("F.col(\"");
        push_str(&mut p, o[i].column.as_str());
        push_str(&mut p, "\").");
        push_str(&mut p, if o[i].desc {
            "desc"
        } else {
            "asc"
        });
        push_str(&mut p, "()");
        let ghost before = views(parts@);
        parts.push(p);
        proof {
            assert(views(parts@) =~= before.push(p@));
            assert(o@.take(i + 1).map_values(|x: OrderBy| "F.col(\""@ + x.column@ + "\")."@ + (if x.desc {
                "desc"@
            } else {
                "asc"@
            }) + "()"@) =~= o@.take(i as int).map_values(|x: OrderBy| "F.col(\""@ + x.column@ + "\")."@ + (if x.desc {
                "desc"@
            } else {
                "asc"@
            }) + "()"@).push(p@));
        }
        i = i + 1;
    }
    proof {
        assert(o@.take(o@.len() as int) =~= o@);
    }
    join(&parts, ", ")
}

fn window_spec_text(t: &Transform) -> (r: String)
    ensures
        r@ == window_spec(*t),
{
    let mut spec = owned("Window");
    if t.partition_by.len() > 0 {
        push_str(&mut spec, ".partitionBy(");
        let q = quoted_list(&t.partition_by);
        push_str(&mut spec, q.as_str());
        push_str(&mut spec, ")");
    }
    if t.order_by.len() > 0 {
        push_str(&mut spec, ".orderBy(");
        let o = order_text(&t.order_by);
        push_str(&mut spec, o.as_str());
        push_str(&mut spec, ")");
    }
    proof {
        assert(spec@ =~= window_spec(*t));
    }
    spec
}

fn sql_text(t: &Transform, default_source: &str, all_sources: &Vec<String>) -> (r: String)
    ensures
        r@ == joined(views(all_sources@).map_values(|n: Seq<char>| "    df_"@ + n + ".createOrReplaceTempView(\""@ + n + "\")"@).push(
            "    "@ + ("df_"@ + or_default(t.output, default_source@)) + " = spark.sql(\""@ + trimmed(or_default(t.query, "SELECT * FROM source"@)) + "\")"@,
        ), "\n"@),
{
    let mut lines: Vec<String> = Vec::new();
    let mut i: usize = 0;
    while i < all_sources.len()
        invariant
            i <= all_sources.len(),
            views(lines@) == views(all_sources@).take(i as int).map_values(|n: Seq<char>| "    df_"@ + n + ".createOrReplaceTempView(\""@ + n + "\")"@),
        decreases all_sources.len() - i,
    {
        let mut l = owned("    df_");
        push_str(&mut l, all_sources[i].as_str());
        push_str(&mut l, ".createOrReplaceTempView(\"");
        push_str(&mut l, all_sources[i].as_str());
        push_str(&mut l, "\")");
        let ghost before = views(lines@);
        lines.push(l);
        proof {
            assert(views(lines@) =~= before.push(l@));
            assert(views(all_sources@).take(i + 1).map_values(|n: Seq<char>| "    df_"@ + n + ".createOrReplaceTempView(\""@ + n + "\")"@)
                =~= views(all_sources@).take(i as int).map_values(|n: Seq<char>| "    df_"@ + n + ".createOrReplaceTempView(\""@ + n + "\")"@).push(l@));
        }
        i = i + 1;
    }
    proof {
        assert(views(all_sources@).take(all_sources@.len() as int) =~= views(all_sources@));
    }
    let out_var = df_of(opt_or(&t.output, default_source));
    let query = trim(opt_or(&t.query, "SELECT * FROM source"));
    let l = assign(out_var.as_str(), "spark.sql(\"", query.as_str(), "\")", "");
    let ghost before = views(lines@);
    lines.push(l);
    proof {
        reveal_strlit("");
        reveal_strlit(" = spark.sql(\"");
        reveal_strlit(" = ");
        reveal_strlit("spark.sql(\"");
        assert(l@ =~= "    "@ + ("df_"@ + or_default(t.output, default_source@)) + " = spark.sql(\""@ + trimmed(or_default(t.query, "SELECT * FROM source"@)) + "\")"@);
        assert(views(lines@) =~= before.push(l@));
    }
    join(&lines, "\n")
}

/// Render one transform step. Aggregations are written in increasing
/// alias order.
#[verifier::rlimit(40)]
pub fn render_transform(t: &Transform, default_source: &str, all_sources: &Vec<String>) -> (r: Result<String, String>)
    ensures
        exists|u: Seq<String>| {
            &&& sorted(views(u))
            &&& u.to_multiset() == alias_list(t.aggs@).to_multiset()
            &&& match transform_code(*t, default_source@, views(all_sources@), views(u)) {
                Ok(c) => r matches Ok(x) && x@ == c,
                Err(e) => r matches Err(m) && m@ == e,
            }
        },
{
    let aliases = sorted_aliases(&t.aggs);
    let ghost u = aliases@;
    let in_name = opt_or(&t.source, default_source);
    let input = df_of(in_name);
    let output = df_of(opt_or(&t.output, in_name));
    let kind = t.transform_type.as_str();
    let r: Result<String, String> = if str_eq(kind, "filter") {
        let cond = trim(opt_or(&t.condition, "True"));
        Ok(assign(output.as_str(), input.as_str(), ".filter(", cond.as_str(), ")"))
    } else if str_eq(kind, "sql") {
        Ok(sql_text(t, default_source, all_sources))
    } else if str_eq(kind, "join") {
        match (&t.right, &t.on) {
            (None, _) => Err(owned("join transform: 'right' is required")),
            (Some(_), None) => Err(owned("join transform: 'on' is required")),
            (Some(right), Some(on)) => {
                let left = opt_or(&t.left, default_source);
                let how = opt_or(&t.how, "inner");
                let out_var = df_of(opt_or(&t.output, left));
                let mut l = owned("    ");
                push_str(&mut l, out_var.as_str());
                push_str(&mut l, " = df_");
                push_str(&mut l, left);
                push_str(&mut l, ".join(df_");
                push_str(&mut l, right.as_str());
                push_str(&mut l, ", on=\"");
                push_str(&mut l, on.as_str());
                push_str(&mut l, "\", how=\"");
                push_str(&mut l, how);
                push_str(&mut l, "\")");
                proof {
                    assert(l@ =~= "    "@ + ("df_"@ + or_default(t.output, left@)) + " = df_"@ + left@ + ".join(df_"@ + right@ + ", on=\""@
                        + on@ + "\", how=\""@ + how@ + "\")"@);
                }
                Ok(l)
            },
        }
    } else if str_eq(kind, "drop_columns") {
        let q = quoted_list(&t.columns);
        Ok(assign(output.as_str(), input.as_str(), ".drop(", q.as_str(), ")"))
    } else if str_eq(kind, "select") {
        let q = quoted_list(&t.columns);
        Ok(assign(output.as_str(), input.as_str(), ".select(", q.as_str(), ")"))
    } else if str_eq(kind, "rename") {
        Ok(rename_text(&t.mapping, input.as_str(), output.as_str()))
    } else if str_eq(kind, "add_column") {
        match &t.name {
            None => Err(owned("add_column transform: 'name' is required")),
            Some(n) => {
                let name = trim(n.as_str());
                let expr = trim(opt_or(&t.expression, "lit(None)"));
                let mut arg = owned("\"");
                push_str(&mut arg, name.as_str());
                push_str(&mut arg, "\", ");
                push_str(&mut arg, expr.as_str());
                let l = assign(output.as_str(), input.as_str(), ".withColumn(", arg.as_str(), ")");
                proof {
                    reveal_strlit(".withColumn(\"");
                    reveal_strlit(".withColumn(");
                    reveal_strlit("\"");
                    assert(l@ =~= "    "@ + output@ + " = "@ + input@ + ".withColumn(\""@ + trimmed(n@) + "\", "@ + trimmed(
                        or_default(t.expression, "lit(None)"@),
                    ) + ")"@);
                }
                Ok(l)
            },
        }
    } else if str_eq(kind, "aggregate") {
        let g = quoted_list(&t.group_by);
        let a = agg_text(&t.aggs, &aliases);
        let mut arg = g;
        push_str(&mut arg, ").agg(");
        push_str(&mut arg, a.as_str());
        let l = assign(output.as_str(), input.as_str(), ".groupBy(", arg.as_str(), ")");
        proof {
            assert(l@ =~= "    "@ + output@ + " = "@ + input@ + ".groupBy("@ + quoted_cols(views(t.group_by@)) + ").agg("@ + agg_list(t.aggs@, views(u))
                + ")"@);
        }
        Ok(l)
    } else if str_eq(kind, "window") {
        match (&t.name, &t.expression) {
            (None, _) => Err(owned("window transform: 'name' is required")),
            (Some(_), None) => Err(owned("window transform: 'expression' is required")),
            (Some(n), Some(e)) => {
                let col = trim(n.as_str());
                let ex = trim(e.as_str());
                let mut w = owned("_w_");
                push_str(&mut w, col.as_str());
                let spec = window_spec_text(t);
                let mut l = owned("    ");
                push_str(&mut l, w.as_str());
                push_str(&mut l, " = ");
                push_str(&mut l, spec.as_str());
                push_str(&mut l, "\n    ");
                push_str(&mut l, output.as_str());
                push_str(&mut l, " = ");
                push_str(&mut l, input.as_str());
                push_str(&mut l, ".withColumn(\"");
                push_str(&mut l, col.as_str());
                push_str(&mut l, "\", F.expr(\"");
                push_str(&mut l, ex.as_str());
                push_str(&mut l, "\").over(");
                push_str(&mut l, w.as_str());
                push_str(&mut l, "))");
                proof {
                    reveal_strlit("\n    ");
                    reveal_strlit("\n");
                    reveal_strlit("    ");
                    assert(l@ =~= "    "@ + ("_w_"@ + trimmed(n@)) + " = "@ + window_spec(*t) + "\n"@ + "    "@ + output@ + " = "@ + input@
                        + ".withColumn(\""@ + trimmed(n@) + "\", F.expr(\""@ + trimmed(e@) + "\").over("@ + ("_w_"@ + trimmed(n@)) + "))"@);
                }
                Ok(l)
            },
        }
    } else {
        let mut l = owned("    # Unsupported transform type: ");
        push_str(&mut l, kind);
        Ok(l)
    };
    proof {
        assert(input@ == input_df(*t, default_source@));
        assert(output@ == output_df(*t, default_source@));
        assert(match transform_code(*t, default_source@, views(all_sources@), views(u)) {
            Ok(c) => r matches Ok(x) && x@ == c,
            Err(e) => r matches Err(m) && m@ == e,
        });
    }
    r
}

/// Each transform's aliases sorted: `us[i]` for transform `i`.
pub open spec fn aliases_sorted(ts: Seq<Transform>, us: Seq<Seq<String>>) -> bool {
    &&& us.len() == ts.len()
    &&& forall|i: int| 0 <= i < ts.len() ==> sorted(views(#[trigger] us[i])) && us[i].to_multiset() == alias_list(ts[i].aggs@).to_multiset()
}

/// `us` sorts the aliases of the first `us.len()` transforms.
pub open spec fn aliases_prefix(ts: Seq<Transform>, us: Seq<Seq<String>>) -> bool {
    &&& us.len() <= ts.len()
    &&& forall|i: int| 0 <= i < us.len() ==> sorted(views(#[trigger] us[i])) && us[i].to_multiset() == alias_list(ts[i].aggs@).to_multiset()
}

/// The code of the transforms in order, or the first error.
pub open spec fn transforms_code(
    ts: Seq<Transform>,
    default_source: Seq<char>,
    all_sources: Seq<Seq<char>>,
    us: Seq<Seq<String>>,
) -> Result<Seq<Seq<char>>, Seq<char>>
    decreases ts.len(),
{
    if ts.len() == 0 {
        Ok(Seq::empty())
    } else {
        match transforms_code(ts.drop_last(), default_source, all_sources, us.drop_last()) {
            Err(e) => Err(e),
            Ok(v) => match transform_code(ts.last(), default_source, all_sources, views(us.last())) {
                Ok(c) => Ok(v.push(c)),
                Err(e) => Err(e),
            },
        }
    }
}

proof fn lemma_transforms_err_stays(ts: Seq<Transform>, ds: Seq<char>, all: Seq<Seq<char>>, us: Seq<Seq<String>>, k: int, j: int)
    requires
        0 <= k <= j <= ts.len(),
        us.len() == ts.len(),
        transforms_code(ts.take(k), ds, all, us.take(k)) is Err,
    ensures
        transforms_code(ts.take(j), ds, all, us.take(j)) == transforms_code(ts.take(k), ds, all, us.take(k)),
    decreases j - k,
{
    if k < j {
        lemma_transforms_err_stays(ts, ds, all, us, k, j - 1);
        assert(ts.take(j).drop_last() =~= ts.take(j - 1));
        assert(us.take(j).drop_last() =~= us.take(j - 1));
    }
}

/// Render the transforms, joined with newlines.
pub fn render_transforms(ts: &Vec<Transform>, default_source: &str, all_sources: &Vec<String>) -> (r: Result<String, String>)
    ensures
        exists|us: Seq<Seq<String>>| {
            &&& #[trigger] aliases_prefix(ts@, us)
            &&& match r {
                Ok(x) => us.len() == ts@.len() && (transforms_code(ts@, default_source@, views(all_sources@), us) matches Ok(v) && x@ == joined(v, "\n"@)),
                Err(m) => transforms_code(ts@.take(us.len() as int), default_source@, views(all_sources@), us) == Err::<Seq<Seq<char>>, Seq<char>>(m@),
            }
        },
{
    let mut parts: Vec<String> = Vec::new();
    let ghost mut us: Seq<Seq<String>> = Seq::empty();
    let mut i: usize = 0;
    proof {
        assert(ts@.take(0) =~= Seq::<Transform>::empty());
        assert(views(parts@) =~= Seq::<Seq<char>>::empty());
    }
    while i < ts.len()
        invariant
            i <= ts.len(),
            us.len() == i,
            forall|k: int| 0 <= k < i ==> sorted(views(#[trigger] us[k])) && us[k].to_multiset() == alias_list(ts@[k].aggs@).to_multiset(),
            transforms_code(ts@.take(i as int), default_source@, views(all_sources@), us) == Ok::<Seq<Seq<char>>, Seq<char>>(views(parts@)),
        decreases ts.len() - i,
    {
        let ghost us0 = us;
        let r = render_transform(&ts[i], default_source, all_sources);
        let ghost u = choose|u: Seq<String>| {
            &&& sorted(views(u))
            &&& u.to_multiset() == alias_list(ts@[i as int].aggs@).to_multiset()
            &&& match transform_code(ts@[i as int], default_source@, views(all_sources@), views(u)) {
                Ok(c) => r matches Ok(x) && x@ == c,
                Err(e) => r matches Err(m) && m@ == e,
            }
        };
        proof {
            us = us.push(u);
            assert(ts@.take(i + 1).drop_last() =~= ts@.take(i as int));
            assert(ts@.take(i + 1).last() == ts@[i as int]);
            assert(us.drop_last() =~= us0);
            assert forall|k: int| 0 <= k < i + 1 implies sorted(views(#[trigger] us[k])) && us[k].to_multiset() == alias_list(ts@[k].aggs@).to_multiset() by {
                if k < i {
                    assert(us[k] == us0[k]);
                }
            }
        }
        match r {
            Ok(c) => {
                let ghost before = views(parts@);
                parts.push(c);
                proof {
                    assert(views(parts@) =~= before.push(parts@.last()@));
                }
            },
            Err(m) => {
                proof {
                    assert(transforms_code(ts@.take(i + 1), default_source@, views(all_sources@), us) == Err::<Seq<Seq<char>>, Seq<char>>(m@));
                    assert(ts@.take(us.len() as int) == ts@.take(i + 1));
                    assert(aliases_prefix(ts@, us));
                }
                return Err(m);
            },
        }
        i = i + 1;
    }
    proof {
        assert(ts@.take(ts@.len() as int) =~= ts@);
        assert(aliases_prefix(ts@, us));
    }
    Ok(join(&parts, "\n"))
}

} // verus!
