//! Building blocks of the generated PySpark scripts: Python literals,
//! import lines, option dictionaries, secret and RDS IAM token fetches,
//! the PII masking block and body indentation.
use vstd::prelude::*;
use crate::airflow::{job_type_name, JobType};
use crate::json::{get, get_member, get_str, str_member, items_view, entries_view, lemma_entries_view, lemma_items_view, json_view, Json, JsonV};
use crate::text::{chars_of, contains_text, lemma_contains_middle, lemma_contains_text_trans, join, joined, owned, push_char, push_str, string_of_range, u64_to_decimal, decimal, views};

verus! {

// ------------------------------------------------------------------
// Python literals
// ------------------------------------------------------------------

/// One character inside a double-quoted Python string: backslash and
/// double quote get a backslash in front.
pub open spec fn py_escape_char(c: char) -> Seq<char> {
    if c == '\\' {
        seq!['\\', '\\']
    } else if c == '"' {
        seq!['\\', '"']
    } else {
        seq![c]
    }
}

pub open spec fn py_escape(s: Seq<char>) -> Seq<char>
    decreases s.len(),
{
    if s.len() == 0 {
        Seq::empty()
    } else {
        py_escape(s.drop_last()) + py_escape_char(s.last())
    }
}

/// The Python literal for a JSON value: `None`, `True`, `False`, the
/// number's text, a double-quoted escaped string, a list, or a dict whose
/// keys are written in double quotes as they are.
pub open spec fn py_lit(j: JsonV) -> Seq<char>
    decreases j, 0nat,
{
    match j {
        JsonV::Null => "None"@,
        JsonV::Bool(b) => if b {
            "True"@
        } else {
            "False"@
        },
        JsonV::Number(t) => t,
        JsonV::Str(s) => "\""@ + py_escape(s) + "\""@,
        JsonV::Array(xs) => "["@ + py_items(xs, xs.len()) + "]"@,
        JsonV::Object(es) => "{"@ + py_entries(es, es.len()) + "}"@,
    }
}

pub open spec fn py_items(xs: Seq<JsonV>, n: nat) -> Seq<char>
    decreases xs, n,
{
    if n == 0 || n > xs.len() {
        Seq::empty()
    } else if n == 1 {
        py_lit(xs[0])
    } else {
        py_items(xs, (n - 1) as nat) + ", "@ + py_lit(xs[n - 1])
    }
}

pub open spec fn py_entry(e: (Seq<char>, JsonV)) -> Seq<char>
    decreases e, 0nat,
{
    "\""@ + e.0 + "\": "@ + py_lit(e.1)
}

pub open spec fn py_entries(es: Seq<(Seq<char>, JsonV)>, n: nat) -> Seq<char>
    decreases es, n,
{
    if n == 0 || n > es.len() {
        Seq::empty()
    } else if n == 1 {
        "\""@ + es[0].0 + "\": "@ + py_lit(es[0].1)
    } else {
        py_entries(es, (n - 1) as nat) + ", "@ + "\""@ + es[n - 1].0 + "\": "@ + py_lit(es[n - 1].1)
    }
}

fn py_escape_exec(s: &str) -> (r: String)
    ensures
        r@ == py_escape(s@),
{
    let cs = chars_of(s);
    let mut out = String::new();
    let mut i: usize = 0;
    while i < cs.len()
        invariant
            cs@ == s@,
            i <= cs.len(),
            out@ == py_escape(cs@.take(i as int)),
        decreases cs.len() - i,
    {
        let c = cs[i];
        if c == '\\' {
            push_char(&mut out, '\\');
            push_char(&mut out, '\\');
        } else if c == '"' {
            push_char(&mut out, '\\');
            push_char(&mut out, '"');
        } else {
            push_char(&mut out, c);
        }
        proof {
            assert(cs@.take(i + 1).drop_last() =~= cs@.take(i as int));
            assert(cs@.take(i + 1).last() == c);
            assert(out@ =~= py_escape(cs@.take(i + 1)));
        }
        i = i + 1;
    }
    proof {
        assert(cs@.take(cs.len() as int) =~= cs@);
    }
    out
}

/// Render a JSON value as a Python literal (for opaque `options:` passed
/// through to generated code).
pub fn python_literal(v: &Json) -> (r: String)
    ensures
        r@ == py_lit(v@),
    decreases v,
{
    match v {
        Json::Null => owned("None"),
        Json::Bool(b) => if *b {
            owned("True")
        } else {
            owned("False")
        },
        Json::Number(t) => t.clone(),
        Json::Str(s) => {
            let mut out = owned("\"");
            let e = py_escape_exec(s.as_str());
            push_str(&mut out, e.as_str());
            push_str(&mut out, "\"");
            out
        },
        Json::Array(a) => {
            let ghost xs = items_view(a@, a@.len());
            proof {
                lemma_items_view(a@, a@.len());
            }
            let mut out = owned("[");
            let mut i: usize = 0;
            while i < a.len()
                invariant
                    *v == Json::Array(*a),
                    xs == items_view(a@, a@.len()),
                    xs.len() == a.len(),
                    forall|k: int| 0 <= k < a.len() ==> #[trigger] xs[k] == json_view(a@[k]),
                    i <= a.len(),
                    out@ == "["@ + py_items(xs, i as nat),
                decreases a.len() - i,
            {
                if i > 0 {
                    push_str(&mut out, ", ");
                }
                proof {
                    assert(decreases_to!(*v => (*v)->Array_0));
                    assert(decreases_to!(*a => a@));
                    assert(decreases_to!(a@ => a@[i as int]));
                }
                let t = python_literal(&a[i]);
                push_str(&mut out, t.as_str());
                proof {
                    if i == 0 {
                        assert(py_items(xs, 0) =~= Seq::<char>::empty());
                    }
                    assert(out@ =~= "["@ + py_items(xs, (i + 1) as nat));
                }
                i = i + 1;
            }
            push_str(&mut out, "]");
            out
        },
        Json::Object(o) => {
            let ghost es = entries_view(o@, o@.len());
            proof {
                lemma_entries_view(o@, o@.len());
            }
            let mut out = owned("{");
            let mut i: usize = 0;
            while i < o.len()
                invariant
                    *v == Json::Object(*o),
                    es == entries_view(o@, o@.len()),
                    es.len() == o.len(),
                    forall|k: int| 0 <= k < o.len() ==> #[trigger] es[k] == (o@[k].0@, json_view(o@[k].1)),
                    i <= o.len(),
                    out@ == "{"@ + py_entries(es, i as nat),
                decreases o.len() - i,
            {
                if i > 0 {
                    push_str(&mut out, ", ");
                }
                push_str(&mut out, "\"");
                push_str(&mut out, o[i].0.as_str());
                push_str(&mut out, "\": ");
                proof {
                    assert(decreases_to!(*v => (*v)->Object_0));
                    assert(decreases_to!(*o => o@));
                    assert(decreases_to!(o@ => o@[i as int]));
                    assert(decreases_to!(o@[i as int] => o@[i as int].1));
                }
                let t = python_literal(&o[i].1);
                push_str(&mut out, t.as_str());
                proof {
                    if i == 0 {
                        assert(py_entries(es, 0) =~= Seq::<char>::empty());
                    }
                    assert(out@ =~= "{"@ + py_entries(es, (i + 1) as nat));
                }
                i = i + 1;
            }
            push_str(&mut out, "}");
            out
        },
    }
}

// ------------------------------------------------------------------
// Imports
// ------------------------------------------------------------------

/// A user-declared import of a job script.
pub struct Import {
    pub name: String,
    pub from: Option<String>,
}

pub open spec fn import_line(i: Import) -> Seq<char> {
    match i.from {
        Some(m) => "from "@ + m@ + " import "@ + i.name@,
        None => "import "@ + i.name@,
    }
}

/// `from <module> import <name>`, or `import <name>`.
pub fn render_import(import: &Import) -> (r: String)
    ensures
        r@ == import_line(*import),
{
    match &import.from {
        Some(module) => {
            let mut r = owned("from ");
            push_str(&mut r, module.as_str());
            push_str(&mut r, " import ");
            push_str(&mut r, import.name.as_str());
            r
        },
        None => {
            let mut r = owned("import ");
            push_str(&mut r, import.name.as_str());
            r
        },
    }
}

/// One import line per import, joined with newlines.
pub fn render_imports(imports: &Vec<Import>) -> (r: String)
    ensures
        r@ == joined(imports@.map_values(|i: Import| import_line(i)), "\n"@),
{
    let mut lines: Vec<String> = Vec::new();
    let mut i: usize = 0;
    while i < imports.len()
        invariant
            i <= imports.len(),
            views(lines@) == imports@.take(i as int).map_values(|m: Import| import_line(m)),
        decreases imports.len() - i,
    {
        let l = render_import(&imports[i]);
        let ghost before = lines@;
        lines.push(l);
        proof {
            assert(views(lines@) =~= views(before).push(import_line(imports@[i as int])));
            assert(imports@.take(i + 1).map_values(|m: Import| import_line(m)) =~= imports@.take(i as int).map_values(
                |m: Import| import_line(m),
            ).push(import_line(imports@[i as int])));
        }
        i = i + 1;
    }
    proof {
        assert(imports@.take(imports@.len() as int) =~= imports@);
    }
    join(&lines, "\n")
}

// ------------------------------------------------------------------
// Required fields
// ------------------------------------------------------------------

pub open spec fn missing_source_field(source: Seq<char>, field: Seq<char>) -> Seq<char> {
    "source '"@ + source + "': '"@ + field + "' is required"@
}

pub open spec fn missing_sink_field(sink_type: Seq<char>, field: Seq<char>) -> Seq<char> {
    "sink: '"@ + field + "' is required for "@ + sink_type + " sink"@
}

/// A field a source needs: its value, or the error naming source and field.
pub fn require_str<'a>(value: Option<&'a str>, source_name: &str, field: &str) -> (r: Result<&'a str, String>)
    ensures
        match value {
            Some(v) => r == Ok::<&str, String>(v),
            None => r matches Err(m) && m@ == missing_source_field(source_name@, field@),
        },
{
    match value {
        Some(v) => Ok(v),
        None => {
            let mut m = owned("source '");
            push_str(&mut m, source_name);
            push_str(&mut m, "': '");
            push_str(&mut m, field);
            push_str(&mut m, "' is required");
            Err(m)
        },
    }
}

/// A field a sink needs: its value, or the error naming field and sink type.
pub fn require_sink_str<'a>(value: Option<&'a str>, sink_type: &str, field: &str) -> (r: Result<&'a str, String>)
    ensures
        match value {
            Some(v) => r == Ok::<&str, String>(v),
            None => r matches Err(m) && m@ == missing_sink_field(sink_type@, field@),
        },
{
    match value {
        Some(v) => Ok(v),
        None => {
            let mut m = owned("sink: '");
            push_str(&mut m, field);
            push_str(&mut m, "' is required for ");
            push_str(&mut m, sink_type);
            push_str(&mut m, " sink");
            Err(m)
        },
    }
}

// ------------------------------------------------------------------
// Small fragments
// ------------------------------------------------------------------

pub open spec fn quoted(s: Seq<char>) -> Seq<char> {
    "\""@ + s + "\""@
}

/// Column names in double quotes, joined with `, `.
pub open spec fn quoted_cols(cols: Seq<Seq<char>>) -> Seq<char> {
    joined(cols.map_values(|c: Seq<char>| quoted(c)), ", "@)
}

/// `"a", "b", "c"`.
pub fn quoted_list(cols: &Vec<String>) -> (r: String)
    ensures
        r@ == quoted_cols(views(cols@)),
{
    let mut parts: Vec<String> = Vec::new();
    let mut i: usize = 0;
    while i < cols.len()
        invariant
            i <= cols.len(),
            views(parts@) == views(cols@).take(i as int).map_values(|c: Seq<char>| quoted(c)),
        decreases cols.len() - i,
    {
        let mut q = owned("\"");
        push_str(&mut q, cols[i].as_str());
        push_str(&mut q, "\"");
        let ghost before = parts@;
        parts.push(q);
        proof {
            assert(views(parts@) =~= views(before).push(quoted(cols@[i as int]@)));
            assert(views(cols@).take(i + 1).map_values(|c: Seq<char>| quoted(c)) =~= views(cols@).take(i as int).map_values(
                |c: Seq<char>| quoted(c),
            ).push(quoted(cols@[i as int]@)));
        }
        i = i + 1;
    }
    proof {
        assert(views(cols@).take(cols@.len() as int) =~= views(cols@));
    }
    join(&parts, ", ")
}

/// The three lines that fetch a Secrets Manager secret into
/// `<prefix>_secret`.
pub open spec fn secret_fetch(secret_id: Seq<char>, prefix: Seq<char>) -> Seq<char> {
    let var = prefix + "_secret"@;
    "    "@ + var + "_client = boto3.client(\"secretsmanager\")\n"@
        + "    "@ + var + "_resp = "@ + var + "_client.get_secret_value(SecretId=\""@ + secret_id + "\")\n"@
        + "    "@ + var + " = json.loads("@ + var + "_resp[\"SecretString\"])"@
}

/// Python lines fetching secret `secret_id` into `<prefix>_secret`.
pub fn render_secret_fetch(secret_id: &str, prefix: &str) -> (r: String)
    ensures
        r@ == secret_fetch(secret_id@, prefix@),
{
    let mut var = owned(prefix);
    push_str(&mut var, "_secret");
    let v = var.as_str();
    let mut r = owned("    ");
    push_str(&mut r, v);
    push_str(&mut r, "_client = boto3.client(\"secretsmanager\")\n");
    push_str(&mut r, "    ");
    push_str(&mut r, v);
    push_str(&mut r, "_resp = ");
    push_str(&mut r, v);
    push_str(&mut r, "_client.get_secret_value(SecretId=\"");
    push_str(&mut r, secret_id);
    push_str(&mut r, "\")\n");
    push_str(&mut r, "    ");
    push_str(&mut r, v);
    push_str(&mut r, " = json.loads(");
    push_str(&mut r, v);
    push_str(&mut r, "_resp[\"SecretString\"])");
    proof {
        assert(r@ =~= secret_fetch(secret_id@, prefix@));
    }
    r
}

/// A `glueContext.create_dynamic_frame.from_options(...)` read into `var`.
pub open spec fn glue_read(
    var: Seq<char>,
    connection_type: Seq<char>,
    options_expr: Seq<char>,
    ctx: Seq<char>,
    format: Option<Seq<char>>,
) -> Seq<char> {
    let format_arg = match format {
        Some(f) => "format=\""@ + f + "\", "@,
        None => Seq::empty(),
    };
    "    "@ + var + " = glueContext.create_dynamic_frame.from_options(connection_type=\""@ + connection_type
        + "\", "@ + format_arg + "connection_options="@ + options_expr + ", transformation_ctx=\""@ + ctx
        + "\").toDF()"@
}

/// Render a Glue `from_options` read; `options_expr` is a dict literal or
/// a variable name.
pub fn glue_from_options(var: &str, connection_type: &str, options_expr: &str, ctx: &str, format: Option<&str>) -> (r: String)
    ensures
        r@ == glue_read(var@, connection_type@, options_expr@, ctx@, match format {
            Some(f) => Some(f@),
            None => None,
        }),
{
    let mut r = owned("    ");
    push_str(&mut r, var);
    push_str(&mut r, " = glueContext.create_dynamic_frame.from_options(connection_type=\"");
    push_str(&mut r, connection_type);
    push_str(&mut r, "\", ");
    match format {
        Some(f) => {
            push_str(&mut r, "format=\"");
            push_str(&mut r, f);
            push_str(&mut r, "\", ");
        },
        None => {},
    }
    push_str(&mut r, "connection_options=");
    push_str(&mut r, options_expr);
    push_str(&mut r, ", transformation_ctx=\"");
    push_str(&mut r, ctx);
    push_str(&mut r, "\").toDF()");
    proof {
        assert(r@ =~= glue_read(var@, connection_type@, options_expr@, ctx@, match format {
            Some(f) => Some(f@),
            None => None,
        }));
    }
    r
}

// ------------------------------------------------------------------
// PII masking
// ------------------------------------------------------------------

/// The detection-parameter line of one entity, with a trailing comma on
/// all but the last.
pub open spec fn pii_entity_line(entity: Seq<char>, last: bool) -> Seq<char> {
    "            \""@ + entity
        + "\": [{\"action\": \"REDACT\", \"actionOptions\": {\"redactText\": \"****\"}}]"@ + (if last {
        Seq::empty()
    } else {
        ","@
    }) + "\n"@
}

pub open spec fn pii_entity_lines(es: Seq<Seq<char>>, n: nat) -> Seq<char>
    decreases n,
{
    if n == 0 || n > es.len() {
        Seq::empty()
    } else {
        pii_entity_lines(es, (n - 1) as nat) + pii_entity_line(es[n - 1], n == es.len())
    }
}

/// The PII masking block: a DynamicFrame round trip around
/// `EntityDetector.detect()` with a REDACT action for each entity, then the
/// metadata column dropped. Intermediate variables carry the `_yard_pii_`
/// prefix.
pub open spec fn pii_block(entities: Seq<Seq<char>>, source_var: Seq<char>) -> Seq<char> {
    "    _yard_pii_dyf = DynamicFrame.fromDF("@ + source_var + ", glueContext, \"_yard_pii\")\n"@
        + "    _yard_pii_dyf = EntityDetector.detect(\n"@ + "        _yard_pii_dyf,\n"@ + "        {\n"@
        + pii_entity_lines(entities, entities.len()) + "        },\n"@ + "        \"DetectedEntities\"\n"@
        + "    )\n"@ + "    "@ + source_var + " = _yard_pii_dyf.toDF()\n"@ + "    "@ + source_var + " = "@
        + source_var + ".drop(\"DetectedEntities\")"@
}

proof fn lemma_entity_lines_have(es: Seq<Seq<char>>, n: nat, i: int)
    requires
        0 <= i < n <= es.len(),
    ensures
        contains_text(
            pii_entity_lines(es, n),
            "            \""@ + es[i] + "\": [{\"action\": \"REDACT\", \"actionOptions\": {\"redactText\": \"****\"}}]"@,
        ),
    decreases n,
{
    let t = "            \""@ + es[i] + "\": [{\"action\": \"REDACT\", \"actionOptions\": {\"redactText\": \"****\"}}]"@;
    let before = pii_entity_lines(es, (n - 1) as nat);
    let line = pii_entity_line(es[n - 1], n == es.len());
    assert(pii_entity_lines(es, n) == before + line);
    if i == n - 1 {
        let rest = (if n == es.len() {
            Seq::<char>::empty()
        } else {
            ","@
        }) + "\n"@;
        assert(line =~= Seq::<char>::empty() + t + rest);
        lemma_contains_middle(Seq::empty(), t, rest);
        lemma_contains_middle(before, line, Seq::empty());
        assert(before + line + Seq::<char>::empty() =~= before + line);
        lemma_contains_text_trans(before + line, line, t);
    } else {
        lemma_entity_lines_have(es, (n - 1) as nat, i);
        lemma_contains_middle(Seq::empty(), before, line);
        assert(Seq::<char>::empty() + before + line =~= before + line);
        lemma_contains_text_trans(before + line, before, t);
    }
}

/// The PII block masks the DataFrame it is given: it reads it into a
/// DynamicFrame, redacts every listed entity, and writes the result back
/// to the same variable.
pub proof fn law_pii_block_masks_its_frame(entities: Seq<Seq<char>>, source_var: Seq<char>, i: int)
    ensures
        contains_text(pii_block(entities, source_var), "    _yard_pii_dyf = DynamicFrame.fromDF("@ + source_var),
        contains_text(pii_block(entities, source_var), "    "@ + source_var + " = _yard_pii_dyf.toDF()\n"@),
        0 <= i < entities.len() ==> contains_text(
            pii_block(entities, source_var),
            "            \""@ + entities[i] + "\": [{\"action\": \"REDACT\", \"actionOptions\": {\"redactText\": \"****\"}}]"@,
        ),
{
    let p0 = "    _yard_pii_dyf = DynamicFrame.fromDF("@ + source_var;
    let p1 = ", glueContext, \"_yard_pii\")\n"@ + "    _yard_pii_dyf = EntityDetector.detect(\n"@ + "        _yard_pii_dyf,\n"@
        + "        {\n"@;
    let lines = pii_entity_lines(entities, entities.len());
    let p2 = "        },\n"@ + "        \"DetectedEntities\"\n"@ + "    )\n"@;
    let back = "    "@ + source_var + " = _yard_pii_dyf.toDF()\n"@;
    let p3 = "    "@ + source_var + " = "@ + source_var + ".drop(\"DetectedEntities\")"@;
    let block = pii_block(entities, source_var);
    assert(block =~= Seq::<char>::empty() + p0 + (p1 + lines + p2 + back + p3));
    lemma_contains_middle(Seq::empty(), p0, p1 + lines + p2 + back + p3);
    assert(block =~= (p0 + p1 + lines + p2) + back + p3);
    lemma_contains_middle(p0 + p1 + lines + p2, back, p3);
    if 0 <= i < entities.len() {
        lemma_entity_lines_have(entities, entities.len(), i);
        assert(block =~= (p0 + p1) + lines + (p2 + back + p3));
        lemma_contains_middle(p0 + p1, lines, p2 + back + p3);
        lemma_contains_text_trans(
            block,
            lines,
            "            \""@ + entities[i] + "\": [{\"action\": \"REDACT\", \"actionOptions\": {\"redactText\": \"****\"}}]"@,
        );
    }
}

/// Render the PII masking block for the given entity types.
pub fn render_pii(mask_pii: &Vec<String>, source_var: &str) -> (r: String)
    ensures
        r@ == pii_block(views(mask_pii@), source_var@),
{
    let ghost es = views(mask_pii@);
    let mut out = owned("    _yard_pii_dyf = DynamicFrame.fromDF(");
    push_str(&mut out, source_var);
    push_str(&mut out, ", glueContext, \"_yard_pii\")\n");
    push_str(&mut out, "    _yard_pii_dyf = EntityDetector.detect(\n");
    push_str(&mut out, "        _yard_pii_dyf,\n");
    push_str(&mut out, "        {\n");
    let ghost head = out@;
    let mut i: usize = 0;
    while i < mask_pii.len()
        invariant
            es == views(mask_pii@),
            i <= mask_pii.len(),
            out@ == head + pii_entity_lines(es, i as nat),
        decreases mask_pii.len() - i,
    {
        push_str(&mut out, "            \"");
        push_str(&mut out, mask_pii[i].as_str());
        push_str(&mut out, "\": [{\"action\": \"REDACT\", \"actionOptions\": {\"redactText\": \"****\"}}]");
        if i + 1 < mask_pii.len() {
            push_str(&mut out, ",");
        }
        push_str(&mut out, "\n");
        proof {
            assert(es[i as int] == mask_pii@[i as int]@);
            assert(out@ =~= head + pii_entity_lines(es, (i + 1) as nat));
        }
        i = i + 1;
    }
    push_str(&mut out, "        },\n");
    push_str(&mut out, "        \"DetectedEntities\"\n");
    push_str(&mut out, "    )\n");
    push_str(&mut out, "    ");
    push_str(&mut out, source_var);
    push_str(&mut out, " = _yard_pii_dyf.toDF()\n");
    push_str(&mut out, "    ");
    push_str(&mut out, source_var);
    push_str(&mut out, " = ");
    push_str(&mut out, source_var);
    push_str(&mut out, ".drop(\"DetectedEntities\")");
    proof {
        assert(out@ =~= pii_block(es, source_var@));
    }
    out
}

// ------------------------------------------------------------------
// Body indentation
// ------------------------------------------------------------------

/// Unicode white space, as `char::is_whitespace` has it.
pub open spec fn is_ws(c: char) -> bool {
    c == '\t' || c == '\n' || c == '\u{0B}' || c == '\u{0C}' || c == '\r' || c == ' ' || c == '\u{85}'
        || c == '\u{A0}' || c == '\u{1680}' || ('\u{2000}' <= c && c <= '\u{200A}') || c == '\u{2028}'
        || c == '\u{2029}' || c == '\u{202F}' || c == '\u{205F}' || c == '\u{3000}'
}

/// `c.is_whitespace()`.
pub fn is_ws_exec(c: char) -> (r: bool)
    ensures
        r == is_ws(c),
{
    c == '\t' || c == '\n' || c == '\u{0B}' || c == '\u{0C}' || c == '\r' || c == ' ' || c == '\u{85}'
        || c == '\u{A0}' || c == '\u{1680}' || ('\u{2000}' <= c && c <= '\u{200A}') || c == '\u{2028}'
        || c == '\u{2029}' || c == '\u{202F}' || c == '\u{205F}' || c == '\u{3000}'
}

/// A line with nothing but white space (`line.trim().is_empty()`).
pub open spec fn blank(l: Seq<char>) -> bool {
    forall|i: int| 0 <= i < l.len() ==> is_ws(#[trigger] l[i])
}

/// The text split at every newline (`str::split('\n')`): one more piece
/// than there are newlines.
pub open spec fn pieces(s: Seq<char>) -> Seq<Seq<char>>
    decreases s.len(),
{
    if s.len() == 0 {
        seq![Seq::empty()]
    } else if s.last() == '\n' {
        pieces(s.drop_last()).push(Seq::empty())
    } else {
        let p = pieces(s.drop_last());
        p.update(p.len() - 1, p.last().push(s.last()))
    }
}

pub proof fn lemma_pieces_nonempty(s: Seq<char>)
    ensures
        pieces(s).len() >= 1,
    decreases s.len(),
{
    if s.len() > 0 {
        lemma_pieces_nonempty(s.drop_last());
    }
}

/// A newline-terminated line without its carriage return.
pub open spec fn strip_cr(l: Seq<char>) -> Seq<char> {
    if l.len() > 0 && l.last() == '\r' {
        l.drop_last()
    } else {
        l
    }
}

/// `str::lines`: the newline-terminated lines without `\r\n` or `\n`, then
/// the unterminated rest when it is not empty.
pub open spec fn text_lines(s: Seq<char>) -> Seq<Seq<char>> {
    let p = pieces(s);
    let terminated = p.drop_last().map_values(|l: Seq<char>| strip_cr(l));
    if p.last().len() == 0 {
        terminated
    } else {
        terminated.push(p.last())
    }
}

/// A body line inside `run()`: blank lines become empty, others get four
/// spaces in front.
pub open spec fn indent_line(l: Seq<char>) -> Seq<char> {
    if blank(l) {
        Seq::empty()
    } else {
        "    "@ + l
    }
}

pub open spec fn indented(body: Seq<char>) -> Seq<char> {
    joined(text_lines(body).map_values(|l: Seq<char>| indent_line(l)), "\n"@)
}

fn indent_chars(l: &Vec<char>) -> (r: String)
    ensures
        r@ == indent_line(l@),
{
    let mut i: usize = 0;
    while i < l.len()
        invariant
            i <= l.len(),
            forall|k: int| 0 <= k < i ==> is_ws(#[trigger] l@[k]),
        decreases l.len() - i,
    {
        if !is_ws_exec(l[i]) {
            let mut r = owned("    ");
            let t = string_of_range(l, 0, l.len());
            push_str(&mut r, t.as_str());
            proof {
                assert(l@.subrange(0, l.len() as int) =~= l@);
                assert(!is_ws(l@[i as int]));
            }
            return r;
        }
        i = i + 1;
    }
    String::new()
}

/// Indent a user-supplied `run()` body by four spaces, line by line;
/// blank lines come out empty.
pub fn indent_body(body: &str) -> (r: String)
    ensures
        r@ == indented(body@),
{
    let cs = chars_of(body);
    let mut done: Vec<String> = Vec::new();
    let ghost mut raw: Seq<Seq<char>> = Seq::empty();
    let mut cur: Vec<char> = Vec::new();
    let mut i: usize = 0;
    proof {
        assert(cs@.take(0) =~= Seq::<char>::empty());
        assert(raw.push(cur@) =~= seq![Seq::<char>::empty()]);
    }
    while i < cs.len()
        invariant
            cs@ == body@,
            i <= cs.len(),
            pieces(cs@.take(i as int)) == raw.push(cur@),
            views(done@) == raw.map_values(|l: Seq<char>| indent_line(strip_cr(l))),
        decreases cs.len() - i,
    {
        proof {
            assert(cs@.take(i + 1).drop_last() =~= cs@.take(i as int));
            assert(cs@.take(i + 1).last() == cs@[i as int]);
        }
        if cs[i] == '\n' {
            let mut line = cur;
            if line.len() > 0 && line[line.len() - 1] == '\r' {
                let _ = line.pop();
            }
            let ghost piece = cur@;
            proof {
                assert(line@ == strip_cr(piece)) by {
                    if piece.len() > 0 && piece.last() == '\r' {
                        assert(line@ =~= piece.drop_last());
                    }
                }
            }
            let ind = indent_chars(&line);
            let ghost before = done@;
            done.push(ind);
            proof {
                assert(views(done@) =~= views(before).push(indent_line(strip_cr(piece))));
                assert(raw.push(piece).map_values(|l: Seq<char>| indent_line(strip_cr(l))) =~= raw.map_values(
                    |l: Seq<char>| indent_line(strip_cr(l)),
                ).push(indent_line(strip_cr(piece))));
                raw = raw.push(piece);
            }
            cur = Vec::new();
            proof {
                assert(pieces(cs@.take(i + 1)) =~= raw.push(cur@));
            }
        } else {
            let ghost old_cur = cur@;
            cur.push(cs[i]);
            proof {
                let p = pieces(cs@.take(i as int));
                assert(p == raw.push(old_cur));
                assert(pieces(cs@.take(i + 1)) =~= raw.push(cur@));
            }
        }
        i = i + 1;
    }
    proof {
        assert(cs@.take(cs.len() as int) =~= cs@);
    }
    let ghost p = pieces(body@);
    proof {
        assert(p == raw.push(cur@));
        assert(p.drop_last() =~= raw);
    }
    if cur.len() > 0 {
        let ind = indent_chars(&cur);
        let ghost before = done@;
        done.push(ind);
        proof {
            assert(views(done@) =~= views(before).push(indent_line(cur@)));
            assert(text_lines(body@).map_values(|l: Seq<char>| indent_line(l)) =~= raw.map_values(
                |l: Seq<char>| indent_line(strip_cr(l)),
            ).push(indent_line(cur@)));
        }
    } else {
        proof {
            assert(text_lines(body@).map_values(|l: Seq<char>| indent_line(l)) =~= raw.map_values(
                |l: Seq<char>| indent_line(strip_cr(l)),
            ));
        }
    }
    join(&done, "\n")
}

// ------------------------------------------------------------------
// Sources, sinks and jobs
// ------------------------------------------------------------------

/// Authentication of a JDBC source or sink.
pub enum JdbcAuth {
    /// An RDS IAM token generated at run time.
    RdsIam { username: Option<String>, host: String, port: u64, region: String },
}

/// A data source of a job.
pub struct Source {
    pub name: String,
    pub source_type: String,
    pub format: Option<String>,
    pub path: Option<String>,
    pub connection_url: Option<String>,
    pub table: Option<String>,
    pub database: Option<String>,
    pub secret_id: Option<String>,
    pub engine: Option<String>,
    pub connection_type: Option<String>,
    pub topic: Option<String>,
    pub url: Option<String>,
    /// HTTP headers of an `api` source, in key order.
    pub headers: Vec<(String, String)>,
    /// Extra reader options: a JSON object.
    pub options: Json,
    pub auth: Option<JdbcAuth>,
}

/// The sink a job writes to.
pub struct Sink {
    pub source: Option<String>,
    pub sink_type: String,
    pub format: Option<String>,
    pub path: Option<String>,
    pub connection_url: Option<String>,
    pub table: Option<String>,
    pub database: Option<String>,
    pub secret_id: Option<String>,
    pub mode: Option<String>,
    pub partition_by: Vec<String>,
    pub fill_nulls: Option<bool>,
    pub connection_type: Option<String>,
    pub auth: Option<JdbcAuth>,
}

/// One `order_by` entry of a window transform.
pub struct OrderBy {
    pub column: String,
    pub desc: bool,
}

/// A transform step of a job.
pub struct Transform {
    pub transform_type: String,
    /// The input DataFrame's name (default: the job's first source).
    pub source: Option<String>,
    /// The output DataFrame's name (default: the input's).
    pub output: Option<String>,
    pub condition: Option<String>,
    pub query: Option<String>,
    pub columns: Vec<String>,
    /// Column renames, old name to new name.
    pub mapping: Vec<(String, String)>,
    pub name: Option<String>,
    pub expression: Option<String>,
    pub left: Option<String>,
    pub right: Option<String>,
    pub on: Option<String>,
    pub how: Option<String>,
    pub group_by: Vec<String>,
    /// Aggregations, alias to expression.
    pub aggs: Vec<(String, String)>,
    pub partition_by: Vec<String>,
    pub order_by: Vec<OrderBy>,
}

/// What script generation reads of a job definition.
pub struct ScriptJob {
    pub job_type: JobType,
    pub config: Json,
    pub sources: Vec<Source>,
    pub sink: Option<Sink>,
    pub transforms: Vec<Transform>,
    pub partition_by: Vec<String>,
    pub create_timestamp: bool,
    pub partition_timestamp_column: Option<String>,
    pub mask_pii: Vec<String>,
    pub imports: Vec<Import>,
    /// A hand-written script used in place of the generated one.
    pub job_file: Option<String>,
    pub body: Option<String>,
}

/// The engine a source runs on: its own, or the job's default.
pub open spec fn engine_of(s: Source, default_engine: Seq<char>) -> Seq<char> {
    match s.engine {
        Some(e) => e@,
        None => default_engine,
    }
}

pub fn effective_engine(source: &Source, default_engine: &str) -> (r: String)
    ensures
        r@ == engine_of(*source, default_engine@),
{
    match &source.engine {
        Some(e) => e.clone(),
        None => owned(default_engine),
    }
}

/// `config.<job type>.default_engine`, or `spark`.
pub open spec fn default_engine(job_type: JobType, config: JsonV) -> Seq<char> {
    match get_member(config, job_type_name(job_type)) {
        Some(g) => match str_member(g, "default_engine"@) {
            Some(e) => e,
            None => "spark"@,
        },
        None => "spark"@,
    }
}

/// The job type's name as written in configuration.
pub fn job_type_str(t: JobType) -> (r: &'static str)
    ensures
        r@ == job_type_name(t),
{
    match t {
        JobType::Glue => {
            proof { reveal_strlit("glue"); }
            "glue"
        },
        JobType::Emr => {
            proof { reveal_strlit("emr"); }
            "emr"
        },
        JobType::Bash => {
            proof { reveal_strlit("bash"); }
            "bash"
        },
    }
}

/// The job's default source engine.
pub fn default_engine_for(job: &ScriptJob) -> (r: String)
    ensures
        r@ == default_engine(job.job_type, job.config@),
{
    match get(&job.config, job_type_str(job.job_type)) {
        Some(g) => match get_str(g, "default_engine") {
            Some(e) => owned(e),
            None => owned("spark"),
        },
        None => owned("spark"),
    }
}

/// Whether a source or the sink reads a Secrets Manager secret.
pub open spec fn uses_secrets(job: ScriptJob) -> bool {
    (exists|i: int| 0 <= i < job.sources@.len() && (#[trigger] job.sources@[i]).secret_id is Some)
        || (job.sink matches Some(s) && s.secret_id is Some)
}

/// Whether a source or the sink authenticates with RDS IAM.
pub open spec fn uses_jdbc_auth(job: ScriptJob) -> bool {
    (exists|i: int| 0 <= i < job.sources@.len() && (#[trigger] job.sources@[i]).auth is Some)
        || (job.sink matches Some(s) && s.auth is Some)
}

pub fn needs_secrets_imports(job: &ScriptJob) -> (r: bool)
    ensures
        r == uses_secrets(*job),
{
    let mut i: usize = 0;
    while i < job.sources.len()
        invariant
            i <= job.sources.len(),
            forall|k: int| 0 <= k < i ==> (#[trigger] job.sources@[k]).secret_id is None,
        decreases job.sources.len() - i,
    {
        if job.sources[i].secret_id.is_some() {
            return true;
        }
        i = i + 1;
    }
    match &job.sink {
        Some(s) => s.secret_id.is_some(),
        None => false,
    }
}

pub fn needs_jdbc_auth_imports(job: &ScriptJob) -> (r: bool)
    ensures
        r == uses_jdbc_auth(*job),
{
    let mut i: usize = 0;
    while i < job.sources.len()
        invariant
            i <= job.sources.len(),
            forall|k: int| 0 <= k < i ==> (#[trigger] job.sources@[k]).auth is None,
        decreases job.sources.len() - i,
    {
        if job.sources[i].auth.is_some() {
            return true;
        }
        i = i + 1;
    }
    match &job.sink {
        Some(s) => s.auth.is_some(),
        None => false,
    }
}

/// The sink is an Iceberg table.
pub open spec fn iceberg_sink(job: ScriptJob) -> bool {
    job.sink matches Some(s) && s.sink_type@ == "iceberg"@
}

pub fn has_iceberg_sink(job: &ScriptJob) -> (r: bool)
    ensures
        r == iceberg_sink(*job),
{
    match &job.sink {
        Some(s) => crate::text::str_eq(s.sink_type.as_str(), "iceberg"),
        None => false,
    }
}

/// An Iceberg sink fills nulls first unless `fill_nulls: false`.
pub open spec fn fills_nulls(job: ScriptJob) -> bool {
    job.sink matches Some(s) && s.sink_type@ == "iceberg"@ && s.fill_nulls != Some(false)
}

pub fn should_fill_nulls(job: &ScriptJob) -> (r: bool)
    ensures
        r == fills_nulls(*job),
{
    match &job.sink {
        Some(s) => crate::text::str_eq(s.sink_type.as_str(), "iceberg") && !matches!(s.fill_nulls, Some(false)),
        None => false,
    }
}

/// Some transform has one of the given types.
pub open spec fn has_transform(job: ScriptJob, t: Seq<char>) -> bool {
    exists|i: int| 0 <= i < job.transforms@.len() && (#[trigger] job.transforms@[i]).transform_type@ == t
}

fn any_transform(job: &ScriptJob, t: &str) -> (r: bool)
    ensures
        r == has_transform(*job, t@),
{
    let mut i: usize = 0;
    while i < job.transforms.len()
        invariant
            i <= job.transforms.len(),
            forall|k: int| 0 <= k < i ==> (#[trigger] job.transforms@[k]).transform_type@ != t@,
        decreases job.transforms.len() - i,
    {
        if crate::text::str_eq(job.transforms[i].transform_type.as_str(), t) {
            return true;
        }
        i = i + 1;
    }
    false
}

/// An `aggregate` or `window` transform needs `pyspark.sql.functions`.
pub fn needs_functions_import(job: &ScriptJob) -> (r: bool)
    ensures
        r == (has_transform(*job, "aggregate"@) || has_transform(*job, "window"@)),
{
    any_transform(job, "aggregate") || any_transform(job, "window")
}

/// A `window` transform needs `pyspark.sql.window.Window`.
pub fn needs_window_import(job: &ScriptJob) -> (r: bool)
    ensures
        r == has_transform(*job, "window"@),
{
    any_transform(job, "window")
}

/// Some source has the given type.
pub open spec fn has_source_type(job: ScriptJob, t: Seq<char>) -> bool {
    exists|i: int| 0 <= i < job.sources@.len() && (#[trigger] job.sources@[i]).source_type@ == t
}

/// An `api` source needs `requests`.
pub fn needs_requests_import(job: &ScriptJob) -> (r: bool)
    ensures
        r == has_source_type(*job, "api"@),
{
    let mut i: usize = 0;
    while i < job.sources.len()
        invariant
            i <= job.sources.len(),
            forall|k: int| 0 <= k < i ==> (#[trigger] job.sources@[k]).source_type@ != "api"@,
        decreases job.sources.len() - i,
    {
        if crate::text::str_eq(job.sources[i].source_type.as_str(), "api") {
            return true;
        }
        i = i + 1;
    }
    false
}

/// A source read through Glue: a catalog source, or an s3 or jdbc source on
/// the Glue engine.
pub open spec fn glue_read_source(s: Source, default_engine: Seq<char>) -> bool {
    s.source_type@ == "catalog"@ || ((s.source_type@ == "s3"@ || s.source_type@ == "jdbc"@) && engine_of(s, default_engine)
        == "glue"@)
}

/// Whether the script needs `DynamicFrame`: a catalog sink, or a source
/// read through Glue.
pub open spec fn uses_dynamic_frame(job: ScriptJob, default_engine: Seq<char>) -> bool {
    (job.sink matches Some(s) && s.sink_type@ == "catalog"@) || exists|i: int|
        0 <= i < job.sources@.len() && glue_read_source(#[trigger] job.sources@[i], default_engine)
}

pub fn needs_dynamic_frame_import(job: &ScriptJob, default_engine: &str) -> (r: bool)
    ensures
        r == uses_dynamic_frame(*job, default_engine@),
{
    let catalog_sink = match &job.sink {
        Some(s) => crate::text::str_eq(s.sink_type.as_str(), "catalog"),
        None => false,
    };
    if catalog_sink {
        return true;
    }
    let mut i: usize = 0;
    while i < job.sources.len()
        invariant
            i <= job.sources.len(),
            forall|k: int| 0 <= k < i ==> !glue_read_source(#[trigger] job.sources@[k], default_engine@),
        decreases job.sources.len() - i,
    {
        let s = &job.sources[i];
        let t = s.source_type.as_str();
        let is_glue = if crate::text::str_eq(t, "catalog") {
            true
        } else if crate::text::str_eq(t, "s3") || crate::text::str_eq(t, "jdbc") {
            let e = effective_engine(s, default_engine);
            crate::text::str_eq(e.as_str(), "glue")
        } else {
            false
        };
        if is_glue {
            return true;
        }
        i = i + 1;
    }
    false
}

// ------------------------------------------------------------------
// JDBC authentication
// ------------------------------------------------------------------

/// The lines that generate an RDS IAM auth token into `<prefix>_token`.
pub open spec fn rds_token_lines(
    prefix: Seq<char>,
    host: Seq<char>,
    port: nat,
    region: Seq<char>,
    user_expr: Seq<char>,
) -> Seq<Seq<char>> {
    let client = "_"@ + prefix + "_rds"@;
    let token = prefix + "_token"@;
    seq![
        "    "@ + client + " = boto3.client(\"rds\", region_name=\""@ + region + "\")"@,
        "    "@ + token + " = "@ + client + ".generate_db_auth_token("@,
        "        DBHostname=\""@ + host + "\","@,
        "        Port="@ + decimal(port) + ","@,
        "        DBUsername="@ + user_expr + ","@,
        "        Region=\""@ + region + "\","@,
        "    )"@,
    ]
}

fn render_rds_iam_token_fetch(prefix: &str, host: &str, port: u64, region: &str, user_expr: &str) -> (r: Vec<String>)
    ensures
        views(r@) == rds_token_lines(prefix@, host@, port as nat, region@, user_expr@),
{
    let mut client = owned("_");
    push_str(&mut client, prefix);
    push_str(&mut client, "_rds");
    let mut token = owned(prefix);
    push_str(&mut token, "_token");
    let mut l1 = owned("    ");
    push_str(&mut l1, client.as_str());
    push_str(&mut l1, " = boto3.client(\"rds\", region_name=\"");
    push_str(&mut l1, region);
    push_str(&mut l1, "\")");
    let mut l2 = owned("    ");
    push_str(&mut l2, token.as_str());
    push_str(&mut l2, " = ");
    push_str(&mut l2, client.as_str());
    push_str(&mut l2, ".generate_db_auth_token(");
    let mut l3 = owned("        DBHostname=\"");
    push_str(&mut l3, host);
    push_str(&mut l3, "\",");
    let mut l4 = owned("        Port=");
    let p = u64_to_decimal(port);
    push_str(&mut l4, p.as_str());
    push_str(&mut l4, ",");
    let mut l5 = owned("        DBUsername=");
    push_str(&mut l5, user_expr);
    push_str(&mut l5, ",");
    let mut l6 = owned("        Region=\"");
    push_str(&mut l6, region);
    push_str(&mut l6, "\",");
    let l7 = owned("    )");
    let mut v: Vec<String> = Vec::new();
    v.push(l1);
    v.push(l2);
    v.push(l3);
    v.push(l4);
    v.push(l5);
    v.push(l6);
    v.push(l7);
    proof {
        assert(views(v@) =~= rds_token_lines(prefix@, host@, port as nat, region@, user_expr@));
    }
    v
}

/// The user and password expressions of a JDBC connection and the lines
/// that must run first, or nothing when neither a secret nor an auth block
/// is set. With a secret, the user comes from the secret; with RDS IAM the
/// password is a generated token.
pub open spec fn jdbc_auth(
    prefix: Seq<char>,
    secret_id: Option<Seq<char>>,
    auth: Option<JdbcAuth>,
) -> Option<(Seq<char>, Seq<char>, Seq<Seq<char>>)> {
    let secret_var = prefix + "_secret"@;
    match auth {
        None => match secret_id {
            None => None,
            Some(_) => Some((secret_var + "[\"username\"]"@, secret_var + "[\"password\"]"@, Seq::empty())),
        },
        Some(JdbcAuth::RdsIam { username, host, port, region }) => {
            let user_expr = if secret_id is Some {
                secret_var + "[\"username\"]"@
            } else {
                "\""@ + (match username {
                    Some(u) => u@,
                    None => Seq::empty(),
                }) + "\""@
            };
            Some((user_expr, prefix + "_token"@, rds_token_lines(prefix, host@, port as nat, region@, user_expr)))
        },
    }
}

pub open spec fn opt_view(o: Option<&str>) -> Option<Seq<char>> {
    match o {
        Some(s) => Some(s@),
        None => None,
    }
}

/// Resolve the JDBC user and password expressions for a source or sink
/// from its `secret_id` and `auth`.
pub fn render_jdbc_auth(prefix: &str, secret_id: Option<&str>, auth: Option<&JdbcAuth>) -> (r: Option<(String, String, Vec<String>)>)
    ensures
        match jdbc_auth(prefix@, opt_view(secret_id), match auth {
            Some(a) => Some(*a),
            None => None,
        }) {
            Some((u, p, pre)) => r matches Some((x, y, z)) && x@ == u && y@ == p && views(z@) == pre,
            None => r is None,
        },
{
    let mut secret_var = owned(prefix);
    push_str(&mut secret_var, "_secret");
    match auth {
        None => match secret_id {
            None => None,
            Some(_) => {
                let mut u = secret_var.clone();
                push_str(&mut u, "[\"username\"]");
                let mut p = secret_var.clone();
                push_str(&mut p, "[\"password\"]");
                let v: Vec<String> = Vec::new();
                proof {
                    assert(views(v@) =~= Seq::<Seq<char>>::empty());
                }
                Some((u, p, v))
            },
        },
        Some(JdbcAuth::RdsIam { username, host, port, region }) => {
            let user_expr = if secret_id.is_some() {
                let mut u = secret_var.clone();
                push_str(&mut u, "[\"username\"]");
                u
            } else {
                let mut u = owned("\"");
                match username {
                    Some(n) => push_str(&mut u, n.as_str()),
                    None => {},
                }
                push_str(&mut u, "\"");
                proof {
                    assert(u@ =~= "\""@ + (match username {
                        Some(n) => n@,
                        None => Seq::<char>::empty(),
                    }) + "\""@);
                }
                u
            };
            let mut token = owned(prefix);
            push_str(&mut token, "_token");
            let pre = render_rds_iam_token_fetch(prefix, host.as_str(), *port, region.as_str(), user_expr.as_str());
            Some((user_expr, token, pre))
        },
    }
}

// ------------------------------------------------------------------
// Partition columns
// ------------------------------------------------------------------

/// The Spark function deriving a partition unit, for the known units.
pub open spec fn partition_func(unit: Seq<char>) -> Option<Seq<char>> {
    if unit == "year"@ {
        Some("year"@)
    } else if unit == "month"@ {
        Some("month"@)
    } else if unit == "day"@ {
        Some("dayofmonth"@)
    } else {
        None
    }
}

pub open spec fn partition_unit_lines(units: Seq<Seq<char>>, var: Seq<char>) -> Seq<Seq<char>>
    decreases units.len(),
{
    if units.len() == 0 {
        Seq::empty()
    } else {
        let rest = partition_unit_lines(units.drop_last(), var);
        let u = units.last();
        match partition_func(u) {
            Some(f) => rest.push(
                "    if \""@ + u + "\" not in "@ + var + ".columns:\n        "@ + var + " = "@ + var
                    + ".withColumn(\""@ + u + "\", F."@ + f + "(F.col(_ts)))"@,
            ),
            None => rest,
        }
    }
}

/// The partition-column derivation lines for the sink's DataFrame
/// `df_<sink_source>`, or nothing when the job has no `partition_by`.
pub open spec fn partition_derivation(
    units: Seq<Seq<char>>,
    create_timestamp: bool,
    ts_column: Option<Seq<char>>,
    sink_source: Seq<char>,
) -> Option<Seq<char>> {
    if units.len() == 0 {
        None
    } else {
        let var = "df_"@ + sink_source;
        let ts_lines = if create_timestamp {
            seq![
                "    "@ + var + " = "@ + var + ".withColumn(\"ingestion_timestamp\", F.current_timestamp())"@,
                "    _ts = \"ingestion_timestamp\""@,
            ]
        } else {
            seq![
                "    _ts = \""@ + (match ts_column {
                    Some(c) => c,
                    None => "event_time"@,
                }) + "\""@,
            ]
        };
        Some(joined(seq!["    # --- Partition columns ---"@] + ts_lines + partition_unit_lines(units, var), "\n"@))
    }
}

/// Derive the job's partition columns on the sink DataFrame.
pub fn render_partition_derivation(job: &ScriptJob, sink_source: &str) -> (r: Option<String>)
    ensures
        match partition_derivation(views(job.partition_by@), job.create_timestamp, match job.partition_timestamp_column {
            Some(c) => Some(c@),
            None => None,
        }, sink_source@) {
            Some(t) => r matches Some(x) && x@ == t,
            None => r is None,
        },
{
    if job.partition_by.len() == 0 {
        return None;
    }
    let mut var = owned("df_");
    push_str(&mut var, sink_source);
    let mut lines: Vec<String> = Vec::new();
    lines.push(owned("    # --- Partition columns ---"));
    if job.create_timestamp {
        let mut l = owned("    ");
        push_str(&mut l, var.as_str());
        push_str(&mut l, " = ");
        push_str(&mut l, var.as_str());
        push_str(&mut l, ".withColumn(\"ingestion_timestamp\", F.current_timestamp())");
        lines.push(l);
        lines.push(owned("    _ts = \"ingestion_timestamp\""));
    } else {
        let mut l = owned("    _ts = \"");
        match &job.partition_timestamp_column {
            Some(c) => push_str(&mut l, c.as_str()),
            None => push_str(&mut l, "event_time"),
        }
        push_str(&mut l, "\"");
        lines.push(l);
    }
    let ghost head = views(lines@);
    let ghost units = views(job.partition_by@);
    let ghost vv = "df_"@ + sink_source@;
    proof {
        assert(var@ == vv);
        let ts_lines = if job.create_timestamp {
            seq![
                "    "@ + vv + " = "@ + vv + ".withColumn(\"ingestion_timestamp\", F.current_timestamp())"@,
                "    _ts = \"ingestion_timestamp\""@,
            ]
        } else {
            seq![
                "    _ts = \""@ + (match &job.partition_timestamp_column {
                    Some(c) => c@,
                    None => "event_time"@,
                }) + "\""@,
            ]
        };
        assert(head =~= seq!["    # --- Partition columns ---"@] + ts_lines);
    }
    let mut i: usize = 0;
    while i < job.partition_by.len()
        invariant
            units == views(job.partition_by@),
            i <= job.partition_by.len(),
            views(lines@) == head + partition_unit_lines(units.take(i as int), var@),
        decreases job.partition_by.len() - i,
    {
        proof {
            assert(units.take(i + 1).drop_last() =~= units.take(i as int));
            assert(units.take(i + 1).last() == job.partition_by@[i as int]@);
        }
        let unit = job.partition_by[i].as_str();
        let func: Option<&str> = if crate::text::str_eq(unit, "year") {
            Some("year")
        } else if crate::text::str_eq(unit, "month") {
            Some("month")
        } else if crate::text::str_eq(unit, "day") {
            Some("dayofmonth")
        } else {
            None
        };
        match func {
            Some(f) => {
                let mut l = owned("    if \"");
                push_str(&mut l, unit);
                push_str(&mut l, "\" not in ");
                push_str(&mut l, var.as_str());
                push_str(&mut l, ".columns:\n        ");
                push_str(&mut l, var.as_str());
                push_str(&mut l, " = ");
                push_str(&mut l, var.as_str());
                push_str(&mut l, ".withColumn(\"");
                push_str(&mut l, unit);
                push_str(&mut l, "\", F.");
                push_str(&mut l, f);
                push_str(&mut l, "(F.col(_ts)))");
                let ghost before = views(lines@);
                lines.push(l);
                proof {
                    assert(views(lines@) =~= before.push(l@));
                    assert(head + partition_unit_lines(units.take(i + 1), var@) =~= (head + partition_unit_lines(units.take(i as int), var@)).push(l@));
                }
            },
            None => {},
        }
        i = i + 1;
    }
    proof {
        assert(units.take(units.len() as int) =~= units);
    }
    let r = join(&lines, "\n");
    Some(r)
}

} // verus!
