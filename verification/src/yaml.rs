//! The YAML context files (`account.yaml`, `region.yaml`,
//! `transforms.yaml`): parsing their text, turning the first document into
//! JSON, and the value a command gets for a context file that was found,
//! found empty, or not found.
use vstd::prelude::*;
use crate::json::{entries_view, insert_entry, json_view, items_view, keys_of, lemma_entries_view, lemma_entries_wf, lemma_items_view, lemma_items_wf, lemma_set_entry_wf, set_entry, wf, Json, JsonV};
use crate::text::{decimal, owned, push_str, strictly_sorted, u64_to_decimal};

verus! {

/// A parsed YAML node.
pub enum YamlNode {
    /// A floating-point scalar, as the text it is written with.
    Real(String),
    Integer(i64),
    Str(String),
    Boolean(bool),
    Array(Vec<YamlNode>),
    /// Mapping entries in the order they are written.
    Hash(Vec<(YamlNode, YamlNode)>),
    Alias(usize),
    Null,
    BadValue,
}

#[verifier::external_type_specification]
#[verifier::external_body]
pub struct ExScannedYaml(yaml_rust2::Yaml);

/// The decimal text of a signed integer.
pub open spec fn int_text(i: int) -> Seq<char> {
    if i < 0 {
        seq!['-'] + decimal((-i) as nat)
    } else {
        decimal(i as nat)
    }
}

/// The key a mapping key becomes in a JSON object; `None` for keys that
/// have no text (arrays, mappings, null).
pub open spec fn key_text(k: YamlNode) -> Option<Seq<char>> {
    match k {
        YamlNode::Str(s) => Some(s@),
        YamlNode::Integer(i) => Some(int_text(i as int)),
        YamlNode::Boolean(b) => Some(if b { "true"@ } else { "false"@ }),
        YamlNode::Real(t) => Some(t@),
        _ => None,
    }
}

/// The JSON value of a YAML node: scalars map to their JSON counterparts,
/// sequences to arrays, mappings to objects (a later duplicate key wins,
/// keys with no text are left out); aliases and null become `null`.
pub open spec fn yaml_json(y: YamlNode) -> JsonV
    decreases y, 0nat,
{
    match y {
        YamlNode::Real(t) => JsonV::Number(t@),
        YamlNode::Integer(i) => JsonV::Number(int_text(i as int)),
        YamlNode::Str(s) => JsonV::Str(s@),
        YamlNode::Boolean(b) => JsonV::Bool(b),
        YamlNode::Array(v) => JsonV::Array(yaml_items(v@, v@.len())),
        YamlNode::Hash(es) => JsonV::Object(yaml_entries(es@, es@.len())),
        _ => JsonV::Null,
    }
}

/// The JSON values of the first `n` items.
pub open spec fn yaml_items(s: Seq<YamlNode>, n: nat) -> Seq<JsonV>
    decreases s, n,
{
    if n == 0 || n > s.len() {
        Seq::empty()
    } else {
        yaml_items(s, (n - 1) as nat).push(yaml_json(s[n - 1]))
    }
}

/// The object entries made of the first `n` mapping entries, each set in
/// turn.
pub open spec fn yaml_entries(s: Seq<(YamlNode, YamlNode)>, n: nat) -> Seq<(Seq<char>, JsonV)>
    decreases s, n,
{
    if n == 0 || n > s.len() {
        Seq::empty()
    } else {
        let before = yaml_entries(s, (n - 1) as nat);
        match key_text(s[n - 1].0) {
            Some(k) => set_entry(before, k, yaml_json(s[n - 1].1)),
            None => before,
        }
    }
}

/// `i.to_string()`.
pub fn i64_to_decimal(i: i64) -> (r: String)
    ensures
        r@ == int_text(i as int),
{
    if i < 0 {
        let m: u64 = (-(i as i128)) as u64;
        let mut r = owned("-");
        proof {
            reveal_strlit("-");
        }
        let d = u64_to_decimal(m);
        push_str(&mut r, d.as_str());
        r
    } else {
        u64_to_decimal(i as u64)
    }
}

fn key_text_exec(k: &YamlNode) -> (r: Option<String>)
    ensures
        match r {
            Some(t) => key_text(*k) == Some(t@),
            None => key_text(*k) is None,
        },
{
    match k {
        YamlNode::Str(s) => Some(s.clone()),
        YamlNode::Integer(i) => Some(i64_to_decimal(*i)),
        YamlNode::Boolean(b) => {
            proof {
                reveal_strlit("true");
                reveal_strlit("false");
            }
            if *b {
                Some(owned("true"))
            } else {
                Some(owned("false"))
            }
        },
        YamlNode::Real(t) => Some(t.clone()),
        _ => None,
    }
}

/// The JSON value of a YAML node.
pub fn yaml_to_json(y: &YamlNode) -> (r: Json)
    ensures
        r@ == yaml_json(*y),
    decreases y,
{
    match y {
        YamlNode::Real(t) => Json::Number(t.clone()),
        YamlNode::Integer(i) => Json::Number(i64_to_decimal(*i)),
        YamlNode::Str(s) => Json::Str(s.clone()),
        YamlNode::Boolean(b) => Json::Bool(*b),
        YamlNode::Array(v) => {
            let mut out: Vec<Json> = Vec::new();
            let mut i: usize = 0;
            while i < v.len()
                invariant
                    *y == YamlNode::Array(*v),
                    i <= v.len(),
                    out.len() == i,
                    forall|k: int| 0 <= k < i ==> json_view(#[trigger] out@[k]) == yaml_json(v@[k]),
                decreases v.len() - i,
            {
                proof {
                    assert(decreases_to!(*y => (*y)->Array_0));
                    assert(decreases_to!(*v => v@));
                    assert(decreases_to!(v@ => v@[i as int]));
                }
                out.push(yaml_to_json(&v[i]));
                i = i + 1;
            }
            proof {
                lemma_items_view(out@, out@.len());
                lemma_yaml_items(v@, v@.len());
                assert(items_view(out@, out@.len()) =~= yaml_items(v@, v@.len()));
            }
            Json::Array(out)
        },
        YamlNode::Hash(es) => {
            let mut out: Vec<(String, Json)> = Vec::new();
            let mut i: usize = 0;
            proof {
                assert(entries_view(out@, 0) =~= yaml_entries(es@, 0));
            }
            while i < es.len()
                invariant
                    *y == YamlNode::Hash(*es),
                    i <= es.len(),
                    entries_view(out@, out@.len()) == yaml_entries(es@, i as nat),
                decreases es.len() - i,
            {
                proof {
                    assert(decreases_to!(*y => (*y)->Hash_0));
                    assert(decreases_to!(*es => es@));
                    assert(decreases_to!(es@ => es@[i as int]));
                    assert(decreases_to!(es@[i as int] => es@[i as int].1));
                }
                let key = key_text_exec(&es[i].0);
                match key {
                    Some(kt) => {
                        let value = yaml_to_json(&es[i].1);
                        insert_entry(&mut out, kt, value);
                    },
                    None => {},
                }
                i = i + 1;
            }
            Json::Object(out)
        },
        _ => Json::Null,
    }
}

pub proof fn lemma_yaml_items(s: Seq<YamlNode>, n: nat)
    requires
        n <= s.len(),
    ensures
        yaml_items(s, n).len() == n,
        forall|i: int| 0 <= i < n ==> #[trigger] yaml_items(s, n)[i] == yaml_json(s[i]),
    decreases n,
{
    if n > 0 {
        lemma_yaml_items(s, (n - 1) as nat);
    }
}


/// What `read_context` hands back, viewed.
pub open spec fn json_result(r: Result<Json, String>) -> Result<JsonV, Seq<char>> {
    match r {
        Ok(j) => Ok(j@),
        Err(e) => Err(e@),
    }
}

/// The value of a context file: the JSON of the first document of the file
/// found at `path`, an error when it holds no document; when no file was
/// found, an error if the file is required and an empty object if not.
pub open spec fn context_json(
    found: Option<(Seq<char>, Seq<YamlNode>)>,
    filename: Seq<char>,
    start: Seq<char>,
    required: bool,
) -> Result<JsonV, Seq<char>> {
    match found {
        Some((path, docs)) => if docs.len() == 0 {
            Err(path + " is empty"@)
        } else {
            Ok(yaml_json(docs[0]))
        },
        None => if required {
            Err("Required context file '"@ + filename + "' not found in "@ + start + " or parents"@)
        } else {
            Ok(JsonV::Object(Seq::empty()))
        },
    }
}

/// The value of a context file, given the documents of the file found (with
/// the path it is shown by), or `None` when no file was found at or above
/// `start`.
pub fn context_value(found: Option<(&str, &Vec<YamlNode>)>, filename: &str, start: &str, required: bool) -> (r: Result<Json, String>)
    ensures
        json_result(r) == context_json(
            match found {
                Some((p, d)) => Some((p@, d@)),
                None => None,
            },
            filename@,
            start@,
            required,
        ),
        r matches Ok(j) ==> wf(j@),
{
    match found {
        Some((path, docs)) => {
            if docs.len() == 0 {
                let mut e = owned(path);
                push_str(&mut e, " is empty");
                proof {
                    reveal_strlit(" is empty");
                }
                Err(e)
            } else {
                proof {
                    law_yaml_json_wf(docs@[0]);
                }
                Ok(yaml_to_json(&docs[0]))
            }
        },
        None => {
            if required {
                let mut e = owned("Required context file '");
                push_str(&mut e, filename);
                push_str(&mut e, "' not found in ");
                push_str(&mut e, start);
                push_str(&mut e, " or parents");
                proof {
                    reveal_strlit("Required context file '");
                    reveal_strlit("' not found in ");
                    reveal_strlit(" or parents");
                }
                Err(e)
            } else {
                let empty: Vec<(String, Json)> = Vec::new();
                proof {
                    assert(entries_view(empty@, 0) =~= Seq::<(Seq<char>, JsonV)>::empty());
                }
                Ok(Json::Object(empty))
            }
        },
    }
}

/// What `yaml_rust2::YamlLoader::load_from_str` gives for a text: its
/// documents, or the text of the scan error.
pub uninterp spec fn yaml_docs(text: Seq<char>) -> Result<Seq<YamlNode>, Seq<char>>;

/// The node of a scanned YAML value, converted variant by variant, mapping
/// entries in the order `yaml_rust2` keeps them (insertion order). Verus does
/// not read this body; it is called only by `parse_yaml`, whose contract
/// names the whole result.
#[verifier::external_body]
fn node_of(y: &yaml_rust2::Yaml) -> YamlNode {
    match y {
        yaml_rust2::Yaml::Real(t) => YamlNode::Real(t.clone()),
        yaml_rust2::Yaml::Integer(i) => YamlNode::Integer(*i),
        yaml_rust2::Yaml::String(s) => YamlNode::Str(s.clone()),
        yaml_rust2::Yaml::Boolean(b) => YamlNode::Boolean(*b),
        yaml_rust2::Yaml::Array(xs) => YamlNode::Array(xs.iter().map(node_of).collect()),
        yaml_rust2::Yaml::Hash(h) => YamlNode::Hash(h.iter().map(|(k, v)| (node_of(k), node_of(v))).collect()),
        yaml_rust2::Yaml::Alias(n) => YamlNode::Alias(*n),
        yaml_rust2::Yaml::Null => YamlNode::Null,
        yaml_rust2::Yaml::BadValue => YamlNode::BadValue,
    }
}

/// Parses YAML text with `yaml_rust2::YamlLoader::load_from_str`. The
/// contract says only that the result is the one `yaml_docs` names for the
/// text: the documents, or the scan error's message.
#[verifier::external_body]
fn parse_yaml(content: &str) -> (r: Result<Vec<YamlNode>, String>)
    ensures
        match r {
            Ok(docs) => yaml_docs(content@) == Ok::<Seq<YamlNode>, Seq<char>>(docs@),
            Err(e) => yaml_docs(content@) == Err::<Seq<YamlNode>, Seq<char>>(e@),
        },
{
    match yaml_rust2::YamlLoader::load_from_str(content) {
        Ok(docs) => Ok(docs.iter().map(node_of).collect()),
        Err(e) => Err(e.to_string()),
    }
}

/// What reading a context file gives: a scan error names the file; the
/// parsed documents go on to `context_json`.
pub open spec fn read_context_json(
    found: Option<(Seq<char>, Seq<char>)>,
    filename: Seq<char>,
    start: Seq<char>,
    required: bool,
) -> Result<JsonV, Seq<char>> {
    match found {
        Some((path, text)) => match yaml_docs(text) {
            Err(e) => Err("YAML Scan Error in "@ + path + ": "@ + e),
            Ok(docs) => context_json(Some((path, docs)), filename, start, required),
        },
        None => context_json(None, filename, start, required),
    }
}

/// The value of the context file `filename` looked up from `start`, given
/// the path and text of the nearest such file, or `None` when there is none.
pub fn read_context(found: Option<(&str, &str)>, filename: &str, start: &str, required: bool) -> (r: Result<Json, String>)
    ensures
        json_result(r) == read_context_json(
            match found {
                Some((p, t)) => Some((p@, t@)),
                None => None,
            },
            filename@,
            start@,
            required,
        ),
        r matches Ok(j) ==> wf(j@),
{
    match found {
        Some((path, text)) => match parse_yaml(text) {
            Err(e) => {
                let mut m = owned("YAML Scan Error in ");
                push_str(&mut m, path);
                push_str(&mut m, ": ");
                push_str(&mut m, e.as_str());
                proof {
                    reveal_strlit("YAML Scan Error in ");
                    reveal_strlit(": ");
                }
                Err(m)
            },
            Ok(docs) => context_value(Some((path, &docs)), filename, start, required),
        },
        None => context_value(None, filename, start, required),
    }
}


/// The JSON of any YAML node is well formed: the objects made of mappings
/// keep their keys in strictly increasing order, at every depth.
pub proof fn law_yaml_json_wf(y: YamlNode)
    ensures
        wf(yaml_json(y)),
    decreases y, 0nat,
{
    match y {
        YamlNode::Array(v) => {
            lemma_yaml_items_wf(v@, v@.len());
            lemma_yaml_items(v@, v@.len());
            let xs = yaml_items(v@, v@.len());
            lemma_items_wf(xs, xs.len());
        },
        YamlNode::Hash(es) => {
            lemma_yaml_entries_wf(es@, es@.len());
            let m = yaml_entries(es@, es@.len());
            lemma_entries_wf(m, m.len());
        },
        _ => {},
    }
}

proof fn lemma_yaml_items_wf(s: Seq<YamlNode>, n: nat)
    requires
        n <= s.len(),
    ensures
        forall|i: int| 0 <= i < n ==> wf(#[trigger] yaml_items(s, n)[i]),
    decreases s, n,
{
    if n > 0 {
        lemma_yaml_items_wf(s, (n - 1) as nat);
        lemma_yaml_items(s, n);
        lemma_yaml_items(s, (n - 1) as nat);
        law_yaml_json_wf(s[n - 1]);
        assert forall|i: int| 0 <= i < n implies wf(#[trigger] yaml_items(s, n)[i]) by {
            if i < n - 1 {
                assert(yaml_items(s, n)[i] == yaml_items(s, (n - 1) as nat)[i]);
            }
        }
    }
}

proof fn lemma_yaml_entries_wf(s: Seq<(YamlNode, YamlNode)>, n: nat)
    requires
        n <= s.len(),
    ensures
        strictly_sorted(keys_of(yaml_entries(s, n))),
        forall|i: int| 0 <= i < yaml_entries(s, n).len() ==> wf(#[trigger] yaml_entries(s, n)[i].1),
    decreases s, n,
{
    if n > 0 {
        lemma_yaml_entries_wf(s, (n - 1) as nat);
        match key_text(s[n - 1].0) {
            Some(k) => {
                law_yaml_json_wf(s[n - 1].1);
                lemma_set_entry_wf(yaml_entries(s, (n - 1) as nat), k, yaml_json(s[n - 1].1));
            },
            None => {},
        }
    } else {
        assert(keys_of(yaml_entries(s, n)) =~= Seq::<Seq<char>>::empty());
    }
}

} // verus!
