use yard_core::json::{get_str, to_compact, Json};
use yard_core::yaml::{context_value, read_context, yaml_to_json, YamlNode};

fn read(path: &str, text: &str, filename: &str, required: bool) -> Result<Json, String> {
    read_context(Some((path, text)), filename, "/work/jobs", required)
}

#[test]
fn parses_context_file() {
    let result = read("/work/account.yaml", "id: '123'\nname: dev", "account.yaml", true).unwrap();
    assert_eq!(get_str(&result, "id"), Some("123"));
    assert_eq!(get_str(&result, "name"), Some("dev"));
}

#[test]
fn finds_context_in_parent() {
    let result = read("/work/region.yaml", "name: us-east-1", "region.yaml", true).unwrap();
    assert_eq!(get_str(&result, "name"), Some("us-east-1"));
}

#[test]
fn required_missing_context_errors() {
    let result = read_context(None, "account.yaml", "/work/jobs", true);
    assert_eq!(
        result.err().unwrap(),
        "Required context file 'account.yaml' not found in /work/jobs or parents"
    );
}

#[test]
fn optional_missing_context_returns_empty() {
    let result = read_context(None, "transforms.yaml", "/work/jobs", false).unwrap();
    assert!(matches!(&result, Json::Object(es) if es.is_empty()));
    assert_eq!(to_compact(&result), "{}");
}

#[test]
fn load_context_full() {
    let account = read("/w/account.yaml", "id: '999'", "account.yaml", true).unwrap();
    let region = read("/w/region.yaml", "name: eu-west-1", "region.yaml", true).unwrap();
    let transforms = read("/w/transforms.yaml", "suffix: prod", "transforms.yaml", false).unwrap();
    assert_eq!(get_str(&account, "id"), Some("999"));
    assert_eq!(get_str(&region, "name"), Some("eu-west-1"));
    assert_eq!(get_str(&transforms, "suffix"), Some("prod"));
}

#[test]
fn load_context_without_transforms() {
    let account = read("/w/account.yaml", "id: '111'", "account.yaml", true).unwrap();
    let transforms = read_context(None, "transforms.yaml", "/w", false).unwrap();
    assert_eq!(get_str(&account, "id"), Some("111"));
    assert_eq!(to_compact(&transforms), "{}");
}

#[test]
fn empty_context_file_is_an_error() {
    let result = read("/w/account.yaml", "", "account.yaml", true);
    assert_eq!(result.err().unwrap(), "/w/account.yaml is empty");
}

#[test]
fn scan_error_names_the_file() {
    let result = read("/w/account.yaml", "id: [1, 2", "account.yaml", true);
    let message = result.err().unwrap();
    assert!(message.starts_with("YAML Scan Error in /w/account.yaml: "), "{message}");
    assert!(message.len() > "YAML Scan Error in /w/account.yaml: ".len());
}

#[test]
fn duplicate_key_is_a_scan_error() {
    let result = read("/w/account.yaml", "id: 1\nid: 2", "account.yaml", true);
    assert!(result.err().unwrap().starts_with("YAML Scan Error in /w/account.yaml: "));
}

#[test]
fn only_the_first_document_counts() {
    let result = read("/w/region.yaml", "name: a\n---\nname: b", "region.yaml", true).unwrap();
    assert_eq!(to_compact(&result), "{\"name\":\"a\"}");
}

#[test]
fn scalars_and_nesting_become_json() {
    let text = "zeta: 42\nalpha: -7\nflag: true\nratio: 0.5\nnothing: ~\nlist:\n  - x\n  - 3\nnested:\n  b: 1\n  a: two";
    let result = read("/w/account.yaml", text, "account.yaml", true).unwrap();
    assert_eq!(
        to_compact(&result),
        "{\"alpha\":-7,\"flag\":true,\"list\":[\"x\",3],\"nested\":{\"a\":\"two\",\"b\":1},\"nothing\":null,\"ratio\":0.5,\"zeta\":42}"
    );
}

#[test]
fn non_string_keys_take_their_text() {
    let text = "1: one\ntrue: yes\n? [a]\n: skipped";
    let result = read("/w/account.yaml", text, "account.yaml", true).unwrap();
    assert_eq!(to_compact(&result), "{\"1\":\"one\",\"true\":\"yes\"}");
}

#[test]
fn later_duplicate_key_text_wins() {
    let node = YamlNode::Hash(vec![
        (YamlNode::Integer(1), YamlNode::Str("first".to_string())),
        (YamlNode::Str("1".to_string()), YamlNode::Str("second".to_string())),
    ]);
    assert_eq!(to_compact(&yaml_to_json(&node)), "{\"1\":\"second\"}");
}

#[test]
fn extreme_integers_keep_their_digits() {
    let node = YamlNode::Array(vec![YamlNode::Integer(i64::MIN), YamlNode::Integer(i64::MAX), YamlNode::Integer(0)]);
    assert_eq!(to_compact(&yaml_to_json(&node)), "[-9223372036854775808,9223372036854775807,0]");
}

#[test]
fn alias_and_bad_values_are_null() {
    let node = YamlNode::Array(vec![YamlNode::Alias(3), YamlNode::BadValue, YamlNode::Null]);
    assert_eq!(to_compact(&yaml_to_json(&node)), "[null,null,null]");
}

#[test]
fn context_value_of_parsed_documents() {
    let docs = vec![YamlNode::Hash(vec![(YamlNode::Str("id".to_string()), YamlNode::Str("5".to_string()))])];
    let v = context_value(Some(("/w/account.yaml", &docs)), "account.yaml", "/w", true).unwrap();
    assert_eq!(to_compact(&v), "{\"id\":\"5\"}");
    let none: Vec<YamlNode> = Vec::new();
    assert_eq!(
        context_value(Some(("/w/account.yaml", &none)), "account.yaml", "/w", true).err().unwrap(),
        "/w/account.yaml is empty"
    );
}
