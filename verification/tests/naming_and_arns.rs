use yard_core::arn::{derive_aws_conn_id, parse_account_from_role_arn};
use yard_core::text::sanitize_identifier;

#[test]
fn airflow_dag_dag_name_sanitization_handles_dashes_and_leading_digit() {
    assert_eq!(sanitize_identifier("pipe-line"), "pipe_line");
    assert_eq!(sanitize_identifier("9am_etl"), "_9am_etl");
    assert_eq!(sanitize_identifier("order.flow"), "order_flow");
    assert_eq!(sanitize_identifier(""), "_");
}

#[test]
fn mod_dag_name_sanitization_handles_dashes_and_leading_digit() {
    assert_eq!(sanitize_identifier("pipe-line"), "pipe_line");
    assert_eq!(sanitize_identifier("9am_etl"), "_9am_etl");
    assert_eq!(sanitize_identifier("order.flow"), "order_flow");
    assert_eq!(sanitize_identifier(""), "_");
}

#[test]
fn derive_aws_conn_id_happy_path() {
    let got = derive_aws_conn_id("arn:aws:iam::222222222222:role/GlueInvoker").unwrap();
    assert_eq!(got, "yard_222222222222_GlueInvoker");
}

#[test]
fn derive_aws_conn_id_sanitizes_role_path() {
    let got = derive_aws_conn_id("arn:aws:iam::111111111111:role/path/to/MyRole").unwrap();
    assert_eq!(got, "yard_111111111111_path_to_MyRole");
}

#[test]
fn derive_aws_conn_id_rejects_non_iam() {
    assert!(derive_aws_conn_id("arn:aws:s3:::my-bucket").is_err());
}

#[test]
fn derive_aws_conn_id_rejects_bad_account() {
    assert!(derive_aws_conn_id("arn:aws:iam::12345:role/R").is_err());
    assert!(derive_aws_conn_id("arn:aws:iam::abcdefghijkl:role/R").is_err());
}

#[test]
fn derive_aws_conn_id_rejects_missing_role_prefix() {
    assert!(derive_aws_conn_id("arn:aws:iam::222222222222:user/Alice").is_err());
}

#[test]
fn derive_aws_conn_id_rejects_empty_role_name() {
    assert!(derive_aws_conn_id("arn:aws:iam::222222222222:role/").is_err());
}

#[test]
fn derive_aws_conn_id_rejects_garbage() {
    assert!(derive_aws_conn_id("not-an-arn").is_err());
    assert!(derive_aws_conn_id("").is_err());
}

#[test]
fn parse_account_from_role_arn_happy_path() {
    let got = parse_account_from_role_arn("arn:aws:iam::222222222222:role/GlueInvoker").unwrap();
    assert_eq!(got, "222222222222");
}

#[test]
fn parse_account_from_role_arn_rejects_non_iam() {
    assert!(parse_account_from_role_arn("arn:aws:s3:::my-bucket").is_err());
}

#[test]
fn parse_account_from_role_arn_rejects_bad_account() {
    assert!(parse_account_from_role_arn("arn:aws:iam::12345:role/R").is_err());
    assert!(parse_account_from_role_arn("arn:aws:iam::abcdefghijkl:role/R").is_err());
}

#[test]
fn parse_account_from_role_arn_rejects_missing_role_prefix() {
    assert!(parse_account_from_role_arn("arn:aws:iam::222222222222:user/Alice").is_err());
}

#[test]
fn parse_account_from_role_arn_rejects_empty_role_name() {
    assert!(parse_account_from_role_arn("arn:aws:iam::222222222222:role/").is_err());
}

#[test]
fn parse_account_from_role_arn_rejects_garbage() {
    assert!(parse_account_from_role_arn("not-an-arn").is_err());
    assert!(parse_account_from_role_arn("").is_err());
}

#[test]
fn conn_id_embeds_the_account_of_the_arn() {
    let arn = "arn:aws:iam::333333333333:role/a-b";
    let account = parse_account_from_role_arn(arn).unwrap();
    let conn = derive_aws_conn_id(arn).unwrap();
    assert_eq!(conn, format!("yard_{}_a_b", account));
}
