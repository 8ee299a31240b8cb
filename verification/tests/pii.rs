use yard_core::codegen::render_pii;

#[test]
fn render_pii_single_entity() {
    let output = render_pii(&vec!["USA_SSN".to_string()], "df_events");
    assert!(output.contains("DynamicFrame.fromDF(df_events"));
    assert!(output.contains("EntityDetector.detect("));
    assert!(output.contains("\"USA_SSN\""));
    assert!(output.contains("REDACT"));
    assert!(output.contains("****"));
    assert!(output.contains("_yard_pii_dyf"));
    assert!(output.contains(".toDF()"));
    assert!(output.contains(".drop(\"DetectedEntities\")"));
}

#[test]
fn render_pii_multiple_entities() {
    let output = render_pii(
        &vec!["USA_SSN".to_string(), "CREDIT_CARD".to_string(), "EMAIL".to_string()],
        "df_events",
    );
    assert!(output.contains("\"USA_SSN\""));
    assert!(output.contains("\"CREDIT_CARD\""));
    assert!(output.contains("\"EMAIL\""));
    assert!(output.contains("\"USA_SSN\": [{\"action\": \"REDACT\", \"actionOptions\": {\"redactText\": \"****\"}}],"));
    assert!(output.contains("\"CREDIT_CARD\": [{\"action\": \"REDACT\", \"actionOptions\": {\"redactText\": \"****\"}}],"));
    let email_line = output.lines().find(|l| l.contains("\"EMAIL\"")).expect("EMAIL line should exist");
    assert!(!email_line.ends_with(','), "last entity entry should not have trailing comma");
}

#[test]
fn render_pii_uses_yard_prefix() {
    let output = render_pii(&vec!["USA_SSN".to_string()], "df_events");
    assert!(output.contains("_yard_pii_dyf"));
    assert!(output.contains("_yard_pii\""));
    let has_bare_dyf = output.lines().any(|line| {
        let trimmed = line.trim();
        trimmed.starts_with("dyf ") || trimmed.starts_with("dyf=") || trimmed.contains(" dyf ")
    });
    assert!(!has_bare_dyf, "should not have bare 'dyf' variable");
    let has_pii_frame = output.contains("pii_frame");
    assert!(!has_pii_frame, "should not have 'pii_frame' variable");
}

#[test]
fn render_pii_source_var_propagates() {
    let output = render_pii(&vec!["USA_SSN".to_string()], "df_enriched");
    assert!(output.contains("DynamicFrame.fromDF(df_enriched"));
    assert!(output.contains("df_enriched = _yard_pii_dyf.toDF()"));
    assert!(output.contains("df_enriched = df_enriched.drop("));
}

#[test]
fn render_pii_indentation() {
    let output = render_pii(&vec!["USA_SSN".to_string()], "df_events");
    for line in output.lines() {
        if !line.is_empty() {
            assert!(line.starts_with("    "), "line should start with 4 spaces: {line:?}");
        }
    }
}
