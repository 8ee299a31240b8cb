use yard_core::cli::ColorMode;
use yard_core::plan::ApplyResult;
use yard_core::report::{destroy_outcome_line, format_apply_report, format_destroy_plan, DestroyScope};

fn strs(xs: &[&str]) -> Vec<String> {
    xs.iter().map(|s| s.to_string()).collect()
}

#[test]
fn dir_scoped_destroy_plan_lists_sorted_jobs() {
    let scope = DestroyScope::Dir { project: "proj".to_string(), scope: "staging/".to_string() };
    let text = format_destroy_plan(&scope, strs(&["b", "a"]), ColorMode::Plain, false);
    assert_eq!(
        text,
        "--- Destroy plan for proj ---\n(scoped to: staging/)\n\n  - Destroy job [a]\n  - Destroy job [b]\n"
    );
}

#[test]
fn single_destroy_plan() {
    let text = format_destroy_plan(&DestroyScope::Single, strs(&["loader"]), ColorMode::Plain, false);
    assert_eq!(text, "--- Destroy plan ---\n\n  - Destroy [loader]\n");
}

#[test]
fn destroy_all_plan_keeps_state_order() {
    let scope = DestroyScope::All { project: "proj".to_string() };
    let text = format_destroy_plan(&scope, strs(&["z", "y"]), ColorMode::Normal, true);
    assert_eq!(
        text,
        "\x1b[1m--- Destroy plan for proj ---\x1b[0m\n\n\x1b[31m  - Destroy job [z]\x1b[0m\n\x1b[31m  - Destroy job [y]\x1b[0m\n"
    );
}

#[test]
fn destroy_outcomes() {
    assert_eq!(destroy_outcome_line("a", true, ColorMode::Plain, true), "  - Destroyed: a");
    assert_eq!(destroy_outcome_line("a", false, ColorMode::Normal, true), "No state found for \"a\".");
}

#[test]
fn apply_report_lists_each_kind() {
    let r = ApplyResult { created: strs(&["n"]), modified: strs(&["m"]), deleted: strs(&["d"]) };
    assert_eq!(format_apply_report(&r, ColorMode::Plain, false), "  + Created: n\n  ~ Modified: m\n  - Deleted: d\n");
    assert_eq!(
        format_apply_report(&r, ColorMode::Colorblind, true),
        "\x1b[36m  + Created: n\x1b[0m\n\x1b[34m  ~ Modified: m\x1b[0m\n\x1b[35m  - Deleted: d\x1b[0m\n"
    );
}
