use yard_core::cli::ColorMode;
use yard_core::plan::{format_plan_summary, DiffType, JobDiff};

fn job_create(name: &str) -> JobDiff {
    JobDiff { name: name.to_string(), diff_type: DiffType::Create, old_hash: None, new_hash: Some("new".to_string()) }
}

fn job_modify(name: &str, changes: Vec<(&str, &str, &str)>) -> JobDiff {
    let cs: Vec<(String, (String, String))> =
        changes.into_iter().map(|(k, o, n)| (k.to_string(), (o.to_string(), n.to_string()))).collect();
    JobDiff {
        name: name.to_string(),
        diff_type: DiffType::Modify { changes: cs },
        old_hash: Some("old".to_string()),
        new_hash: Some("new".to_string()),
    }
}

fn job_delete(name: &str) -> JobDiff {
    JobDiff { name: name.to_string(), diff_type: DiffType::Delete, old_hash: Some("old".to_string()), new_hash: None }
}

fn run(target: Option<&str>, dir_scope: Option<&str>, jobs: Vec<JobDiff>) -> String {
    format_plan_summary("myproj", target, dir_scope, &jobs, ColorMode::Plain, true)
}

#[test]
fn create_job_only() {
    let s = run(None, None, vec![job_create("loader")]);
    assert_eq!(s, "--- Plan for myproj ---\n\n  + Create job [loader]\n");
}

#[test]
fn modify_job_with_multiple_changes_sorted_by_key() {
    let s = run(None, None, vec![job_modify("loader", vec![("script", "a.py", "b.py"), ("memory", "1g", "2g")])]);
    assert_eq!(
        s,
        "--- Plan for myproj ---\n\n  ~ Modify job [loader]\n      memory : 1g -> 2g\n      script : a.py -> b.py\n"
    );
}

#[test]
fn delete_job() {
    let s = run(None, None, vec![job_delete("stale")]);
    assert_eq!(s, "--- Plan for myproj ---\n\n  - Delete job [stale]\n");
}

#[test]
fn job_only_with_target_filter() {
    let s = run(Some("loader"), None, vec![job_create("loader")]);
    assert_eq!(s, "--- Plan for myproj ---\n(targeting: loader)\n\n  + Create job [loader]\n");
}

#[test]
fn dir_scope_shows_scoped_to() {
    let s = run(None, Some("staging/us-east-1/"), vec![job_create("loader")]);
    assert_eq!(s, "--- Plan for myproj ---\n(scoped to: staging/us-east-1/)\n\n  + Create job [loader]\n");
}

#[test]
fn dir_scope_none_unchanged() {
    let s = run(None, None, vec![job_create("loader")]);
    assert_eq!(s, "--- Plan for myproj ---\n\n  + Create job [loader]\n");
}

#[test]
fn colored_plan_paints_the_header_and_each_entry() {
    let s = format_plan_summary("p", None, None, &vec![job_create("a"), job_delete("b")], ColorMode::Normal, true);
    assert_eq!(s, "\x1b[1m--- Plan for p ---\x1b[0m\n\n\x1b[32m  + Create job [a]\x1b[0m\n\x1b[31m  - Delete job [b]\x1b[0m\n");
    let c = format_plan_summary("p", None, None, &vec![job_modify("m", vec![])], ColorMode::Colorblind, true);
    assert_eq!(c, "\x1b[1m--- Plan for p ---\x1b[0m\n\n\x1b[34m  ~ Modify job [m]\x1b[0m\n");
}

#[test]
fn colors_are_dropped_off_a_terminal() {
    let s = format_plan_summary("p", None, None, &vec![job_create("a")], ColorMode::Normal, false);
    assert_eq!(s, "--- Plan for p ---\n\n  + Create job [a]\n");
}

#[test]
fn modify_changes_print_one_line_per_key_later_wins() {
    let s = run(
        None,
        None,
        vec![job_modify("loader", vec![("zeta", "1", "2"), ("alpha", "a", "b"), ("zeta", "3", "4")])],
    );
    assert_eq!(
        s,
        "--- Plan for myproj ---\n\n  ~ Modify job [loader]\n      alpha : a -> b\n      zeta : 3 -> 4\n"
    );
}
