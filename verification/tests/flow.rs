use yard_core::cli::ColorMode;
use yard_core::flow::{confirm_step, next_destroy_action, prompt, step_message, FlowKind, Step};

#[test]
fn empty_plan_stops_before_anything_else() {
    assert!(confirm_step(true, true, true, Some("yes")) == Step::NothingToDo);
    assert_eq!(step_message(FlowKind::Apply, Step::NothingToDo), "No changes to apply.");
    assert_eq!(step_message(FlowKind::DestroyAll, Step::NothingToDo), "No resources to destroy.");
}

#[test]
fn dry_run_stops_even_with_auto_approve() {
    assert!(confirm_step(true, true, false, None) == Step::DryRunDone);
    assert_eq!(step_message(FlowKind::DestroyOne, Step::DryRunDone), "\nDry run -- no changes applied.");
}

#[test]
fn auto_approve_skips_the_question() {
    assert!(confirm_step(false, true, false, None) == Step::Proceed);
    assert_eq!(step_message(FlowKind::Apply, Step::Proceed), "\nApplying...");
    assert_eq!(step_message(FlowKind::DestroyDir, Step::Proceed), "\nDestroying...");
}

#[test]
fn without_an_answer_the_user_is_asked() {
    assert!(confirm_step(false, false, false, None) == Step::AskConfirmation);
    assert_eq!(prompt(FlowKind::Apply), "Do you want to apply these changes? (y/n)");
    assert_eq!(prompt(FlowKind::DestroyDir), "Do you want to destroy these resources? (y/n)");
    assert_eq!(prompt(FlowKind::DestroyOne), "Do you want to destroy this resource? (y/n)");
    assert_eq!(prompt(FlowKind::DestroyAll), "Do you want to destroy all resources? (y/n)");
}

#[test]
fn only_yes_goes_ahead() {
    assert!(confirm_step(false, false, false, Some(" YES\n")) == Step::Proceed);
    assert!(confirm_step(false, false, false, Some("y")) == Step::Proceed);
    assert!(confirm_step(false, false, false, Some("no")) == Step::Cancelled);
    assert!(confirm_step(false, false, false, Some("")) == Step::Cancelled);
    assert!(confirm_step(false, false, false, Some("yess")) == Step::Cancelled);
    assert_eq!(step_message(FlowKind::Apply, Step::Cancelled), "Apply cancelled.");
    assert_eq!(step_message(FlowKind::DestroyOne, Step::Cancelled), "Destroy cancelled.");
}

#[test]
fn destroy_visits_jobs_in_order_and_reports_each() {
    let names = vec!["a".to_string(), "b".to_string()];
    let s0 = next_destroy_action(&names, 0, None, ColorMode::Plain, false);
    assert_eq!(s0.report, None);
    assert_eq!(s0.next, Some("a".to_string()));
    let s1 = next_destroy_action(&names, 1, Some(true), ColorMode::Plain, false);
    assert_eq!(s1.report, Some("  - Destroyed: a".to_string()));
    assert_eq!(s1.next, Some("b".to_string()));
    let s2 = next_destroy_action(&names, 2, Some(false), ColorMode::Plain, false);
    assert_eq!(s2.report, Some("No state found for \"b\".".to_string()));
    assert_eq!(s2.next, None);
}
