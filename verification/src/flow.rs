//! The decisions of the apply and destroy commands: when to stop, when to
//! ask for confirmation, and which job to act on next. The caller prints,
//! prompts and deploys; these functions say what comes next.
use vstd::prelude::*;
use crate::cli::{colorized, ColorMode};
use crate::plan::{affirmative, is_affirmative};
use crate::report::destroy_outcome_line;
use crate::text::owned;

verus! {

/// What a command does next, once its plan is shown.
#[derive(PartialEq, Eq, Structural, Clone, Copy)]
pub enum Step {
    /// The plan is empty: report it and stop.
    NothingToDo,
    /// A dry run: report that nothing was applied and stop.
    DryRunDone,
    /// Ask the user, then decide again with the answer.
    AskConfirmation,
    /// The user declined: report it and stop.
    Cancelled,
    /// Go ahead.
    Proceed,
}

/// The next step: an empty plan stops first, then a dry run; without
/// auto-approval the user is asked, and only a yes (`y` or `yes`, any
/// case, surrounding whitespace ignored) goes ahead.
pub open spec fn step_of(dry_run: bool, auto_approve: bool, plan_empty: bool, answer: Option<Seq<char>>) -> Step {
    if plan_empty {
        Step::NothingToDo
    } else if dry_run {
        Step::DryRunDone
    } else if auto_approve {
        Step::Proceed
    } else {
        match answer {
            None => Step::AskConfirmation,
            Some(a) => if affirmative(a) {
                Step::Proceed
            } else {
                Step::Cancelled
            },
        }
    }
}

/// Nothing is applied or destroyed unless there is something to do, it is
/// no dry run, and the user approved it up front (`--auto-approve`) or
/// answered yes; and a dry run never asks.
pub proof fn law_only_approved_runs_proceed(dry_run: bool, auto_approve: bool, plan_empty: bool, answer: Option<Seq<char>>)
    ensures
        step_of(dry_run, auto_approve, plan_empty, answer) == Step::Proceed ==> !plan_empty && !dry_run && (auto_approve
            || (answer matches Some(a) && affirmative(a))),
        dry_run && !plan_empty ==> step_of(dry_run, auto_approve, plan_empty, answer) == Step::DryRunDone,
        step_of(dry_run, auto_approve, plan_empty, answer) == Step::AskConfirmation ==> answer is None && !auto_approve,
{
}

/// Decide what an apply or destroy does next, given the flags, whether
/// the plan is empty and the user's answer, if one was given.
pub fn confirm_step(dry_run: bool, auto_approve: bool, plan_empty: bool, answer: Option<&str>) -> (r: Step)
    ensures
        r == step_of(dry_run, auto_approve, plan_empty, match answer {
            Some(a) => Some(a@),
            None => None,
        }),
{
    if plan_empty {
        Step::NothingToDo
    } else if dry_run {
        Step::DryRunDone
    } else if auto_approve {
        Step::Proceed
    } else {
        match answer {
            None => Step::AskConfirmation,
            Some(a) => if is_affirmative(a) {
                Step::Proceed
            } else {
                Step::Cancelled
            },
        }
    }
}

/// The command a confirmation flow belongs to.
#[derive(PartialEq, Eq, Structural, Clone, Copy)]
pub enum FlowKind {
    Apply,
    /// Destroying the jobs under a directory.
    DestroyDir,
    /// Destroying one job.
    DestroyOne,
    /// Destroying every job with state.
    DestroyAll,
}

/// The question asked before going ahead.
pub open spec fn prompt_of(k: FlowKind) -> Seq<char> {
    match k {
        FlowKind::Apply => "Do you want to apply these changes? (y/n)"@,
        FlowKind::DestroyDir => "Do you want to destroy these resources? (y/n)"@,
        FlowKind::DestroyOne => "Do you want to destroy this resource? (y/n)"@,
        FlowKind::DestroyAll => "Do you want to destroy all resources? (y/n)"@,
    }
}

/// The line printed when a step stops the command, or when it goes ahead;
/// nothing while the user is asked.
pub open spec fn step_message_of(k: FlowKind, s: Step) -> Seq<char> {
    match s {
        Step::NothingToDo => match k {
            FlowKind::Apply => "No changes to apply."@,
            _ => "No resources to destroy."@,
        },
        Step::DryRunDone => "\nDry run -- no changes applied."@,
        Step::AskConfirmation => Seq::empty(),
        Step::Cancelled => match k {
            FlowKind::Apply => "Apply cancelled."@,
            _ => "Destroy cancelled."@,
        },
        Step::Proceed => match k {
            FlowKind::Apply => "\nApplying..."@,
            _ => "\nDestroying..."@,
        },
    }
}

/// The confirmation question of a command.
pub fn prompt(k: FlowKind) -> (r: &'static str)
    ensures
        r@ == prompt_of(k),
{
    match k {
        FlowKind::Apply => "Do you want to apply these changes? (y/n)",
        FlowKind::DestroyDir => "Do you want to destroy these resources? (y/n)",
        FlowKind::DestroyOne => "Do you want to destroy this resource? (y/n)",
        FlowKind::DestroyAll => "Do you want to destroy all resources? (y/n)",
    }
}

/// The line a command prints for a step.
pub fn step_message(k: FlowKind, s: Step) -> (r: &'static str)
    ensures
        r@ == step_message_of(k, s),
{
    match s {
        Step::NothingToDo => match k {
            FlowKind::Apply => "No changes to apply.",
            _ => "No resources to destroy.",
        },
        Step::DryRunDone => "\nDry run -- no changes applied.",
        Step::AskConfirmation => {
            proof {
                reveal_strlit("");
            }
            ""
        },
        Step::Cancelled => match k {
            FlowKind::Apply => "Apply cancelled.",
            _ => "Destroy cancelled.",
        },
        Step::Proceed => match k {
            FlowKind::Apply => "\nApplying...",
            _ => "\nDestroying...",
        },
    }
}

/// The line reported after destroying one job: destroyed, or it had no
/// state.
pub open spec fn outcome_text(name: Seq<char>, destroyed: bool, mode: ColorMode, terminal: bool) -> Seq<char> {
    if destroyed {
        colorized("  - Destroyed: "@ + name, "31"@, "35"@, mode, terminal)
    } else {
        "No state found for \""@ + name + "\"."@
    }
}

/// One step of destroying jobs in order: the report of the job just
/// handled, and the job to destroy next.
pub struct DestroyStep {
    pub report: Option<String>,
    pub next: Option<String>,
}

/// Given the jobs to destroy in order, how many are done, and whether the
/// last one handled was destroyed: its report line, and the next job, or
/// none when all are done.
pub fn next_destroy_action(
    names: &Vec<String>,
    done: usize,
    last_outcome: Option<bool>,
    mode: ColorMode,
    terminal: bool,
) -> (r: DestroyStep)
    requires
        done <= names.len(),
        last_outcome is Some ==> done > 0,
    ensures
        match last_outcome {
            Some(d) => r.report matches Some(t) && t@ == outcome_text(names@[done - 1]@, d, mode, terminal),
            None => r.report is None,
        },
        done < names.len() ==> (r.next matches Some(n) && n@ == names@[done as int]@),
        done == names.len() ==> r.next is None,
{
    let report = match last_outcome {
        Some(d) => Some(destroy_outcome_line(names[done - 1].as_str(), d, mode, terminal)),
        None => None,
    };
    let next = if done < names.len() {
        Some(owned(names[done].as_str()))
    } else {
        None
    };
    DestroyStep { report, next }
}

} // verus!
