//! What the apply and destroy commands print: the destroy plan and the
//! line reported for each job.
use vstd::prelude::*;
use crate::cli::{bold, color_create, color_delete, color_modify, colorized, ColorMode};
use crate::plan::ApplyResult;
use crate::text::{owned, push_str, sort_strings, sorted, views};

verus! {

/// Which jobs a destroy covers.
pub enum DestroyScope {
    /// The jobs under a directory (shown as given).
    Dir { project: String, scope: String },
    /// One job, by name.
    Single,
    /// Every job that has state.
    All { project: String },
}

/// `  - Destroy job [<name>]` for each name, each on a line.
pub open spec fn destroy_lines(names: Seq<Seq<char>>, mode: ColorMode, terminal: bool) -> Seq<char>
    decreases names.len(),
{
    if names.len() == 0 {
        Seq::empty()
    } else {
        destroy_lines(names.drop_last(), mode, terminal) + colorized(
            "  - Destroy job ["@ + names.last() + "]"@,
            "31"@,
            "35"@,
            mode,
            terminal,
        ) + "\n"@
    }
}

/// The destroy plan as printed, for the names in the order given.
pub open spec fn destroy_plan(scope: DestroyScope, names: Seq<Seq<char>>, mode: ColorMode, terminal: bool) -> Seq<char> {
    match scope {
        DestroyScope::Dir { project, scope } => colorized("--- Destroy plan for "@ + project@ + " ---"@, "1"@, "1"@, mode, terminal)
            + "\n"@ + "(scoped to: "@ + scope@ + ")\n\n"@ + destroy_lines(names, mode, terminal),
        DestroyScope::Single => colorized("--- Destroy plan ---"@, "1"@, "1"@, mode, terminal) + "\n"@ + "\n"@ + (if names.len()
            > 0 {
            colorized("  - Destroy ["@ + names[0] + "]"@, "31"@, "35"@, mode, terminal) + "\n"@
        } else {
            Seq::empty()
        }),
        DestroyScope::All { project } => colorized("--- Destroy plan for "@ + project@ + " ---"@, "1"@, "1"@, mode, terminal)
            + "\n"@ + "\n"@ + destroy_lines(names, mode, terminal),
    }
}

fn push_destroy_lines(out: &mut String, names: &Vec<String>, mode: ColorMode, terminal: bool)
    ensures
        final(out)@ == old(out)@ + destroy_lines(views(names@), mode, terminal),
{
    let ghost head = out@;
    let mut i: usize = 0;
    while i < names.len()
        invariant
            i <= names.len(),
            out@ == head + destroy_lines(views(names@).take(i as int), mode, terminal),
        decreases names.len() - i,
    {
        let mut l = owned("  - Destroy job [");
        push_str(&mut l, names[i].as_str());
        push_str(&mut l, "]");
        let c = color_delete(l.as_str(), mode, terminal);
        push_str(out, c.as_str());
        push_str(out, "\n");
        proof {
            assert(views(names@).take(i + 1).drop_last() =~= views(names@).take(i as int));
            assert(views(names@).take(i + 1).last() == names@[i as int]@);
        }
        i = i + 1;
    }
    proof {
        assert(views(names@).take(names@.len() as int) =~= views(names@));
    }
}

/// The destroy plan the destroy command shows. For a directory scope the
/// job names are shown sorted; a single destroy shows the first name.
pub fn format_destroy_plan(scope: &DestroyScope, names: Vec<String>, mode: ColorMode, terminal: bool) -> (r: String)
    ensures
        match scope {
            DestroyScope::Dir { .. } => exists|s: Seq<String>|
                #[trigger] sorted(views(s)) && s.to_multiset() == names@.to_multiset() && r@ == destroy_plan(
                    *scope,
                    views(s),
                    mode,
                    terminal,
                ),
            _ => r@ == destroy_plan(*scope, views(names@), mode, terminal),
        },
{
    match scope {
        DestroyScope::Dir { project, scope: s } => {
            let sorted_names = sort_strings(names);
            let mut h = owned("--- Destroy plan for ");
            push_str(&mut h, project.as_str());
            push_str(&mut h, " ---");
            let mut out = bold(h.as_str(), mode, terminal);
            push_str(&mut out, "\n");
            push_str(&mut out, "(scoped to: ");
            push_str(&mut out, s.as_str());
            push_str(&mut out, ")\n\n");
            push_destroy_lines(&mut out, &sorted_names, mode, terminal);
            out
        },
        DestroyScope::Single => {
            let mut out = bold("--- Destroy plan ---", mode, terminal);
            push_str(&mut out, "\n");
            push_str(&mut out, "\n");
            if names.len() > 0 {
                let mut l = owned("  - Destroy [");
                push_str(&mut l, names[0].as_str());
                push_str(&mut l, "]");
                let c = color_delete(l.as_str(), mode, terminal);
                push_str(&mut out, c.as_str());
                push_str(&mut out, "\n");
            }
            out
        },
        DestroyScope::All { project } => {
            let mut h = owned("--- Destroy plan for ");
            push_str(&mut h, project.as_str());
            push_str(&mut h, " ---");
            let mut out = bold(h.as_str(), mode, terminal);
            push_str(&mut out, "\n");
            push_str(&mut out, "\n");
            push_destroy_lines(&mut out, &names, mode, terminal);
            out
        },
    }
}

/// The line reported after destroying one job: destroyed, or it had no
/// state.
pub fn destroy_outcome_line(name: &str, destroyed: bool, mode: ColorMode, terminal: bool) -> (r: String)
    ensures
        r@ == (if destroyed {
            colorized("  - Destroyed: "@ + name@, "31"@, "35"@, mode, terminal)
        } else {
            "No state found for \""@ + name@ + "\"."@
        }),
{
    if destroyed {
        let mut l = owned("  - Destroyed: ");
        push_str(&mut l, name);
        color_delete(l.as_str(), mode, terminal)
    } else {
        let mut l = owned("No state found for \"");
        push_str(&mut l, name);
        push_str(&mut l, "\".");
        l
    }
}

/// One line for each name, with a prefix and a color.
pub open spec fn named_lines(prefix: Seq<char>, names: Seq<Seq<char>>, normal: Seq<char>, cb: Seq<char>, mode: ColorMode, terminal: bool) -> Seq<char>
    decreases names.len(),
{
    if names.len() == 0 {
        Seq::empty()
    } else {
        named_lines(prefix, names.drop_last(), normal, cb, mode, terminal) + colorized(prefix + names.last(), normal, cb, mode, terminal)
            + "\n"@
    }
}

/// What an apply reports: the created, the modified and the deleted jobs.
pub open spec fn apply_report_text(created: Seq<Seq<char>>, modified: Seq<Seq<char>>, deleted: Seq<Seq<char>>, mode: ColorMode, terminal: bool) -> Seq<char> {
    named_lines("  + Created: "@, created, "32"@, "36"@, mode, terminal) + named_lines(
        "  ~ Modified: "@,
        modified,
        "33"@,
        "34"@,
        mode,
        terminal,
    ) + named_lines("  - Deleted: "@, deleted, "31"@, "35"@, mode, terminal)
}

fn push_named_lines(out: &mut String, prefix: &str, names: &Vec<String>, kind: u8, mode: ColorMode, terminal: bool)
    requires
        kind < 3,
    ensures
        final(out)@ == old(out)@ + named_lines(
            prefix@,
            views(names@),
            if kind == 0 {
                "32"@
            } else if kind == 1 {
                "33"@
            } else {
                "31"@
            },
            if kind == 0 {
                "36"@
            } else if kind == 1 {
                "34"@
            } else {
                "35"@
            },
            mode,
            terminal,
        ),
{
    let ghost head = out@;
    let ghost normal = if kind == 0 {
        "32"@
    } else if kind == 1 {
        "33"@
    } else {
        "31"@
    };
    let ghost cb = if kind == 0 {
        "36"@
    } else if kind == 1 {
        "34"@
    } else {
        "35"@
    };
    let mut i: usize = 0;
    while i < names.len()
        invariant
            i <= names.len(),
            kind < 3,
            normal == (if kind == 0 {
                "32"@
            } else if kind == 1 {
                "33"@
            } else {
                "31"@
            }),
            cb == (if kind == 0 {
                "36"@
            } else if kind == 1 {
                "34"@
            } else {
                "35"@
            }),
            out@ == head + named_lines(prefix@, views(names@).take(i as int), normal, cb, mode, terminal),
        decreases names.len() - i,
    {
        let mut l = owned(prefix);
        push_str(&mut l, names[i].as_str());
        let c = if kind == 0 {
            color_create(l.as_str(), mode, terminal)
        } else if kind == 1 {
            color_modify(l.as_str(), mode, terminal)
        } else {
            color_delete(l.as_str(), mode, terminal)
        };
        push_str(out, c.as_str());
        push_str(out, "\n");
        proof {
            assert(views(names@).take(i + 1).drop_last() =~= views(names@).take(i as int));
            assert(views(names@).take(i + 1).last() == names@[i as int]@);
        }
        i = i + 1;
    }
    proof {
        assert(views(names@).take(names@.len() as int) =~= views(names@));
    }
}

/// The lines an apply prints once it is done.
pub fn format_apply_report(result: &ApplyResult, mode: ColorMode, terminal: bool) -> (r: String)
    ensures
        r@ == apply_report_text(views(result.created@), views(result.modified@), views(result.deleted@), mode, terminal),
{
    let mut out = String::new();
    proof {
        assert(out@ =~= Seq::<char>::empty());
    }
    push_named_lines(&mut out, "  + Created: ", &result.created, 0, mode, terminal);
    push_named_lines(&mut out, "  ~ Modified: ", &result.modified, 1, mode, terminal);
    push_named_lines(&mut out, "  - Deleted: ", &result.deleted, 2, mode, terminal);
    out
}

} // verus!
