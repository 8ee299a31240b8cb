//! The command line's own logic: its arguments as plain values, the
//! terminal color scheme, and the search for a file in a directory or its
//! parents.
use vstd::prelude::*;
use crate::text::{owned, push_str, views};

verus! {

// ------------------------------------------------------------------
// Arguments
// ------------------------------------------------------------------

/// The parsed command line.
pub struct Cli {
    /// Disable colored output.
    pub no_color: bool,
    /// Use the colorblind-friendly palette.
    pub colorblind: bool,
    /// The subcommand to execute.
    pub command: Commands,
}

/// The subcommands.
pub enum Commands {
    /// Initialize a new project.
    Init { directory: Option<String> },
    /// Preview infrastructure changes without applying them.
    Plan { directory: Option<String>, target: Option<String>, dir: Option<String> },
    /// Apply infrastructure changes.
    Apply {
        directory: Option<String>,
        dry_run: bool,
        auto_approve: bool,
        target: Option<String>,
        dir: Option<String>,
    },
    /// Show the generated script for a job.
    Show { job_name: String, directory: Option<String> },
    /// Validate all job configurations.
    Validate { directory: Option<String>, target: Option<String>, dir: Option<String> },
    /// Destroy deployed jobs and remove state.
    Destroy {
        job_name: Option<String>,
        directory: Option<String>,
        dry_run: bool,
        auto_approve: bool,
        dir: Option<String>,
    },
    /// Force-unlock a locked job.
    ForceUnlock { job_name: String, directory: Option<String> },
    /// List deployment targets.
    List { target: ListTarget },
}

/// The subcommands of `list`.
pub enum ListTarget {
    /// All deployment targets as a JSON array.
    Targets { directory: Option<String>, json: bool },
}

// ------------------------------------------------------------------
// Colors
// ------------------------------------------------------------------

/// How output is colored: ANSI colors, no escapes at all, or the
/// colorblind-friendly palette.
#[derive(PartialEq, Eq, Structural, Clone, Copy)]
pub enum ColorMode {
    Normal,
    Plain,
    Colorblind,
}

impl Cli {
    /// The color mode the flags select; `no_color_env` tells whether the
    /// `NO_COLOR` environment variable is set.
    pub fn color_mode(&self, no_color_env: bool) -> (r: ColorMode)
        ensures
            r == (if self.no_color || no_color_env {
                ColorMode::Plain
            } else if self.colorblind {
                ColorMode::Colorblind
            } else {
                ColorMode::Normal
            }),
    {
        if self.no_color || no_color_env {
            ColorMode::Plain
        } else if self.colorblind {
            ColorMode::Colorblind
        } else {
            ColorMode::Normal
        }
    }
}

/// Switch to plain output.
pub fn disable_color(mode: &mut ColorMode)
    ensures
        *final(mode) == ColorMode::Plain,
{
    *mode = ColorMode::Plain;
}

/// Switch to the colorblind-friendly palette.
pub fn enable_colorblind_mode(mode: &mut ColorMode)
    ensures
        *final(mode) == ColorMode::Colorblind,
{
    *mode = ColorMode::Colorblind;
}

/// `s` between the escape that selects `code` and the reset escape.
pub open spec fn painted(s: Seq<char>, code: Seq<char>) -> Seq<char> {
    "\x1b["@ + code + "m"@ + s + "\x1b[0m"@
}

/// `s` as printed: unchanged in plain mode or off a terminal, else
/// painted with the mode's code.
pub open spec fn colorized(s: Seq<char>, normal: Seq<char>, colorblind: Seq<char>, mode: ColorMode, terminal: bool) -> Seq<char> {
    if mode == ColorMode::Plain || !terminal {
        s
    } else if mode == ColorMode::Colorblind {
        painted(s, colorblind)
    } else {
        painted(s, normal)
    }
}

fn colorize(s: &str, normal: &str, colorblind: &str, mode: ColorMode, terminal: bool) -> (r: String)
    ensures
        r@ == colorized(s@, normal@, colorblind@, mode, terminal),
{
    if mode == ColorMode::Plain || !terminal {
        return owned(s);
    }
    let code = if mode == ColorMode::Colorblind {
        colorblind
    } else {
        normal
    };
    let mut out = owned("\x1b[");
    push_str(&mut out, code);
    push_str(&mut out, "m");
    push_str(&mut out, s);
    push_str(&mut out, "\x1b[0m");
    out
}

/// Creates: green, cyan in the colorblind palette.
pub fn color_create(s: &str, mode: ColorMode, terminal: bool) -> (r: String)
    ensures
        r@ == colorized(s@, "32"@, "36"@, mode, terminal),
{
    colorize(s, "32", "36", mode, terminal)
}

/// Modifies: yellow, blue in the colorblind palette.
pub fn color_modify(s: &str, mode: ColorMode, terminal: bool) -> (r: String)
    ensures
        r@ == colorized(s@, "33"@, "34"@, mode, terminal),
{
    colorize(s, "33", "34", mode, terminal)
}

/// Deletes: red, magenta in the colorblind palette.
pub fn color_delete(s: &str, mode: ColorMode, terminal: bool) -> (r: String)
    ensures
        r@ == colorized(s@, "31"@, "35"@, mode, terminal),
{
    colorize(s, "31", "35", mode, terminal)
}

/// Bold, the same in both palettes.
pub fn bold(s: &str, mode: ColorMode, terminal: bool) -> (r: String)
    ensures
        r@ == colorized(s@, "1"@, "1"@, mode, terminal),
{
    colorize(s, "1", "1", mode, terminal)
}

/// Plain mode, or output that is not a terminal, leaves every text as it
/// is; bold looks the same in the normal and the colorblind palette.
pub proof fn law_plain_output_is_unchanged(s: Seq<char>, normal: Seq<char>, colorblind: Seq<char>, mode: ColorMode, terminal: bool)
    ensures
        (mode == ColorMode::Plain || !terminal) ==> colorized(s, normal, colorblind, mode, terminal) == s,
        colorized(s, "1"@, "1"@, ColorMode::Normal, terminal) == colorized(s, "1"@, "1"@, ColorMode::Colorblind, terminal),
{
}

// ------------------------------------------------------------------
// Looking for a file in a directory and its parents
// ------------------------------------------------------------------

/// How far up a directory the search goes: to the root component `/` of
/// an absolute path, or to the empty path of a relative one.
pub open spec fn top_depth(start: Seq<Seq<char>>) -> int {
    if start.len() > 0 && start[0] == "/"@ {
        1
    } else {
        0
    }
}

/// The directories searched, nearest first: `start` and each of its
/// parents.
pub open spec fn searched(start: Seq<Seq<char>>, k: int) -> bool {
    top_depth(start) <= k <= start.len()
}

/// The directories a search from `start` looks in, nearest first.
pub fn parent_folders(start: &Vec<String>) -> (r: Vec<Vec<String>>)
    ensures
        r@.len() == start@.len() + 1 - top_depth(views(start@)),
        forall|i: int| 0 <= i < r@.len() ==> views(#[trigger] r@[i]@) == views(start@).take(start@.len() - i),
{
    let top: usize = if start.len() > 0 && crate::text::str_eq(start[0].as_str(), "/") {
        1
    } else {
        0
    };
    let last: usize = start.len() - top;
    let mut out: Vec<Vec<String>> = Vec::new();
    let mut i: usize = 0;
    loop
        invariant_except_break
            top == top_depth(views(start@)),
            top <= start.len(),
            last == start.len() - top,
            i <= last,
            out@.len() == i,
            forall|q: int| 0 <= q < out@.len() ==> views(#[trigger] out@[q]@) == views(start@).take(start@.len() - q),
        ensures
            out@.len() == last + 1,
            last == start.len() - top,
            forall|q: int| 0 <= q < out@.len() ==> views(#[trigger] out@[q]@) == views(start@).take(start@.len() - q),
        decreases last - i,
    {
        let k: usize = start.len() - i;
        let mut dir: Vec<String> = Vec::new();
        let mut j: usize = 0;
        while j < k
            invariant
                j <= k <= start.len(),
                views(dir@) == views(start@).take(j as int),
            decreases k - j,
        {
            let c = start[j].clone();
            proof {
                assert(c@ == start@[j as int]@);
            }
            let ghost before = dir@;
            dir.push(c);
            proof {
                assert(dir@ == before.push(c));
                assert(views(dir@) =~= views(before).push(c@));
                assert(views(dir@) =~= views(start@).take(j + 1));
            }
            j = j + 1;
        }
        out.push(dir);
        if i == last {
            break;
        }
        i = i + 1;
    }
    out
}

/// Look for `filename` in `start` and its parents, nearest first, given
/// the directories that hold a file of that name; the path of the file
/// found, as components.
pub fn find_in_parent_folders(start: &Vec<String>, filename: &str, dirs_with_file: &Vec<Vec<String>>) -> (r: Option<Vec<String>>)
    ensures
        match r {
            Some(p) => exists|k: int|
                searched(views(start@), k) && views(p@) == #[trigger] views(start@).take(k).push(filename@)
                    && dirs_with_file@.map_values(|d: Vec<String>| views(d@)).contains(
                    views(start@).take(k),
                ) && forall|j: int|
                    k < j <= start@.len() ==> !dirs_with_file@.map_values(|d: Vec<String>| views(d@)).contains(
                        views(start@).take(j),
                    ),
            None => forall|k: int|
                searched(views(start@), k) ==> !dirs_with_file@.map_values(|d: Vec<String>| views(d@)).contains(
                    #[trigger] views(start@).take(k),
                ),
        },
{
    let ghost have = dirs_with_file@.map_values(|d: Vec<String>| views(d@));
    let dirs = parent_folders(start);
    let mut i: usize = 0;
    while i < dirs.len()
        invariant
            i <= dirs.len(),
            have == dirs_with_file@.map_values(|d: Vec<String>| views(d@)),
            dirs@.len() == start@.len() + 1 - top_depth(views(start@)),
            forall|m: int| 0 <= m < dirs@.len() ==> views(#[trigger] dirs@[m]@) == views(start@).take(start@.len() - m),
            forall|j: int| start@.len() - i < j <= start@.len() ==> !have.contains(#[trigger] views(start@).take(j)),
        decreases dirs.len() - i,
    {
        let mut found = false;
        let mut m: usize = 0;
        while m < dirs_with_file.len()
            invariant
                i < dirs.len(),
                m <= dirs_with_file.len(),
                have == dirs_with_file@.map_values(|d: Vec<String>| views(d@)),
                found ==> have.contains(views(dirs@[i as int]@)),
                !found ==> forall|q: int| 0 <= q < m ==> have[q] != views(dirs@[i as int]@),
            decreases dirs_with_file.len() - m,
        {
            if crate::dag::same_components(&dirs_with_file[m], &dirs[i]) {
                found = true;
                proof {
                    assert(have[m as int] == views(dirs@[i as int]@));
                }
            }
            m = m + 1;
        }
        if found {
            let mut p: Vec<String> = Vec::new();
            let mut j: usize = 0;
            while j < dirs[i].len()
                invariant
                    i < dirs.len(),
                    j <= dirs@[i as int]@.len(),
                    views(p@) == views(dirs@[i as int]@).take(j as int),
                decreases dirs@[i as int]@.len() - j,
            {
                let c = dirs[i][j].clone();
                proof {
                    assert(c@ == dirs@[i as int]@[j as int]@);
                }
                let ghost before = p@;
                p.push(c);
                proof {
                    assert(p@ == before.push(c));
                    assert(views(p@) =~= views(before).push(c@));
                    assert(views(p@) =~= views(dirs@[i as int]@).take(j + 1));
                }
                j = j + 1;
            }
            let ghost before = views(p@);
            p.push(owned(filename));
            proof {
                assert(views(dirs@[i as int]@).take(views(dirs@[i as int]@).len() as int) =~= views(dirs@[i as int]@));
                assert(views(p@) =~= before.push(filename@));
                let k = start@.len() - i;
                assert(views(p@) == views(start@).take(k).push(filename@));
                assert(have.contains(views(start@).take(k)));
                assert(forall|j: int| k < j <= start@.len() ==> !have.contains(#[trigger] views(start@).take(j)));
            }
            return Some(p);
        }
        proof {
            assert(!have.contains(views(start@).take(start@.len() - i))) by {
                if have.contains(views(start@).take(start@.len() - i)) {
                    let q = choose|q: int| 0 <= q < have.len() && have[q] == views(start@).take(start@.len() - i);
                    assert(have[q] == views(dirs@[i as int]@));
                }
            }
        }
        i = i + 1;
    }
    None
}

} // verus!
