//! `grep`: searching file contents with ripgrep.

use super::args::{arg_str, missing_arg, truncate, truncated, ToolResult};
use crate::json::{text_member, Json, JsonView};
use crate::text::{texts, texts_push};
use vstd::prelude::*;

verus! {

/// The tool that searches file contents.
#[derive(Debug)]
pub struct Grep;

/// How many bytes of output are kept.
pub const MAX_OUTPUT: usize = 30000;

/// What a call asks ripgrep to do.
#[derive(Debug)]
pub struct GrepPlan {
    pub pattern: String,
    /// The arguments of ripgrep.
    pub args: Vec<String>,
}

/// The arguments of ripgrep for a call.
pub open spec fn rg_args(args: JsonView, pattern: Seq<char>) -> Seq<Seq<char>> {
    let head = seq!["--line-number"@, "--no-heading"@, "--color=never"@];
    let globbed = match text_member(args, "glob"@) {
        Some(g) => head.push("--glob"@).push(g),
        None => head,
    };
    let patterned = globbed.push(pattern);
    match text_member(args, "path"@) {
        Some(p) => patterned.push(p),
        None => patterned,
    }
}

impl Grep {
    /// What a call asks ripgrep to do, or the answer where it names no pattern.
    pub fn plan(args: &Json) -> (r: Result<GrepPlan, ToolResult>)
        ensures
            match r {
                Ok(p) => text_member(args@, "pattern"@) == Some(p.pattern@) && texts(p.args@)
                    == rg_args(args@, p.pattern@),
                Err(e) => text_member(args@, "pattern"@) is None && !e.ok && e.content@ == missing_arg(
                    "pattern"@,
                ),
            },
    {
        broadcast use texts_push;

        let pattern = match arg_str(args, "pattern") {
            Ok(p) => p,
            Err(e) => {
                return Err(e);
            },
        };
        let mut out: Vec<String> = Vec::new();
        out.push("--line-number".to_owned());
        out.push("--no-heading".to_owned());
        out.push("--color=never".to_owned());
        assert(texts(out@) =~= seq!["--line-number"@, "--no-heading"@, "--color=never"@]);
        match args.get_str("glob") {
            Some(g) => {
                out.push("--glob".to_owned());
                out.push(g);
            },
            None => {},
        }
        out.push(pattern.clone());
        match args.get_str("path") {
            Some(p) => {
                out.push(p);
            },
            None => {},
        }
        Ok(GrepPlan { pattern, args: out })
    }
}

/// How ripgrep ended.
#[derive(Debug)]
pub enum GrepEnd {
    /// With this exit code, where it has one.
    Exited { code: Option<i32>, stdout: String, stderr: String },
    /// It could not be run.
    NotRun { error: String },
}

/// What the tool answers: ripgrep says with 1 that it found nothing.
pub open spec fn grep_answer(pattern: Seq<char>, end: GrepEnd) -> (bool, Seq<char>) {
    match end {
        GrepEnd::NotRun { error } => (
            false,
            "cannot run ripgrep (is `rg` installed?): "@ + error@,
        ),
        GrepEnd::Exited { code, stdout, stderr } => if code == Some(0i32) {
            (true, truncated(stdout@, MAX_OUTPUT as nat))
        } else if code == Some(1i32) {
            (true, "no matches for: "@ + pattern)
        } else {
            (false, "ripgrep error: "@ + stderr@)
        },
    }
}

impl Grep {
    /// What the tool answers.
    pub fn answer(pattern: &str, end: &GrepEnd) -> (r: ToolResult)
        ensures
            (r.ok, r.content@) == grep_answer(pattern@, *end),
    {
        match end {
            GrepEnd::NotRun { error } => ToolResult::err(
                "cannot run ripgrep (is `rg` installed?): ".to_owned().concat(error.as_str()),
            ),
            GrepEnd::Exited { code, stdout, stderr } => match *code {
                Some(0) => ToolResult::ok(truncate(stdout.as_str(), MAX_OUTPUT)),
                Some(1) => ToolResult::ok("no matches for: ".to_owned().concat(pattern)),
                _ => ToolResult::err("ripgrep error: ".to_owned().concat(stderr.as_str())),
            },
        }
    }
}

/// What is looked for, and where: the pattern follows the options, behind it the path where one is given, and
/// before it the pattern of file names where one is given.
pub proof fn law_search_asked_for(args: JsonView, pattern: Seq<char>)
    ensures
        ({
            let a = rg_args(args, pattern);
            let g: int = if text_member(args, "glob"@) is Some {
                2
            } else {
                0
            };
            &&& a.len() == 4 + g + if text_member(args, "path"@) is Some {
                1int
            } else {
                0int
            }
            &&& a.take(3) == seq!["--line-number"@, "--no-heading"@, "--color=never"@]
            &&& text_member(args, "glob"@) matches Some(x) ==> a[3] == "--glob"@ && a[4] == x
            &&& a[3 + g] == pattern
            &&& text_member(args, "path"@) matches Some(p) ==> a[4 + g] == p
        }),
{
    assert(rg_args(args, pattern).take(3) =~= seq!["--line-number"@, "--no-heading"@, "--color=never"@]);
}

/// What is found is shown, cut to thirty thousand bytes; that nothing is found is no failure, and anything else
/// is one.
pub proof fn law_search_answer(pattern: Seq<char>, end: GrepEnd)
    ensures
        end matches GrepEnd::NotRun { error } ==> grep_answer(pattern, end) == (
            false,
            "cannot run ripgrep (is `rg` installed?): "@ + error@,
        ),
        end matches GrepEnd::Exited { code, stdout, stderr } ==> grep_answer(pattern, end) == (if code
            == Some(0i32) {
            (true, truncated(stdout@, 30000))
        } else if code == Some(1i32) {
            (true, "no matches for: "@ + pattern)
        } else {
            (false, "ripgrep error: "@ + stderr@)
        }),
{
}

} // verus!
