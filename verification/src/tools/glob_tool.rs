//! `glob`: finding files by a pattern of their names.

use super::args::{arg_bool, arg_str, missing_arg, ToolResult};
use crate::config::paths::{unslashed, unslashed_len};
use crate::json::{bool_member, text_member, Json};
use crate::number::{dec, push_dec};
use crate::split::{join, join_strings, split_on, split_str};
use crate::text::{chars_of, str_eq, string_of, texts, texts_push};
use vstd::prelude::*;
use vstd::slice::slice_subrange;

verus! {

/// The tool that finds files by a pattern of their names.
#[derive(Debug)]
pub struct Glob;

/// How many files are listed.
pub const MAX_RESULTS: usize = 500;

/// A directory of build products or caches.
pub open spec fn is_noise_name(s: Seq<char>) -> bool {
    ||| s == ".git"@
    ||| s == "node_modules"@
    ||| s == "target"@
    ||| s == "dist"@
    ||| s == "build"@
    ||| s == ".venv"@
    ||| s == "__pycache__"@
    ||| s == ".next"@
    ||| s == ".cache"@
}

/// The path leads through a directory of build products or caches.
pub open spec fn noisy(path: Seq<char>) -> bool {
    exists|i: int|
        0 <= i < split_on(path, '/').len() && is_noise_name(#[trigger] split_on(path, '/')[i])
}

fn noise_name(s: &str) -> (r: bool)
    ensures
        r == is_noise_name(s@),
{
    str_eq(s, ".git") || str_eq(s, "node_modules") || str_eq(s, "target") || str_eq(s, "dist")
        || str_eq(s, "build") || str_eq(s, ".venv") || str_eq(s, "__pycache__") || str_eq(
        s,
        ".next",
    ) || str_eq(s, ".cache")
}

/// Whether the path leads through a directory of build products or caches.
pub fn is_noisy(path: &str) -> (r: bool)
    ensures
        r == noisy(path@),
{
    let segs = split_str(path, '/');
    let ghost sv = texts(segs@);
    assert(sv.len() == segs@.len());
    let mut i: usize = 0;
    while i < segs.len()
        invariant
            i <= segs@.len(),
            sv == texts(segs@),
            sv.len() == segs@.len(),
            sv == split_on(path@, '/'),
            forall|j: int| 0 <= j < i ==> !is_noise_name(#[trigger] sv[j]),
        decreases segs@.len() - i,
    {
        assert(sv[i as int] == segs@[i as int]@);
        if noise_name(segs[i].as_str()) {
            return true;
        }
        i += 1;
    }
    false
}

/// A hidden directory other than that of the version control.
pub open spec fn is_hidden_name(s: Seq<char>) -> bool {
    s.len() > 0 && s[0] == '.' && s != ".git"@
}

/// The path is left out of the list: it leads through a directory of build products or caches and there
/// is no leave for that, neither for all of them nor, where it is hidden, for the hidden ones.
pub open spec fn left_out(path: Seq<char>, include_hidden: bool, include_noise: bool) -> bool {
    !include_noise && exists|i: int|
        0 <= i < split_on(path, '/').len() && is_noise_name(#[trigger] split_on(path, '/')[i]) && !(
        include_hidden && is_hidden_name(split_on(path, '/')[i]))
}

fn hidden_name(s: &str) -> (r: bool)
    ensures
        r == is_hidden_name(s@),
{
    let cs = chars_of(s);
    cs.len() > 0 && cs[0] == '.' && !str_eq(s, ".git")
}

fn is_left_out(path: &str, include_hidden: bool, include_noise: bool) -> (r: bool)
    ensures
        r == left_out(path@, include_hidden, include_noise),
{
    if include_noise || !is_noisy(path) {
        return false;
    }
    let segs = split_str(path, '/');
    let ghost sv = texts(segs@);
    assert(sv.len() == segs@.len());
    let mut i: usize = 0;
    while i < segs.len()
        invariant
            i <= segs@.len(),
            !include_noise,
            sv == texts(segs@),
            sv.len() == segs@.len(),
            sv == split_on(path@, '/'),
            forall|j: int|
                0 <= j < i ==> !is_noise_name(#[trigger] sv[j]) || (include_hidden
                    && is_hidden_name(sv[j])),
        decreases segs@.len() - i,
    {
        assert(sv[i as int] == segs@[i as int]@);
        if noise_name(segs[i].as_str()) && !(include_hidden && hidden_name(segs[i].as_str())) {
            return true;
        }
        i += 1;
    }
    false
}

fn unslash(s: &str) -> (r: String)
    ensures
        r@ == unslashed(s@),
{
    let cs = chars_of(s);
    let n: usize = unslashed_len(cs.as_slice());
    let r = string_of(slice_subrange(cs.as_slice(), 0, n));
    assert(r@ =~= s@.take(n as int));
    r
}

/// The pattern seen from the directory in which it is looked for.
pub open spec fn full_pattern(base: Seq<char>, pattern: Seq<char>) -> Seq<char> {
    if base == "."@ || base.len() == 0 {
        pattern
    } else {
        unslashed(base) + "/"@ + pattern
    }
}

/// What a call asks for.
#[derive(Debug)]
pub struct GlobPlan {
    pub pattern: String,
    /// Hidden directories are not left out, but for that of the version control.
    pub include_hidden: bool,
    /// Nothing is left out.
    pub include_noise: bool,
}

impl Glob {
    /// What a call asks for, or the answer where it names no pattern.
    pub fn plan(args: &Json) -> (r: Result<GlobPlan, ToolResult>)
        ensures
            match r {
                Ok(p) => {
                    &&& text_member(args@, "pattern"@) is Some
                    &&& p.pattern@ == full_pattern(
                        match text_member(args@, "path"@) {
                            Some(b) => b,
                            None => "."@,
                        },
                        text_member(args@, "pattern"@)->0,
                    )
                    &&& p.include_hidden == (bool_member(args@, "include_hidden"@) == Some(true))
                    &&& p.include_noise == (bool_member(args@, "include_noise"@) == Some(true))
                },
                Err(e) => text_member(args@, "pattern"@) is None && !e.ok && e.content@ == missing_arg(
                    "pattern"@,
                ),
            },
    {
        let pattern = match arg_str(args, "pattern") {
            Ok(p) => p,
            Err(e) => {
                return Err(e);
            },
        };
        let base = match args.get_str("path") {
            Some(b) => b,
            None => ".".to_owned(),
        };
        let include_hidden = arg_bool(args, "include_hidden");
        let include_noise = arg_bool(args, "include_noise");
        let full = if str_eq(base.as_str(), ".") || base.as_str().is_empty() {
            pattern
        } else {
            let mut s = unslash(base.as_str());
            s.append("/");
            s.append(pattern.as_str());
            s
        };
        Ok(GlobPlan { pattern: full, include_hidden, include_noise })
    }
}

/// The files listed so far and how many were left out.
pub struct ScanView {
    pub hits: Seq<Seq<char>>,
    pub filtered: nat,
}

/// The list with one found path more: a path that could not be read counts for nothing, nor does
/// anything once the list is full.
pub open spec fn scan_step(
    s: ScanView,
    entry: Option<String>,
    include_hidden: bool,
    include_noise: bool,
) -> ScanView {
    if s.hits.len() >= MAX_RESULTS {
        s
    } else {
        match entry {
            None => s,
            Some(p) => if left_out(p@, include_hidden, include_noise) {
                ScanView { filtered: s.filtered + 1, ..s }
            } else {
                ScanView { hits: s.hits.push(p@), ..s }
            },
        }
    }
}

/// The list after all the found paths.
pub open spec fn scanned(
    entries: Seq<Option<String>>,
    include_hidden: bool,
    include_noise: bool,
) -> ScanView
    decreases entries.len(),
{
    if entries.len() == 0 {
        ScanView { hits: Seq::empty(), filtered: 0 }
    } else {
        scan_step(
            scanned(entries.drop_last(), include_hidden, include_noise),
            entries.last(),
            include_hidden,
            include_noise,
        )
    }
}

/// What the tool answers: the files, with notes on what is left out.
pub open spec fn glob_answer(pattern: Seq<char>, s: ScanView) -> Seq<char> {
    if s.hits.len() == 0 {
        "no files match: "@ + pattern + if s.filtered > 0 {
            " (filtered "@ + dec(s.filtered)
                + " noise paths; pass include_noise=true to keep them)"@
        } else {
            Seq::empty()
        }
    } else {
        let list = join(s.hits, "\n"@);
        let capped = if s.hits.len() >= MAX_RESULTS {
            list + "\n... [capped at 500 results]"@
        } else {
            list
        };
        if s.filtered > 0 {
            capped + "\n[note] filtered "@ + dec(s.filtered)
                + " noise paths (.git/node_modules/target/...)"@
        } else {
            capped
        }
    }
}

/// The list of found files: takes in paths until it is full.
#[derive(Debug)]
pub struct GlobScan {
    pub hits: Vec<String>,
    pub filtered: u64,
}

impl View for GlobScan {
    type V = ScanView;

    open spec fn view(&self) -> ScanView {
        ScanView { hits: texts(self.hits@), filtered: self.filtered as nat }
    }
}

impl GlobScan {
    /// An empty list.
    pub fn new() -> (r: GlobScan)
        ensures
            r@ == (ScanView { hits: Seq::empty(), filtered: 0 }),
    {
        let r = GlobScan { hits: Vec::new(), filtered: 0 };
        assert(texts(r.hits@) =~= Seq::<Seq<char>>::empty());
        r
    }

    /// Whether the list is full.
    pub fn full(&self) -> (r: bool)
        ensures
            r == (self@.hits.len() >= MAX_RESULTS),
    {
        assert(texts(self.hits@).len() == self.hits@.len());
        self.hits.len() >= MAX_RESULTS
    }

    /// Takes in a found path.
    pub fn take(&mut self, entry: &Option<String>, include_hidden: bool, include_noise: bool)
        requires
            old(self)@.filtered < u64::MAX,
        ensures
            final(self)@ == scan_step(old(self)@, *entry, include_hidden, include_noise),
    {
        broadcast use texts_push;

        if self.full() {
            return;
        }
        match entry {
            None => {},
            Some(p) => {
                if is_left_out(p.as_str(), include_hidden, include_noise) {
                    self.filtered = self.filtered + 1;
                } else {
                    self.hits.push(p.clone());
                }
            },
        }
    }

    /// What the tool answers.
    pub fn answer(&self, pattern: &str) -> (r: ToolResult)
        ensures
            r.ok,
            r.content@ == glob_answer(pattern@, self@),
    {
        assert(texts(self.hits@).len() == self.hits@.len());
        if self.hits.len() == 0 {
            let mut s = "no files match: ".to_owned();
            s.append(pattern);
            let mut suffix = String::new();
            if self.filtered > 0 {
                suffix.append(" (filtered ");
                push_dec(&mut suffix, self.filtered);
                suffix.append(" noise paths; pass include_noise=true to keep them)");
                assert(suffix@ =~= " (filtered "@ + dec(self.filtered as nat)
                    + " noise paths; pass include_noise=true to keep them)"@);
            }
            s.append(suffix.as_str());
            return ToolResult::ok(s);
        }
        let mut out = join_strings(&self.hits, "\n");
        if self.hits.len() >= MAX_RESULTS {
            out.append("\n... [capped at 500 results]");
        }
        if self.filtered > 0 {
            out.append("\n[note] filtered ");
            push_dec(&mut out, self.filtered);
            out.append(" noise paths (.git/node_modules/target/...)");
        }
        ToolResult::ok(out)
    }
}

impl Glob {
    /// What the tool answers to a pattern that is none.
    pub fn bad_pattern(error: &str) -> (r: ToolResult)
        ensures
            !r.ok,
            r.content@ == "invalid glob pattern: "@ + error@,
    {
        ToolResult::err("invalid glob pattern: ".to_owned().concat(error))
    }

    /// What the tool answers for the paths that the pattern finds.
    pub fn report(p: &GlobPlan, entries: &Vec<Option<String>>) -> (r: ToolResult)
        ensures
            r.ok,
            r.content@ == glob_answer(
                p.pattern@,
                scanned(entries@, p.include_hidden, p.include_noise),
            ),
    {
        let mut scan = GlobScan::new();
        let mut i: usize = 0;
        assert(entries@.take(0) =~= Seq::<Option<String>>::empty());
        while i < entries.len()
            invariant
                i <= entries@.len(),
                scan@ == scanned(entries@.take(i as int), p.include_hidden, p.include_noise),
                scan@.filtered <= i,
            decreases entries@.len() - i,
        {
            assert(entries@.take(i + 1).drop_last() =~= entries@.take(i as int));
            assert(entries@.take(i + 1).last() == entries@[i as int]);
            scan.take(&entries[i], p.include_hidden, p.include_noise);
            i += 1;
        }
        assert(entries@.take(i as int) =~= entries@);
        scan.answer(p.pattern.as_str())
    }
}

/// No list is longer than the limit. Without any leave, no listed file lies in a directory of build
/// products or caches; with leave for the hidden ones alone, none lies in one that is not hidden, nor in
/// that of the version control.
pub proof fn law_listed_files_quiet(
    entries: Seq<Option<String>>,
    include_hidden: bool,
    include_noise: bool,
)
    ensures
        scanned(entries, include_hidden, include_noise).hits.len() <= MAX_RESULTS,
        forall|i: int|
            0 <= i < scanned(entries, include_hidden, include_noise).hits.len() ==> !left_out(
                #[trigger] scanned(entries, include_hidden, include_noise).hits[i],
                include_hidden,
                include_noise,
            ),
        !include_hidden && !include_noise ==> forall|i: int|
            0 <= i < scanned(entries, include_hidden, include_noise).hits.len() ==> !noisy(
                #[trigger] scanned(entries, include_hidden, include_noise).hits[i],
            ),
    decreases entries.len(),
{
    if entries.len() > 0 {
        law_listed_files_quiet(entries.drop_last(), include_hidden, include_noise);
    }
}

/// A path is passed over where one of its names is that of a directory of tools or built files; a hidden one of
/// these, but for `.git`, is let through where hidden files were asked for, and all are where they were asked for
/// themselves.
pub proof fn law_paths_passed_over(path: Seq<char>, include_hidden: bool, include_noise: bool, i: int)
    ensures
        left_out(path, include_hidden, true) == false,
        0 <= i < split_on(path, '/').len() && !include_noise && (split_on(path, '/')[i] == ".git"@
            || split_on(path, '/')[i] == "node_modules"@ || split_on(path, '/')[i] == "target"@
            || split_on(path, '/')[i] == "dist"@ || split_on(path, '/')[i] == "build"@ || split_on(
            path,
            '/',
        )[i] == "__pycache__"@) ==> left_out(path, include_hidden, include_noise),
        0 <= i < split_on(path, '/').len() && !include_noise && !include_hidden && (split_on(path, '/')[i]
            == ".venv"@ || split_on(path, '/')[i] == ".next"@ || split_on(path, '/')[i] == ".cache"@)
            ==> left_out(path, include_hidden, include_noise),
        left_out(path, include_hidden, include_noise) ==> exists|k: int|
            0 <= k < split_on(path, '/').len() && ({
                let n = #[trigger] split_on(path, '/')[k];
                ||| n == ".git"@
                ||| n == "node_modules"@
                ||| n == "target"@
                ||| n == "dist"@
                ||| n == "build"@
                ||| n == "__pycache__"@
                ||| !include_hidden && (n == ".venv"@ || n == ".next"@ || n == ".cache"@)
            }),
{
    reveal_strlit(".git");
    reveal_strlit("node_modules");
    reveal_strlit("target");
    reveal_strlit("dist");
    reveal_strlit("build");
    reveal_strlit("__pycache__");
    reveal_strlit(".venv");
    reveal_strlit(".next");
    reveal_strlit(".cache");
    if 0 <= i < split_on(path, '/').len() {
        let n = split_on(path, '/')[i];
        assert(is_noise_name(n) && !(include_hidden && is_hidden_name(n)) && !include_noise ==> left_out(
            path,
            include_hidden,
            include_noise,
        ));
    }
    if left_out(path, include_hidden, include_noise) {
        let k = choose|k: int|
            0 <= k < split_on(path, '/').len() && is_noise_name(#[trigger] split_on(path, '/')[k]) && !(
            include_hidden && is_hidden_name(split_on(path, '/')[k]));
        let n = split_on(path, '/')[k];
        assert(".venv"@[1] == 'v' && ".next"@[1] == 'n' && ".cache"@[1] == 'c' && ".git"@[1] == 'g');
    }
}

/// Each path that is found is listed, in the order in which it is found, or counted as passed over; a path that
/// could not be read is neither, and after five hundred nothing is listed or counted any more.
pub proof fn law_paths_listed(
    entries: Seq<Option<String>>,
    p: String,
    include_hidden: bool,
    include_noise: bool,
)
    ensures
        ({
            let s = scanned(entries, include_hidden, include_noise);
            let t = scanned(entries.push(Some(p)), include_hidden, include_noise);
            &&& scanned(entries.push(None), include_hidden, include_noise) == s
            &&& s.hits.len() >= 500 ==> t == s
            &&& s.hits.len() < 500 && left_out(p@, include_hidden, include_noise) ==> t.hits == s.hits
                && t.filtered == s.filtered + 1
            &&& s.hits.len() < 500 && !left_out(p@, include_hidden, include_noise) ==> t.hits
                == s.hits + seq![p@] && t.filtered == s.filtered
        }),
        scanned(Seq::empty(), include_hidden, include_noise).hits.len() == 0,
        scanned(Seq::empty(), include_hidden, include_noise).filtered == 0,
{
    assert(entries.push(Some(p)).drop_last() =~= entries);
    assert(entries.push(None).drop_last() =~= entries);
}

/// A pattern is looked for below the directory that is given, or as it is where none is.
pub proof fn law_pattern_below(base: Seq<char>, pattern: Seq<char>)
    ensures
        full_pattern("."@, pattern) == pattern,
        full_pattern(Seq::empty(), pattern) == pattern,
        base != "."@ && base.len() > 0 ==> full_pattern(base, pattern) == unslashed(base) + seq!['/']
            + pattern,
{
    reveal_strlit("/");
    assert("/"@ =~= seq!['/']);
}

/// The answer lists the paths, one on each line, and says how many were passed over and whether there are more.
pub proof fn law_paths_answered(pattern: Seq<char>, s: ScanView)
    ensures
        s.hits.len() == 0 && s.filtered == 0 ==> glob_answer(pattern, s) == "no files match: "@ + pattern,
        s.hits.len() == 0 && s.filtered > 0 ==> glob_answer(pattern, s) == "no files match: "@ + pattern + (
        " (filtered "@ + dec(s.filtered) + " noise paths; pass include_noise=true to keep them)"@),
        0 < s.hits.len() < 500 && s.filtered == 0 ==> glob_answer(pattern, s) == join(s.hits, "\n"@),
        0 < s.hits.len() < 500 && s.filtered > 0 ==> glob_answer(pattern, s) == join(s.hits, "\n"@)
            + "\n[note] filtered "@ + dec(s.filtered) + " noise paths (.git/node_modules/target/...)"@,
        s.hits.len() >= 500 && s.filtered == 0 ==> glob_answer(pattern, s) == join(s.hits, "\n"@)
            + "\n... [capped at 500 results]"@,
        s.hits.len() >= 500 && s.filtered > 0 ==> glob_answer(pattern, s) == join(s.hits, "\n"@)
            + "\n... [capped at 500 results]"@ + "\n[note] filtered "@ + dec(s.filtered)
            + " noise paths (.git/node_modules/target/...)"@,
{
    assert("no files match: "@ + pattern + Seq::<char>::empty() =~= "no files match: "@ + pattern);
}

} // verus!
