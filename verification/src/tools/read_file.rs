//! `read_file`: reading a file with line numbers.

use super::args::{arg_str, arg_u64_opt, missing_arg, truncate, truncated, ToolResult};
use crate::json::{text_member, uint_member, Json};
use crate::number::{dec, dec_string, pad_left, pad_left_str, push_dec};
use crate::split::{lines, split_lines};
use crate::text::texts;
use vstd::prelude::*;

verus! {

/// The tool that reads a file.
#[derive(Debug)]
pub struct ReadFile;

/// How many bytes of output are kept.
pub const MAX_OUTPUT: usize = 50000;

/// How many lines are read where the call does not say.
pub const DEFAULT_LIMIT: u64 = 2000;

/// What a call asks to read.
#[derive(Debug)]
pub struct ReadPlan {
    pub path: String,
    /// The first line, counted from 1.
    pub offset: u64,
    /// How many lines.
    pub limit: u64,
}

impl ReadFile {
    /// What a call asks to read, or the answer where it names no file.
    pub fn plan(args: &Json) -> (r: Result<ReadPlan, ToolResult>)
        ensures
            match r {
                Ok(p) => {
                    &&& text_member(args@, "path"@) == Some(p.path@)
                    &&& p.offset == match uint_member(args@, "offset"@) {
                        Some(o) => if o >= 1 {
                            o
                        } else {
                            1
                        },
                        None => 1,
                    }
                    &&& p.limit == match uint_member(args@, "limit"@) {
                        Some(l) => l,
                        None => DEFAULT_LIMIT,
                    }
                },
                Err(e) => text_member(args@, "path"@) is None && !e.ok && e.content@ == missing_arg(
                    "path"@,
                ),
            },
    {
        let path = match arg_str(args, "path") {
            Ok(p) => p,
            Err(e) => {
                return Err(e);
            },
        };
        let offset: u64 = match arg_u64_opt(args, "offset") {
            Some(o) => if o >= 1 {
                o
            } else {
                1
            },
            None => 1,
        };
        let limit: u64 = match arg_u64_opt(args, "limit") {
            Some(l) => l,
            None => DEFAULT_LIMIT,
        };
        Ok(ReadPlan { path, offset, limit })
    }
}

/// A line with its number.
pub open spec fn numbered_line(n: nat, line: Seq<char>) -> Seq<char> {
    pad_left(dec(n), 6, ' ') + "\t"@ + line + "\n"@
}

/// The lines from `from` up to `upto` with their numbers.
pub open spec fn numbered(ls: Seq<Seq<char>>, from: int, upto: int) -> Seq<char>
    decreases upto - from,
{
    if upto <= from || from < 0 || upto > ls.len() {
        Seq::empty()
    } else {
        numbered(ls, from, upto - 1) + numbered_line(upto as nat, ls[upto - 1])
    }
}

/// The end of the lines that are read.
pub open spec fn read_end(start: int, limit: u64, len: int) -> int {
    if start + limit <= len {
        start + limit
    } else {
        len
    }
}

/// What the tool answers for the text of a file: its lines with their numbers. A file without lines is
/// said to be empty, and lines beyond the end are a failure.
pub open spec fn read_answer(text: Seq<char>, offset: u64, limit: u64) -> (bool, Seq<char>) {
    let ls = lines(text);
    let start = offset - 1;
    if start >= ls.len() && ls.len() > 0 {
        (
            false,
            "offset "@ + dec(offset as nat) + " beyond end of file ("@ + dec(ls.len())
                + " lines)"@,
        )
    } else {
        let out = numbered(ls, start, read_end(start, limit, ls.len() as int));
        (
            true,
            truncated(
                if out.len() == 0 {
                    "(empty file)"@
                } else {
                    out
                },
                MAX_OUTPUT as nat,
            ),
        )
    }
}

impl ReadFile {
    /// What the tool answers for the text of a file.
    pub fn answer(p: &ReadPlan, text: &str) -> (r: ToolResult)
        requires
            p.offset >= 1,
        ensures
            (r.ok, r.content@) == read_answer(text@, p.offset, p.limit),
    {
        let ls = split_lines(text);
        let ghost lv = texts(ls@);
        assert(lv.len() == ls@.len());
        let start: u64 = p.offset - 1;
        let n: u64 = ls.len() as u64;
        if start >= n && n > 0 {
            let mut s = "offset ".to_owned();
            push_dec(&mut s, p.offset);
            s.append(" beyond end of file (");
            push_dec(&mut s, n);
            s.append(" lines)");
            return ToolResult::err(s);
        }
        let mut out = String::new();
        if start < n {
            let end: u64 = if p.limit <= n - start {
                start + p.limit
            } else {
                n
            };
            assert(end == read_end(start as int, p.limit, n as int));
            let mut i: u64 = start;
            while i < end
                invariant
                    start <= i <= end <= n,
                    n == ls@.len(),
                    lv == texts(ls@),
                    lv.len() == ls@.len(),
                    out@ == numbered(lv, start as int, i as int),
                decreases end - i,
            {
                let line = &ls[i as usize];
                assert(lv[i as int] == line@);
                let mut s = pad_left_str(dec_string(i + 1).as_str(), 6, ' ');
                s.append("\t");
                s.append(line.as_str());
                s.append("\n");
                out.append(s.as_str());
                i += 1;
            }
        }
        if out.as_str().is_empty() {
            out = "(empty file)".to_owned();
        }
        ToolResult::ok(truncate(out.as_str(), MAX_OUTPUT))
    }

    /// What the tool answers for an image that was stored.
    pub fn image_answer(token: &str, bytes: u64, mime: &str) -> (r: ToolResult)
        ensures
            r.ok,
            r.content@ == token@ + "\n[image stored: "@ + dec(bytes as nat) + " bytes, "@ + mime@
                + " mime]"@,
    {
        let mut s = token.to_owned();
        s.append("\n[image stored: ");
        push_dec(&mut s, bytes);
        s.append(" bytes, ");
        s.append(mime);
        s.append(" mime]");
        ToolResult::ok(s)
    }
}

/// The lines that are shown are those from the offset on, as many as are asked for and there are, each with its
/// own number in the file before it, in their order.
pub proof fn law_lines_shown(ls: Seq<Seq<char>>, from: int, upto: int)
    requires
        0 <= from < upto <= ls.len(),
    ensures
        numbered(ls, from, upto) == numbered(ls, from, upto - 1) + (pad_left(dec(upto as nat), 6, ' ') + "\t"@
            + ls[upto - 1] + "\n"@),
        numbered(ls, from, upto) == (pad_left(dec((from + 1) as nat), 6, ' ') + "\t"@ + ls[from] + "\n"@)
            + numbered(ls, from + 1, upto),
        numbered(ls, from, from).len() == 0,
    decreases upto - from,
{
    if upto == from + 1 {
        assert(numbered(ls, from, upto) =~= numbered_line(upto as nat, ls[from]));
        assert(numbered(ls, from + 1, upto) =~= Seq::<char>::empty());
        assert(numbered_line(upto as nat, ls[from]) + Seq::<char>::empty() =~= numbered_line(
            upto as nat,
            ls[from],
        ));
    } else {
        law_lines_shown(ls, from, upto - 1);
        assert(numbered(ls, from, upto) =~= numbered_line((from + 1) as nat, ls[from]) + numbered(
            ls,
            from + 1,
            upto,
        ));
    }
}

/// What is read of a file: beyond its end nothing, which is a failure; of a file without lines a remark; else
/// the lines from the offset, not more than the limit and not beyond the end, cut to fifty thousand bytes.
pub proof fn law_read_answer(text: Seq<char>, offset: u64, limit: u64)
    requires
        offset >= 1,
    ensures
        ({
            let n = lines(text).len();
            let upto = if offset - 1 + limit < n {
                offset - 1 + limit
            } else {
                n as int
            };
            let out = numbered(lines(text), offset - 1, upto);
            &&& n > 0 && offset > n ==> read_answer(text, offset, limit) == (
                false,
                "offset "@ + dec(offset as nat) + " beyond end of file ("@ + dec(n) + " lines)"@,
            )
            &&& n == 0 ==> read_answer(text, offset, limit) == (true, truncated("(empty file)"@, 50000))
            &&& 0 < n && offset <= n && limit > 0 ==> read_answer(text, offset, limit) == (
                true,
                truncated(out, 50000),
            )
        }),
{
    let ls = lines(text);
    let n = ls.len();
    let start = offset - 1;
    if n > 0 && offset <= n && limit > 0 {
        let upto = if start + limit < n {
            start + limit
        } else {
            n as int
        };
        law_lines_shown(ls, start, upto);
        reveal_strlit("\n");
        assert(numbered(ls, start, upto).len() > 0);
    }
}

} // verus!
