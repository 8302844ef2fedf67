//! `write_file`: writing a whole file.

use super::args::{arg_str, missing_arg, ToolResult};
use crate::bytes::{byte_len, byte_length};
use crate::json::{text_member, Json};
use crate::number::{dec, push_dec};
use vstd::prelude::*;

verus! {

/// The tool that writes a whole file.
#[derive(Debug)]
pub struct WriteFile;

/// What a call asks to write.
#[derive(Debug)]
pub struct WritePlan {
    pub path: String,
    pub content: String,
}

impl WriteFile {
    /// What a call asks to write, or the answer where an argument is missing.
    pub fn plan(args: &Json) -> (r: Result<WritePlan, ToolResult>)
        ensures
            match r {
                Ok(p) => text_member(args@, "path"@) == Some(p.path@) && text_member(
                    args@,
                    "content"@,
                ) == Some(p.content@),
                Err(e) => !e.ok && if text_member(args@, "path"@) is None {
                    e.content@ == missing_arg("path"@)
                } else {
                    text_member(args@, "content"@) is None && e.content@ == missing_arg("content"@)
                },
            },
    {
        let path = match arg_str(args, "path") {
            Ok(p) => p,
            Err(e) => {
                return Err(e);
            },
        };
        match arg_str(args, "content") {
            Ok(content) => Ok(WritePlan { path, content }),
            Err(e) => Err(e),
        }
    }

    /// What the tool answers when the file was written.
    pub fn done_answer(p: &WritePlan) -> (r: ToolResult)
        ensures
            r.ok,
            r.content@ == "wrote "@ + dec(byte_len(p.content@)) + " bytes to "@ + p.path@,
    {
        let mut s = "wrote ".to_owned();
        push_dec(&mut s, byte_length(p.content.as_str()) as u64);
        s.append(" bytes to ");
        s.append(p.path.as_str());
        ToolResult::ok(s)
    }

    /// What the tool answers when something went wrong with the file: `what` could not be done.
    pub fn failed_answer(what: &str, path: &str, error: &str) -> (r: ToolResult)
        ensures
            !r.ok,
            r.content@ == "cannot "@ + what@ + " "@ + path@ + ": "@ + error@,
    {
        let mut s = "cannot ".to_owned();
        s.append(what);
        s.append(" ");
        s.append(path);
        s.append(": ");
        s.append(error);
        ToolResult::err(s)
    }
}

} // verus!
