//! What every tool shares: results, arguments, output limits.

use crate::bytes::{byte_len, byte_length, fit, fit_chars, lemma_byte_len_concat, lemma_fit};
use crate::json::{bool_member, text_member, uint_member, Json};
use crate::number::{dec, push_dec};
use crate::text::{chars_of, str_eq, string_of};
use vstd::prelude::*;
use vstd::slice::slice_subrange;

verus! {

/// What a tool answers. A failure is an answer too: the model reads it and corrects itself.
#[derive(Debug)]
pub struct ToolResult {
    pub ok: bool,
    pub content: String,
}

/// What a tool answers, as the model reads it.
pub open spec fn model_text(ok: bool, content: Seq<char>) -> Seq<char> {
    if ok {
        content
    } else {
        "ERROR: "@ + content
    }
}

impl ToolResult {
    /// A success.
    pub fn ok(content: String) -> (r: ToolResult)
        ensures
            r.ok,
            r.content@ == content@,
    {
        ToolResult { ok: true, content }
    }

    /// A failure.
    pub fn err(msg: String) -> (r: ToolResult)
        ensures
            !r.ok,
            r.content@ == msg@,
    {
        ToolResult { ok: false, content: msg }
    }

    /// The answer as the model reads it: a failure is marked.
    pub fn to_model_string(&self) -> (r: String)
        ensures
            r@ == model_text(self.ok, self.content@),
    {
        if self.ok {
            self.content.clone()
        } else {
            "ERROR: ".to_owned().concat(self.content.as_str())
        }
    }
}

/// The tools whose calls may run at the same time.
pub open spec fn concurrent_safe(name: Seq<char>) -> bool {
    ||| name == "read_file"@
    ||| name == "grep"@
    ||| name == "glob"@
    ||| name == "todo_write"@
    ||| name == "skill"@
    ||| name == "save_memory"@
}

/// Whether several calls of the tool may run at the same time.
pub fn is_concurrent_safe(tool_name: &str) -> (r: bool)
    ensures
        r == concurrent_safe(tool_name@),
{
    str_eq(tool_name, "read_file") || str_eq(tool_name, "grep") || str_eq(tool_name, "glob")
        || str_eq(tool_name, "todo_write") || str_eq(tool_name, "skill") || str_eq(
        tool_name,
        "save_memory",
    )
}

/// What is said of a missing string argument.
pub open spec fn missing_arg(key: Seq<char>) -> Seq<char> {
    "missing or non-string argument: "@ + key
}

/// The string argument `key`.
pub fn arg_str(args: &Json, key: &str) -> (r: Result<String, ToolResult>)
    ensures
        match r {
            Ok(s) => text_member(args@, key@) == Some(s@),
            Err(e) => text_member(args@, key@) is None && !e.ok && e.content@ == missing_arg(key@),
        },
{
    match args.get_str(key) {
        Some(s) => Ok(s),
        None => Err(ToolResult::err("missing or non-string argument: ".to_owned().concat(key))),
    }
}

/// The optional number argument `key`.
pub fn arg_u64_opt(args: &Json, key: &str) -> (r: Option<u64>)
    ensures
        r == uint_member(args@, key@),
{
    args.get_u64(key)
}

/// The boolean argument `key`, false where it is missing.
pub fn arg_bool(args: &Json, key: &str) -> (r: bool)
    ensures
        r == (bool_member(args@, key@) == Some(true)),
{
    match args.get_bool(key) {
        Some(b) => b,
        None => false,
    }
}

/// `s` cut to at most `max` bytes between characters, with a note of how many bytes are gone; `s`
/// itself where it fits.
pub open spec fn truncated(s: Seq<char>, max: nat) -> Seq<char> {
    if byte_len(s) <= max {
        s
    } else {
        let kept = s.take(fit(s, max) as int);
        kept + "\n... [truncated "@ + dec((byte_len(s) - byte_len(kept)) as nat) + " bytes]"@
    }
}

/// Cuts a long output.
pub fn truncate(s: &str, max_bytes: usize) -> (r: String)
    ensures
        r@ == truncated(s@, max_bytes as nat),
{
    let total = byte_length(s);
    if total <= max_bytes {
        return s.to_owned();
    }
    let a = chars_of(s);
    let k = fit_chars(a.as_slice(), max_bytes);
    let kept = string_of(slice_subrange(a.as_slice(), 0, k));
    assert(kept@ =~= s@.take(k as int));
    proof {
        lemma_fit(s@, max_bytes as nat);
        lemma_byte_len_concat(s@.take(k as int), s@.skip(k as int));
        assert(s@.take(k as int) + s@.skip(k as int) =~= s@);
    }
    let gone: usize = total - byte_length(kept.as_str());
    let mut out = kept;
    out.append("\n... [truncated ");
    push_dec(&mut out, gone as u64);
    out.append(" bytes]");
    out
}

/// The model is told of a failure as one, and of an answer as it is.
pub proof fn law_failure_marked(content: Seq<char>)
    ensures
        model_text(true, content) == content,
        model_text(false, content) == "ERROR: "@ + content,
{
}

/// The tools that may run beside others are those that read, and those that keep to themselves; none that writes
/// a file, runs a command or asks the user is among them, nor one that is not known.
pub proof fn law_tools_that_run_together(name: Seq<char>)
    ensures
        concurrent_safe("read_file"@) && concurrent_safe("grep"@) && concurrent_safe("glob"@)
            && concurrent_safe("todo_write"@) && concurrent_safe("skill"@) && concurrent_safe(
            "save_memory"@,
        ),
        concurrent_safe(name) ==> (name == "read_file"@ || name == "grep"@ || name
            == "glob"@ || name == "todo_write"@ || name == "skill"@ || name == "save_memory"@),
{
}

/// A long output is cut to the characters that fit, and a note says how many bytes are missing; a short one is
/// shown as it is.
pub proof fn law_output_cut(s: Seq<char>, max: nat)
    ensures
        byte_len(s) <= max ==> truncated(s, max) == s,
        byte_len(s) > max ==> exists|k: int|
            0 <= k < s.len() && #[trigger] byte_len(s.take(k)) <= max && byte_len(s.take(k + 1)) > max
                && truncated(s, max) == s.take(k) + "\n... [truncated "@ + dec(byte_len(s.skip(k)))
                + " bytes]"@,
{
    if byte_len(s) > max {
        lemma_fit(s, max);
        let k = fit(s, max) as int;
        assert(s.take(s.len() as int) =~= s);
        lemma_byte_len_concat(s.take(k), s.skip(k));
        assert(s.take(k) + s.skip(k) =~= s);
        assert(byte_len(s.take(k)) <= max);
    }
}

} // verus!
