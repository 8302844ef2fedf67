//! `bash`: running shell commands.

use super::args::{arg_str, arg_u64_opt, missing_arg, truncate, truncated, ToolResult};
use crate::bytes::{byte_len, fit, lemma_byte_len_concat, lemma_byte_len_most, lemma_fit};
use crate::json::{text_member, uint_member, Json};
use crate::number::{dec, int_string, int_text, push_dec};
use crate::split::{trim, trim_str};
use crate::text::{
    chars_of, contains, ends_with, has_prefix, has_suffix, has_text, law_affixes, lower_str, lower_text,
    starts_with, string_of,
};
use vstd::prelude::*;
use vstd::slice::slice_subrange;

verus! {

/// The tool that runs shell commands.
#[derive(Debug)]
pub struct Bash;

/// How many bytes of output are kept.
pub const MAX_OUTPUT: usize = 30000;

/// How many seconds a command may take where the call does not say.
pub const DEFAULT_TIMEOUT_SECS: u64 = 120;

/// What is said of a command that looks dangerous.
pub open spec fn danger(cmd: Seq<char>) -> Option<Seq<char>> {
    let l = lower_text(trim(cmd));
    if (contains(l, "rm -rf"@) || contains(l, "rm -fr"@)) && (contains(l, " /"@) || contains(
        l,
        " ~"@,
    ) || contains(l, " *"@) || contains(l, " .git"@)) {
        Some(
            "detected `rm -rf` against a sensitive target — double-check before relying on the result"@,
        )
    } else if contains(l, "dd "@) && contains(l, "of=/dev/"@) {
        Some("`dd` writing to a /dev/* device is destructive and irreversible"@)
    } else if (starts_with(l, "mkfs"@) || contains(l, " mkfs"@)) && contains(l, "/dev/"@) {
        Some("`mkfs` formats a block device — irreversible"@)
    } else if starts_with(l, "shutdown"@) || starts_with(l, "reboot"@) || starts_with(l, "halt"@) {
        Some("system power command — proceeding will affect the host machine"@)
    } else {
        None
    }
}

/// What is said of a command that looks dangerous.
pub fn sniff_dangerous(cmd: &str) -> (r: Option<&'static str>)
    ensures
        match r {
            Some(w) => danger(cmd@) == Some(w@),
            None => danger(cmd@) is None,
        },
{
    let low = lower_str(trim_str(cmd).as_str());
    let l = low.as_str();
    if (has_text(l, "rm -rf") || has_text(l, "rm -fr")) && (has_text(l, " /") || has_text(l, " ~")
        || has_text(l, " *") || has_text(l, " .git")) {
        return Some(
            "detected `rm -rf` against a sensitive target — double-check before relying on the result",
        );
    }
    if has_text(l, "dd ") && has_text(l, "of=/dev/") {
        return Some("`dd` writing to a /dev/* device is destructive and irreversible");
    }
    if (has_prefix(l, "mkfs") || has_text(l, " mkfs")) && has_text(l, "/dev/") {
        return Some("`mkfs` formats a block device — irreversible");
    }
    if has_prefix(l, "shutdown") || has_prefix(l, "reboot") || has_prefix(l, "halt") {
        return Some("system power command — proceeding will affect the host machine");
    }
    None
}

/// What a call asks to run.
#[derive(Debug)]
pub struct BashPlan {
    pub command: String,
    pub timeout_secs: u64,
}

impl Bash {
    /// What a call asks to run, or the answer where it names no command.
    pub fn plan(args: &Json) -> (r: Result<BashPlan, ToolResult>)
        ensures
            match r {
                Ok(p) => {
                    &&& text_member(args@, "command"@) == Some(p.command@)
                    &&& p.timeout_secs == match uint_member(args@, "timeout_secs"@) {
                        Some(t) => t,
                        None => DEFAULT_TIMEOUT_SECS,
                    }
                },
                Err(e) => text_member(args@, "command"@) is None && !e.ok && e.content@ == missing_arg(
                    "command"@,
                ),
            },
    {
        match arg_str(args, "command") {
            Ok(command) => {
                let timeout_secs: u64 = match arg_u64_opt(args, "timeout_secs") {
                    Some(t) => t,
                    None => DEFAULT_TIMEOUT_SECS,
                };
                Ok(BashPlan { command, timeout_secs })
            },
            Err(e) => Err(e),
        }
    }
}

/// How a command ended.
#[derive(Debug)]
pub enum BashEnd {
    /// It came to its end.
    Exited { code: i32, success: bool, stdout: String, stderr: String },
    /// It could not be started.
    NotSpawned { error: String },
    /// It was lost on the way.
    Failed { error: String },
    /// It took too long and was killed.
    TimedOut,
}

/// The output, and the error output under its own heading.
pub open spec fn outputs(stdout: Seq<char>, stderr: Seq<char>) -> Seq<char> {
    if stderr.len() == 0 {
        stdout
    } else if stdout.len() > 0 && !ends_with(stdout, "\n"@) {
        stdout + "\n"@ + "[stderr]\n"@ + stderr
    } else {
        stdout + "[stderr]\n"@ + stderr
    }
}

/// The first line of the report on a dangerous command; nothing for another one.
pub open spec fn warning_line(command: Seq<char>) -> Seq<char> {
    match danger(command) {
        Some(w) => "[warning] "@ + w + "\n"@,
        None => Seq::empty(),
    }
}

/// What is shown of a command that ended: the warning and the outputs, cut to the limit together, or a
/// remark where there is neither.
pub open spec fn body_of(command: Seq<char>, stdout: Seq<char>, stderr: Seq<char>) -> Seq<char> {
    let all = warning_line(command) + outputs(stdout, stderr);
    if all.len() == 0 {
        "(no output)"@
    } else {
        truncated(all, MAX_OUTPUT as nat)
    }
}

/// What the tool answers: the warning stays the first line, then comes how the command ended, then the
/// rest. A command that fails is a failure with the same report.
pub open spec fn bash_answer(command: Seq<char>, timeout: u64, end: BashEnd) -> (bool, Seq<char>) {
    match end {
        BashEnd::Exited { code, success, stdout, stderr } => (
            success,
            warning_line(command) + "exit_code="@ + int_text(code as int) + "\n"@ + body_of(
                command,
                stdout@,
                stderr@,
            ).skip(warning_line(command).len() as int),
        ),
        BashEnd::NotSpawned { error } => (false, "failed to spawn command: "@ + error@),
        BashEnd::Failed { error } => (false, "command execution error: "@ + error@),
        BashEnd::TimedOut => (
            false,
            "command timed out after "@ + dec(timeout as nat) + "s (process tree killed)"@,
        ),
    }
}

proof fn lemma_warning_short(command: Seq<char>)
    ensures
        byte_len(warning_line(command)) <= 1000,
{
    let w = warning_line(command);
    reveal_strlit("[warning] ");
    reveal_strlit("\n");
    reveal_strlit("detected `rm -rf` against a sensitive target — double-check before relying on the result");
    reveal_strlit("`dd` writing to a /dev/* device is destructive and irreversible");
    reveal_strlit("`mkfs` formats a block device — irreversible");
    reveal_strlit("system power command — proceeding will affect the host machine");
    assert(w.len() <= 200);
    lemma_byte_len_most(w);
}

/// The warning is never cut: what is shown begins with it, whatever the command prints.
pub proof fn law_warning_kept(command: Seq<char>, stdout: Seq<char>, stderr: Seq<char>)
    ensures
        starts_with(body_of(command, stdout, stderr), warning_line(command)),
{
    let w = warning_line(command);
    let all = w + outputs(stdout, stderr);
    let max = MAX_OUTPUT as nat;
    let body = body_of(command, stdout, stderr);
    if all.len() == 0 {
        assert(w.len() == 0);
        assert(body.subrange(0, 0) =~= w);
    } else {
        let k = fit(all, max) as int;
        lemma_fit(all, max);
        if k < w.len() {
            let front = all.take(k + 1);
            lemma_warning_short(command);
            lemma_byte_len_concat(front, w.skip(k + 1));
            assert(front + w.skip(k + 1) =~= w);
        }
        assert(body.subrange(0, w.len() as int) =~= w);
    }
}

fn body_text(command: &str, warning: &str, stdout: &str, stderr: &str) -> (r: String)
    requires
        warning@ == warning_line(command@),
    ensures
        r@ == body_of(command@, stdout@, stderr@),
{
    let mut out = stdout.to_owned();
    if !stderr.is_empty() {
        if !out.as_str().is_empty() && !has_suffix(out.as_str(), "\n") {
            out.append("\n");
        }
        out.append("[stderr]\n");
        out.append(stderr);
    }
    assert(out@ == outputs(stdout@, stderr@));
    let all = warning.to_owned().concat(out.as_str());
    if all.as_str().is_empty() {
        return "(no output)".to_owned();
    }
    truncate(all.as_str(), MAX_OUTPUT)
}

impl Bash {
    /// What the tool answers.
    pub fn answer(p: &BashPlan, end: &BashEnd) -> (r: ToolResult)
        ensures
            (r.ok, r.content@) == bash_answer(p.command@, p.timeout_secs, *end),
    {
        match end {
            BashEnd::Exited { code, success, stdout, stderr } => {
                let mut report = String::new();
                match sniff_dangerous(p.command.as_str()) {
                    Some(w) => {
                        report.append("[warning] ");
                        report.append(w);
                        report.append("\n");
                    },
                    None => {},
                }
                assert(report@ =~= warning_line(p.command@));
                let body = chars_of(
                    body_text(
                        p.command.as_str(),
                        report.as_str(),
                        stdout.as_str(),
                        stderr.as_str(),
                    ).as_str(),
                );
                let start: usize = chars_of(report.as_str()).len();
                proof {
                    law_warning_kept(p.command@, stdout@, stderr@);
                }
                let rest = string_of(slice_subrange(body.as_slice(), start, body.len()));
                assert(rest@ =~= body@.skip(start as int));
                report.append("exit_code=");
                report.append(int_string(*code).as_str());
                report.append("\n");
                report.append(rest.as_str());
                if *success {
                    ToolResult::ok(report)
                } else {
                    ToolResult::err(report)
                }
            },
            BashEnd::NotSpawned { error } => ToolResult::err(
                "failed to spawn command: ".to_owned().concat(error.as_str()),
            ),
            BashEnd::Failed { error } => ToolResult::err(
                "command execution error: ".to_owned().concat(error.as_str()),
            ),
            BashEnd::TimedOut => {
                let mut s = "command timed out after ".to_owned();
                push_dec(&mut s, p.timeout_secs);
                s.append("s (process tree killed)");
                ToolResult::err(s)
            },
        }
    }
}

/// A command is warned of exactly where it deletes by force what should stay, writes over a device, formats one or
/// turns the machine off; the cases of the letters and white space around the command make no difference.
pub proof fn law_commands_warned_of(cmd: Seq<char>)
    ensures
        ({
            let l = lower_text(trim(cmd));
            let deletes = (contains(l, "rm -rf"@) || contains(l, "rm -fr"@)) && (contains(l, " /"@)
                || contains(l, " ~"@) || contains(l, " *"@) || contains(l, " .git"@));
            let writes = contains(l, "dd "@) && contains(l, "of=/dev/"@);
            let formats = (starts_with(l, "mkfs"@) || contains(l, " mkfs"@)) && contains(l, "/dev/"@);
            let stops = starts_with(l, "shutdown"@) || starts_with(l, "reboot"@) || starts_with(
                l,
                "halt"@,
            );
            &&& danger(cmd) is None <==> !deletes && !writes && !formats && !stops
            &&& warning_line(cmd).len() == 0 <==> danger(cmd) is None
            &&& deletes ==> warning_line(cmd)
                == "[warning] "@ + "detected `rm -rf` against a sensitive target — double-check before relying on the result"@
                + "\n"@
            &&& !deletes && writes ==> warning_line(cmd) == "[warning] "@
                + "`dd` writing to a /dev/* device is destructive and irreversible"@ + "\n"@
            &&& !deletes && !writes && formats ==> warning_line(cmd) == "[warning] "@
                + "`mkfs` formats a block device — irreversible"@ + "\n"@
            &&& !deletes && !writes && !formats && stops ==> warning_line(cmd) == "[warning] "@
                + "system power command — proceeding will affect the host machine"@ + "\n"@
        }),
{
    reveal_strlit("\n");
}

/// What a command prints is shown whole up to the limit: first what it printed, then, on a line of its own and
/// marked, what it printed as errors; what the warning says stands before both.
pub proof fn law_output_shown(command: Seq<char>, stdout: Seq<char>, stderr: Seq<char>)
    ensures
        outputs(stdout, Seq::empty()) == stdout,
        stderr.len() > 0 ==> outputs(Seq::empty(), stderr) == "[stderr]\n"@ + stderr,
        stderr.len() > 0 ==> outputs(stdout.push('\n'), stderr) == stdout.push('\n') + "[stderr]\n"@
            + stderr,
        stderr.len() > 0 && stdout.len() > 0 && stdout.last() != '\n' ==> outputs(stdout, stderr) == stdout
            + seq!['\n'] + "[stderr]\n"@ + stderr,
        ({
            let all = warning_line(command) + outputs(stdout, stderr);
            &&& all.len() == 0 ==> body_of(command, stdout, stderr) == "(no output)"@
            &&& all.len() > 0 ==> body_of(command, stdout, stderr) == truncated(all, 30000)
        }),
{
    reveal_strlit("\n");
    assert("\n"@ =~= seq!['\n']);
    law_affixes(Seq::empty(), "\n"@, Seq::empty(), stdout);
    let t = stdout.push('\n');
    assert(ends_with(t, "\n"@)) by {
        assert(t.subrange(t.len() - 1, t.len() as int) =~= seq!['\n']);
    }
    if stdout.len() > 0 && stdout.last() != '\n' {
        assert(!ends_with(stdout, "\n"@)) by {
            if ends_with(stdout, "\n"@) {
                let u = stdout.subrange(stdout.len() - 1, stdout.len() as int);
                assert(u[0] == stdout.last());
            }
        }
    }
    assert(Seq::<char>::empty() + "[stderr]\n"@ =~= "[stderr]\n"@);
}

/// The answer to a command that ended gives its exit code on a line after the warning and then what it printed; it
/// is a success exactly where the command was one. A command that did not end is no success and says why.
pub proof fn law_command_answered(
    command: Seq<char>,
    timeout: u64,
    code: i32,
    success: bool,
    stdout: String,
    stderr: String,
    error: String,
)
    ensures
        bash_answer(command, timeout, BashEnd::Exited { code, success, stdout, stderr }).0 == success,
        danger(command) is None ==> bash_answer(
            command,
            timeout,
            BashEnd::Exited { code, success, stdout, stderr },
        ).1 == "exit_code="@ + int_text(code as int) + "\n"@ + body_of(command, stdout@, stderr@),
        danger(command) is Some && byte_len(warning_line(command) + outputs(stdout@, stderr@)) <= 30000
            ==> bash_answer(command, timeout, BashEnd::Exited { code, success, stdout, stderr }).1
            == warning_line(command) + "exit_code="@ + int_text(code as int) + "\n"@ + outputs(
            stdout@,
            stderr@,
        ),
        bash_answer(command, timeout, BashEnd::NotSpawned { error }) == (
            false,
            "failed to spawn command: "@ + error@,
        ),
        bash_answer(command, timeout, BashEnd::Failed { error }) == (
            false,
            "command execution error: "@ + error@,
        ),
        bash_answer(command, timeout, BashEnd::TimedOut) == (
            false,
            "command timed out after "@ + dec(timeout as nat) + "s (process tree killed)"@,
        ),
{
    let b = body_of(command, stdout@, stderr@);
    let w = warning_line(command);
    if danger(command) is None {
        assert(b.skip(0) =~= b);
        assert(w + "exit_code="@ =~= "exit_code="@);
    } else {
        law_commands_warned_of(command);
        let all = w + outputs(stdout@, stderr@);
        if byte_len(all) <= 30000 {
            assert(all.skip(w.len() as int) =~= outputs(stdout@, stderr@));
        }
    }
}

} // verus!
