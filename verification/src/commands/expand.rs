//! From a command to a prompt: files are brought in, then the outputs of shell commands, then the
//! arguments.

use super::registry::SlashCommand;
use crate::number::{digit};
use crate::split::{
    is_space, law_words, lemma_pos_from, lemma_space_from, pos, pos_at, replace_all, replace_chars, space, space_from, split_words, trim,
    trim_end, trim_end_str, trim_str, words,
};
use crate::text::{
    chars_of, contains, find, find_at, has_chars, lemma_find_from, lemma_found_in_front, occurs_at,
    push_chars, string_of, texts,
};
use vstd::prelude::*;
use vstd::slice::slice_subrange;

verus! {

// ---------------------------------------------------------------------------------------------
// Files
// ---------------------------------------------------------------------------------------------

/// A file is referred to at position `i`: an `@` at the front or after white space, with a name
/// behind it.
pub open spec fn is_file_ref(s: Seq<char>, i: int) -> bool {
    0 <= i < s.len() && s[i] == '@' && (i == 0 || is_space(s[i - 1])) && space_from(s, i + 1) > i
        + 1
}

/// The names of the files that are referred to from position `i` on.
pub open spec fn refs_from(s: Seq<char>, i: int) -> Seq<Seq<char>>
    decreases s.len() - i,
{
    if i < 0 || i >= s.len() {
        Seq::empty()
    } else if is_file_ref(s, i) {
        let e = space_from(s, i + 1);
        proof {
            lemma_space_from(s, i + 1);
        }
        seq![s.subrange(i + 1, e)] + refs_from(s, e)
    } else {
        refs_from(s, i + 1)
    }
}

/// A file that is brought in.
pub open spec fn file_block(name: Seq<char>, content: Seq<char>) -> Seq<char> {
    "\n--- "@ + name + " ---\n"@ + content + "\n--- end "@ + name + " ---\n"@
}

/// The text from position `i` on with the contents of the files in the place of their names.
/// `contents` are those of the files, in order, from the `k`-th on; a file that cannot be read leaves
/// its name.
pub open spec fn files_in(s: Seq<char>, i: int, contents: Seq<Option<String>>, k: int) -> Seq<char>
    decreases s.len() - i,
{
    if i < 0 || i >= s.len() {
        Seq::empty()
    } else if is_file_ref(s, i) {
        let e = space_from(s, i + 1);
        proof {
            lemma_space_from(s, i + 1);
        }
        let name = s.subrange(i + 1, e);
        let here = if 0 <= k < contents.len() && contents[k] is Some {
            file_block(name, contents[k]->0@)
        } else {
            s.subrange(i, e)
        };
        here + files_in(s, e, contents, k + 1)
    } else {
        seq![s[i]] + files_in(s, i + 1, contents, k)
    }
}

fn name_end(s: &[char], i: usize) -> (r: usize)
    requires
        i <= s@.len(),
    ensures
        r == space_from(s@, i as int),
        i <= r <= s@.len(),
{
    let mut j: usize = i;
    while j < s.len() && !space(s[j])
        invariant
            i <= j <= s@.len(),
            space_from(s@, i as int) == space_from(s@, j as int),
        decreases s@.len() - j,
    {
        j += 1;
    }
    j
}

/// The names of the files that a text refers to, in order.
pub fn file_refs(body: &str) -> (r: Vec<String>)
    ensures
        texts(r@) == refs_from(body@, 0),
{
    let v = chars_of(body);
    let s = v.as_slice();
    let mut out: Vec<String> = Vec::new();
    let mut i: usize = 0;
    assert(texts(out@) + refs_from(body@, 0) =~= refs_from(body@, 0));
    while i < s.len()
        invariant
            s@ == body@,
            i <= s@.len(),
            texts(out@) + refs_from(body@, i as int) == refs_from(body@, 0),
        decreases s@.len() - i,
    {
        let e: usize = name_end(s, i + 1);
        let ghost done = texts(out@);
        if s[i] == '@' && (i == 0 || space(s[i - 1])) && e > i + 1 {
            let name = string_of(slice_subrange(s, i + 1, e));
            let ghost nv = name@;
            out.push(name);
            assert(texts(out@) =~= done.push(nv));
            assert(texts(out@) + refs_from(body@, e as int) =~= done + (seq![nv] + refs_from(
                body@,
                e as int,
            )));
            i = e;
        } else {
            i += 1;
        }
    }
    assert(texts(out@) + refs_from(body@, i as int) =~= texts(out@));
    out
}

/// The text with the contents of the files in the place of their names; `contents` are those of
/// `file_refs`, in order.
pub fn inject_files(body: &str, contents: &Vec<Option<String>>) -> (r: String)
    ensures
        r@ == files_in(body@, 0, contents@, 0),
{
    let v = chars_of(body);
    let s = v.as_slice();
    let mut out = String::new();
    let mut i: usize = 0;
    let mut k: usize = 0;
    assert(out@ + files_in(body@, 0, contents@, 0) =~= files_in(body@, 0, contents@, 0));
    while i < s.len()
        invariant
            s@ == body@,
            i <= s@.len(),
            k <= i,
            out@ + files_in(body@, i as int, contents@, k as int) == files_in(
                body@,
                0,
                contents@,
                0,
            ),
        decreases s@.len() - i,
    {
        let e: usize = name_end(s, i + 1);
        let ghost done = out@;
        if s[i] == '@' && (i == 0 || space(s[i - 1])) && e > i + 1 {
            let name = string_of(slice_subrange(s, i + 1, e));
            let mut here = String::new();
            if k < contents.len() && contents[k].is_some() {
                match &contents[k] {
                    Some(c) => {
                        here.append("\n--- ");
                        here.append(name.as_str());
                        here.append(" ---\n");
                        here.append(c.as_str());
                        here.append("\n--- end ");
                        here.append(name.as_str());
                        here.append(" ---\n");
                        assert(here@ =~= file_block(name@, c@));
                    },
                    None => {},
                }
            } else {
                here = string_of(slice_subrange(s, i, e));
            }
            out.append(here.as_str());
            assert(out@ + files_in(body@, e as int, contents@, k + 1) =~= done + (here@
                + files_in(body@, e as int, contents@, k + 1)));
            i = e;
            k += 1;
        } else {
            out.push(s[i]);
            assert(out@ + files_in(body@, i + 1, contents@, k as int) =~= done + (seq![
                body@[i as int],
            ] + files_in(body@, i + 1, contents@, k as int)));
            i += 1;
        }
    }
    assert(out@ + files_in(body@, i as int, contents@, k as int) =~= out@);
    out
}

// ---------------------------------------------------------------------------------------------
// Shell commands
// ---------------------------------------------------------------------------------------------

/// How a shell command ended.
#[derive(Debug)]
pub enum ShellEnd {
    /// It succeeded, with this output.
    Done { stdout: String },
    /// It failed, with this error output.
    Failed { stderr: String },
    /// It could not be run.
    Broken { error: String },
}

/// What a shell command puts in its place.
pub open spec fn shell_text(e: ShellEnd) -> Seq<char> {
    match e {
        ShellEnd::Done { stdout } => trim_end(stdout@),
        ShellEnd::Failed { stderr } => "[cmd failed: "@ + trim(stderr@) + "]"@,
        ShellEnd::Broken { error } => "[cmd error: "@ + error@ + "]"@,
    }
}

/// What a shell command puts in its place.
pub fn shell_replacement(e: &ShellEnd) -> (r: String)
    ensures
        r@ == shell_text(*e),
{
    match e {
        ShellEnd::Done { stdout } => trim_end_str(stdout.as_str()),
        ShellEnd::Failed { stderr } => {
            let mut s = "[cmd failed: ".to_owned();
            s.append(trim_str(stderr.as_str()).as_str());
            s.append("]");
            s
        },
        ShellEnd::Broken { error } => {
            let mut s = "[cmd error: ".to_owned();
            s.append(error.as_str());
            s.append("]");
            s
        },
    }
}

/// The mark that opens a shell command.
pub open spec fn shell_mark() -> Seq<char> {
    seq!['!', '`']
}

/// The position of the first shell command in `s`, with the end of it; nothing where there is none
/// that is closed.
pub open spec fn first_shell(s: Seq<char>) -> Option<(int, int)> {
    match find(s, shell_mark()) {
        Some(k) => {
            let end = pos(s.skip(k + 2), '`');
            if 0 <= k && k + 2 <= s.len() && 0 <= end < s.skip(k + 2).len() {
                Some((k, end))
            } else {
                None
            }
        },
        None => None,
    }
}

/// The shell commands in `s`, in order.
pub open spec fn shell_cmds(s: Seq<char>) -> Seq<Seq<char>>
    decreases s.len(),
{
    match first_shell(s) {
        None => Seq::empty(),
        Some((k, end)) => {
            let after = s.skip(k + 2);
            if k < 0 || k + 2 > s.len() || end < 0 || end >= after.len() {
                Seq::empty()
            } else {
                seq![after.take(end)] + shell_cmds(after.skip(end + 1))
            }
        },
    }
}

/// `s` with the outputs in the place of its shell commands, in order, from the `n`-th output on. A
/// command that is not closed is left.
pub open spec fn shell_in(s: Seq<char>, outs: Seq<Seq<char>>, n: int) -> Seq<char>
    decreases s.len(),
{
    match first_shell(s) {
        None => s,
        Some((k, end)) => {
            let after = s.skip(k + 2);
            if k < 0 || k + 2 > s.len() || end < 0 || end >= after.len() {
                s
            } else {
                s.take(k) + (if 0 <= n < outs.len() {
                    outs[n]
                } else {
                    Seq::empty()
                }) + shell_in(after.skip(end + 1), outs, n + 1)
            }
        },
    }
}

fn find_shell(s: &[char]) -> (r: Option<(usize, usize)>)
    ensures
        match r {
            Some((k, end)) => first_shell(s@) == Some((k as int, end as int)) && k + 2 + end
                < s@.len(),
            None => first_shell(s@) is None,
        },
{
    let mark: Vec<char> = vec!['!', '`'];
    assert(mark@ =~= shell_mark());
    let n: usize = s.len();
    match find_at(s, mark.as_slice(), 0) {
        None => None,
        Some(k) => {
            assert(mark@.len() == 2);
            let after = slice_subrange(s, k + 2, n);
            assert(after@ =~= s@.skip(k + 2));
            let end = pos_at(after, '`', 0);
            if end < after.len() {
                Some((k, end))
            } else {
                None
            }
        },
    }
}

/// The shell commands in a text, in order.
pub fn shell_commands(body: &str) -> (r: Vec<String>)
    ensures
        texts(r@) == shell_cmds(body@),
{
    let v = chars_of(body);
    let mut rest = v.as_slice();
    let mut out: Vec<String> = Vec::new();
    assert(texts(out@) + shell_cmds(rest@) =~= shell_cmds(body@));
    loop
        invariant
            texts(out@) + shell_cmds(rest@) == shell_cmds(body@),
        decreases rest@.len(),
    {
        let len: usize = rest.len();
        match find_shell(rest) {
            None => {
                assert(texts(out@) + shell_cmds(rest@) =~= texts(out@));
                return out;
            },
            Some((k, end)) => {
                let ghost done = texts(out@);
                let ghost after = rest@.skip(k + 2);
                let cmd = string_of(slice_subrange(rest, k + 2, k + 2 + end));
                assert(cmd@ =~= after.take(end as int));
                let ghost cv = cmd@;
                out.push(cmd);
                assert(texts(out@) =~= done.push(cv));
                let next = slice_subrange(rest, k + 3 + end, len);
                assert(next@ =~= after.skip(end + 1));
                assert(texts(out@) + shell_cmds(next@) =~= done + (seq![cv] + shell_cmds(next@)));
                rest = next;
            },
        }
    }
}

/// The text with the outputs in the place of its shell commands; `outputs` are those of
/// `shell_commands`, in order.
pub fn inject_shell(body: &str, outputs: &Vec<String>) -> (r: String)
    ensures
        r@ == shell_in(body@, texts(outputs@), 0),
{
    let v = chars_of(body);
    let mut rest = v.as_slice();
    let ghost outs = texts(outputs@);
    let mut out: Vec<char> = Vec::new();
    let mut n: usize = 0;
    let total: usize = v.len();
    assert(out@ + shell_in(rest@, outs, 0) =~= shell_in(body@, outs, 0));
    loop
        invariant
            outs == texts(outputs@),
            total == body@.len(),
            n + rest@.len() <= total,
            out@ + shell_in(rest@, outs, n as int) == shell_in(body@, outs, 0),
        decreases rest@.len(),
    {
        let ghost done = out@;
        let len: usize = rest.len();
        match find_shell(rest) {
            None => {
                push_chars(&mut out, rest);
                return string_of(out.as_slice());
            },
            Some((k, end)) => {
                let ghost after = rest@.skip(k + 2);
                push_chars(&mut out, slice_subrange(rest, 0, k));
                assert(rest@.subrange(0, k as int) =~= rest@.take(k as int));
                let ghost mut piece: Seq<char> = Seq::empty();
                if n < outputs.len() {
                    assert(outs[n as int] == outputs@[n as int]@);
                    let o = chars_of(outputs[n].as_str());
                    push_chars(&mut out, o.as_slice());
                    proof {
                        piece = o@;
                    }
                }
                assert(out@ =~= done + rest@.take(k as int) + piece);
                let next = slice_subrange(rest, k + 3 + end, len);
                assert(next@ =~= after.skip(end + 1));
                assert(out@ + shell_in(next@, outs, n + 1) =~= done + (rest@.take(k as int) + piece
                    + shell_in(next@, outs, n + 1)));
                rest = next;
                n += 1;
            },
        }
    }
}

// ---------------------------------------------------------------------------------------------
// Arguments
// ---------------------------------------------------------------------------------------------

/// The placeholder of the `i`-th argument.
pub open spec fn placeholder(i: int) -> Seq<char> {
    seq!['$', digit(i as nat)]
}

/// The `i`-th word, counted from 1; nothing where there is none.
pub open spec fn nth_word(ws: Seq<Seq<char>>, i: int) -> Seq<char> {
    if 1 <= i <= ws.len() {
        ws[i - 1]
    } else {
        Seq::empty()
    }
}

/// `s` with the placeholders of the first `n` arguments filled in, one after the other.
pub open spec fn positional(s: Seq<char>, ws: Seq<Seq<char>>, n: int) -> Seq<char>
    decreases n,
{
    if n <= 0 {
        s
    } else {
        replace_all(positional(s, ws, n - 1), placeholder(n), nth_word(ws, n))
    }
}

/// The text has the placeholder of an argument.
pub open spec fn has_numbered(s: Seq<char>) -> bool {
    exists|i: int| 1 <= i <= 9 && contains(s, #[trigger] placeholder(i))
}

/// The prompt of a command with the arguments: all of them in the place of `$ARGUMENTS`, each in the
/// place of its number; where the prompt has no place for arguments, they follow it.
pub open spec fn with_args(body: Seq<char>, raw_args: Seq<char>) -> Seq<char> {
    let args = trim(raw_args);
    let filled = positional(replace_all(body, "$ARGUMENTS"@, args), words(args), 9);
    if !contains(body, "$ARGUMENTS"@) && !has_numbered(body) && args.len() > 0 {
        filled + "\n\n"@ + args
    } else {
        filled
    }
}

fn numbered_mark(i: u8) -> (r: Vec<char>)
    requires
        1 <= i <= 9,
    ensures
        r@ == placeholder(i as int),
{
    let d: u8 = 48u8 + i;
    let r: Vec<char> = vec!['$', d as char];
    assert(r@ =~= placeholder(i as int));
    r
}

/// Whether the text has the placeholder of an argument.
pub fn has_positional(body: &str) -> (r: bool)
    ensures
        r == has_numbered(body@),
{
    let s = chars_of(body);
    let mut i: u8 = 1;
    while i <= 9
        invariant
            1 <= i <= 10,
            s@ == body@,
            forall|j: int| 1 <= j < i ==> !contains(body@, #[trigger] placeholder(j)),
        decreases 10 - i,
    {
        let m = numbered_mark(i);
        if has_chars(s.as_slice(), m.as_slice()) {
            assert(contains(body@, placeholder(i as int)));
            return true;
        }
        i += 1;
    }
    false
}

/// The prompt with the arguments.
pub fn substitute_args(body: &str, raw_args: &str) -> (r: String)
    ensures
        r@ == with_args(body@, raw_args@),
{
    let args = trim_str(raw_args);
    let tokens = split_words(args.as_str());
    let ghost ws = texts(tokens@);
    let b = chars_of(body);
    let mark = chars_of("$ARGUMENTS");
    proof {
        reveal_strlit("$ARGUMENTS");
    }
    let a = chars_of(args.as_str());
    let has_all = has_chars(b.as_slice(), mark.as_slice());
    let has_place = has_all || has_positional(body);
    let mut out = replace_chars(b.as_slice(), mark.as_slice(), a.as_slice());
    let ghost start = out@;
    let mut i: u8 = 1;
    while i <= 9
        invariant
            1 <= i <= 10,
            ws == texts(tokens@),
            out@ == positional(start, ws, i - 1),
        decreases 10 - i,
    {
        let m = numbered_mark(i);
        let k: usize = (i - 1) as usize;
        let val: Vec<char> = if k < tokens.len() {
            assert(ws[k as int] == tokens@[k as int]@);
            chars_of(tokens[k].as_str())
        } else {
            Vec::new()
        };
        assert(val@ =~= nth_word(ws, i as int));
        out = replace_chars(out.as_slice(), m.as_slice(), val.as_slice());
        i += 1;
    }
    let mut r = string_of(out.as_slice());
    if !has_place && !args.as_str().is_empty() {
        r.append("\n\n");
        r.append(args.as_str());
    }
    r
}

/// The prompt that a command stands for: with the files that it refers to, then with the outputs of
/// the shell commands, then with the arguments.
pub open spec fn expanded(
    body: Seq<char>,
    raw_args: Seq<char>,
    files: Seq<Option<String>>,
    outputs: Seq<Seq<char>>,
) -> Seq<char> {
    with_args(shell_in(files_in(body, 0, files, 0), outputs, 0), raw_args)
}

/// The prompt that a command stands for. `files` are the contents of the files that its body refers
/// to, and `outputs` the outputs of the shell commands in the body with those files brought in.
pub fn expand(
    cmd: &SlashCommand,
    raw_args: &str,
    files: &Vec<Option<String>>,
    outputs: &Vec<String>,
) -> (r: String)
    ensures
        r@ == expanded(cmd@.body, raw_args@, files@, texts(outputs@)),
{
    let a = inject_files(cmd.body.as_str(), files);
    let b = inject_shell(a.as_str(), outputs);
    substitute_args(b.as_str(), raw_args)
}

/// A text that refers to no file is left as it is.
pub proof fn law_no_files(s: Seq<char>, i: int, contents: Seq<Option<String>>, k: int)
    requires
        0 <= i <= s.len(),
        refs_from(s, i).len() == 0,
    ensures
        files_in(s, i, contents, k) == s.skip(i),
    decreases s.len() - i,
{
    if i < s.len() {
        assert(!is_file_ref(s, i));
        law_no_files(s, i + 1, contents, k);
        assert(seq![s[i]] + s.skip(i + 1) =~= s.skip(i));
    } else {
        assert(s.skip(i) =~= Seq::<char>::empty());
    }
}

/// Files that cannot be read leave the text as it is.
pub proof fn law_unreadable_files(s: Seq<char>, i: int, contents: Seq<Option<String>>, k: int)
    requires
        0 <= i <= s.len(),
        forall|j: int| 0 <= j < contents.len() ==> #[trigger] contents[j] is None,
    ensures
        files_in(s, i, contents, k) == s.skip(i),
    decreases s.len() - i,
{
    if i < s.len() {
        if is_file_ref(s, i) {
            let e = space_from(s, i + 1);
            lemma_space_from(s, i + 1);
            law_unreadable_files(s, e, contents, k + 1);
            assert(s.subrange(i, e) + s.skip(e) =~= s.skip(i));
        } else {
            law_unreadable_files(s, i + 1, contents, k);
            assert(seq![s[i]] + s.skip(i + 1) =~= s.skip(i));
        }
    } else {
        assert(s.skip(i) =~= Seq::<char>::empty());
    }
}

/// A text without shell commands is left as it is.
pub proof fn law_no_shell(s: Seq<char>, outs: Seq<Seq<char>>, n: int)
    requires
        first_shell(s) is None,
    ensures
        shell_in(s, outs, n) == s,
        shell_cmds(s).len() == 0,
{
}

/// A prompt that is given no arguments and has no place for any is left as it is.
pub proof fn law_no_args_unchanged(body: Seq<char>, raw_args: Seq<char>)
    requires
        trim(raw_args).len() == 0,
        !contains(body, "$ARGUMENTS"@),
        !has_numbered(body),
    ensures
        with_args(body, raw_args) == body,
{
    let args = trim(raw_args);
    crate::text::lemma_find_from(body, "$ARGUMENTS"@, 0);
    assert(replace_all(body, "$ARGUMENTS"@, args) == body);
    lemma_positional_unchanged(body, words(args), 9);
}

proof fn lemma_positional_unchanged(s: Seq<char>, ws: Seq<Seq<char>>, n: int)
    requires
        0 <= n <= 9,
        !has_numbered(s),
    ensures
        positional(s, ws, n) == s,
    decreases n,
{
    if n > 0 {
        lemma_positional_unchanged(s, ws, n - 1);
        assert(!contains(s, placeholder(n)));
        crate::text::lemma_find_from(s, placeholder(n), 0);
    }
}

// ---------------------------------------------------------------------------------------------
// What an expansion does to a text
// ---------------------------------------------------------------------------------------------

/// Pieces of a text with something between each two of them.
pub open spec fn woven(pieces: Seq<Seq<char>>, between: Seq<Seq<char>>) -> Seq<char>
    decreases between.len(),
{
    if between.len() == 0 || pieces.len() == 0 {
        if pieces.len() == 0 {
            Seq::empty()
        } else {
            pieces[0]
        }
    } else {
        pieces[0] + between[0] + woven(pieces.skip(1), between.skip(1))
    }
}

/// The name that a word refers to.
pub open spec fn ref_of(w: Seq<char>) -> Seq<Seq<char>> {
    if w.len() > 1 && w[0] == '@' {
        seq![w.skip(1)]
    } else {
        Seq::empty()
    }
}

/// The names that words refer to.
pub open spec fn refs_of(ws: Seq<Seq<char>>) -> Seq<Seq<char>>
    decreases ws.len(),
{
    if ws.len() == 0 {
        Seq::empty()
    } else {
        ref_of(ws[0]) + refs_of(ws.skip(1))
    }
}

/// The files that a text refers to are its words that begin with `@` and go on, without the `@`, in their
/// order.
pub proof fn law_refs_are_words(s: Seq<char>)
    ensures
        refs_from(s, 0) == refs_of(words(s)),
{
    lemma_refs_at(s, 0);
    assert(s.skip(0) =~= s);
}

proof fn lemma_refs_at(s: Seq<char>, i: int)
    requires
        0 <= i <= s.len(),
        i == 0 || i == s.len() || is_space(s[i - 1]),
    ensures
        refs_from(s, i) == refs_of(words(s.skip(i))),
    decreases s.len() - i,
{
    let r = s.skip(i);
    if i == s.len() {
        assert(r =~= Seq::<char>::empty());
        law_words(r, ' ', r);
        assert(words(r) =~= Seq::<Seq<char>>::empty());
    } else if is_space(s[i]) {
        assert(r =~= Seq::<char>::empty() + seq![s[i]] + s.skip(i + 1));
        law_words(Seq::empty(), s[i], s.skip(i + 1));
        assert(words(r) =~= words(s.skip(i + 1)));
        assert(!is_file_ref(s, i));
        lemma_refs_at(s, i + 1);
    } else {
        lemma_space_here(s, i);
        let e = space_from(s, i);
        let w = s.subrange(i, e);
        assert forall|k: int| 0 <= k < w.len() implies !is_space(#[trigger] w[k]) by {
            assert(w[k] == s[i + k]);
        }
        law_words(w, ' ', Seq::empty());
        let after = if e < s.len() {
            s.skip(e + 1)
        } else {
            Seq::empty()
        };
        if e < s.len() {
            assert(r =~= w + seq![s[e]] + after);
            law_words(w, s[e], after);
        } else {
            assert(r =~= w);
            law_words(after, ' ', after);
            assert(words(after) =~= Seq::<Seq<char>>::empty());
        }
        assert(words(r) =~= seq![w] + words(after));
        assert((seq![w] + words(after)).skip(1) =~= words(after));
        assert(refs_of(words(r)) == ref_of(w) + refs_of(words(after)));
        if e < s.len() {
            assert(!is_file_ref(s, e));
            lemma_refs_at(s, e + 1);
            assert(refs_from(s, e) == refs_from(s, e + 1));
        }
        assert(refs_from(s, e) == refs_of(words(after)));
        lemma_space_here(s, i + 1);
        lemma_space_step(s, i);
        if is_file_ref(s, i) {
            assert(space_from(s, i + 1) == e);
            assert(s.subrange(i + 1, e) =~= w.skip(1));
            assert(w[0] == '@');
        } else {
            assert(ref_of(w) =~= Seq::<Seq<char>>::empty()) by {
                if w.len() > 1 && w[0] == '@' {
                    assert(w[0] == s[i]);
                }
            }
            lemma_refs_inside(s, i + 1, e);
            assert(refs_from(s, i) == refs_from(s, i + 1));
            assert(ref_of(w) + refs_of(words(after)) =~= refs_of(words(after)));
        }
    }
}

proof fn lemma_space_here(s: Seq<char>, from: int)
    requires
        0 <= from <= s.len(),
    ensures
        from <= space_from(s, from) <= s.len(),
        forall|j: int| from <= j < space_from(s, from) ==> !is_space(#[trigger] s[j]),
        space_from(s, from) < s.len() ==> is_space(s[space_from(s, from)]),
    decreases s.len() - from,
{
    if from < s.len() && !is_space(s[from]) {
        lemma_space_here(s, from + 1);
    }
}

proof fn lemma_space_step(s: Seq<char>, i: int)
    requires
        0 <= i < s.len(),
        !is_space(s[i]),
    ensures
        space_from(s, i) == space_from(s, i + 1),
{
}

proof fn lemma_refs_inside(s: Seq<char>, i: int, e: int)
    requires
        0 < i <= e <= s.len(),
        forall|j: int| i - 1 <= j < e ==> !is_space(#[trigger] s[j]),
    ensures
        refs_from(s, i) == refs_from(s, e),
    decreases e - i,
{
    if i < e {
        assert(!is_space(s[i - 1]));
        assert(!is_file_ref(s, i));
        lemma_refs_inside(s, i + 1, e);
    }
}

/// Every reference to a file gives way to a block with the file's own name and content, the first to the first
/// content, the second to the second, and so on; a reference without a content stays as it is, and so does all
/// the text between the references. The pieces of text between them are returned.
pub proof fn law_files_in_their_places(s: Seq<char>, contents: Seq<Option<String>>) -> (pieces: Seq<
    Seq<char>,
>)
    ensures
        ({
            let refs = refs_from(s, 0);
            &&& pieces.len() == refs.len() + 1
            &&& woven(pieces, refs.map_values(|n: Seq<char>| seq!['@'] + n)) == s
            &&& woven(
                pieces,
                Seq::new(
                    refs.len(),
                    |j: int|
                        if j < contents.len() && contents[j] is Some {
                            "\n--- "@ + refs[j] + " ---\n"@ + contents[j]->0@ + "\n--- end "@ + refs[j]
                                + " ---\n"@
                        } else {
                            seq!['@'] + refs[j]
                        },
                ),
            ) == files_in(s, 0, contents, 0)
        }),
{
    let pieces = lemma_files_at(s, 0, contents, 0);
    let refs = refs_from(s, 0);
    assert(s.skip(0) =~= s);
    assert(refs.map_values(|n: Seq<char>| seq!['@'] + n) =~= marks_of(refs));
    assert(Seq::new(
        refs.len(),
        |j: int|
            if j < contents.len() && contents[j] is Some {
                "\n--- "@ + refs[j] + " ---\n"@ + contents[j]->0@ + "\n--- end "@ + refs[j] + " ---\n"@
            } else {
                seq!['@'] + refs[j]
            },
    ) =~= blocks_of(refs, contents, 0));
    pieces
}

spec fn marks_of(refs: Seq<Seq<char>>) -> Seq<Seq<char>> {
    Seq::new(refs.len(), |j: int| seq!['@'] + refs[j])
}

spec fn blocks_of(refs: Seq<Seq<char>>, contents: Seq<Option<String>>, k: int) -> Seq<Seq<char>> {
    Seq::new(
        refs.len(),
        |j: int|
            if 0 <= k + j < contents.len() && contents[k + j] is Some {
                file_block(refs[j], contents[k + j]->0@)
            } else {
                seq!['@'] + refs[j]
            },
    )
}

proof fn lemma_files_at(s: Seq<char>, i: int, contents: Seq<Option<String>>, k: int) -> (pieces: Seq<
    Seq<char>,
>)
    requires
        0 <= i <= s.len(),
        0 <= k,
    ensures
        pieces.len() == refs_from(s, i).len() + 1,
        woven(pieces, marks_of(refs_from(s, i))) == s.skip(i),
        woven(pieces, blocks_of(refs_from(s, i), contents, k)) == files_in(s, i, contents, k),
    decreases s.len() - i,
{
    let refs = refs_from(s, i);
    if i == s.len() {
        assert(s.skip(i) =~= Seq::<char>::empty());
        seq![Seq::empty()]
    } else if is_file_ref(s, i) {
        lemma_space_here(s, i + 1);
        let e = space_from(s, i + 1);
        let tail = lemma_files_at(s, e, contents, k + 1);
        let rest = refs_from(s, e);
        let pieces = seq![Seq::<char>::empty()] + tail;
        assert(refs.skip(1) =~= rest);
        assert(pieces.skip(1) =~= tail);
        assert(marks_of(refs).skip(1) =~= marks_of(rest));
        assert(blocks_of(refs, contents, k).skip(1) =~= blocks_of(rest, contents, k + 1));
        assert(seq!['@'] + refs[0] =~= s.subrange(i, e));
        assert(s.skip(i) =~= s.subrange(i, e) + s.skip(e));
        assert(woven(pieces, marks_of(refs)) =~= s.skip(i));
        assert(woven(pieces, blocks_of(refs, contents, k)) =~= files_in(s, i, contents, k));
        pieces
    } else {
        let tail = lemma_files_at(s, i + 1, contents, k);
        let pieces = tail.update(0, seq![s[i]] + tail[0]);
        lemma_woven_first(tail, marks_of(refs), s[i]);
        lemma_woven_first(tail, blocks_of(refs, contents, k), s[i]);
        assert(s.skip(i) =~= seq![s[i]] + s.skip(i + 1));
        pieces
    }
}

proof fn lemma_woven_first(pieces: Seq<Seq<char>>, between: Seq<Seq<char>>, c: char)
    requires
        pieces.len() > 0,
    ensures
        woven(pieces.update(0, seq![c] + pieces[0]), between) == seq![c] + woven(pieces, between),
{
    let q = pieces.update(0, seq![c] + pieces[0]);
    assert(q.skip(1) =~= pieces.skip(1));
    assert(woven(q, between) =~= seq![c] + woven(pieces, between));
}

/// Every command in a text gives way to its own output, the first to the first and so on, and the text between
/// the commands stays. The commands are what stands between an exclamation mark with a backquote and the next
/// backquote, from the left; what is left over at the end holds no command. The pieces between them are
/// returned.
pub proof fn law_commands_in_their_places(s: Seq<char>, outs: Seq<Seq<char>>) -> (pieces: Seq<Seq<char>>)
    ensures
        ({
            let cmds = shell_cmds(s);
            &&& pieces.len() == cmds.len() + 1
            &&& woven(pieces, cmds.map_values(|c: Seq<char>| seq!['!', '`'] + c + seq!['`'])) == s
            &&& woven(
                pieces,
                Seq::new(
                    cmds.len(),
                    |j: int|
                        if j < outs.len() {
                            outs[j]
                        } else {
                            Seq::empty()
                        },
                ),
            ) == shell_in(s, outs, 0)
            &&& forall|j: int| 0 <= j < cmds.len() ==> !(#[trigger] cmds[j]).contains('`')
            &&& forall|j: int|
                0 <= j < cmds.len() ==> find((#[trigger] pieces[j]) + seq!['!', '`'], seq!['!', '`'])
                    == Some(pieces[j].len() as int)
            &&& forall|k: int, e: int|
                0 <= k && k + 2 <= e < pieces.last().len() && pieces.last()[k] == '!' && pieces.last()[k + 1]
                    == '`' ==> (#[trigger] pieces.last().subrange(k, e)).len() == 0 || pieces.last()[e] != '`'
        }),
{
    let cmds = shell_cmds(s);
    let pieces = lemma_shell_at(s, outs, 0);
    reveal(no_shell);
    assert(cmds.map_values(|c: Seq<char>| seq!['!', '`'] + c + seq!['`']) =~= calls_written(cmds));
    assert(Seq::new(
        cmds.len(),
        |j: int|
            if j < outs.len() {
                outs[j]
            } else {
                Seq::empty()
            },
    ) =~= outs_of(cmds.len(), outs, 0));
    pieces
}

spec fn calls_written(cmds: Seq<Seq<char>>) -> Seq<Seq<char>> {
    Seq::new(cmds.len(), |j: int| seq!['!', '`'] + cmds[j] + seq!['`'])
}

spec fn outs_of(len: nat, outs: Seq<Seq<char>>, n: int) -> Seq<Seq<char>> {
    Seq::new(
        len,
        |j: int|
            if 0 <= n + j < outs.len() {
                outs[n + j]
            } else {
                Seq::empty()
            },
    )
}

#[verifier::opaque]
spec fn no_shell(q: Seq<char>) -> bool {
    forall|k: int, e: int|
        0 <= k && k + 2 <= e < q.len() && q[k] == '!' && q[k + 1] == '`' ==> (#[trigger] q.subrange(
            k,
            e,
        )).len() == 0 || q[e] != '`'
}

proof fn lemma_no_shell(q: Seq<char>)
    requires
        first_shell(q) is None,
    ensures
        no_shell(q),
{
    reveal(no_shell);
    lemma_find_from(q, shell_mark(), 0);
    assert forall|k: int, e: int|
        0 <= k && k + 2 <= e < q.len() && q[k] == '!' && q[k + 1] == '`' implies (#[trigger] q.subrange(
        k,
        e,
    )).len() == 0 || q[e] != '`' by {
        assert(q.subrange(k, k + 2) =~= shell_mark());
        assert(occurs_at(q, shell_mark(), k));
        let f = find(q, shell_mark())->0;
        assert(f <= k);
        let after = q.skip(f + 2);
        lemma_pos_from(after, '`', 0);
        assert(after[e - f - 2] == q[e]);
    }
}

proof fn lemma_shell_at(s: Seq<char>, outs: Seq<Seq<char>>, n: int) -> (pieces: Seq<Seq<char>>)
    requires
        0 <= n,
    ensures
        pieces.len() == shell_cmds(s).len() + 1,
        woven(pieces, calls_written(shell_cmds(s))) == s,
        woven(pieces, outs_of(shell_cmds(s).len(), outs, n)) == shell_in(s, outs, n),
        forall|j: int| 0 <= j < shell_cmds(s).len() ==> !(#[trigger] shell_cmds(s)[j]).contains('`'),
        forall|j: int|
            0 <= j < shell_cmds(s).len() ==> find((#[trigger] pieces[j]) + shell_mark(), shell_mark())
                == Some(pieces[j].len() as int),
        no_shell(pieces.last()),
    decreases s.len(),
{
    let cmds = shell_cmds(s);
    match first_shell(s) {
        None => {
            lemma_no_shell(s);
            seq![s]
        },
        Some((k, end)) => {
            let mark = shell_mark();
            lemma_find_from(s, mark, 0);
            let after = s.skip(k + 2);
            lemma_pos_from(after, '`', 0);
            let rest = after.skip(end + 1);
            let c = after.take(end);
            let a = s.take(k);
            let tail = lemma_shell_at(rest, outs, n + 1);
            let pieces = seq![a] + tail;
            assert(cmds.skip(1) =~= shell_cmds(rest));
            assert(pieces.skip(1) =~= tail);
            assert(calls_written(cmds).skip(1) =~= calls_written(shell_cmds(rest)));
            assert(outs_of(cmds.len(), outs, n).skip(1) =~= outs_of(shell_cmds(rest).len(), outs, n + 1));
            assert(s.subrange(k, k + 2) == mark);
            assert(s =~= a + s.subrange(k, k + 2) + after);
            assert(after =~= c + seq!['`'] + rest);
            assert(s =~= a + (seq!['!', '`'] + c + seq!['`']) + rest);
            assert(woven(pieces, calls_written(cmds)) =~= s);
            assert(woven(pieces, outs_of(cmds.len(), outs, n)) =~= shell_in(s, outs, n));
            assert(!c.contains('`'));
            lemma_found_in_front(s, mark, k);
            assert forall|j: int| 0 <= j < cmds.len() implies !(#[trigger] cmds[j]).contains('`') by {
                if j > 0 {
                    assert(cmds[j] == shell_cmds(rest)[j - 1]);
                }
            }
            assert forall|j: int| 0 <= j < cmds.len() implies find((#[trigger] pieces[j]) + mark, mark)
                == Some(pieces[j].len() as int) by {
                if j > 0 {
                    assert(pieces[j] == tail[j - 1]);
                }
            }
            pieces
        },
    }
}

/// Arguments are put where the text asks for them. Where it asks for them nowhere they follow it after an empty
/// line, if there are any; otherwise nothing is added.
pub proof fn law_args_put(body: Seq<char>, raw_args: Seq<char>)
    ensures
        ({
            let args = trim(raw_args);
            let asked = contains(body, "$ARGUMENTS"@) || (exists|j: int|
                0 <= j < body.len() - 1 && #[trigger] body[j] == '$' && '1' <= body[j + 1] <= '9');
            let filled = positional(replace_all(body, "$ARGUMENTS"@, args), words(args), 9);
            &&& asked || args.len() == 0 ==> with_args(body, raw_args) == filled
            &&& !asked && args.len() > 0 ==> with_args(body, raw_args) == body + "\n\n"@ + args
        }),
{
    if has_numbered(body) {
        let i = choose|i: int| 1 <= i <= 9 && contains(body, #[trigger] placeholder(i));
        let j = choose|j: int| occurs_at(body, placeholder(i), j);
        assert(body.subrange(j, j + 2)[0] == body[j] && body.subrange(j, j + 2)[1] == body[j + 1]);
        assert(body[j] == '$');
    }
    if exists|j: int| 0 <= j < body.len() - 1 && #[trigger] body[j] == '$' && '1' <= body[j + 1] <= '9' {
        let j = choose|j: int|
            0 <= j < body.len() - 1 && #[trigger] body[j] == '$' && '1' <= body[j + 1] <= '9';
        let i = body[j + 1] as int - 48;
        assert(body.subrange(j, j + 2) =~= placeholder(i));
        assert(occurs_at(body, placeholder(i), j));
        assert(contains(body, placeholder(i)));
    }
    if !contains(body, "$ARGUMENTS"@) && !has_numbered(body) {
        lemma_find_from(body, "$ARGUMENTS"@, 0);
        lemma_not_numbered(body, words(trim(raw_args)), 9);
    }
}

proof fn lemma_not_numbered(s: Seq<char>, ws: Seq<Seq<char>>, n: int)
    requires
        0 <= n <= 9,
        !has_numbered(s),
    ensures
        positional(s, ws, n) == s,
    decreases n,
{
    if n > 0 {
        lemma_not_numbered(s, ws, n - 1);
        assert(!contains(s, placeholder(n)));
        lemma_find_from(s, placeholder(n), 0);
    }
}

/// Each numbered place takes the word with its number: the first place the first word, and so on; a place
/// beyond the words takes nothing.
pub proof fn law_words_in_their_places(k: int, ws: Seq<Seq<char>>)
    requires
        1 <= k <= 9,
        forall|i: int| 0 <= i < ws.len() ==> !(#[trigger] ws[i]).contains('$'),
    ensures
        positional(seq!['$', (48 + k) as char], ws, 9) == (if k <= ws.len() {
            ws[k - 1]
        } else {
            Seq::empty()
        }),
{
    let s = seq!['$', (48 + k) as char];
    let w = if k <= ws.len() {
        ws[k - 1]
    } else {
        Seq::<char>::empty()
    };
    assert(!w.contains('$'));
    lemma_place_before(s, k, ws, k - 1);
    lemma_place_at(s, k, ws);
    lemma_place_after(s, k, ws, 9);
}

proof fn lemma_place_before(s: Seq<char>, k: int, ws: Seq<Seq<char>>, n: int)
    requires
        1 <= k <= 9,
        0 <= n < k,
        s == seq!['$', (48 + k) as char],
    ensures
        positional(s, ws, n) == s,
    decreases n,
{
    if n > 0 {
        lemma_place_before(s, k, ws, n - 1);
        let p = placeholder(n);
        lemma_find_from(s, p, 0);
        if let Some(j) = find(s, p) {
            assert(s.subrange(j, j + 2)[1] == s[j + 1]);
            assert(p[1] == digit(n as nat));
        }
    }
}

proof fn lemma_place_at(s: Seq<char>, k: int, ws: Seq<Seq<char>>)
    requires
        1 <= k <= 9,
        s == seq!['$', (48 + k) as char],
        positional(s, ws, k - 1) == s,
    ensures
        positional(s, ws, k) == nth_word(ws, k),
{
    let p = placeholder(k);
    assert(p =~= s);
    assert(s.subrange(0, 2) =~= p);
    assert(occurs_at(s, p, 0));
    assert(find(s, p) == Some(0int));
    let rest = s.skip(2);
    assert(rest =~= Seq::<char>::empty());
    assert(find(rest, p) is None);
    assert(replace_all(rest, p, nth_word(ws, k)) =~= Seq::<char>::empty());
    assert(replace_all(s, p, nth_word(ws, k)) =~= nth_word(ws, k));
}

proof fn lemma_place_after(s: Seq<char>, k: int, ws: Seq<Seq<char>>, n: int)
    requires
        1 <= k <= n <= 9,
        positional(s, ws, k) == nth_word(ws, k),
        !nth_word(ws, k).contains('$'),
    ensures
        positional(s, ws, n) == nth_word(ws, k),
    decreases n,
{
    if n > k {
        lemma_place_after(s, k, ws, n - 1);
        let w = nth_word(ws, k);
        let p = placeholder(n);
        lemma_find_from(w, p, 0);
        if let Some(j) = find(w, p) {
            assert(w.subrange(j, j + 2)[0] == w[j]);
            assert(p[0] == '$');
            assert(w.contains('$'));
        }
    }
}

/// What a command leaves in the text: its output without the white space at its end, or why there is none.
pub proof fn law_command_output(e: ShellEnd)
    ensures
        e matches ShellEnd::Done { stdout } ==> shell_text(e) == trim_end(stdout@),
        e matches ShellEnd::Failed { stderr } ==> shell_text(e) == "[cmd failed: "@ + trim(stderr@) + "]"@,
        e matches ShellEnd::Broken { error } ==> shell_text(e) == "[cmd error: "@ + error@ + "]"@,
{
}

/// Files come first, then commands, then arguments: what a file or a command brings may ask for arguments, and
/// what the arguments bring is left alone.
pub proof fn law_expansion_order(
    body: Seq<char>,
    raw_args: Seq<char>,
    files: Seq<Option<String>>,
    outputs: Seq<Seq<char>>,
)
    ensures
        expanded(body, raw_args, files, outputs) == with_args(
            shell_in(files_in(body, 0, files, 0), outputs, 0),
            raw_args,
        ),
{
}

} // verus!
