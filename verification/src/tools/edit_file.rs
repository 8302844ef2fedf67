//! `edit_file`: replacing a piece of text in a file.

use super::args::{arg_bool, arg_str, missing_arg, ToolResult};
use crate::bytes::{byte_len, byte_length};
use crate::json::{bool_member, text_member, Json, JsonView};
use crate::number::{dec, dec_string, push_dec};
use crate::session::record::{first_chars, take_chars};
use crate::split::{
    count_chars, count_of, join, join_strings, law_replaced_everywhere, lines, replace_all, replace_chars,
    split_lines, trim,
    trim_str,
};
use crate::agent::ui::{first_line, first_line_of};
use crate::text::{
    chars_of, contains, debug_string, debug_text, find, find_at, lemma_find_from, occurs_at, push_chars,
    string_of, texts, texts_push,
};
use vstd::prelude::*;
use vstd::slice::slice_subrange;

verus! {

/// The tool that replaces a piece of text in a file.
#[derive(Debug)]
pub struct EditFile;

/// The number of line feeds in `s`.
pub open spec fn newlines(s: Seq<char>) -> nat
    decreases s.len(),
{
    if s.len() == 0 {
        0
    } else {
        newlines(s.drop_last()) + if s.last() == '\n' {
            1nat
        } else {
            0nat
        }
    }
}

/// The lines, counted from 1, on which the first `max` occurrences of `old` at or after `from` begin.
pub open spec fn match_lines(s: Seq<char>, old: Seq<char>, from: int, max: nat) -> Seq<nat>
    decreases max,
{
    if max == 0 {
        Seq::empty()
    } else {
        match find(s.skip(from), old) {
            None => Seq::empty(),
            Some(k) => seq![1 + newlines(s.take(from + k))] + match_lines(
                s,
                old,
                from + k + old.len(),
                (max - 1) as nat,
            ),
        }
    }
}

/// The numbers of a list.
pub open spec fn nats(v: Seq<usize>) -> Seq<nat> {
    v.map_values(|n: usize| n as nat)
}

fn count_newlines(s: &[char], upto: usize) -> (r: usize)
    requires
        upto <= s@.len(),
    ensures
        r == newlines(s@.take(upto as int)),
        r <= upto,
{
    let mut n: usize = 0;
    let mut i: usize = 0;
    while i < upto
        invariant
            i <= upto <= s@.len(),
            n <= i,
            n == newlines(s@.take(i as int)),
        decreases upto - i,
    {
        assert(s@.take(i + 1).drop_last() =~= s@.take(i as int));
        if s[i] == '\n' {
            n += 1;
        }
        i += 1;
    }
    n
}

/// The lines on which the first `max` occurrences of `old` begin.
pub fn first_match_lines(text: &str, old: &str, max: usize) -> (r: Vec<usize>)
    requires
        old@.len() > 0,
    ensures
        nats(r@) == match_lines(text@, old@, 0, max as nat),
{
    let a = chars_of(text);
    let s = a.as_slice();
    let b = chars_of(old);
    let o = b.as_slice();
    let mut out: Vec<usize> = Vec::new();
    let mut from: usize = 0;
    let total: usize = s.len();
    assert(nats(out@) + match_lines(text@, old@, 0, max as nat) =~= match_lines(
        text@,
        old@,
        0,
        max as nat,
    ));
    while out.len() < max
        invariant
            s@ == text@,
            o@ == old@,
            o@.len() > 0,
            total == s@.len(),
            from <= total,
            out@.len() <= max,
            nats(out@) + match_lines(text@, old@, from as int, (max - out@.len()) as nat)
                == match_lines(text@, old@, 0, max as nat),
        decreases max - out@.len(),
    {
        let rest = slice_subrange(s, from, total);
        assert(rest@ =~= text@.skip(from as int));
        let ghost done = nats(out@);
        match find_at(rest, o, 0) {
            None => {
                assert(done + Seq::<nat>::empty() =~= done);
                return out;
            },
            Some(k) => {
                let n: usize = count_newlines(s, from + k);
                proof {
                    lemma_find_from(rest@, old@, 0);
                }
                let left = max - out.len() - 1;
                out.push(n + 1);
                assert(nats(out@) =~= done.push((n + 1) as nat));
                from = from + k + o.len();
                assert(nats(out@) + match_lines(text@, old@, from as int, left as nat) =~= done + (
                seq![(1 + n) as nat] + match_lines(text@, old@, from as int, left as nat)));
            },
        }
    }
    assert(nats(out@) + match_lines(text@, old@, from as int, 0) =~= nats(out@));
    out
}

/// How many characters `a` and `b` begin with alike.
pub open spec fn shared(a: Seq<char>, b: Seq<char>) -> nat
    decreases a.len(),
{
    if a.len() == 0 || b.len() == 0 || a[0] != b[0] {
        0
    } else {
        1 + shared(a.skip(1), b.skip(1))
    }
}

/// How many of the first characters of `p` stand together somewhere in `line`.
pub open spec fn overlap(line: Seq<char>, p: Seq<char>) -> nat
    decreases line.len(),
{
    if line.len() == 0 {
        0
    } else if shared(line, p) > overlap(line.skip(1), p) {
        shared(line, p)
    } else {
        overlap(line.skip(1), p)
    }
}

/// The line that holds the longest beginning of `p`, the first of several, where one holds at least
/// `least` characters of it.
pub open spec fn closest(ls: Seq<Seq<char>>, p: Seq<char>, least: nat) -> Option<int>
    decreases ls.len(),
{
    if ls.len() == 0 {
        None
    } else {
        let found = overlap(ls.last(), p);
        match closest(ls.drop_last(), p, least) {
            Some(i) => if found > overlap(ls[i], p) {
                Some(ls.len() - 1)
            } else {
                Some(i)
            },
            None => if found >= least {
                Some(ls.len() - 1)
            } else {
                None
            },
        }
    }
}

/// A hint at where `old` may have been meant: the line that holds the longest beginning of its first
/// line, at least the first twelve characters.
pub open spec fn hint(text: Seq<char>, old: Seq<char>) -> Seq<char> {
    let first = trim(first_line(old));
    let p = first_chars(first, 12);
    if byte_len(first) < 4 {
        Seq::empty()
    } else {
        match closest(lines(text), first, p.len()) {
            Some(i) => " — closest line "@ + dec((i + 1) as nat) + " contains the prefix "@
                + debug_text(p),
            None => Seq::empty(),
        }
    }
}

/// No line holds a longer beginning of `p` than the closest one, and none before it one as long; where
/// there is none, every line holds less than is asked for.
pub proof fn law_closest_line(ls: Seq<Seq<char>>, p: Seq<char>, least: nat)
    ensures
        match closest(ls, p, least) {
            Some(i) => {
                &&& 0 <= i < ls.len()
                &&& overlap(ls[i], p) >= least
                &&& forall|j: int|
                    0 <= j < ls.len() ==> overlap(#[trigger] ls[j], p) <= overlap(ls[i], p)
                &&& forall|j: int| 0 <= j < i ==> overlap(#[trigger] ls[j], p) < overlap(ls[i], p)
            },
            None => forall|j: int| 0 <= j < ls.len() ==> overlap(#[trigger] ls[j], p) < least,
        },
    decreases ls.len(),
{
    if ls.len() > 0 {
        let init = ls.drop_last();
        law_closest_line(init, p, least);
        assert forall|j: int| 0 <= j < ls.len() - 1 implies #[trigger] ls[j] == init[j] by {}
    }
}

/// A line holds the first `k` characters of `p` together exactly where its overlap with `p` is so long.
pub proof fn law_overlap_contains(line: Seq<char>, p: Seq<char>, k: nat)
    requires
        0 < k <= p.len(),
    ensures
        overlap(line, p) >= k <==> contains(line, p.take(k as int)),
    decreases line.len(),
{
    let q = p.take(k as int);
    if line.len() > 0 {
        law_overlap_contains(line.skip(1), p, k);
        lemma_shared(line, p, k);
        lemma_contains_step(line, q);
        if line.len() >= k {
            assert(line.take(k as int) =~= line.subrange(0, k as int));
        }
    } else {
        lemma_contains_step(line, q);
    }
}

proof fn lemma_shared(a: Seq<char>, b: Seq<char>, k: nat)
    requires
        k <= b.len(),
    ensures
        shared(a, b) >= k <==> (a.len() >= k && a.take(k as int) == b.take(k as int)),
    decreases a.len(),
{
    if k > 0 && a.len() > 0 {
        let k1 = (k - 1) as nat;
        lemma_shared(a.skip(1), b.skip(1), k1);
        if a.len() >= k {
            let x = a.take(k as int);
            let y = b.take(k as int);
            assert(a.skip(1).take(k1 as int) =~= x.skip(1));
            assert(b.skip(1).take(k1 as int) =~= y.skip(1));
            if x == y {
                assert(a[0] == x[0] && b[0] == y[0]);
            }
            if a[0] == b[0] && x.skip(1) == y.skip(1) {
                assert forall|i: int| 0 <= i < k implies x[i] == y[i] by {
                    if i > 0 {
                        assert(x[i] == x.skip(1)[i - 1]);
                        assert(y[i] == y.skip(1)[i - 1]);
                    }
                }
                assert(x =~= y);
            }
        }
    } else if k == 0 {
        assert(a.take(0) =~= b.take(0));
    }
}

proof fn lemma_contains_step(line: Seq<char>, q: Seq<char>)
    requires
        q.len() > 0,
    ensures
        line.len() == 0 ==> !contains(line, q),
        line.len() > 0 ==> (contains(line, q) <==> (occurs_at(line, q, 0) || contains(line.skip(1), q))),
{
    if line.len() > 0 {
        let rest = line.skip(1);
        if contains(line, q) && !occurs_at(line, q, 0) {
            let i = choose|i: int| occurs_at(line, q, i);
            assert(rest.subrange(i - 1, i - 1 + q.len()) =~= line.subrange(i, i + q.len()));
            assert(occurs_at(rest, q, i - 1));
        }
        if contains(rest, q) {
            let i = choose|i: int| occurs_at(rest, q, i);
            assert(rest.subrange(i, i + q.len()) =~= line.subrange(i + 1, i + 1 + q.len()));
            assert(occurs_at(line, q, i + 1));
        }
    }
}

fn shared_len(a: &[char], s: usize, b: &[char]) -> (r: usize)
    requires
        s <= a@.len(),
    ensures
        r == shared(a@.skip(s as int), b@),
        r <= b@.len(),
{
    let ghost all = shared(a@.skip(s as int), b@);
    let mut k: usize = 0;
    assert(b@.skip(0) =~= b@);
    while k < b.len() && k < a.len() - s
        invariant
            s <= a@.len(),
            k <= b@.len(),
            k <= a@.len() - s,
            all == k + shared(a@.skip(s + k), b@.skip(k as int)),
            all == shared(a@.skip(s as int), b@),
        decreases b@.len() - k,
    {
        assert(a@.skip(s + k)[0] == a@[s + k]);
        assert(b@.skip(k as int)[0] == b@[k as int]);
        if a[s + k] != b[k] {
            return k;
        }
        assert(a@.skip(s + k).skip(1) =~= a@.skip(s + k + 1));
        assert(b@.skip(k as int).skip(1) =~= b@.skip(k + 1));
        k += 1;
    }
    k
}

fn overlap_len(line: &str, p: &str) -> (r: usize)
    ensures
        r == overlap(line@, p@),
{
    let a = chars_of(line);
    let b = chars_of(p);
    let mut s: usize = a.len();
    let mut best: usize = 0;
    assert(line@.skip(s as int) =~= Seq::<char>::empty());
    while s > 0
        invariant
            s <= a@.len(),
            a@ == line@,
            b@ == p@,
            best == overlap(line@.skip(s as int), p@),
        decreases s,
    {
        s -= 1;
        assert(line@.skip(s as int).skip(1) =~= line@.skip(s + 1));
        let k = shared_len(a.as_slice(), s, b.as_slice());
        if k > best {
            best = k;
        }
    }
    assert(line@.skip(0) =~= line@);
    best
}

fn closest_line(ls: &Vec<String>, p: &str, least: usize) -> (r: Option<usize>)
    ensures
        match r {
            Some(i) => i < ls@.len() && closest(texts(ls@), p@, least as nat) == Some(i as int),
            None => closest(texts(ls@), p@, least as nat) is None,
        },
{
    let ghost lv = texts(ls@);
    let mut r: Option<usize> = None;
    let mut best: usize = 0;
    let mut i: usize = 0;
    assert(lv.take(0).len() == 0);
    while i < ls.len()
        invariant
            i <= ls@.len(),
            lv == texts(ls@),
            match r {
                Some(j) => {
                    &&& j < i
                    &&& closest(lv.take(i as int), p@, least as nat) == Some(j as int)
                    &&& best == overlap(lv[j as int], p@)
                },
                None => closest(lv.take(i as int), p@, least as nat) is None,
            },
        decreases ls@.len() - i,
    {
        assert(lv[i as int] == ls@[i as int]@);
        assert(lv.take(i + 1).drop_last() =~= lv.take(i as int));
        let found: usize = overlap_len(ls[i].as_str(), p);
        let better = match r {
            Some(_) => found > best,
            None => found >= least,
        };
        if better {
            r = Some(i);
            best = found;
        }
        i += 1;
    }
    assert(lv.take(i as int) =~= lv);
    r
}

/// A hint at where `old` may have been meant.
pub fn nearest_match_hint(text: &str, old: &str) -> (r: String)
    ensures
        r@ == hint(text@, old@),
{
    let first = trim_str(first_line_of(old).as_str());
    if byte_length(first.as_str()) < 4 {
        return String::new();
    }
    let p = take_chars(first.as_str(), 12);
    let ls = split_lines(text);
    match closest_line(&ls, first.as_str(), chars_of(p.as_str()).len()) {
        Some(i) => {
            let mut s = " — closest line ".to_owned();
            push_dec(&mut s, i as u64 + 1);
            s.append(" contains the prefix ");
            s.append(debug_string(p.as_str()).as_str());
            s
        },
        None => String::new(),
    }
}

/// The numbers, with commas between them.
pub open spec fn number_list(v: Seq<nat>) -> Seq<char> {
    join(v.map_values(|n: nat| dec(n)), ", "@)
}

/// `s` with the first occurrence of `old` replaced.
pub open spec fn replace_first(s: Seq<char>, old: Seq<char>, new: Seq<char>) -> Seq<char> {
    match find(s, old) {
        Some(k) => s.take(k) + new + s.skip(k + old.len()),
        None => s,
    }
}

/// The text after an edit with the number of replacements, or what is wrong with the edit: the text to
/// replace must be there, and only once unless all of it is to be replaced.
pub open spec fn edited(
    text: Seq<char>,
    old: Seq<char>,
    new: Seq<char>,
    all: bool,
) -> Result<(Seq<char>, nat), Seq<char>> {
    let n = count_of(text, old);
    if old.len() == 0 {
        Err("old_string must not be empty"@)
    } else if n == 0 {
        Err("old_string not found: "@ + debug_text(old) + hint(text, old))
    } else if n > 1 && !all {
        Err(
            "old_string appears "@ + dec(n) + " times (lines "@ + number_list(
                match_lines(text, old, 0, 3),
            ) + "); pass replace_all=true or provide a more specific string"@,
        )
    } else if all {
        Ok((replace_all(text, old, new), n))
    } else {
        Ok((replace_first(text, old, new), n))
    }
}

/// The view of an edit.
pub open spec fn edit_view(r: Result<(String, usize), String>) -> Result<
    (Seq<char>, nat),
    Seq<char>,
> {
    match r {
        Ok((s, n)) => Ok((s@, n as nat)),
        Err(e) => Err(e@),
    }
}

/// Applies an edit to a text.
pub fn apply_edit(text: &str, old: &str, new: &str, replace_all: bool) -> (r: Result<
    (String, usize),
    String,
>)
    ensures
        edit_view(r) == edited(text@, old@, new@, replace_all),
{
    if old.is_empty() {
        return Err("old_string must not be empty".to_owned());
    }
    let t = chars_of(text);
    let o = chars_of(old);
    let w = chars_of(new);
    let count: usize = count_chars(t.as_slice(), o.as_slice());
    if count == 0 {
        let mut e = "old_string not found: ".to_owned();
        e.append(debug_string(old).as_str());
        e.append(nearest_match_hint(text, old).as_str());
        return Err(e);
    }
    if count > 1 && !replace_all {
        let ls = first_match_lines(text, old, 3);
        let ghost ns = nats(ls@);
        let mut parts: Vec<String> = Vec::new();
        let mut i: usize = 0;
        assert(texts(parts@) =~= ns.take(0).map_values(|n: nat| dec(n)));
        while i < ls.len()
            invariant
                i <= ls@.len(),
                ns == nats(ls@),
                texts(parts@) == ns.take(i as int).map_values(|n: nat| dec(n)),
            decreases ls@.len() - i,
        {
            broadcast use texts_push;

            let d = dec_string(ls[i] as u64);
            assert(ns.take(i + 1).map_values(|n: nat| dec(n)) =~= ns.take(i as int).map_values(
                |n: nat| dec(n),
            ).push(d@));
            parts.push(d);
            i += 1;
        }
        assert(ns.take(i as int) =~= ns);
        let mut e = "old_string appears ".to_owned();
        push_dec(&mut e, count as u64);
        e.append(" times (lines ");
        e.append(join_strings(&parts, ", ").as_str());
        e.append("); pass replace_all=true or provide a more specific string");
        return Err(e);
    }
    if replace_all {
        let out = replace_chars(t.as_slice(), o.as_slice(), w.as_slice());
        return Ok((string_of(out.as_slice()), count));
    }
    let s = t.as_slice();
    let n: usize = s.len();
    let mut out: Vec<char> = Vec::new();
    match find_at(s, o.as_slice(), 0) {
        Some(k) => {
            push_chars(&mut out, slice_subrange(s, 0, k));
            push_chars(&mut out, w.as_slice());
            push_chars(&mut out, slice_subrange(s, k + o.len(), n));
            assert(out@ =~= s@.take(k as int) + new@ + s@.skip(k + old@.len()));
        },
        None => {
            push_chars(&mut out, s);
            assert(out@ =~= s@);
        },
    }
    Ok((string_of(out.as_slice()), count))
}

/// What an edit is asked to do.
#[derive(Debug)]
pub struct EditPlan {
    pub path: String,
    pub old: String,
    pub new: String,
    pub replace_all: bool,
}

/// The first of the string arguments that is missing.
pub open spec fn missing_edit_arg(args: JsonView) -> Option<Seq<char>> {
    if text_member(args, "path"@) is None {
        Some("path"@)
    } else if text_member(args, "old_string"@) is None {
        Some("old_string"@)
    } else if text_member(args, "new_string"@) is None {
        Some("new_string"@)
    } else {
        None
    }
}

impl EditFile {
    /// What a call of the tool asks to do, or the answer where an argument is missing.
    pub fn plan(args: &Json) -> (r: Result<EditPlan, ToolResult>)
        ensures
            match r {
                Ok(p) => {
                    &&& text_member(args@, "path"@) == Some(p.path@)
                    &&& text_member(args@, "old_string"@) == Some(p.old@)
                    &&& text_member(args@, "new_string"@) == Some(p.new@)
                    &&& p.replace_all == (bool_member(args@, "replace_all"@) == Some(true))
                },
                Err(e) => !e.ok && missing_edit_arg(args@) is Some && e.content@ == missing_arg(
                    missing_edit_arg(args@)->0,
                ),
            },
    {
        let path = match arg_str(args, "path") {
            Ok(p) => p,
            Err(e) => {
                return Err(e);
            },
        };
        let old = match arg_str(args, "old_string") {
            Ok(p) => p,
            Err(e) => {
                return Err(e);
            },
        };
        let new = match arg_str(args, "new_string") {
            Ok(p) => p,
            Err(e) => {
                return Err(e);
            },
        };
        Ok(EditPlan { path, old, new, replace_all: arg_bool(args, "replace_all") })
    }

    /// What the tool answers when the file was written.
    pub fn done_answer(n: usize, path: &str) -> (r: ToolResult)
        ensures
            r.ok,
            r.content@ == "replaced "@ + dec(n as nat) + " occurrence(s) in "@ + path@,
    {
        let mut s = "replaced ".to_owned();
        push_dec(&mut s, n as u64);
        s.append(" occurrence(s) in ");
        s.append(path);
        ToolResult::ok(s)
    }
}

/// An edit of the one occurrence of a text changes that occurrence and nothing around it, and replacing
/// all occurrences is then the same.
pub proof fn law_unique_edit(text: Seq<char>, old: Seq<char>, new: Seq<char>)
    requires
        old.len() > 0,
        count_of(text, old) == 1,
    ensures
        edited(text, old, new, false) == edited(text, old, new, true),
        edited(text, old, new, false) is Ok,
        exists|a: Seq<char>, b: Seq<char>|
            text == #[trigger] (a + old + b) && edited(text, old, new, false)->Ok_0.0 == a + new + b,
{
    lemma_find_from(text, old, 0);
    let k = find(text, old)->0;
    let a = text.take(k);
    let b = text.skip(k + old.len());
    assert(count_of(b, old) == 0);
    lemma_find_from(b, old, 0);
    assert(replace_all(b, old, new) == b) by {
        if find(b, old) is Some {
            assert(count_of(b, old) >= 1);
        }
    }
    assert(text =~= a + old + b);
    assert(a + new + b == replace_first(text, old, new));
}

/// An edit succeeds exactly where the text to replace is there, once or with leave to replace all.
pub proof fn law_edit_succeeds(text: Seq<char>, old: Seq<char>, new: Seq<char>, all: bool)
    ensures
        edited(text, old, new, all) is Ok <==> old.len() > 0 && count_of(text, old) > 0 && (all
            || count_of(text, old) == 1),
{
}

/// Replacing all occurrences puts the pieces of the text between them together with the new string, and says how
/// many there were. The pieces are returned; none of them holds the old string.
pub proof fn law_edit_replaces_all(text: Seq<char>, old: Seq<char>, new: Seq<char>) -> (pieces: Seq<Seq<char>>)
    requires
        old.len() > 0,
        contains(text, old),
    ensures
        join(pieces, old) == text,
        edited(text, old, new, true) == Ok::<(Seq<char>, nat), Seq<char>>(
            (join(pieces, new), (pieces.len() - 1) as nat),
        ),
        pieces.len() > 1,
        forall|i: int| 0 <= i < pieces.len() ==> !contains(#[trigger] pieces[i], old),
        forall|i: int|
            0 <= i < pieces.len() - 1 ==> find((#[trigger] pieces[i]) + old, old) == Some(
                pieces[i].len() as int,
            ),
{
    law_replaced_everywhere(text, old, new)
}

/// What is said where nothing is changed: that the old string is empty, that it is nowhere, or how often and in
/// which lines it stands.
pub proof fn law_edit_refused(text: Seq<char>, old: Seq<char>, new: Seq<char>, all: bool)
    ensures
        old.len() == 0 ==> edited(text, old, new, all) == Err::<(Seq<char>, nat), Seq<char>>(
            "old_string must not be empty"@,
        ),
        old.len() > 0 && !contains(text, old) ==> edited(text, old, new, all) == Err::<
            (Seq<char>, nat),
            Seq<char>,
        >("old_string not found: "@ + debug_text(old) + hint(text, old)),
        old.len() > 0 && !all && count_of(text, old) > 1 ==> edited(text, old, new, all) == Err::<
            (Seq<char>, nat),
            Seq<char>,
        >(
            "old_string appears "@ + dec(count_of(text, old)) + " times (lines "@ + join(
                match_lines(text, old, 0, 3).map_values(|n: nat| dec(n)),
                ", "@,
            ) + "); pass replace_all=true or provide a more specific string"@,
        ),
{
    if old.len() > 0 {
        let pieces = law_replaced_everywhere(text, old, new);
    }
}

/// The lines of the occurrences: the first stands one line below the line feeds before it, and the others are
/// those of the rest of the text, as many lines further down as it begins.
pub proof fn law_match_lines(a: Seq<char>, old: Seq<char>, b: Seq<char>, max: nat)
    requires
        old.len() > 0,
        find(a + old + b, old) == Some(a.len() as int),
    ensures
        match_lines(a + old + b, old, 0, max + 1) == seq![1 + newlines(a)] + match_lines(
            b,
            old,
            0,
            max,
        ).map_values(|n: nat| n + newlines(a + old)),
        match_lines(a + old + b, old, 0, 0).len() == 0,
        !contains(b, old) ==> match_lines(b, old, 0, max).len() == 0,
{
    let s = a + old + b;
    assert(s.skip(0) =~= s);
    assert(s.take(a.len() as int) =~= a);
    let from = a.len() + old.len();
    assert(s.skip(from as int) =~= b);
    assert(s.take(from as int) =~= a + old);
    lemma_match_lines_from(s, old, from as int, max);
    let shifted = match_lines(b, old, 0, max).map_values(|n: nat| n + newlines(a + old));
    assert(match_lines(s, old, from as int, max) =~= shifted);
    lemma_find_from(b, old, 0);
    assert(b.skip(0) =~= b);
}

proof fn lemma_match_lines_from(s: Seq<char>, old: Seq<char>, from: int, max: nat)
    requires
        0 <= from <= s.len(),
        old.len() > 0,
    ensures
        match_lines(s, old, from, max).len() == match_lines(s.skip(from), old, 0, max).len(),
        forall|i: int|
            0 <= i < match_lines(s, old, from, max).len() ==> (#[trigger] match_lines(s, old, from, max)[i])
                == match_lines(s.skip(from), old, 0, max)[i] + newlines(s.take(from)),
    decreases max,
{
    let t = s.skip(from);
    assert(t.skip(0) =~= t);
    if max > 0 {
        lemma_find_from(t, old, 0);
        if let Some(k) = find(t, old) {
            let m = (max - 1) as nat;
            let e = k + old.len();
            lemma_match_lines_from(s, old, from + e, m);
            lemma_match_lines_from(t, old, e, m);
            assert(s.skip(from + e) =~= t.skip(e));
            law_line_feeds_counted(s.take(from), t.take(e), '\n');
            assert(s.take(from) + t.take(e) =~= s.take(from + e));
            law_line_feeds_counted(s.take(from), t.take(k), '\n');
            assert(s.take(from) + t.take(k) =~= s.take(from + k));
            let x = match_lines(s, old, from, max);
            let y = match_lines(t, old, 0, max);
            assert forall|i: int| 0 <= i < x.len() implies (#[trigger] x[i]) == y[i] + newlines(
                s.take(from),
            ) by {
                if i > 0 {
                    assert(x[i] == match_lines(s, old, from + e, m)[i - 1]);
                    assert(y[i] == match_lines(t, old, e, m)[i - 1]);
                }
            }
        }
    }
}

/// The line feeds of two texts add up; a character is one where it is a line feed.
pub proof fn law_line_feeds_counted(a: Seq<char>, b: Seq<char>, c: char)
    ensures
        newlines(a + b) == newlines(a) + newlines(b),
        newlines(Seq::empty()) == 0,
        newlines(seq![c]) == if c == '\n' {
            1nat
        } else {
            0nat
        },
        newlines(a) <= a.len(),
    decreases a.len() + b.len(),
{
    assert(seq![c].drop_last() =~= Seq::<char>::empty());
    assert(newlines(Seq::<char>::empty()) == 0);
    if b.len() == 0 {
        assert(a + b =~= a);
        if a.len() > 0 {
            law_line_feeds_counted(a.drop_last(), b, c);
        }
    } else {
        assert((a + b).drop_last() =~= a + b.drop_last());
        law_line_feeds_counted(a, b.drop_last(), c);
    }
}

/// The hint names the line that holds most of the beginning of the first line of what was looked for, where that
/// line has at least four bytes and at least its first twelve characters stand somewhere.
pub proof fn law_hint(text: Seq<char>, old: Seq<char>)
    ensures
        ({
            let first = trim(first_line(old));
            let p = if first.len() <= 12 {
                first
            } else {
                first.take(12)
            };
            &&& byte_len(first) < 4 ==> hint(text, old).len() == 0
            &&& byte_len(first) >= 4 && closest(lines(text), first, p.len()) is None ==> hint(text, old).len()
                == 0
            &&& byte_len(first) >= 4 ==> (closest(lines(text), first, p.len()) matches Some(i) ==> hint(
                text,
                old,
            ) == " — closest line "@ + dec((i + 1) as nat) + " contains the prefix "@ + debug_text(p))
        }),
{
}

/// The first argument that is missing is named, in the order in which they are asked for.
pub proof fn law_edit_arguments(args: JsonView)
    ensures
        text_member(args, "path"@) is None ==> missing_edit_arg(args) == Some("path"@),
        text_member(args, "path"@) is Some && text_member(args, "old_string"@) is None ==> missing_edit_arg(args)
            == Some("old_string"@),
        text_member(args, "path"@) is Some && text_member(args, "old_string"@) is Some && text_member(
            args,
            "new_string"@,
        ) is None ==> missing_edit_arg(args) == Some("new_string"@),
        text_member(args, "path"@) is Some && text_member(args, "old_string"@) is Some && text_member(
            args,
            "new_string"@,
        ) is Some ==> missing_edit_arg(args) is None,
{
}

} // verus!
