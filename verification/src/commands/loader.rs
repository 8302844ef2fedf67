//! Reading commands from Markdown files.

use super::registry::{command_views, CommandView, Scope, SlashCommand};
use crate::order::{before, comes_before, lemma_before_total};
use crate::registry::resolve::{split_once, split_once_at};
use crate::split::{
    join, join_strings, last_pos, last_pos_before, last_pos_of, lemma_pos_from, pos, pos_at, split_on,
    split_str, trim, trim_chars, trim_str,
};
use crate::text::{
    chars_of, has_prefix, law_affixes, opt_text, starts_with, str_eq, string_of, strip_prefix, texts,
    texts_push, without_prefix,
};
use vstd::prelude::*;
use vstd::slice::slice_subrange;

verus! {

// ---------------------------------------------------------------------------------------------
// The head of a file
// ---------------------------------------------------------------------------------------------

/// A quotation mark, single or double.
pub open spec fn is_quote(c: char) -> bool {
    c == '"' || c == '\''
}

/// `s` without the quotation marks at its front.
pub open spec fn unquote_front(s: Seq<char>) -> Seq<char>
    decreases s.len(),
{
    if s.len() > 0 && is_quote(s[0]) {
        unquote_front(s.skip(1))
    } else {
        s
    }
}

/// `s` without the quotation marks at its back.
pub open spec fn unquote_back(s: Seq<char>) -> Seq<char>
    decreases s.len(),
{
    if s.len() > 0 && is_quote(s.last()) {
        unquote_back(s.drop_last())
    } else {
        s
    }
}

/// A value without white space and then quotation marks around it.
pub open spec fn bare(s: Seq<char>) -> Seq<char> {
    unquote_back(unquote_front(trim(s)))
}

/// A value without white space and then quotation marks around it.
pub fn bare_str(s: &str) -> (r: String)
    ensures
        r@ == bare(s@),
{
    let cs = chars_of(s);
    let t = trim_chars(cs.as_slice());
    let mut i: usize = 0;
    assert(t@.skip(0) =~= t@);
    while i < t.len() && (t[i] == '"' || t[i] == '\'')
        invariant
            i <= t@.len(),
            unquote_front(t@) == unquote_front(t@.skip(i as int)),
        decreases t@.len() - i,
    {
        assert(t@.skip(i as int).skip(1) =~= t@.skip(i + 1));
        i += 1;
    }
    let u = slice_subrange(t, i, t.len());
    assert(u@ =~= t@.skip(i as int));
    let mut n: usize = u.len();
    assert(u@.take(n as int) =~= u@);
    while n > 0 && (u[n - 1] == '"' || u[n - 1] == '\'')
        invariant
            n <= u@.len(),
            unquote_back(u@) == unquote_back(u@.take(n as int)),
        decreases n,
    {
        assert(u@.take(n as int).drop_last() =~= u@.take(n - 1));
        n -= 1;
    }
    let w = slice_subrange(u, 0, n);
    assert(w@ =~= u@.take(n as int));
    string_of(w)
}

/// The end of the first line, with its line feed.
pub open spec fn line_end(s: Seq<char>) -> int {
    if 0 <= pos(s, '\n') < s.len() {
        pos(s, '\n') + 1
    } else {
        s.len() as int
    }
}

/// The settings in the head of a file and what follows the head; nothing where the head is not
/// closed by a line `---`. A setting is a line with a colon.
pub open spec fn head_of(s: Seq<char>) -> Option<(Seq<(Seq<char>, Seq<char>)>, Seq<char>)>
    decreases s.len(),
{
    if s.len() == 0 {
        None
    } else {
        let end = line_end(s);
        let line = s.take(end);
        if end <= 0 || end > s.len() {
            None
        } else if trim(line) == "---"@ {
            Some((Seq::empty(), s.skip(end)))
        } else {
            match head_of(s.skip(end)) {
                None => None,
                Some((rest, body)) => match split_once(line, ':') {
                    Some((k, v)) => Some((seq![(trim(k), bare(v))] + rest, body)),
                    None => Some((rest, body)),
                },
            }
        }
    }
}

/// The text after the line `---` that opens a head.
pub open spec fn after_opening(s: Seq<char>) -> Option<Seq<char>> {
    if starts_with(s, "---\n"@) {
        without_prefix(s, "---\n"@)
    } else {
        without_prefix(s, "---\r\n"@)
    }
}

/// The text without the mark of its byte order.
pub open spec fn without_bom(s: Seq<char>) -> Seq<char> {
    if starts_with(s, "\u{feff}"@) {
        s.skip("\u{feff}"@.len() as int)
    } else {
        s
    }
}

/// The settings and the body of a file; a file whose head is missing or not closed is all body.
pub open spec fn front_and_body(raw: Seq<char>) -> (Seq<(Seq<char>, Seq<char>)>, Seq<char>) {
    let s = without_bom(raw);
    match after_opening(s) {
        None => (Seq::empty(), s),
        Some(rest) => match head_of(rest) {
            None => (Seq::empty(), s),
            Some((pairs, body)) => (pairs, body),
        },
    }
}

/// The views of a list of settings.
pub open spec fn pair_views(v: Seq<(String, String)>) -> Seq<(Seq<char>, Seq<char>)> {
    v.map_values(|p: (String, String)| (p.0@, p.1@))
}

/// The head that `rest` goes on with, after the settings `done`.
spec fn head_onto(
    done: Seq<(Seq<char>, Seq<char>)>,
    rest: Seq<char>,
) -> Option<(Seq<(Seq<char>, Seq<char>)>, Seq<char>)> {
    match head_of(rest) {
        None => None,
        Some((more, body)) => Some((done + more, body)),
    }
}

/// Reads the head of a file.
fn read_head(s: &str) -> (r: Option<(Vec<(String, String)>, String)>)
    ensures
        match r {
            Some((pairs, body)) => head_of(s@) == Some((pair_views(pairs@), body@)),
            None => head_of(s@) is None,
        },
{
    let all = chars_of(s);
    let mut rest = all.as_slice();
    let mut pairs: Vec<(String, String)> = Vec::new();
    proof {
        assert(pair_views(pairs@) =~= Seq::<(Seq<char>, Seq<char>)>::empty());
        match head_of(s@) {
            Some((more, body)) => {
                assert(pair_views(pairs@) + more =~= more);
            },
            None => {},
        }
    }
    while rest.len() > 0
        invariant
            head_of(s@) == head_onto(pair_views(pairs@), rest@),
        decreases rest@.len(),
    {
        let k = pos_at(rest, '\n', 0);
        let end: usize = if k < rest.len() {
            k + 1
        } else {
            rest.len()
        };
        assert(end == line_end(rest@));
        let line_chars = slice_subrange(rest, 0, end);
        assert(line_chars@ =~= rest@.take(end as int));
        let line = string_of(line_chars);
        let next = slice_subrange(rest, end, rest.len());
        assert(next@ =~= rest@.skip(end as int));
        let ghost done = pair_views(pairs@);
        if str_eq(trim_str(line.as_str()).as_str(), "---") {
            let body = string_of(next);
            assert(done + Seq::<(Seq<char>, Seq<char>)>::empty() =~= done);
            return Some((pairs, body));
        }
        match split_once_at(line.as_str(), ':') {
            Some((key, val)) => {
                let p = (trim_str(key.as_str()), bare_str(val.as_str()));
                let ghost pv = (p.0@, p.1@);
                pairs.push(p);
                assert(pair_views(pairs@) =~= done.push(pv));
                proof {
                    match head_of(next@) {
                        Some((more, body)) => {
                            assert(done + (seq![pv] + more) =~= done.push(pv) + more);
                        },
                        None => {},
                    }
                }
            },
            None => {},
        }
        rest = next;
    }
    None
}

/// The settings and the body of a file.
pub fn split_frontmatter(raw: &str) -> (r: (Vec<(String, String)>, String))
    ensures
        (pair_views(r.0@), r.1@) == front_and_body(raw@),
{
    let s = match strip_prefix(raw, "\u{feff}") {
        Some(s) => s,
        None => raw.to_owned(),
    };
    let none: Vec<(String, String)> = Vec::new();
    assert(pair_views(none@) =~= Seq::<(Seq<char>, Seq<char>)>::empty());
    let opened = match strip_prefix(s.as_str(), "---\n") {
        Some(r) => Some(r),
        None => strip_prefix(s.as_str(), "---\r\n"),
    };
    assert(opt_text(opened) == after_opening(s@));
    match opened {
        None => (none, s),
        Some(rest) => match read_head(rest.as_str()) {
            None => (none, s),
            Some(x) => x,
        },
    }
}

// ---------------------------------------------------------------------------------------------
// Lists
// ---------------------------------------------------------------------------------------------

/// A list without the brackets around it.
pub open spec fn unbracketed(s: Seq<char>) -> Seq<char> {
    if s.len() >= 2 && s[0] == '[' && s.last() == ']' {
        s.subrange(1, s.len() - 1)
    } else {
        s
    }
}

/// The bare items that are not empty.
pub open spec fn items_of(pieces: Seq<Seq<char>>) -> Seq<Seq<char>>
    decreases pieces.len(),
{
    if pieces.len() == 0 {
        Seq::empty()
    } else {
        let before = items_of(pieces.drop_last());
        if bare(pieces.last()).len() == 0 {
            before
        } else {
            before.push(bare(pieces.last()))
        }
    }
}

/// The items of a list, `[a, b]` or `a, b`.
pub open spec fn list_of(val: Seq<char>) -> Seq<Seq<char>> {
    items_of(split_on(unbracketed(trim(val)), ','))
}

/// The items of a list.
pub fn parse_list(val: &str) -> (r: Vec<String>)
    ensures
        texts(r@) == list_of(val@),
{
    let cs = chars_of(val);
    let t = trim_chars(cs.as_slice());
    let inner = if t.len() >= 2 && t[0] == '[' && t[t.len() - 1] == ']' {
        slice_subrange(t, 1, t.len() - 1)
    } else {
        t
    };
    assert(inner@ =~= unbracketed(trim(val@)));
    let pieces = crate::split::split_chars(inner, ',');
    let ghost ps = texts(pieces@);
    let mut out: Vec<String> = Vec::new();
    assert(texts(out@) =~= Seq::<Seq<char>>::empty());
    assert(ps.take(0) =~= Seq::<Seq<char>>::empty());
    let mut i: usize = 0;
    while i < pieces.len()
        invariant
            i <= pieces@.len(),
            ps == texts(pieces@),
            texts(out@) == items_of(ps.take(i as int)),
        decreases pieces@.len() - i,
    {
        broadcast use texts_push;

        assert(ps.take(i + 1).drop_last() =~= ps.take(i as int));
        assert(ps.take(i + 1).last() == pieces@[i as int]@);
        let b = bare_str(pieces[i].as_str());
        if !b.as_str().is_empty() {
            out.push(b);
        }
        i += 1;
    }
    assert(ps.take(i as int) =~= ps);
    out
}

// ---------------------------------------------------------------------------------------------
// A command from its file
// ---------------------------------------------------------------------------------------------

/// The command with one setting more; a setting without a meaning changes nothing.
pub open spec fn with_setting(c: CommandView, p: (Seq<char>, Seq<char>)) -> CommandView {
    if p.0 == "description"@ {
        CommandView { description: Some(p.1), ..c }
    } else if p.0 == "argument-hint"@ || p.0 == "argument_hint"@ {
        CommandView { argument_hint: Some(p.1), ..c }
    } else if p.0 == "allowed-tools"@ || p.0 == "allowed_tools"@ {
        CommandView { allowed_tools: list_of(p.1), ..c }
    } else if p.0 == "model"@ {
        CommandView { model: Some(p.1), ..c }
    } else {
        c
    }
}

/// The command with the settings, the last of a kind holding.
pub open spec fn with_settings(c: CommandView, ps: Seq<(Seq<char>, Seq<char>)>) -> CommandView
    decreases ps.len(),
{
    if ps.len() == 0 {
        c
    } else {
        with_setting(with_settings(c, ps.drop_last()), ps.last())
    }
}

/// A command without settings.
pub open spec fn plain_command(name: Seq<char>, body: Seq<char>, scope: Scope) -> CommandView {
    CommandView {
        name,
        description: None,
        argument_hint: None,
        allowed_tools: Seq::empty(),
        model: None,
        body,
        scope,
    }
}

/// The command that a file describes.
pub open spec fn command_of(name: Seq<char>, raw: Seq<char>, scope: Scope) -> CommandView {
    with_settings(
        plain_command(name, trim(front_and_body(raw).1), scope),
        front_and_body(raw).0,
    )
}

/// The command that a file describes.
pub fn parse(name: String, raw: &str, scope: Scope) -> (r: SlashCommand)
    ensures
        r@ == command_of(name@, raw@, scope),
{
    let ghost n = name@;
    let (front, body) = split_frontmatter(raw);
    let ghost pv = pair_views(front@);
    let mut cmd = SlashCommand {
        name,
        description: None,
        argument_hint: None,
        allowed_tools: Vec::new(),
        model: None,
        body: trim_str(body.as_str()),
        scope,
    };
    assert(texts(cmd.allowed_tools@) =~= Seq::<Seq<char>>::empty());
    let ghost start = cmd@;
    assert(pv.take(0) =~= Seq::<(Seq<char>, Seq<char>)>::empty());
    let mut i: usize = 0;
    while i < front.len()
        invariant
            i <= front@.len(),
            pv == pair_views(front@),
            cmd@ == with_settings(start, pv.take(i as int)),
        decreases front@.len() - i,
    {
        assert(pv.take(i + 1).drop_last() =~= pv.take(i as int));
        assert(pv.take(i + 1).last() == (front@[i as int].0@, front@[i as int].1@));
        let key = front[i].0.as_str();
        let val = &front[i].1;
        if str_eq(key, "description") {
            cmd.description = Some(val.clone());
        } else if str_eq(key, "argument-hint") || str_eq(key, "argument_hint") {
            cmd.argument_hint = Some(val.clone());
        } else if str_eq(key, "allowed-tools") || str_eq(key, "allowed_tools") {
            cmd.allowed_tools = parse_list(val.as_str());
        } else if str_eq(key, "model") {
            cmd.model = Some(val.clone());
        }
        i += 1;
    }
    assert(pv.take(i as int) =~= pv);
    cmd
}

// ---------------------------------------------------------------------------------------------
// The name of a command
// ---------------------------------------------------------------------------------------------

/// The names of a path: its pieces between slashes, without empty ones and without `.` but at the
/// front of a relative path.
pub open spec fn path_names(pieces: Seq<Seq<char>>) -> Seq<Seq<char>>
    decreases pieces.len(),
{
    if pieces.len() == 0 {
        Seq::empty()
    } else {
        let before = path_names(pieces.drop_last());
        let p = pieces.last();
        if p.len() == 0 || (p == "."@ && pieces.len() > 1) {
            before
        } else {
            before.push(p)
        }
    }
}

/// A file's name without its extension.
pub open spec fn stem(name: Seq<char>) -> Seq<char> {
    let k = last_pos(name, '.');
    if name == ".."@ || k <= 0 {
        name
    } else {
        name.take(k)
    }
}

/// The names of `path` below `dir`; nothing where it is not below it.
pub open spec fn names_below(dir: Seq<char>, path: Seq<char>) -> Option<Seq<Seq<char>>> {
    let d = path_names(split_on(dir, '/'));
    let p = path_names(split_on(path, '/'));
    if starts_with(dir, "/"@) == starts_with(path, "/"@) && d.len() <= p.len() && p.take(
        d.len() as int,
    ) == d {
        Some(p.skip(d.len() as int))
    } else {
        None
    }
}

/// The name of the command in the file `path` below `dir`: the names of its directories and its
/// stem, with colons between them.
pub open spec fn name_of_command(dir: Seq<char>, path: Seq<char>) -> Option<Seq<char>> {
    match names_below(dir, path) {
        None => None,
        Some(names) => if names.len() == 0 {
            None
        } else {
            Some(join(names.drop_last().push(stem(names.last())), ":"@))
        },
    }
}

fn names_of(path: &str) -> (r: Vec<String>)
    ensures
        texts(r@) == path_names(split_on(path@, '/')),
{
    let pieces = split_str(path, '/');
    let ghost ps = texts(pieces@);
    let mut out: Vec<String> = Vec::new();
    assert(texts(out@) =~= Seq::<Seq<char>>::empty());
    assert(ps.take(0) =~= Seq::<Seq<char>>::empty());
    let mut i: usize = 0;
    while i < pieces.len()
        invariant
            i <= pieces@.len(),
            ps == texts(pieces@),
            texts(out@) == path_names(ps.take(i as int)),
        decreases pieces@.len() - i,
    {
        broadcast use texts_push;

        assert(ps.take(i + 1).drop_last() =~= ps.take(i as int));
        assert(ps.take(i + 1).last() == pieces@[i as int]@);
        let p = &pieces[i];
        if !(p.as_str().is_empty() || (str_eq(p.as_str(), ".") && i > 0)) {
            out.push(p.clone());
        }
        i += 1;
    }
    assert(ps.take(i as int) =~= ps);
    out
}

fn stem_of(name: &str) -> (r: String)
    ensures
        r@ == stem(name@),
{
    if str_eq(name, "..") {
        return name.to_owned();
    }
    let cs = chars_of(name);
    match last_pos_of(cs.as_slice(), '.') {
        Some(k) => if k == 0 {
            name.to_owned()
        } else {
            let r = string_of(slice_subrange(cs.as_slice(), 0, k));
            assert(r@ =~= name@.take(k as int));
            r
        },
        None => name.to_owned(),
    }
}

/// The name of the command in the file `path` below `dir`.
pub fn command_name(dir: &str, path: &str) -> (r: Option<String>)
    ensures
        opt_text(r) == name_of_command(dir@, path@),
{
    if has_prefix(dir, "/") != has_prefix(path, "/") {
        return None;
    }
    let d = names_of(dir);
    let p = names_of(path);
    let ghost dv = texts(d@);
    let ghost pv = texts(p@);
    assert(dv.len() == d@.len() && pv.len() == p@.len());
    if d.len() > p.len() {
        return None;
    }
    let mut i: usize = 0;
    while i < d.len()
        invariant
            i <= d@.len() <= p@.len(),
            dv == texts(d@),
            pv == texts(p@),
            dv == path_names(split_on(dir@, '/')),
            pv == path_names(split_on(path@, '/')),
            forall|j: int| 0 <= j < i ==> dv[j] == pv[j],
        decreases d@.len() - i,
    {
        assert(dv[i as int] == d@[i as int]@);
        assert(pv[i as int] == p@[i as int]@);
        if !str_eq(d[i].as_str(), p[i].as_str()) {
            assert(pv.take(dv.len() as int)[i as int] != dv[i as int]);
            return None;
        }
        i += 1;
    }
    assert(pv.take(dv.len() as int) =~= dv);
    if p.len() == d.len() {
        return None;
    }
    let ghost rel = pv.skip(dv.len() as int);
    let mut parts: Vec<String> = Vec::new();
    let mut k: usize = d.len();
    assert(texts(parts@) =~= rel.take(0));
    while k < p.len() - 1
        invariant
            d@.len() <= k < p@.len(),
            dv.len() == d@.len(),
            pv == texts(p@),
            rel == pv.skip(dv.len() as int),
            texts(parts@) == rel.take(k - dv.len()),
        decreases p@.len() - k,
    {
        broadcast use texts_push;

        parts.push(p[k].clone());
        assert(rel.take(k + 1 - dv.len()) =~= rel.take(k - dv.len()).push(p@[k as int]@));
        k += 1;
    }
    let last = stem_of(p[p.len() - 1].as_str());
    assert(rel.last() == p@[p@.len() - 1]@);
    let ghost before = texts(parts@);
    let ghost lv = last@;
    parts.push(last);
    assert(texts(parts@) =~= before.push(lv));
    assert(before =~= rel.drop_last());
    Some(join_strings(&parts, ":"))
}

// ---------------------------------------------------------------------------------------------
// All commands
// ---------------------------------------------------------------------------------------------

/// The commands with one command more, in the order of their names; a command of the same name is
/// replaced.
pub open spec fn inserted(cs: Seq<CommandView>, c: CommandView) -> Seq<CommandView>
    decreases cs.len(),
{
    if cs.len() == 0 {
        seq![c]
    } else if before(c.name, cs[0].name) {
        seq![c] + cs
    } else if c.name == cs[0].name {
        seq![c] + cs.skip(1)
    } else {
        seq![cs[0]] + inserted(cs.skip(1), c)
    }
}

/// The commands in the order of their names, the last of a name holding.
pub open spec fn merged(cs: Seq<CommandView>) -> Seq<CommandView>
    decreases cs.len(),
{
    if cs.len() == 0 {
        Seq::empty()
    } else {
        inserted(merged(cs.drop_last()), cs.last())
    }
}

/// The commands stand in the order of their names, each name once.
pub open spec fn in_order(cs: Seq<CommandView>) -> bool
    decreases cs.len(),
{
    cs.len() < 2 || (before(cs[0].name, cs[1].name) && in_order(cs.skip(1)))
}

/// The command with the name.
pub open spec fn named(cs: Seq<CommandView>, name: Seq<char>) -> Option<CommandView>
    decreases cs.len(),
{
    if cs.len() == 0 {
        None
    } else if cs[0].name == name {
        Some(cs[0])
    } else {
        named(cs.skip(1), name)
    }
}

/// The last command with the name.
pub open spec fn last_named(cs: Seq<CommandView>, name: Seq<char>) -> Option<CommandView>
    decreases cs.len(),
{
    if cs.len() == 0 {
        None
    } else if cs.last().name == name {
        Some(cs.last())
    } else {
        last_named(cs.drop_last(), name)
    }
}

/// The position at which a command is put, and whether it replaces the one there.
spec fn slot(cs: Seq<CommandView>, name: Seq<char>, i: int) -> int
    decreases cs.len() - i,
{
    if i < 0 || i >= cs.len() {
        cs.len() as int
    } else if before(name, cs[i].name) || name == cs[i].name {
        i
    } else {
        slot(cs, name, i + 1)
    }
}

/// Inserting puts the command at its slot.
proof fn lemma_inserted(cs: Seq<CommandView>, c: CommandView)
    ensures
        ({
            let k = slot(cs, c.name, 0);
            &&& 0 <= k <= cs.len()
            &&& inserted(cs, c) == if k < cs.len() && cs[k].name == c.name {
                cs.take(k) + seq![c] + cs.skip(k + 1)
            } else {
                cs.take(k) + seq![c] + cs.skip(k)
            }
        }),
    decreases cs.len(),
{
    if cs.len() == 0 {
        assert(inserted(cs, c) =~= cs.take(0) + seq![c] + cs.skip(0));
    } else if before(c.name, cs[0].name) {
        lemma_before_total(c.name, cs[0].name);
        assert(inserted(cs, c) =~= cs.take(0) + seq![c] + cs.skip(0));
    } else if c.name == cs[0].name {
        assert(inserted(cs, c) =~= cs.take(0) + seq![c] + cs.skip(1));
    } else {
        let rest = cs.skip(1);
        lemma_inserted(rest, c);
        lemma_slot_shift(cs, c.name, 1);
        let k = slot(rest, c.name, 0);
        assert(slot(cs, c.name, 0) == k + 1);
        if k < rest.len() && rest[k].name == c.name {
            assert(seq![cs[0]] + (rest.take(k) + seq![c] + rest.skip(k + 1)) =~= cs.take(k + 1)
                + seq![c] + cs.skip(k + 2));
        } else {
            assert(seq![cs[0]] + (rest.take(k) + seq![c] + rest.skip(k)) =~= cs.take(k + 1)
                + seq![c] + cs.skip(k + 1));
        }
    }
}

proof fn lemma_slot_shift(cs: Seq<CommandView>, name: Seq<char>, i: int)
    requires
        1 <= i <= cs.len(),
    ensures
        slot(cs, name, i) == slot(cs.skip(1), name, i - 1) + 1,
        i <= slot(cs, name, i) <= cs.len(),
    decreases cs.len() - i,
{
    if i < cs.len() {
        assert(cs.skip(1)[i - 1] == cs[i]);
        if !(before(name, cs[i].name) || name == cs[i].name) {
            lemma_slot_shift(cs, name, i + 1);
        }
    }
}

/// Inserting keeps the order.
proof fn lemma_inserted_order(cs: Seq<CommandView>, c: CommandView)
    requires
        in_order(cs),
    ensures
        in_order(inserted(cs, c)),
        inserted(cs, c).len() > 0,
        inserted(cs, c)[0] == c || (cs.len() > 0 && inserted(cs, c)[0] == cs[0]),
    decreases cs.len(),
{
    let r = inserted(cs, c);
    if cs.len() == 0 {
    } else if before(c.name, cs[0].name) {
        assert(r.skip(1) =~= cs);
    } else if c.name == cs[0].name {
        assert(r.skip(1) =~= cs.skip(1));
    } else {
        lemma_inserted_order(cs.skip(1), c);
        lemma_before_total(c.name, cs[0].name);
        assert(r.skip(1) =~= inserted(cs.skip(1), c));
    }
}

/// After inserting, the command stands under its name, and every other name keeps what it had.
proof fn lemma_inserted_named(cs: Seq<CommandView>, c: CommandView, name: Seq<char>)
    ensures
        named(inserted(cs, c), name) == if name == c.name {
            Some(c)
        } else {
            named(cs, name)
        },
    decreases cs.len(),
{
    let r = inserted(cs, c);
    if cs.len() == 0 {
        assert(r.skip(1) =~= cs);
    } else if before(c.name, cs[0].name) {
        assert(r.skip(1) =~= cs);
    } else if c.name == cs[0].name {
        assert(r.skip(1) =~= cs.skip(1));
    } else {
        lemma_inserted_named(cs.skip(1), c, name);
        assert(r.skip(1) =~= inserted(cs.skip(1), c));
    }
}

/// Puts a command into its place.
fn insert_command(cs: &mut Vec<SlashCommand>, c: SlashCommand)
    ensures
        command_views(final(cs)@) == inserted(command_views(old(cs)@), c@),
{
    let ghost cv = command_views(cs@);
    let ghost c0 = c@;
    let mut k: usize = 0;
    while k < cs.len()
        invariant
            k <= cs@.len(),
            cv == command_views(old(cs)@),
            cv == command_views(cs@),
            c@ == c0,
            slot(cv, c0.name, 0) == slot(cv, c0.name, k as int),
        decreases cs@.len() - k,
    {
        assert(cv[k as int] == cs@[k as int]@);
        proof {
            lemma_inserted(cv, c0);
            lemma_before_total(c0.name, cv[k as int].name);
        }
        if str_eq(c.name.as_str(), cs[k].name.as_str()) {
            cs.set(k, c);
            assert(command_views(cs@) =~= cv.take(k as int) + seq![c0] + cv.skip(k + 1));
            return;
        }
        if comes_before(c.name.as_str(), cs[k].name.as_str()) {
            cs.insert(k, c);
            assert(command_views(cs@) =~= cv.take(k as int) + seq![c0] + cv.skip(k as int));
            return;
        }
        k += 1;
    }
    proof {
        lemma_inserted(cv, c0);
    }
    cs.push(c);
    assert(command_views(cs@) =~= cv.take(k as int) + seq![c0] + cv.skip(k as int));
}

/// All commands, in the order of their names: the user's, and the project's in their stead where
/// both have one.
pub fn discover(user: Vec<SlashCommand>, project: Vec<SlashCommand>) -> (r: Vec<SlashCommand>)
    ensures
        command_views(r@) == merged(command_views(user@) + command_views(project@)),
{
    let ghost uv = command_views(user@);
    let ghost pv = command_views(project@);
    let ghost all = uv + pv;
    let mut out: Vec<SlashCommand> = Vec::new();
    assert(command_views(out@) =~= Seq::<CommandView>::empty());
    assert(all.take(0) =~= Seq::<CommandView>::empty());
    for c in it: user
        invariant
            uv == command_views(it.seq()),
            all == uv + pv,
            command_views(out@) == merged(all.take(it.index())),
    {
        let ghost i = it.index();
        assert(all.take(i + 1).drop_last() =~= all.take(i));
        assert(all.take(i + 1).last() == c@);
        insert_command(&mut out, c);
    }
    for c in it: project
        invariant
            pv == command_views(it.seq()),
            all == uv + pv,
            command_views(out@) == merged(all.take(uv.len() + it.index())),
    {
        let ghost i = it.index();
        assert(all.take(uv.len() + i + 1).drop_last() =~= all.take(uv.len() + i));
        assert(all.take(uv.len() + i + 1).last() == c@);
        insert_command(&mut out, c);
    }
    assert(all.take(all.len() as int) =~= all);
    out
}

/// The merged commands stand in the order of their names, each name once, and of several commands
/// with one name the last is kept.
pub proof fn law_merged(cs: Seq<CommandView>, name: Seq<char>)
    ensures
        in_order(merged(cs)),
        named(merged(cs), name) == last_named(cs, name),
    decreases cs.len(),
{
    if cs.len() > 0 {
        law_merged(cs.drop_last(), name);
        lemma_inserted_order(merged(cs.drop_last()), cs.last());
        lemma_inserted_named(merged(cs.drop_last()), cs.last(), name);
    }
}

/// A project's command holds over the user's command of the same name.
pub proof fn law_project_overrides_user(
    user: Seq<CommandView>,
    project: Seq<CommandView>,
    name: Seq<char>,
)
    ensures
        named(merged(user + project), name) == match last_named(project, name) {
            Some(c) => Some(c),
            None => last_named(user, name),
        },
    decreases project.len(),
{
    law_merged(user + project, name);
    if project.len() == 0 {
        assert(user + project =~= user);
    } else {
        assert((user + project).drop_last() =~= user + project.drop_last());
        law_merged(user + project.drop_last(), name);
        law_project_overrides_user(user, project.drop_last(), name);
    }
}

// ---------------------------------------------------------------------------------------------
// What a command file says
// ---------------------------------------------------------------------------------------------

/// A head is opened by a line of three dashes at the very front, and by nothing else.
pub proof fn law_head_opened(rest: Seq<char>, s: Seq<char>)
    ensures
        after_opening("---\n"@ + rest) == Some(rest),
        after_opening("---\r\n"@ + rest) == Some(rest),
        after_opening(s) matches Some(r) ==> s == "---\n"@ + r || s == "---\r\n"@ + r,
        without_bom("\u{feff}"@ + rest) == rest,
        !starts_with(s, "\u{feff}"@) ==> without_bom(s) == s,
{
    law_affixes(Seq::empty(), "---\n"@, rest, s);
    law_affixes(Seq::empty(), "---\r\n"@, rest, s);
    law_affixes(Seq::empty(), "\u{feff}"@, rest, s);
    reveal_strlit("---\n");
    reveal_strlit("---\r\n");
    let t = "---\r\n"@ + rest;
    assert(!starts_with(t, "---\n"@)) by {
        if starts_with(t, "---\n"@) {
            assert(t.subrange(0, 4)[3] == t[3]);
        }
    }
    assert(("\u{feff}"@ + rest).skip("\u{feff}"@.len() as int) =~= rest);
}

/// The head goes on line by line until a line of three dashes: each line with a colon gives a setting, its name
/// and its value, in the order of the lines, other lines none; what follows the dashes is the body.
pub proof fn law_head_read(line: Seq<char>, rest: Seq<char>)
    requires
        !line.contains('\n'),
    ensures
        trim(line.push('\n')) == "---"@ ==> head_of(line + seq!['\n'] + rest) == Some(
            (Seq::<(Seq<char>, Seq<char>)>::empty(), rest),
        ),
        trim(line.push('\n')) != "---"@ && head_of(rest) is None ==> head_of(line + seq!['\n'] + rest) is None,
        trim(line.push('\n')) != "---"@ ==> (head_of(rest) matches Some((more, body)) ==> head_of(
            line + seq!['\n'] + rest,
        ) == Some(
            (
                (match split_once(line.push('\n'), ':') {
                    Some((k, v)) => seq![(trim(k), bare(v))],
                    None => Seq::empty(),
                }) + more,
                body,
            ),
        )),
        head_of(Seq::empty()) is None,
{
    let s = line + seq!['\n'] + rest;
    lemma_pos_from(s, '\n', 0);
    let n = line.len() as int;
    assert(s[n] == '\n');
    let k = pos(s, '\n');
    if k < n {
        assert(line[k] == s[k]);
    }
    assert(line_end(s) == n + 1);
    assert(s.take(n + 1) =~= line.push('\n'));
    assert(s.skip(n + 1) =~= rest);
    if let Some((more, body)) = head_of(rest) {
        assert(Seq::<(Seq<char>, Seq<char>)>::empty() + more =~= more);
    }
}

/// A text without a head that is opened and ended has no settings and is all body.
pub proof fn law_front_and_body(raw: Seq<char>)
    ensures
        ({
            let s = without_bom(raw);
            let r = front_and_body(raw);
            &&& after_opening(s) is None ==> r == (Seq::<(Seq<char>, Seq<char>)>::empty(), s)
            &&& after_opening(s) matches Some(rest) ==> (head_of(rest) is None ==> r == (
                Seq::<(Seq<char>, Seq<char>)>::empty(),
                s,
            ))
            &&& after_opening(s) matches Some(rest) ==> (head_of(rest) matches Some(h) ==> r == h)
        }),
{
}

/// A value is its text without the white space and the quotation marks around it.
pub proof fn law_value_unquoted(s: Seq<char>)
    ensures
        ({
            let t = trim(s);
            let b = bare(s);
            &&& b.len() > 0 ==> b[0] != '"' && b[0] != '\'' && b.last() != '"' && b.last() != '\''
            &&& exists|i: int, j: int|
                0 <= i <= j <= t.len() && b == #[trigger] t.subrange(i, j) && (forall|k: int|
                    0 <= k < t.len() && !(i <= k < j) ==> (#[trigger] t[k] == '"' || t[k] == '\''))
        }),
{
    let t = trim(s);
    let i = lemma_unquote_front(t);
    let r = t.skip(i);
    let j = lemma_unquote_back(r);
    assert(r.take(j) =~= t.subrange(i, i + j));
    assert forall|k: int| 0 <= k < t.len() && !(i <= k < i + j) implies (#[trigger] t[k] == '"' || t[k]
        == '\'') by {
        if k >= i + j {
            assert(is_quote(r[k - i]));
        } else {
            assert(is_quote(t[k]));
        }
    }
    if j > 0 {
        assert(r[0] == t[i]);
    }
}

proof fn lemma_unquote_front(s: Seq<char>) -> (i: int)
    ensures
        0 <= i <= s.len(),
        unquote_front(s) == s.skip(i),
        forall|k: int| 0 <= k < i ==> is_quote(#[trigger] s[k]),
        i < s.len() ==> !is_quote(s[i]),
    decreases s.len(),
{
    if s.len() > 0 && is_quote(s[0]) {
        let t = s.skip(1);
        let i = lemma_unquote_front(t);
        assert(t.skip(i) =~= s.skip(i + 1));
        assert forall|k: int| 0 <= k < i + 1 implies is_quote(#[trigger] s[k]) by {
            if k > 0 {
                assert(is_quote(t[k - 1]));
            }
        }
        i + 1
    } else {
        assert(s.skip(0) =~= s);
        0
    }
}

proof fn lemma_unquote_back(s: Seq<char>) -> (j: int)
    ensures
        0 <= j <= s.len(),
        unquote_back(s) == s.take(j),
        forall|k: int| j <= k < s.len() ==> is_quote(#[trigger] s[k]),
        j > 0 ==> !is_quote(s[j - 1]),
    decreases s.len(),
{
    if s.len() > 0 && is_quote(s.last()) {
        let t = s.drop_last();
        let j = lemma_unquote_back(t);
        assert(t.take(j) =~= s.take(j));
        assert forall|k: int| j <= k < s.len() implies is_quote(#[trigger] s[k]) by {
            if k < t.len() {
                assert(is_quote(t[k]));
            }
        }
        j
    } else {
        assert(s.take(s.len() as int) =~= s);
        s.len() as int
    }
}

/// A list stands between commas, perhaps in brackets; its items are the pieces without white space and quotation
/// marks around them, those that are not empty, in their order.
pub proof fn law_list_items(pieces: Seq<Seq<char>>, p: Seq<char>, inner: Seq<char>)
    ensures
        items_of(pieces.push(p)) == (if bare(p).len() == 0 {
            items_of(pieces)
        } else {
            items_of(pieces).push(bare(p))
        }),
        items_of(Seq::empty()).len() == 0,
        unbracketed(seq!['['] + inner + seq![']']) == inner,
        inner.len() == 0 || inner[0] != '[' || inner.last() != ']' ==> unbracketed(inner) == inner,
        list_of(inner) == items_of(split_on(unbracketed(trim(inner)), ',')),
{
    assert(pieces.push(p).drop_last() =~= pieces);
    let s = seq!['['] + inner + seq![']'];
    assert(s.subrange(1, s.len() - 1) =~= inner);
}

/// A command has its name, the body of its file without the white space around it, and what its settings say;
/// of two settings for one thing the later holds, and settings that are not known say nothing.
pub proof fn law_command_settings(
    c: CommandView,
    ps: Seq<(Seq<char>, Seq<char>)>,
    key: Seq<char>,
    v: Seq<char>,
)
    ensures
        ({
            let b = with_settings(c, ps);
            let u = with_settings(c, ps.push((key, v)));
            &&& key == "description"@ ==> u == (CommandView { description: Some(v), ..b })
            &&& key == "argument-hint"@ || key == "argument_hint"@ ==> u == (CommandView {
                argument_hint: Some(v),
                ..b
            })
            &&& key == "allowed-tools"@ || key == "allowed_tools"@ ==> u == (CommandView {
                allowed_tools: list_of(v),
                ..b
            })
            &&& key == "model"@ ==> u == (CommandView { model: Some(v), ..b })
            &&& key != "description"@ && key != "argument-hint"@ && key != "argument_hint"@ && key
                != "allowed-tools"@ && key != "allowed_tools"@ && key != "model"@ ==> u == b
            &&& with_settings(c, Seq::empty()) == c
        }),
{
    assert(ps.push((key, v)).drop_last() =~= ps);
    reveal_strlit("description");
    reveal_strlit("argument-hint");
    reveal_strlit("argument_hint");
    reveal_strlit("allowed-tools");
    reveal_strlit("allowed_tools");
    reveal_strlit("model");
    assert("description"@.len() == 11 && "model"@.len() == 5);
    assert("argument-hint"@[1] == 'r' && "argument_hint"@[1] == 'r');
    assert("allowed-tools"@[1] == 'l' && "allowed_tools"@[1] == 'l');
}

/// A command that is read from a file keeps its name and scope, and its body is that of the file; the settings
/// touch neither.
pub proof fn law_command_read(name: Seq<char>, raw: Seq<char>, scope: Scope)
    ensures
        command_of(name, raw, scope).name == name,
        command_of(name, raw, scope).scope == scope,
        command_of(name, raw, scope).body == trim(front_and_body(raw).1),
        front_and_body(raw).0.len() == 0 ==> command_of(name, raw, scope) == (CommandView {
            name,
            description: None,
            argument_hint: None,
            allowed_tools: Seq::empty(),
            model: None,
            body: trim(front_and_body(raw).1),
            scope,
        }),
        command_of(name, raw, scope) == with_settings(
            CommandView {
                name,
                description: None,
                argument_hint: None,
                allowed_tools: Seq::empty(),
                model: None,
                body: trim(front_and_body(raw).1),
                scope,
            },
            front_and_body(raw).0,
        ),
{
    lemma_settings_keep(
        plain_command(name, trim(front_and_body(raw).1), scope),
        front_and_body(raw).0,
    );
}

proof fn lemma_settings_keep(c: CommandView, ps: Seq<(Seq<char>, Seq<char>)>)
    ensures
        with_settings(c, ps).name == c.name,
        with_settings(c, ps).scope == c.scope,
        with_settings(c, ps).body == c.body,
    decreases ps.len(),
{
    if ps.len() > 0 {
        lemma_settings_keep(c, ps.drop_last());
    }
}

/// A command is named after its file without the ending, and after the directories in which it lies, with colons
/// between them.
pub proof fn law_command_named(dir: Seq<char>, path: Seq<char>, names: Seq<Seq<char>>, n: Seq<char>)
    requires
        names_below(dir, path) == Some(names),
    ensures
        names.len() == 0 ==> name_of_command(dir, path) is None,
        names.len() > 0 ==> name_of_command(dir, path) == Some(
            join(names.take(names.len() - 1) + seq![stem(names.last())], seq![':']),
        ),
        n.len() > 0 && !n.contains('.') ==> stem(n + seq!['.', 'm', 'd']) == n && stem(n) == n,
{
    reveal_strlit(":");
    assert(":"@ =~= seq![':']);
    if names.len() > 0 {
        assert(names.drop_last().push(stem(names.last())) =~= names.take(names.len() - 1) + seq![
            stem(names.last()),
        ]);
    }
    if n.len() > 0 && !n.contains('.') {
        let s = n + seq!['.', 'm', 'd'];
        let k = n.len() as int;
        reveal_with_fuel(last_pos_before, 4);
        assert(s[k] == '.' && s[k + 1] == 'm' && s[k + 2] == 'd');
        assert(last_pos(s, '.') == k);
        assert(s.take(k) =~= n);
        reveal_strlit("..");
        assert(s.len() > 2);
        lemma_no_last_pos(n, '.', n.len() as int);
    }
}

proof fn lemma_no_last_pos(s: Seq<char>, c: char, n: int)
    requires
        0 <= n <= s.len(),
        !s.contains(c),
    ensures
        last_pos_before(s, c, n) == -1,
    decreases n,
{
    if n > 0 {
        assert(s.contains(s[n - 1]));
        lemma_no_last_pos(s, c, n - 1);
    }
}

/// A path lies below a directory where it begins with the same names; what is left of its names is its place
/// there. Empty names and dots do not count.
pub proof fn law_names_below(dir: Seq<char>, path: Seq<char>, pieces: Seq<Seq<char>>, p: Seq<char>)
    ensures
        names_below(dir, path) is Some <==> starts_with(dir, "/"@) == starts_with(path, "/"@)
            && path_names(split_on(dir, '/')).is_prefix_of(path_names(split_on(path, '/'))),
        names_below(dir, path) matches Some(rest) ==> path_names(split_on(path, '/')) == path_names(
            split_on(dir, '/'),
        ) + rest,
        path_names(pieces.push(p)) == (if p.len() == 0 || (p == "."@ && pieces.len() > 0) {
            path_names(pieces)
        } else {
            path_names(pieces).push(p)
        }),
        path_names(Seq::empty()).len() == 0,
{
    let d = path_names(split_on(dir, '/'));
    let q = path_names(split_on(path, '/'));
    assert(pieces.push(p).drop_last() =~= pieces);
    if d.is_prefix_of(q) {
        assert(q.take(d.len() as int) =~= d);
    }
    if d.len() <= q.len() && q.take(d.len() as int) == d {
        assert(q =~= d + q.skip(d.len() as int));
    }
}

/// The last command of a name is the one that counts.
pub proof fn law_last_of_a_name(cs: Seq<CommandView>, c: CommandView, name: Seq<char>)
    ensures
        last_named(cs.push(c), name) == (if c.name == name {
            Some(c)
        } else {
            last_named(cs, name)
        }),
        last_named(Seq::empty(), name) is None,
        named(seq![c] + cs, name) == (if c.name == name {
            Some(c)
        } else {
            named(cs, name)
        }),
        named(Seq::empty(), name) is None,
{
    assert(cs.push(c).drop_last() =~= cs);
    assert((seq![c] + cs).skip(1) =~= cs);
}

} // verus!
