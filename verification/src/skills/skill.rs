//! Skill files, the catalogue of skills, and the tool that loads one.

use crate::config::paths::{join_path, joined};
use crate::json::{text_member, Json, JsonView};
use crate::order::{before, comes_before, lemma_before_total, lemma_before_trans};
use crate::registry::resolve::{law_split_once, split_once, split_once_at};
use crate::split::{
    lines, split_lines, split_on, split_str, trim, trim_end, trim_end_str, trim_str,
};
use crate::text::{opt_text, str_eq, strip_prefix, texts, texts_push};
use crate::commands::loader::after_opening;
use crate::tools::args::ToolResult;
use vstd::prelude::*;

verus! {

/// What is known of a skill without loading it.
#[derive(Debug)]
pub struct SkillMeta {
    pub name: String,
    pub description: String,
    /// The tools that it is meant to use.
    pub allowed_tools: Vec<String>,
}

/// What a `SkillMeta` holds.
pub struct SkillMetaView {
    pub name: Seq<char>,
    pub description: Seq<char>,
    pub allowed_tools: Seq<Seq<char>>,
}

impl View for SkillMeta {
    type V = SkillMetaView;

    open spec fn view(&self) -> SkillMetaView {
        SkillMetaView {
            name: self.name@,
            description: self.description@,
            allowed_tools: texts(self.allowed_tools@),
        }
    }
}

/// The views of a list of skills.
pub open spec fn skill_views(v: Seq<SkillMeta>) -> Seq<SkillMetaView> {
    v.map_values(|m: SkillMeta| m@)
}

/// A skill with its instructions.
#[derive(Debug)]
pub struct Skill {
    pub meta: SkillMeta,
    pub body: String,
}

// ---------------------------------------------------------------------------------------------
// A skill file
// ---------------------------------------------------------------------------------------------

/// The line closes the head of a file.
pub open spec fn closes_head(line: Seq<char>) -> bool {
    trim_end(line) == "---"@
}

/// The position of the first line at or after `i` that closes the head.
pub open spec fn closing_from(ls: Seq<Seq<char>>, i: int) -> int
    decreases ls.len() - i,
{
    if i < 0 || i >= ls.len() {
        ls.len() as int
    } else if closes_head(ls[i]) {
        i
    } else {
        closing_from(ls, i + 1)
    }
}

/// The lines, each with a line feed behind it.
pub open spec fn lines_text(ls: Seq<Seq<char>>) -> Seq<char>
    decreases ls.len(),
{
    if ls.len() == 0 {
        Seq::empty()
    } else {
        lines_text(ls.drop_last()) + ls.last() + "\n"@
    }
}

/// The words between commas, without the empty ones.
pub open spec fn tool_names(pieces: Seq<Seq<char>>) -> Seq<Seq<char>>
    decreases pieces.len(),
{
    if pieces.len() == 0 {
        Seq::empty()
    } else if trim(pieces.last()).len() == 0 {
        tool_names(pieces.drop_last())
    } else {
        tool_names(pieces.drop_last()).push(trim(pieces.last()))
    }
}

/// What the head of a skill file says so far.
pub struct HeadView {
    pub name: Option<Seq<char>>,
    pub description: Seq<char>,
    pub allowed_tools: Seq<Seq<char>>,
}

/// The head with one line more; a line without a colon or with an unknown key says nothing.
pub open spec fn head_step(h: HeadView, line: Seq<char>) -> HeadView {
    match split_once(line, ':') {
        None => h,
        Some((k, v)) => if trim(k) == "name"@ {
            HeadView { name: Some(trim(v)), ..h }
        } else if trim(k) == "description"@ {
            HeadView { description: trim(v), ..h }
        } else if trim(k) == "allowed-tools"@ {
            HeadView { allowed_tools: tool_names(split_on(trim(v), ',')), ..h }
        } else {
            h
        },
    }
}

/// What the lines of a head say.
pub open spec fn head_says(ls: Seq<Seq<char>>) -> HeadView
    decreases ls.len(),
{
    if ls.len() == 0 {
        HeadView { name: None, description: Seq::empty(), allowed_tools: Seq::empty() }
    } else {
        head_step(head_says(ls.drop_last()), ls.last())
    }
}

/// The skill that a file describes: its head must be closed and name the skill.
pub open spec fn skill_of(raw: Seq<char>) -> Option<(SkillMetaView, Seq<char>)> {
    match after_opening(raw) {
        None => None,
        Some(rest) => {
            let ls = lines(rest);
            let k = closing_from(ls, 0);
            if k >= ls.len() {
                None
            } else {
                let h = head_says(ls.take(k));
                match h.name {
                    Some(n) => if n.len() == 0 {
                        None
                    } else {
                        Some(
                            (
                                SkillMetaView {
                                    name: n,
                                    description: h.description,
                                    allowed_tools: h.allowed_tools,
                                },
                                trim_end(lines_text(ls.skip(k + 1))),
                            ),
                        )
                    },
                    None => None,
                }
            }
        },
    }
}

fn tool_list(val: &str) -> (r: Vec<String>)
    ensures
        texts(r@) == tool_names(split_on(val@, ',')),
{
    let pieces = split_str(val, ',');
    let ghost ps = texts(pieces@);
    let mut out: Vec<String> = Vec::new();
    assert(texts(out@) =~= Seq::<Seq<char>>::empty());
    assert(ps.take(0) =~= Seq::<Seq<char>>::empty());
    let mut i: usize = 0;
    while i < pieces.len()
        invariant
            i <= pieces@.len(),
            ps == texts(pieces@),
            texts(out@) == tool_names(ps.take(i as int)),
        decreases pieces@.len() - i,
    {
        broadcast use texts_push;

        assert(ps.take(i + 1).drop_last() =~= ps.take(i as int));
        assert(ps.take(i + 1).last() == pieces@[i as int]@);
        let t = trim_str(pieces[i].as_str());
        if !t.as_str().is_empty() {
            out.push(t);
        }
        i += 1;
    }
    assert(ps.take(i as int) =~= ps);
    out
}

fn text_from(ls: &Vec<String>, from: usize) -> (r: String)
    requires
        from <= ls@.len(),
    ensures
        r@ == lines_text(texts(ls@).skip(from as int)),
{
    let ghost tail = texts(ls@).skip(from as int);
    let mut out = String::new();
    let mut i: usize = from;
    assert(tail.take(0) =~= Seq::<Seq<char>>::empty());
    while i < ls.len()
        invariant
            from <= i <= ls@.len(),
            tail == texts(ls@).skip(from as int),
            out@ == lines_text(tail.take(i - from)),
        decreases ls@.len() - i,
    {
        assert(tail.take(i - from + 1).drop_last() =~= tail.take(i - from));
        assert(tail.take(i - from + 1).last() == ls@[i as int]@);
        out.append(ls[i].as_str());
        out.append("\n");
        i += 1;
    }
    assert(tail.take(i - from) =~= tail);
    out
}

/// The skill that a file describes.
pub fn parse_skill_md(raw: &str) -> (r: Option<(SkillMeta, String)>)
    ensures
        match r {
            Some((m, b)) => skill_of(raw@) == Some((m@, b@)),
            None => skill_of(raw@) is None,
        },
{
    let opened = match strip_prefix(raw, "---\n") {
        Some(r) => Some(r),
        None => strip_prefix(raw, "---\r\n"),
    };
    assert(opt_text(opened) == after_opening(raw@));
    let rest = match opened {
        Some(r) => r,
        None => {
            return None;
        },
    };
    let ls = split_lines(rest.as_str());
    let ghost lv = texts(ls@);
    let mut name: Option<String> = None;
    let mut description = String::new();
    let mut allowed_tools: Vec<String> = Vec::new();
    assert(texts(allowed_tools@) =~= Seq::<Seq<char>>::empty());
    assert(lv.take(0) =~= Seq::<Seq<char>>::empty());
    assert(lv.len() == ls@.len());
    let mut k: usize = 0;
    let mut closed = false;
    while k < ls.len() && !closed
        invariant
            k <= ls@.len(),
            lv == texts(ls@),
            lv.len() == ls@.len(),
            closing_from(lv, 0) == closing_from(lv, k as int),
            closed ==> k < ls@.len() && closes_head(lv[k as int]),
            head_says(lv.take(k as int)) == (HeadView {
                name: opt_text(name),
                description: description@,
                allowed_tools: texts(allowed_tools@),
            }),
        decreases ls@.len() - k + if closed { 0int } else { 1int },
    {
        assert(lv[k as int] == ls@[k as int]@);
        if str_eq(trim_end_str(ls[k].as_str()).as_str(), "---") {
            closed = true;
        } else {
            assert(lv.take(k + 1).drop_last() =~= lv.take(k as int));
            assert(lv.take(k + 1).last() == ls@[k as int]@);
            match split_once_at(ls[k].as_str(), ':') {
                Some((key, val)) => {
                    let key = trim_str(key.as_str());
                    let val = trim_str(val.as_str());
                    if str_eq(key.as_str(), "name") {
                        name = Some(val);
                    } else if str_eq(key.as_str(), "description") {
                        description = val;
                    } else if str_eq(key.as_str(), "allowed-tools") {
                        allowed_tools = tool_list(val.as_str());
                    }
                },
                None => {},
            }
            k += 1;
        }
    }
    if !closed {
        return None;
    }
    match name {
        Some(n) => if n.as_str().is_empty() {
            None
        } else {
            let body = text_from(&ls, k + 1);
            Some((SkillMeta { name: n, description, allowed_tools }, trim_end_str(body.as_str())))
        },
        None => None,
    }
}

/// The skill in a file that was read; nothing where the file could not be read or describes none.
pub fn load(raw: Option<String>) -> (r: Option<Skill>)
    ensures
        match r {
            Some(s) => raw is Some && skill_of(raw->0@) == Some((s.meta@, s.body@)),
            None => raw is None || skill_of(raw->0@) is None,
        },
{
    match raw {
        Some(t) => match parse_skill_md(t.as_str()) {
            Some((meta, body)) => Some(Skill { meta, body }),
            None => None,
        },
        None => None,
    }
}

/// The file of a skill.
pub fn skill_file(dir: &str, name: &str) -> (r: String)
    ensures
        r@ == joined(joined(dir@, name@), "SKILL.md"@),
{
    let d = join_path(dir, name);
    join_path(d.as_str(), "SKILL.md")
}

// ---------------------------------------------------------------------------------------------
// All skills
// ---------------------------------------------------------------------------------------------

/// The first position at or after `i` whose skill comes after the name.
pub open spec fn skill_slot(s: Seq<SkillMetaView>, name: Seq<char>, i: int) -> int
    decreases s.len() - i,
{
    if i < 0 || i >= s.len() {
        s.len() as int
    } else if before(name, s[i].name) {
        i
    } else {
        skill_slot(s, name, i + 1)
    }
}

/// The skills in the order of their names; skills of one name keep their order.
pub open spec fn skills_sorted(s: Seq<SkillMetaView>) -> Seq<SkillMetaView>
    decreases s.len(),
{
    if s.len() == 0 {
        Seq::empty()
    } else {
        let done = skills_sorted(s.drop_last());
        done.insert(skill_slot(done, s.last().name, 0), s.last())
    }
}

/// The skills that the files describe.
pub open spec fn skills_in(files: Seq<Seq<char>>) -> Seq<SkillMetaView>
    decreases files.len(),
{
    if files.len() == 0 {
        Seq::empty()
    } else {
        match skill_of(files.last()) {
            Some((m, _)) => skills_in(files.drop_last()).push(m),
            None => skills_in(files.drop_last()),
        }
    }
}

proof fn lemma_skill_slot(s: Seq<SkillMetaView>, name: Seq<char>, i: int)
    requires
        0 <= i <= s.len(),
    ensures
        i <= skill_slot(s, name, i) <= s.len(),
        skill_slot(s, name, i) < s.len() ==> before(name, s[skill_slot(s, name, i)].name),
        forall|j: int| i <= j < skill_slot(s, name, i) ==> !before(name, (#[trigger] s[j]).name),
    decreases s.len() - i,
{
    if i < s.len() && !before(name, s[i].name) {
        lemma_skill_slot(s, name, i + 1);
    }
}

fn insert_skill(v: &mut Vec<SkillMeta>, m: SkillMeta)
    ensures
        skill_views(final(v)@) == skill_views(old(v)@).insert(
            skill_slot(skill_views(old(v)@), m@.name, 0),
            m@,
        ),
{
    let ghost done = skill_views(v@);
    let mut k: usize = 0;
    while k < v.len() && !comes_before(m.name.as_str(), v[k].name.as_str())
        invariant
            k <= v@.len(),
            done == skill_views(v@),
            skill_slot(done, m@.name, 0) == skill_slot(done, m@.name, k as int),
        decreases v@.len() - k,
    {
        assert(done[k as int] == v@[k as int]@);
        k += 1;
    }
    assert(k < v@.len() ==> done[k as int] == v@[k as int]@);
    let ghost mv = m@;
    v.insert(k, m);
    assert(skill_views(v@) =~= done.insert(k as int, mv));
}

/// The skills that the files describe, in the order of their names.
pub fn discover(files: &Vec<String>) -> (r: Vec<SkillMeta>)
    ensures
        skill_views(r@) == skills_sorted(skills_in(texts(files@))),
{
    let ghost fs = texts(files@);
    let mut out: Vec<SkillMeta> = Vec::new();
    assert(skill_views(out@) =~= Seq::<SkillMetaView>::empty());
    assert(fs.take(0) =~= Seq::<Seq<char>>::empty());
    let mut i: usize = 0;
    while i < files.len()
        invariant
            i <= files@.len(),
            fs == texts(files@),
            skill_views(out@) == skills_sorted(skills_in(fs.take(i as int))),
        decreases files@.len() - i,
    {
        assert(fs.take(i + 1).drop_last() =~= fs.take(i as int));
        assert(fs.take(i + 1).last() == files@[i as int]@);
        match parse_skill_md(files[i].as_str()) {
            Some((m, _)) => {
                let ghost seen = skills_in(fs.take(i as int));
                assert(seen.push(m@).drop_last() =~= seen);
                insert_skill(&mut out, m);
            },
            None => {},
        }
        i += 1;
    }
    assert(fs.take(i as int) =~= fs);
    out
}

/// The sorted skills stand in the order of their names, and none is lost or added.
pub proof fn law_skills_sorted(s: Seq<SkillMetaView>)
    ensures
        skills_sorted(s).len() == s.len(),
        skills_sorted(s).to_multiset() == s.to_multiset(),
        forall|i: int, j: int|
            0 <= i < j < s.len() ==> !before(
                (#[trigger] skills_sorted(s)[j]).name,
                (#[trigger] skills_sorted(s)[i]).name,
            ),
    decreases s.len(),
{
    broadcast use vstd::seq_lib::group_to_multiset_ensures;

    if s.len() > 0 {
        let done = skills_sorted(s.drop_last());
        let x = s.last();
        law_skills_sorted(s.drop_last());
        lemma_skill_slot(done, x.name, 0);
        let k = skill_slot(done, x.name, 0);
        let r = done.insert(k, x);
        assert(s =~= s.drop_last().push(x));
        assert(r.to_multiset() =~= done.to_multiset().insert(x));
        assert forall|i: int, j: int| 0 <= i < j < s.len() implies !before(
            (#[trigger] r[j]).name,
            (#[trigger] r[i]).name,
        ) by {
            if i == k {
                let y = done[j - 1];
                assert(r[j] == y);
                lemma_before_total(x.name, done[k].name);
                if before(y.name, x.name) {
                    lemma_before_trans(y.name, x.name, done[k].name);
                    if j - 1 > k {
                        assert(!before(done[j - 1].name, done[k].name));
                    } else {
                        lemma_before_total(y.name, y.name);
                    }
                }
            } else if j == k {
                assert(r[i] == done[i]);
            } else {
                let a = if i < k {
                    i
                } else {
                    i - 1
                };
                let b = if j < k {
                    j
                } else {
                    j - 1
                };
                assert(r[i] == done[a] && r[j] == done[b]);
            }
        }
    }
}

/// One skill in the catalogue.
pub open spec fn catalog_line(m: SkillMetaView) -> Seq<char> {
    "- "@ + m.name + ": "@ + m.description + "\n"@
}

/// The catalogue up to the skills `ms`.
pub open spec fn catalog_lines(ms: Seq<SkillMetaView>) -> Seq<char>
    decreases ms.len(),
{
    if ms.len() == 0 {
        "可用 Skills（按需用 `skill` 工具传入对应 name 加载完整说明后再执行）：\n"@
    } else {
        catalog_lines(ms.drop_last()) + catalog_line(ms.last())
    }
}

/// The catalogue of skills; nothing where there are none.
pub open spec fn catalog(ms: Seq<SkillMetaView>) -> Seq<char> {
    if ms.len() == 0 {
        Seq::empty()
    } else {
        catalog_lines(ms)
    }
}

/// The catalogue of skills, as the model is told of it.
pub fn render_catalog(metas: &Vec<SkillMeta>) -> (r: String)
    ensures
        r@ == catalog(skill_views(metas@)),
{
    let ghost mv = skill_views(metas@);
    assert(mv.len() == metas@.len());
    if metas.len() == 0 {
        return String::new();
    }
    let mut out = "可用 Skills（按需用 `skill` 工具传入对应 name 加载完整说明后再执行）：\n".to_owned();
    let mut i: usize = 0;
    assert(mv.take(0) =~= Seq::<SkillMetaView>::empty());
    while i < metas.len()
        invariant
            i <= metas@.len(),
            mv == skill_views(metas@),
            out@ == catalog_lines(mv.take(i as int)),
        decreases metas@.len() - i,
    {
        assert(mv.take(i + 1).drop_last() =~= mv.take(i as int));
        assert(mv.take(i + 1).last() == metas@[i as int]@);
        let mut l = "- ".to_owned();
        l.append(metas[i].name.as_str());
        l.append(": ");
        l.append(metas[i].description.as_str());
        l.append("\n");
        assert(l@ == catalog_line(metas@[i as int]@));
        out.append(l.as_str());
        i += 1;
    }
    assert(mv.take(i as int) =~= mv);
    out
}

// ---------------------------------------------------------------------------------------------
// The tool
// ---------------------------------------------------------------------------------------------

/// The tool that loads a skill.
#[derive(Debug)]
pub struct SkillTool {
    pub skills_dir: String,
}

/// The skill that a call asks for.
pub open spec fn asked_skill(args: JsonView) -> Option<Seq<char>> {
    match text_member(args, "name"@) {
        Some(n) => if n.len() == 0 {
            None
        } else {
            Some(n)
        },
        None => None,
    }
}

impl SkillTool {
    /// The tool for the skills in the directory.
    pub fn new(skills_dir: String) -> (r: SkillTool)
        ensures
            r.skills_dir@ == skills_dir@,
    {
        SkillTool { skills_dir }
    }

    /// The name of the skill that a call asks for, or the answer where it asks for none.
    pub fn asked(&self, args: &Json) -> (r: Result<String, ToolResult>)
        ensures
            match r {
                Ok(n) => asked_skill(args@) == Some(n@),
                Err(e) => asked_skill(args@) is None && !e.ok && e.content@
                    == "missing or non-string argument: name"@,
            },
    {
        match args.get_str("name") {
            Some(n) => if n.as_str().is_empty() {
                Err(ToolResult::err("missing or non-string argument: name".to_owned()))
            } else {
                Ok(n)
            },
            None => Err(ToolResult::err("missing or non-string argument: name".to_owned())),
        }
    }

    /// The file of the skill that a call asks for.
    pub fn file(&self, name: &str) -> (r: String)
        ensures
            r@ == joined(joined(self.skills_dir@, name@), "SKILL.md"@),
    {
        skill_file(self.skills_dir.as_str(), name)
    }

    /// The answer to a call: the instructions of the skill, or that there is no such skill. `raw` is
    /// the skill's file, where it could be read.
    pub fn answer(&self, name: &str, raw: Option<String>) -> (r: ToolResult)
        ensures
            match raw {
                Some(t) => match skill_of(t@) {
                    Some((_, body)) => r.ok && r.content@ == body,
                    None => !r.ok && r.content@ == "unknown skill: "@ + name@,
                },
                None => !r.ok && r.content@ == "unknown skill: "@ + name@,
            },
    {
        match load(raw) {
            Some(s) => ToolResult::ok(s.body),
            None => ToolResult::err("unknown skill: ".to_owned().concat(name)),
        }
    }
}

/// The head of a skill says each thing on a line of its own, a name, a colon and a value; of two lines with one
/// name the later holds, and lines with other names say nothing.
pub proof fn law_head_lines(ls: Seq<Seq<char>>, k: Seq<char>, v: Seq<char>)
    requires
        !k.contains(':'),
    ensures
        ({
            let h = head_says(ls);
            let u = head_says(ls.push(k + seq![':'] + v));
            &&& trim(k) == "name"@ ==> u == (HeadView { name: Some(trim(v)), ..h })
            &&& trim(k) == "description"@ ==> u == (HeadView { description: trim(v), ..h })
            &&& trim(k) == "allowed-tools"@ ==> u == (HeadView {
                allowed_tools: tool_names(split_on(trim(v), ',')),
                ..h
            })
            &&& trim(k) != "name"@ && trim(k) != "description"@ && trim(k) != "allowed-tools"@ ==> u == h
            &&& head_says(ls.push(k)) == h
        }),
        head_says(Seq::empty()) == (HeadView {
            name: None,
            description: Seq::empty(),
            allowed_tools: Seq::empty(),
        }),
{
    law_split_once(k, ':', v);
    assert(ls.push(k + seq![':'] + v).drop_last() =~= ls);
    assert(ls.push(k).drop_last() =~= ls);
    reveal_strlit("name");
    reveal_strlit("description");
    reveal_strlit("allowed-tools");
    assert("name"@.len() == 4 && "description"@.len() == 11 && "allowed-tools"@.len() == 13);
}

/// The tools of a skill are the pieces without the white space around them, those that are not empty, in their
/// order.
pub proof fn law_tool_names(pieces: Seq<Seq<char>>, p: Seq<char>)
    ensures
        tool_names(pieces.push(p)) == (if trim(p).len() == 0 {
            tool_names(pieces)
        } else {
            tool_names(pieces).push(trim(p))
        }),
        tool_names(Seq::empty()).len() == 0,
{
    assert(pieces.push(p).drop_last() =~= pieces);
}

/// A skill is a head between two lines of dashes, with a name in it, and what follows, line by line and without
/// the white space at its end; the first line of dashes behind the opening one ends the head.
pub proof fn law_skill_read(head: Seq<Seq<char>>, close: Seq<char>, body: Seq<Seq<char>>, raw: Seq<char>)
    requires
        after_opening(raw) is Some,
        lines(after_opening(raw)->0) == head.push(close) + body,
        forall|i: int| 0 <= i < head.len() ==> trim_end(#[trigger] head[i]) != "---"@,
        trim_end(close) == "---"@,
    ensures
        ({
            let h = head_says(head);
            &&& skill_of(raw) is Some <==> (h.name matches Some(n) && n.len() > 0)
            &&& skill_of(raw) matches Some((m, text)) ==> {
                &&& Some(m.name) == h.name
                &&& m.description == h.description
                &&& m.allowed_tools == h.allowed_tools
                &&& text == trim_end(lines_text(body))
            }
        }),
{
    let ls = head.push(close) + body;
    lemma_closing(ls, head.len() as int, 0);
    assert(ls.take(head.len() as int) =~= head);
    assert(ls.skip((head.len() + 1) as int) =~= body);
}

proof fn lemma_closing(ls: Seq<Seq<char>>, k: int, i: int)
    requires
        0 <= i <= k < ls.len(),
        closes_head(ls[k]),
        forall|j: int| 0 <= j < k ==> !closes_head(#[trigger] ls[j]),
    ensures
        closing_from(ls, i) == k,
    decreases k - i,
{
    if i < k {
        assert(!closes_head(ls[i]));
        lemma_closing(ls, k, i + 1);
    }
}

/// A file without a head, or with one that is not ended, is no skill.
pub proof fn law_no_skill(raw: Seq<char>)
    ensures
        after_opening(raw) is None ==> skill_of(raw) is None,
        after_opening(raw) matches Some(rest) ==> ((forall|i: int|
            0 <= i < lines(rest).len() ==> trim_end(#[trigger] lines(rest)[i]) != "---"@) ==> skill_of(raw)
            is None),
{
    if let Some(rest) = after_opening(raw) {
        if forall|i: int| 0 <= i < lines(rest).len() ==> trim_end(#[trigger] lines(rest)[i]) != "---"@ {
            lemma_no_closing(lines(rest), 0);
        }
    }
}

proof fn lemma_no_closing(ls: Seq<Seq<char>>, i: int)
    requires
        0 <= i <= ls.len(),
        forall|j: int| 0 <= j < ls.len() ==> !closes_head(#[trigger] ls[j]),
    ensures
        closing_from(ls, i) == ls.len(),
    decreases ls.len() - i,
{
    if i < ls.len() {
        assert(!closes_head(ls[i]));
        lemma_no_closing(ls, i + 1);
    }
}

/// Lines are put together in their order, each with its end.
pub proof fn law_lines_put_together(ls: Seq<Seq<char>>, l: Seq<char>)
    ensures
        lines_text(ls.push(l)) == lines_text(ls) + l + "\n"@,
        lines_text(Seq::empty()).len() == 0,
{
    assert(ls.push(l).drop_last() =~= ls);
}

/// Every file that is a skill is one of the skills, in the order of the files.
pub proof fn law_skills_found(files: Seq<Seq<char>>, f: Seq<char>)
    ensures
        skill_of(f) is None ==> skills_in(files.push(f)) == skills_in(files),
        skill_of(f) matches Some((m, _)) ==> skills_in(files.push(f)) == skills_in(files).push(m),
        skills_in(Seq::empty()).len() == 0,
{
    assert(files.push(f).drop_last() =~= files);
}

/// The catalog names every skill with its description, each on a line behind those before it; without skills
/// there is none.
pub proof fn law_catalog_lines(ms: Seq<SkillMetaView>, m: SkillMetaView)
    ensures
        catalog(Seq::empty()).len() == 0,
        ms.len() > 0 ==> catalog(ms.push(m)) == catalog(ms) + ("- "@ + m.name + ": "@ + m.description + "\n"@),
        catalog(seq![m]) == "可用 Skills（按需用 `skill` 工具传入对应 name 加载完整说明后再执行）：\n"@ + ("- "@ + m.name
            + ": "@ + m.description + "\n"@),
{
    assert(ms.push(m).drop_last() =~= ms);
    assert(seq![m].drop_last() =~= Seq::<SkillMetaView>::empty());
    assert(catalog_lines(seq![m].drop_last())
        == "可用 Skills（按需用 `skill` 工具传入对应 name 加载完整说明后再执行）：\n"@);
}

/// A skill is asked for by its name, which must not be empty.
pub proof fn law_skill_asked(args: JsonView)
    ensures
        asked_skill(args) is Some <==> (text_member(args, "name"@) matches Some(n) && n.len() > 0),
        asked_skill(args) matches Some(n) ==> text_member(args, "name"@) == Some(n),
{
}

} // verus!
