//! `save_memory`: keeping something for later sessions.

use super::args::ToolResult;
use crate::config::paths::{global_facts_path, global_profile_path, joined, skill_memory_path};
use crate::json::{text_member, Json, JsonView};
use crate::split::{
    blank, is_blank, join, join_strings, lines, split_lines, split_words, trim, trim_str, words,
};
use crate::text::{chars_of, contains, ends_with, has_suffix, has_text, opt_text, str_eq, texts};
use vstd::prelude::*;

verus! {

/// The tool that keeps something for later sessions.
#[derive(Debug)]
pub struct SaveMemory;

/// The heading of facts.
pub const FACTS_SECTION: &'static str = "## Facts";

/// The heading of the user's profile.
pub const PROFILE_SECTION: &'static str = "## Profile";

/// A character that the name of a skill may have.
pub open spec fn is_slug_char(c: char) -> bool {
    '0' <= c <= '9' || 'a' <= c <= 'z' || 'A' <= c <= 'Z' || c == '-' || c == '_'
}

/// A name that a skill may have.
pub open spec fn is_slug(s: Seq<char>) -> bool {
    forall|i: int| 0 <= i < s.len() ==> is_slug_char(#[trigger] s[i])
}

/// Where something is kept: the file, and the heading under which it goes in a file with several.
pub open spec fn target_of(
    root: Seq<char>,
    kind: Seq<char>,
    scope: Seq<char>,
    slug: Option<Seq<char>>,
) -> Result<(Seq<char>, Option<Seq<char>>), Seq<char>> {
    if kind == "facts"@ {
        if scope == "project"@ {
            Ok(("CARTER.md"@, Some(FACTS_SECTION@)))
        } else if scope == "global"@ {
            Ok((joined(root, "facts.md"@), None))
        } else {
            Err("未知 scope: "@ + scope + "（仅支持 project | global）"@)
        }
    } else if kind == "profile"@ {
        Ok((joined(root, "profile.md"@), None))
    } else if kind == "skill"@ {
        let s = trim(
            match slug {
                Some(s) => s,
                None => Seq::empty(),
            },
        );
        if s.len() == 0 {
            Err("kind=skill 必须提供 slug 参数（如 \"rust-tests\"）"@)
        } else if !is_slug(s) {
            Err("slug 只能包含 [A-Za-z0-9_-]"@)
        } else {
            Ok((joined(joined(root, "skills"@), s + ".md"@), None))
        }
    } else {
        Err("未知 kind: "@ + kind + "（仅支持 facts | profile | skill）"@)
    }
}

fn slug_ok(s: &str) -> (r: bool)
    ensures
        r == is_slug(s@),
{
    let cs = chars_of(s);
    let mut i: usize = 0;
    while i < cs.len()
        invariant
            i <= cs@.len(),
            cs@ == s@,
            forall|j: int| 0 <= j < i ==> is_slug_char(#[trigger] s@[j]),
        decreases cs@.len() - i,
    {
        let c = cs[i];
        let good = ('0' <= c && c <= '9') || ('a' <= c && c <= 'z') || ('A' <= c && c <= 'Z') || c
            == '-' || c == '_';
        if !good {
            assert(!is_slug_char(s@[i as int]));
            return false;
        }
        i += 1;
    }
    true
}

/// The view of a place.
pub open spec fn target_view(r: Result<(String, Option<&'static str>), String>) -> Result<
    (Seq<char>, Option<Seq<char>>),
    Seq<char>,
> {
    match r {
        Ok((p, s)) => Ok(
            (
                p@,
                match s {
                    Some(s) => Some(s@),
                    None => None,
                },
            ),
        ),
        Err(e) => Err(e@),
    }
}

/// Where something is kept.
pub fn target_for(root: &str, kind: &str, scope: &str, slug: Option<String>) -> (r: Result<
    (String, Option<&'static str>),
    String,
>)
    ensures
        target_view(r) == target_of(root@, kind@, scope@, opt_text(slug)),
{
    if str_eq(kind, "facts") {
        if str_eq(scope, "project") {
            Ok(("CARTER.md".to_owned(), Some(FACTS_SECTION)))
        } else if str_eq(scope, "global") {
            Ok((global_facts_path(root), None))
        } else {
            let mut e = "未知 scope: ".to_owned();
            e.append(scope);
            e.append("（仅支持 project | global）");
            Err(e)
        }
    } else if str_eq(kind, "profile") {
        Ok((global_profile_path(root), None))
    } else if str_eq(kind, "skill") {
        let raw = match slug {
            Some(s) => s,
            None => String::new(),
        };
        assert(raw@ =~= match opt_text(slug) {
            Some(s) => s,
            None => Seq::empty(),
        });
        let s = trim_str(raw.as_str());
        if s.as_str().is_empty() {
            return Err("kind=skill 必须提供 slug 参数（如 \"rust-tests\"）".to_owned());
        }
        if !slug_ok(s.as_str()) {
            return Err("slug 只能包含 [A-Za-z0-9_-]".to_owned());
        }
        Ok((skill_memory_path(root, s.as_str()), None))
    } else {
        let mut e = "未知 kind: ".to_owned();
        e.append(kind);
        e.append("（仅支持 facts | profile | skill）");
        Err(e)
    }
}

/// The heading under which something goes.
pub open spec fn section_of(section: Option<Seq<char>>, kind: Seq<char>) -> Seq<char> {
    match section {
        Some(s) => s,
        None => if kind == "profile"@ {
            PROFILE_SECTION@
        } else {
            FACTS_SECTION@
        },
    }
}

/// The file with one entry more: a new file gets a title and the heading, a file without the heading
/// gets it, and the entry comes last.
pub open spec fn with_bullet(
    existing: Seq<char>,
    bullet: Seq<char>,
    section: Option<Seq<char>>,
    kind: Seq<char>,
) -> Seq<char> {
    let sec = section_of(section, kind);
    if is_blank(existing) {
        "# Carter 记忆 ("@ + kind + ")\n\n"@ + sec + "\n\n"@ + bullet + "\n"@
    } else {
        let ended = if ends_with(existing, "\n"@) {
            existing
        } else {
            existing + "\n"@
        };
        let headed = if contains(ended, sec) {
            ended
        } else {
            ended + "\n"@ + sec + "\n"@
        };
        headed + bullet + "\n"@
    }
}

/// The file with one entry more.
pub fn append_bullet(existing: &str, bullet: &str, section: Option<&'static str>, kind: &str) -> (r:
    String)
    ensures
        r@ == with_bullet(
            existing@,
            bullet@,
            match section {
                Some(s) => Some(s@),
                None => None,
            },
            kind@,
        ),
{
    let sec: &'static str = match section {
        Some(s) => s,
        None => if str_eq(kind, "profile") {
            PROFILE_SECTION
        } else {
            FACTS_SECTION
        },
    };
    if blank(existing) {
        let mut s = "# Carter 记忆 (".to_owned();
        s.append(kind);
        s.append(")\n\n");
        s.append(sec);
        s.append("\n\n");
        s.append(bullet);
        s.append("\n");
        return s;
    }
    let mut out = existing.to_owned();
    if !has_suffix(existing, "\n") {
        out.append("\n");
    }
    if !has_text(out.as_str(), sec) {
        out.append("\n");
        out.append(sec);
        out.append("\n");
    }
    out.append(bullet);
    out.append("\n");
    out
}

/// The file of a skill.
pub fn build_skill_file(slug: &str, content: &str) -> (r: String)
    ensures
        r@ == "# Skill: "@ + slug@ + "\n\n"@ + content@ + "\n"@,
{
    let mut s = "# Skill: ".to_owned();
    s.append(slug);
    s.append("\n\n");
    s.append(content);
    s.append("\n");
    s
}

/// What a call asks to keep.
#[derive(Debug)]
pub struct MemoryPlan {
    pub content: String,
    pub kind: String,
    pub scope: String,
    pub slug: Option<String>,
    pub path: String,
    pub section: Option<&'static str>,
}

/// What a call gives to be kept; `fact` is an older name for `content`.
pub open spec fn given_content(args: JsonView) -> Seq<char> {
    trim(
        match text_member(args, "content"@) {
            Some(c) => c,
            None => match text_member(args, "fact"@) {
                Some(f) => f,
                None => Seq::empty(),
            },
        },
    )
}

/// A string argument, or what stands for it.
pub open spec fn arg_or(args: JsonView, key: Seq<char>, other: Seq<char>) -> Seq<char> {
    match text_member(args, key) {
        Some(s) => s,
        None => other,
    }
}

/// A string argument, or what stands for it.
pub fn get_or(args: &Json, key: &str, other: &str) -> (r: String)
    ensures
        r@ == arg_or(args@, key@, other@),
{
    match args.get_str(key) {
        Some(s) => s,
        None => other.to_owned(),
    }
}

impl SaveMemory {
    /// What a call asks to keep, or the answer where it cannot be kept.
    pub fn plan(root: &str, args: &Json) -> (r: Result<MemoryPlan, ToolResult>)
        ensures
            ({
                let content = given_content(args@);
                let kind = arg_or(args@, "kind"@, "facts"@);
                let scope = arg_or(args@, "scope"@, "project"@);
                let target = target_of(root@, kind, scope, text_member(args@, "slug"@));
                match r {
                    Ok(p) => {
                        &&& content.len() > 0
                        &&& p.content@ == content
                        &&& p.kind@ == kind
                        &&& p.scope@ == scope
                        &&& opt_text(p.slug) == text_member(args@, "slug"@)
                        &&& target == Ok::<(Seq<char>, Option<Seq<char>>), Seq<char>>(
                            (
                                p.path@,
                                match p.section {
                                    Some(s) => Some(s@),
                                    None => None,
                                },
                            ),
                        )
                    },
                    Err(e) => !e.ok && if content.len() == 0 {
                        e.content@ == "content 不能为空（旧名 fact 也可）"@
                    } else {
                        target == Err::<(Seq<char>, Option<Seq<char>>), Seq<char>>(e.content@)
                    },
                }
            }),
    {
        let raw = match args.get_str("content") {
            Some(c) => c,
            None => match args.get_str("fact") {
                Some(f) => f,
                None => String::new(),
            },
        };
        assert(trim(raw@) == given_content(args@)) by {
            if text_member(args@, "content"@) is None && text_member(args@, "fact"@) is None {
                assert(raw@ =~= Seq::<char>::empty());
            }
        }
        let content = trim_str(raw.as_str());
        if content.as_str().is_empty() {
            return Err(ToolResult::err("content 不能为空（旧名 fact 也可）".to_owned()));
        }
        let kind = get_or(args, "kind", "facts");
        let scope = get_or(args, "scope", "project");
        let slug = args.get_str("slug");
        let slug2 = args.get_str("slug");
        match target_for(root, kind.as_str(), scope.as_str(), slug2) {
            Ok((path, section)) => Ok(MemoryPlan { content, kind, scope, slug, path, section }),
            Err(e) => Err(ToolResult::err(e)),
        }
    }
}

/// What is to be written, or the answer where the entry is there already.
#[derive(Debug)]
pub enum MemoryStep {
    Write(String),
    Known(ToolResult),
}

/// The entry is a line of the file.
pub open spec fn has_entry(existing: Seq<char>, bullet: Seq<char>) -> bool {
    exists|i: int| 0 <= i < lines(existing).len() && trim(#[trigger] lines(existing)[i]) == bullet
}

/// An entry on one line.
pub open spec fn one_line(content: Seq<char>) -> Seq<char> {
    join(words(content), " "@)
}

fn entry_known(existing: &str, bullet: &str) -> (r: bool)
    ensures
        r == has_entry(existing@, bullet@),
{
    let ls = split_lines(existing);
    let ghost lv = texts(ls@);
    assert(lv.len() == ls@.len());
    let mut i: usize = 0;
    while i < ls.len()
        invariant
            i <= ls@.len(),
            lv == texts(ls@),
            lv.len() == ls@.len(),
            lv == lines(existing@),
            forall|j: int| 0 <= j < i ==> trim(#[trigger] lv[j]) != bullet@,
        decreases ls@.len() - i,
    {
        assert(lv[i as int] == ls@[i as int]@);
        if str_eq(trim_str(ls[i].as_str()).as_str(), bullet) {
            return true;
        }
        i += 1;
    }
    false
}

impl SaveMemory {
    /// What is to be written to the file, which holds `existing` so far: a skill replaces its file, anything
    /// else is added as an entry unless it is there already.
    pub fn step(p: &MemoryPlan, existing: &str) -> (r: MemoryStep)
        ensures
            ({
                let bullet = "- "@ + one_line(p.content@);
                match r {
                    MemoryStep::Write(t) => if p.kind@ == "skill"@ {
                        t@ == "# Skill: "@ + (match p.slug {
                            Some(s) => s@,
                            None => Seq::empty(),
                        }) + "\n\n"@ + p.content@ + "\n"@
                    } else {
                        !has_entry(existing@, bullet) && t@ == with_bullet(
                            existing@,
                            bullet,
                            match p.section {
                                Some(s) => Some(s@),
                                None => None,
                            },
                            p.kind@,
                        )
                    },
                    MemoryStep::Known(a) => {
                        &&& p.kind@ != "skill"@
                        &&& has_entry(existing@, bullet)
                        &&& a.ok
                        &&& a.content@ == "已存在相同记忆（"@ + p.kind@ + "/"@ + p.scope@
                            + "），未重复写入："@ + one_line(p.content@)
                    },
                }
            }),
    {
        if str_eq(p.kind.as_str(), "skill") {
            let slug = match &p.slug {
                Some(s) => s.clone(),
                None => String::new(),
            };
            assert(slug@ =~= match p.slug {
                Some(s) => s@,
                None => Seq::empty(),
            });
            return MemoryStep::Write(build_skill_file(slug.as_str(), p.content.as_str()));
        }
        let ws = split_words(p.content.as_str());
        let text = join_strings(&ws, " ");
        let bullet = "- ".to_owned().concat(text.as_str());
        if entry_known(existing, bullet.as_str()) {
            let mut s = "已存在相同记忆（".to_owned();
            s.append(p.kind.as_str());
            s.append("/");
            s.append(p.scope.as_str());
            s.append("），未重复写入：");
            s.append(text.as_str());
            return MemoryStep::Known(ToolResult::ok(s));
        }
        MemoryStep::Write(append_bullet(existing, bullet.as_str(), p.section, p.kind.as_str()))
    }

    /// What the tool answers after writing.
    pub fn written_answer(p: &MemoryPlan, error: Option<String>) -> (r: ToolResult)
        ensures
            match error {
                None => r.ok && r.content@ == "已记住（"@ + p.kind@ + " → "@ + p.path@ + "）"@,
                Some(e) => !r.ok && r.content@ == "写入 "@ + p.path@ + " 失败："@ + e@,
            },
    {
        match error {
            None => {
                let mut s = "已记住（".to_owned();
                s.append(p.kind.as_str());
                s.append(" → ");
                s.append(p.path.as_str());
                s.append("）");
                ToolResult::ok(s)
            },
            Some(e) => {
                let mut s = "写入 ".to_owned();
                s.append(p.path.as_str());
                s.append(" 失败：");
                s.append(e.as_str());
                ToolResult::err(s)
            },
        }
    }
}

/// Adding an entry keeps everything that the file held: what it held stands at the front of what it
/// holds.
pub proof fn law_append_keeps_existing(
    existing: Seq<char>,
    bullet: Seq<char>,
    section: Option<Seq<char>>,
    kind: Seq<char>,
)
    requires
        !is_blank(existing),
    ensures
        with_bullet(existing, bullet, section, kind).take(existing.len() as int) == existing,
        ends_with(with_bullet(existing, bullet, section, kind), bullet + "\n"@),
{
    let w = with_bullet(existing, bullet, section, kind);
    assert(w.take(existing.len() as int) =~= existing);
    let tail = bullet + "\n"@;
    assert(w.subrange(w.len() - tail.len(), w.len() as int) =~= tail);
}

/// The name of a skill never leads out of the directory of skills: it holds no slash and no dot.
pub proof fn law_slug_stays_inside(s: Seq<char>, i: int)
    requires
        is_slug(s),
        0 <= i < s.len(),
    ensures
        s[i] != '/',
        s[i] != '.',
{
    assert(is_slug_char(s[i]));
}

/// Where a note goes: facts of a project to its own file, facts of all projects and the profile to files in the
/// home directory, a skill to a file of its own name; anything else is refused.
pub proof fn law_note_goes_where_it_belongs(
    root: Seq<char>,
    kind: Seq<char>,
    scope: Seq<char>,
    slug: Option<Seq<char>>,
)
    ensures
        ({
            let t = target_of(root, kind, scope, slug);
            let name = match slug {
                Some(s) => trim(s),
                None => trim(Seq::empty()),
            };
            &&& kind == "facts"@ && scope == "project"@ ==> t == Ok::<_, Seq<char>>(
                ("CARTER.md"@, Some("## Facts"@)),
            )
            &&& kind == "facts"@ && scope == "global"@ && scope != "project"@ ==> t == Ok::<_, Seq<char>>(
                (joined(root, "facts.md"@), None::<Seq<char>>),
            )
            &&& kind == "facts"@ && scope != "project"@ && scope != "global"@ ==> t == Err::<
                (Seq<char>, Option<Seq<char>>),
                _,
            >("未知 scope: "@ + scope + "（仅支持 project | global）"@)
            &&& kind == "profile"@ && kind != "facts"@ ==> t == Ok::<_, Seq<char>>(
                (joined(root, "profile.md"@), None::<Seq<char>>),
            )
            &&& kind == "skill"@ && kind != "facts"@ && kind != "profile"@ ==> {
                &&& t is Ok <==> name.len() > 0 && is_slug(name)
                &&& t matches Ok(p) ==> p == (
                    joined(joined(root, "skills"@), name + ".md"@),
                    None::<Seq<char>>,
                )
            }
            &&& kind != "facts"@ && kind != "profile"@ && kind != "skill"@ ==> t == Err::<
                (Seq<char>, Option<Seq<char>>),
                _,
            >("未知 kind: "@ + kind + "（仅支持 facts | profile | skill）"@)
        }),
{
}

/// A note is added at the end of what is there, under its heading, which is added first where it is missing; an
/// empty file gets a title as well.
pub proof fn law_note_added(
    existing: Seq<char>,
    bullet: Seq<char>,
    section: Option<Seq<char>>,
    kind: Seq<char>,
)
    ensures
        ({
            let sec = match section {
                Some(s) => s,
                None => if kind == "profile"@ {
                    "## Profile"@
                } else {
                    "## Facts"@
                },
            };
            let w = with_bullet(existing, bullet, section, kind);
            let full = if ends_with(existing, "\n"@) {
                existing
            } else {
                existing + "\n"@
            };
            &&& is_blank(existing) ==> w == "# Carter 记忆 ("@ + kind + ")\n\n"@ + sec + "\n\n"@ + bullet
                + "\n"@
            &&& !is_blank(existing) && contains(full, sec) ==> w == full + bullet + "\n"@
            &&& !is_blank(existing) && !contains(full, sec) ==> w == full + "\n"@ + sec + "\n"@ + bullet
                + "\n"@
        }),
{
}

/// A note that is there already, on a line of its own, is found, and only such a one.
pub proof fn law_note_found(existing: Seq<char>, bullet: Seq<char>)
    ensures
        has_entry(existing, bullet) <==> lines(existing).map_values(|l: Seq<char>| trim(l)).contains(bullet),
{
    let m = lines(existing).map_values(|l: Seq<char>| trim(l));
    if has_entry(existing, bullet) {
        let i = choose|i: int|
            0 <= i < lines(existing).len() && trim(#[trigger] lines(existing)[i]) == bullet;
        assert(m[i] == bullet);
    }
    if m.contains(bullet) {
        let i = choose|i: int| 0 <= i < m.len() && m[i] == bullet;
        assert(trim(lines(existing)[i]) == bullet);
    }
}

/// A note is what the call gives as its content, or as its fact where it gives no content, without the white
/// space around it; on one line it is its words with single spaces between them.
pub proof fn law_note_given(args: JsonView, content: Seq<char>, last: Seq<char>)
    ensures
        text_member(args, "content"@) matches Some(c) ==> given_content(args) == trim(c),
        text_member(args, "content"@) is None ==> (text_member(args, "fact"@) matches Some(f) ==> given_content(
            args,
        ) == trim(f)),
        one_line(content) == join(words(content), seq![' ']),
{
    reveal_strlit(" ");
    assert(" "@ =~= seq![' ']);
}

/// A name for a skill is made of letters and digits of ASCII, dashes and underscores.
pub proof fn law_slug_characters(s: Seq<char>)
    ensures
        is_slug(s) <==> forall|i: int|
            0 <= i < s.len() ==> ('0' <= #[trigger] s[i] <= '9' || 'a' <= s[i] <= 'z' || 'A' <= s[i] <= 'Z'
                || s[i] == '-' || s[i] == '_'),
{
    if is_slug(s) {
        assert forall|i: int| 0 <= i < s.len() implies ('0' <= #[trigger] s[i] <= '9' || 'a' <= s[i] <= 'z'
            || 'A' <= s[i] <= 'Z' || s[i] == '-' || s[i] == '_') by {
            assert(is_slug_char(s[i]));
        }
    }
}

} // verus!
