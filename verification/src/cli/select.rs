//! Which session a run takes up.

use crate::error::{CarterError, ErrorView};
use crate::number::{dec, parse_dec, parse_u64_upto, push_dec};
use crate::session::store::{entry_list, EntryView, SessionEntry};
use crate::text::{has_prefix, starts_with, str_eq};
use vstd::prelude::*;

verus! {

/// The session that the options ask for.
#[derive(Debug)]
pub enum SessionChoice {
    /// Take up the session that this selects.
    Resume(String),
    /// Branch off the session that this selects.
    Fork(String),
    /// Take up the newest session, or begin one where there is none.
    Continue,
    /// Begin a session.
    New,
}

/// The session that the options ask for: `resume` comes before `fork`, and both before `continue`.
pub fn session_choice(resume: Option<String>, fork: Option<String>, continue_session: bool) -> (r:
    SessionChoice)
    ensures
        match r {
            SessionChoice::Resume(s) => resume == Some(s),
            SessionChoice::Fork(s) => resume is None && fork == Some(s),
            SessionChoice::Continue => resume is None && fork is None && continue_session,
            SessionChoice::New => resume is None && fork is None && !continue_session,
        },
{
    match resume {
        Some(s) => SessionChoice::Resume(s),
        None => match fork {
            Some(s) => SessionChoice::Fork(s),
            None => if continue_session {
                SessionChoice::Continue
            } else {
                SessionChoice::New
            },
        },
    }
}

/// The first session at or after `i` with that id, or the number of sessions.
pub open spec fn by_id(s: Seq<EntryView>, id: Seq<char>, i: int) -> int
    decreases s.len() - i,
{
    if i < 0 || i >= s.len() {
        s.len() as int
    } else if s[i].meta.id == id {
        i
    } else {
        by_id(s, id, i + 1)
    }
}

/// The first session at or after `i` whose id begins so, or the number of sessions.
pub open spec fn by_prefix(s: Seq<EntryView>, p: Seq<char>, i: int) -> int
    decreases s.len() - i,
{
    if i < 0 || i >= s.len() {
        s.len() as int
    } else if starts_with(s[i].meta.id, p) {
        i
    } else {
        by_prefix(s, p, i + 1)
    }
}

/// How many sessions have an id that begins so.
pub open spec fn prefix_count(s: Seq<EntryView>, p: Seq<char>) -> nat
    decreases s.len(),
{
    if s.len() == 0 {
        0
    } else {
        prefix_count(s.drop_last(), p) + if starts_with(s.last().meta.id, p) {
            1nat
        } else {
            0nat
        }
    }
}

/// The session that a selector names: by its id, else by its number in the list, counted from 1, else by
/// the beginning of its id where that fits one session alone.
pub open spec fn selected(s: Seq<EntryView>, sel: Seq<char>) -> Result<int, ErrorView> {
    let n = parse_dec(sel, s.len());
    if by_id(s, sel, 0) < s.len() {
        Ok(by_id(s, sel, 0))
    } else if n is Some && n->0 >= 1 {
        Ok(n->0 - 1)
    } else if prefix_count(s, sel) == 1 {
        Ok(by_prefix(s, sel, 0))
    } else if prefix_count(s, sel) == 0 {
        Err(
            ErrorView::Config(
                "未找到会话："@ + sel + "（用 `carter sessions` 查看可用会话）"@,
            ),
        )
    } else {
        Err(
            ErrorView::Config(
                "会话 id 前缀 `"@ + sel + "` 不唯一（匹配 "@ + dec(prefix_count(s, sel))
                    + " 个），请输入更长前缀"@,
            ),
        )
    }
}

proof fn lemma_prefix(s: Seq<EntryView>, p: Seq<char>, i: int)
    requires
        0 <= i <= s.len(),
    ensures
        i <= by_prefix(s, p, i) <= s.len(),
        by_prefix(s, p, i) == s.len() ==> forall|j: int|
            i <= j < s.len() ==> !starts_with((#[trigger] s[j]).meta.id, p),
    decreases s.len() - i,
{
    if i < s.len() && !starts_with(s[i].meta.id, p) {
        lemma_prefix(s, p, i + 1);
    }
}

proof fn lemma_none_counted(s: Seq<EntryView>, p: Seq<char>)
    requires
        forall|j: int| 0 <= j < s.len() ==> !starts_with((#[trigger] s[j]).meta.id, p),
    ensures
        prefix_count(s, p) == 0,
    decreases s.len(),
{
    if s.len() > 0 {
        let t = s.drop_last();
        assert forall|j: int| 0 <= j < t.len() implies !starts_with((#[trigger] t[j]).meta.id, p) by {
            assert(t[j] == s[j]);
        }
        lemma_none_counted(t, p);
        assert(!starts_with(s[s.len() - 1].meta.id, p));
    }
}

/// The session that a selector names: its place in the list.
pub fn find_session(entries: &Vec<SessionEntry>, sel: &str) -> (r: Result<usize, CarterError>)
    ensures
        match r {
            Ok(i) => i < entries@.len() && selected(entry_list(entries@), sel@) == Ok::<
                int,
                ErrorView,
            >(i as int),
            Err(e) => selected(entry_list(entries@), sel@) == Err::<int, ErrorView>(e@),
        },
{
    let ghost ev = entry_list(entries@);
    let n: usize = entries.len();
    assert(ev.len() == n);
    let mut i: usize = 0;
    let mut count: usize = 0;
    let mut first: usize = n;
    assert(ev.take(0) =~= Seq::<EntryView>::empty());
    while i < n
        invariant
            i <= n,
            n == entries@.len(),
            ev == entry_list(entries@),
            ev.len() == n,
            by_id(ev, sel@, 0) == by_id(ev, sel@, i as int),
            count <= i,
            count == prefix_count(ev.take(i as int), sel@),
            first == n ==> by_prefix(ev, sel@, 0) == by_prefix(ev, sel@, i as int),
            first < n ==> by_prefix(ev, sel@, 0) == first,
            first <= n,
        decreases n - i,
    {
        let id = entries[i].meta.id.as_str();
        assert(ev[i as int] == entries@[i as int]@);
        assert(ev.take(i + 1).drop_last() =~= ev.take(i as int));
        assert(ev.take(i + 1).last() == ev[i as int]);
        if str_eq(id, sel) {
            return Ok(i);
        }
        if has_prefix(id, sel) {
            count += 1;
            if first == n {
                first = i;
            }
        }
        i += 1;
    }
    assert(ev.take(n as int) =~= ev);
    match parse_u64_upto(sel, n as u64) {
        Some(k) => {
            if k >= 1 {
                return Ok((k - 1) as usize);
            }
        },
        None => {},
    }
    if count == 1 {
        proof {
            lemma_prefix(ev, sel@, 0);
            if by_prefix(ev, sel@, 0) == ev.len() {
                lemma_none_counted(ev, sel@);
            }
        }
        return Ok(first);
    }
    if count == 0 {
        let mut s = "未找到会话：".to_owned();
        s.append(sel);
        s.append("（用 `carter sessions` 查看可用会话）");
        return Err(CarterError::Config(s));
    }
    let mut s = "会话 id 前缀 `".to_owned();
    s.append(sel);
    s.append("` 不唯一（匹配 ");
    push_dec(&mut s, count as u64);
    s.append(" 个），请输入更长前缀");
    Err(CarterError::Config(s))
}

/// The full id of a session always selects it, or one with the same id that comes before it.
pub proof fn law_id_selects(s: Seq<EntryView>, i: int)
    requires
        0 <= i < s.len(),
    ensures
        selected(s, s[i].meta.id) matches Ok(k) && 0 <= k <= i && s[k].meta.id == s[i].meta.id,
{
    lemma_by_id(s, s[i].meta.id, 0, i);
}

proof fn lemma_by_id(s: Seq<EntryView>, id: Seq<char>, from: int, i: int)
    requires
        0 <= from <= i < s.len(),
        s[i].meta.id == id,
    ensures
        from <= by_id(s, id, from) <= i,
        s[by_id(s, id, from)].meta.id == id,
    decreases i - from,
{
    if s[from].meta.id != id {
        lemma_by_id(s, id, from + 1, i);
    }
}

/// A session is chosen by its whole name first, then by its place in the list, counted from one, and then by the
/// beginning of its name where only one begins so.
pub proof fn law_session_chosen(s: Seq<EntryView>, sel: Seq<char>, i: int)
    ensures
        selected(s, sel) matches Ok(k) ==> 0 <= k < s.len(),
        0 <= i < s.len() && s[i].meta.id == sel && (forall|j: int|
            0 <= j < i ==> (#[trigger] s[j]).meta.id != sel) ==> selected(s, sel) == Ok::<int, ErrorView>(i),
        (forall|j: int| 0 <= j < s.len() ==> (#[trigger] s[j]).meta.id != sel) ==> {
            &&& 1 <= i && parse_dec(sel, s.len()) == Some(i as nat) ==> selected(s, sel) == Ok::<
                int,
                ErrorView,
            >(i - 1)
            &&& !(parse_dec(sel, s.len()) is Some && parse_dec(sel, s.len())->0 >= 1) ==> {
                &&& 0 <= i < s.len() && starts_with(s[i].meta.id, sel) && (forall|j: int|
                    0 <= j < s.len() && j != i ==> !starts_with((#[trigger] s[j]).meta.id, sel)) ==> selected(
                    s,
                    sel,
                ) == Ok::<int, ErrorView>(i)
                &&& (forall|j: int| 0 <= j < s.len() ==> !starts_with((#[trigger] s[j]).meta.id, sel))
                    ==> selected(s, sel) == Err::<int, ErrorView>(
                    ErrorView::Config("未找到会话："@ + sel + "（用 `carter sessions` 查看可用会话）"@),
                )
                &&& prefix_count(s, sel) >= 2 ==> selected(s, sel) == Err::<int, ErrorView>(
                    ErrorView::Config(
                        "会话 id 前缀 `"@ + sel + "` 不唯一（匹配 "@ + dec(prefix_count(s, sel))
                            + " 个），请输入更长前缀"@,
                    ),
                )
            }
        },
{
    lemma_id_first(s, sel, 0);
    lemma_prefix_first(s, sel, 0);
    lemma_prefixes(s, sel);
    if 0 <= i < s.len() && s[i].meta.id == sel && (forall|j: int|
        0 <= j < i ==> (#[trigger] s[j]).meta.id != sel) {
        assert(by_id(s, sel, 0) == i) by {
            let k = by_id(s, sel, 0);
            if k < i {
                assert(s[k].meta.id != sel);
            }
        }
    }
    if 0 <= i < s.len() && starts_with(s[i].meta.id, sel) && (forall|j: int|
        0 <= j < s.len() && j != i ==> !starts_with((#[trigger] s[j]).meta.id, sel)) {
        lemma_one_prefix(s, sel, i);
        let k = by_prefix(s, sel, 0);
        if k != i && k < s.len() {
            assert(!starts_with(s[k].meta.id, sel));
        }
    }
}

proof fn lemma_id_first(s: Seq<EntryView>, id: Seq<char>, i: int)
    requires
        0 <= i <= s.len(),
    ensures
        i <= by_id(s, id, i) <= s.len(),
        by_id(s, id, i) < s.len() ==> s[by_id(s, id, i)].meta.id == id,
        forall|j: int| i <= j < by_id(s, id, i) ==> (#[trigger] s[j]).meta.id != id,
    decreases s.len() - i,
{
    if i < s.len() && s[i].meta.id != id {
        lemma_id_first(s, id, i + 1);
    }
}

proof fn lemma_prefix_first(s: Seq<EntryView>, p: Seq<char>, i: int)
    requires
        0 <= i <= s.len(),
    ensures
        i <= by_prefix(s, p, i) <= s.len(),
        by_prefix(s, p, i) < s.len() ==> starts_with(s[by_prefix(s, p, i)].meta.id, p),
        forall|j: int| i <= j < by_prefix(s, p, i) ==> !starts_with((#[trigger] s[j]).meta.id, p),
    decreases s.len() - i,
{
    if i < s.len() && !starts_with(s[i].meta.id, p) {
        lemma_prefix_first(s, p, i + 1);
    }
}

proof fn lemma_prefixes(s: Seq<EntryView>, p: Seq<char>)
    ensures
        prefix_count(s, p) == 0 <==> forall|j: int|
            0 <= j < s.len() ==> !starts_with((#[trigger] s[j]).meta.id, p),
    decreases s.len(),
{
    if s.len() > 0 {
        let t = s.drop_last();
        lemma_prefixes(t, p);
        assert(forall|j: int| 0 <= j < t.len() ==> t[j] == s[j]);
        if forall|j: int| 0 <= j < s.len() ==> !starts_with((#[trigger] s[j]).meta.id, p) {
            assert(!starts_with(s[s.len() - 1].meta.id, p));
            assert forall|j: int| 0 <= j < t.len() implies !starts_with((#[trigger] t[j]).meta.id, p) by {
                assert(t[j] == s[j]);
            }
        }
        if prefix_count(s, p) == 0 {
            assert forall|j: int| 0 <= j < s.len() implies !starts_with((#[trigger] s[j]).meta.id, p) by {
                if j < t.len() {
                    assert(t[j] == s[j]);
                }
            }
        }
    }
}

proof fn lemma_one_prefix(s: Seq<EntryView>, p: Seq<char>, i: int)
    requires
        0 <= i < s.len(),
        starts_with(s[i].meta.id, p),
        forall|j: int| 0 <= j < s.len() && j != i ==> !starts_with((#[trigger] s[j]).meta.id, p),
    ensures
        prefix_count(s, p) == 1,
    decreases s.len(),
{
    let t = s.drop_last();
    assert forall|j: int| 0 <= j < t.len() && j != i implies !starts_with((#[trigger] t[j]).meta.id, p) by {
        assert(t[j] == s[j]);
    }
    if i == s.len() - 1 {
        lemma_prefixes(t, p);
    } else {
        assert(t[i] == s[i]);
        lemma_one_prefix(t, p, i);
        assert(!starts_with(s[s.len() - 1].meta.id, p));
    }
}

} // verus!
