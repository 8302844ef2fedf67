//! What the subcommands print.

use crate::number::{dec, dec_string, pad_left, pad_left_str};
use crate::session::record::{first_chars, take_chars, MetaView, SessionMeta};
use crate::session::store::{entry_list, EntryView, SessionEntry};
use vstd::prelude::*;

verus! {

/// A length of time, roughly: in seconds, minutes, hours or days.
pub open spec fn age_text(ms: u64) -> Seq<char> {
    let s = ms as int / 1000;
    if s < 60 {
        dec(s as nat) + "秒"@
    } else if s < 3600 {
        dec((s / 60) as nat) + "分"@
    } else if s < 86400 {
        dec((s / 3600) as nat) + "时"@
    } else {
        dec((s / 86400) as nat) + "天"@
    }
}

/// A length of time, roughly.
pub fn human_age(ms: u64) -> (r: String)
    ensures
        r@ == age_text(ms),
{
    let s: u64 = ms / 1000;
    if s < 60 {
        dec_string(s).concat("秒")
    } else if s < 3600 {
        dec_string(s / 60).concat("分")
    } else if s < 86400 {
        dec_string(s / 3600).concat("时")
    } else {
        dec_string(s / 86400).concat("天")
    }
}

/// The time since a moment, which may lie ahead.
pub open spec fn since(now: u64, then: u64) -> u64 {
    if now >= then {
        (now - then) as u64
    } else {
        0
    }
}

/// A session in the list.
pub open spec fn session_line(place: nat, m: MetaView, now: u64) -> Seq<char> {
    pad_left(dec(place), 3, ' ') + ". "@ + (match m.title {
        Some(t) => t,
        None => "（无标题）"@,
    }) + "  ·  "@ + age_text(since(now, m.created_at)) + "前  ·  "@ + m.model + "  ·  "@ + m.id
        + "\n"@
}

/// The sessions one after the other, numbered from 1.
pub open spec fn session_lines(s: Seq<EntryView>, now: u64) -> Seq<char>
    decreases s.len(),
{
    if s.len() == 0 {
        Seq::empty()
    } else {
        session_lines(s.drop_last(), now) + session_line(s.len(), s.last().meta, now)
    }
}

/// The list of sessions.
pub open spec fn sessions_text(s: Seq<EntryView>, now: u64) -> Seq<char> {
    if s.len() == 0 {
        "（无会话）\n"@
    } else {
        session_lines(s, now)
    }
}

/// The list of sessions.
pub fn sessions_report(entries: &Vec<SessionEntry>, now: u64) -> (r: String)
    ensures
        r@ == sessions_text(entry_list(entries@), now),
{
    let ghost ev = entry_list(entries@);
    assert(ev.len() == entries@.len());
    if entries.len() == 0 {
        return "（无会话）\n".to_owned();
    }
    let mut out = String::new();
    let mut i: usize = 0;
    assert(ev.take(0) =~= Seq::<EntryView>::empty());
    assert(out@ =~= Seq::<char>::empty());
    while i < entries.len()
        invariant
            i <= entries@.len(),
            ev == entry_list(entries@),
            ev.len() == entries@.len(),
            out@ == session_lines(ev.take(i as int), now),
        decreases entries@.len() - i,
    {
        assert(ev.take(i + 1).drop_last() =~= ev.take(i as int));
        assert(ev.take(i + 1).last() == entries@[i as int]@);
        let m = &entries[i].meta;
        let mut line = pad_left_str(dec_string(i as u64 + 1).as_str(), 3, ' ');
        line.append(". ");
        match &m.title {
            Some(t) => line.append(t.as_str()),
            None => line.append("（无标题）"),
        }
        line.append("  ·  ");
        let gone: u64 = if now >= m.created_at {
            now - m.created_at
        } else {
            0
        };
        line.append(human_age(gone).as_str());
        line.append("前  ·  ");
        line.append(m.model.as_str());
        line.append("  ·  ");
        line.append(m.id.as_str());
        line.append("\n");
        assert(line@ == session_line(i as nat + 1, m@, now));
        out.append(line.as_str());
        i += 1;
    }
    assert(ev.take(i as int) =~= ev);
    out
}

/// What a session is called when its file is compacted: its title, or its id.
pub fn gc_label(m: &SessionMeta) -> (r: String)
    ensures
        r@ == match m@.title {
            Some(t) => t,
            None => m@.id,
        },
{
    match &m.title {
        Some(t) => t.clone(),
        None => m.id.clone(),
    }
}

/// What is printed of a session whose file was compacted: its sizes before and after.
pub fn gc_line(label: &str, old_size: &str, new_size: &str) -> (r: String)
    ensures
        r@ == "  "@ + label@ + ": "@ + old_size@ + " → "@ + new_size@,
{
    let mut s = "  ".to_owned();
    s.append(label);
    s.append(": ");
    s.append(old_size);
    s.append(" → ");
    s.append(new_size);
    s
}

/// What is printed of a session whose file could not be compacted.
pub fn gc_failed(label: &str, error: &str) -> (r: String)
    ensures
        r@ == "  "@ + label@ + ": gc 失败 — "@ + error@,
{
    let mut s = "  ".to_owned();
    s.append(label);
    s.append(": gc 失败 — ");
    s.append(error);
    s
}

/// What is printed at the end: the sizes of all sessions before and after, and what was saved.
pub fn gc_total(old_size: &str, new_size: &str, saved: &str) -> (r: String)
    ensures
        r@ == "合计 "@ + old_size@ + " → "@ + new_size@ + "（省 "@ + saved@ + "）"@,
{
    let mut s = "合计 ".to_owned();
    s.append(old_size);
    s.append(" → ");
    s.append(new_size);
    s.append("（省 ");
    s.append(saved);
    s.append("）");
    s
}

/// What a session is called: its title with the beginning of its id, or that alone.
pub open spec fn label_of(m: MetaView) -> Seq<char> {
    let id8 = first_chars(m.id, 8);
    match m.title {
        Some(t) => if t.len() > 0 {
            t + " ("@ + id8 + ")"@
        } else {
            id8
        },
        None => id8,
    }
}

/// What a session is called.
pub fn session_label(m: &SessionMeta) -> (r: String)
    ensures
        r@ == label_of(m@),
{
    let id8 = take_chars(m.id.as_str(), 8);
    match &m.title {
        Some(t) => {
            if t.as_str().is_empty() {
                return id8;
            }
            let mut s = t.clone();
            s.append(" (");
            s.append(id8.as_str());
            s.append(")");
            s
        },
        None => id8,
    }
}

/// An age is told in whole seconds below a minute, in minutes below an hour, in hours below a day, and then in days;
/// what lies in the future is no time ago.
pub proof fn law_age_told(s: u64, rest: u64, now: u64, then: u64)
    requires
        s <= 1_000_000_000_000_000,
        rest < 1000,
    ensures
        s < 60 ==> age_text((s * 1000 + rest) as u64) == dec(s as nat) + "秒"@,
        60 <= s < 3600 ==> age_text((s * 1000 + rest) as u64) == dec((s / 60) as nat) + "分"@,
        3600 <= s < 86400 ==> age_text((s * 1000 + rest) as u64) == dec((s / 3600) as nat) + "时"@,
        86400 <= s ==> age_text((s * 1000 + rest) as u64) == dec((s / 86400) as nat) + "天"@,
        now >= then ==> since(now, then) == now - then,
        now < then ==> since(now, then) == 0,
{
    assert((s * 1000 + rest) / 1000 == s);
}

/// Each session stands on a line of its own, in the order of the list, with its place counted from one, its title,
/// its age, its model and its name.
pub proof fn law_sessions_told(s: Seq<EntryView>, e: EntryView, t: Seq<char>, now: u64)
    ensures
        sessions_text(Seq::empty(), now) == "（无会话）\n"@,
        e.meta.title == Some(t) && s.len() > 0 ==> sessions_text(s.push(e), now) == sessions_text(s, now) + (
        pad_left(dec(s.len() + 1), 3, ' ') + ". "@ + t + "  ·  "@ + age_text(since(now, e.meta.created_at))
            + "前  ·  "@ + e.meta.model + "  ·  "@ + e.meta.id + "\n"@),
        e.meta.title is None && s.len() > 0 ==> sessions_text(s.push(e), now) == sessions_text(s, now) + (
        pad_left(dec(s.len() + 1), 3, ' ') + ". "@ + "（无标题）"@ + "  ·  "@ + age_text(
            since(now, e.meta.created_at),
        ) + "前  ·  "@ + e.meta.model + "  ·  "@ + e.meta.id + "\n"@),
        e.meta.title == Some(t) ==> sessions_text(seq![e], now) == pad_left(dec(1), 3, ' ') + ". "@ + t
            + "  ·  "@ + age_text(since(now, e.meta.created_at)) + "前  ·  "@ + e.meta.model + "  ·  "@
            + e.meta.id + "\n"@,
{
    assert(s.push(e).drop_last() =~= s);
    assert(seq![e].drop_last() =~= Seq::<EntryView>::empty());
    let l = session_line(1, e.meta, now);
    assert(session_lines(Seq::empty(), now) + l =~= l);
}

/// A session is called by its title and the first eight characters of its name, or by these alone.
pub proof fn law_session_called(m: MetaView, t: Seq<char>)
    ensures
        m.title == Some(t) && t.len() > 0 ==> label_of(m) == t + " ("@ + first_chars(m.id, 8) + ")"@,
        m.title == Some(Seq::<char>::empty()) || m.title is None ==> label_of(m) == first_chars(m.id, 8),
{
}

} // verus!
