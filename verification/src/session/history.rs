//! What the user typed, over all sessions: a line for each input, the newest last.

use crate::config::paths::{join_path, joined};
use crate::json::{
    has_fields, jobj3, json_parse, json_text, jstr, juint, keys_distinct, lemma_member_at, member,
    opt_json, parse_json, plain, text_field, uint_field, Json, JsonView, NumberView,
};
use crate::session::store::{lemma_nonblank_added, nonblank, record_lines};
use crate::split::{is_blank, lemma_lines_added, lemma_not_blank, lemma_one_line, lines};
use crate::text::{opt_text, texts, texts_push};
use crate::written::{gives_once, is_written_once, mark_strings, marked, once, written_once};
use vstd::prelude::*;

verus! {

/// How many inputs are taken up again.
pub const LOAD_LIMIT: usize = 1000;

/// Where the inputs are kept.
pub fn history_path(root: &str) -> (r: String)
    ensures
        r@ == joined(root@, "history.jsonl"@),
{
    join_path(root, "history.jsonl")
}

/// An input, with the moment and the session in which it was typed.
pub open spec fn entry_json(ts: u64, session_id: Seq<char>, text: Seq<char>) -> JsonView {
    JsonView::Obj(
        seq![
            ("ts"@, JsonView::Num(NumberView::Uint(ts))),
            ("session_id"@, JsonView::Str(session_id)),
            ("text"@, JsonView::Str(text)),
        ],
    )
}

/// The input that a document holds: nothing where there is none or it lacks a field. The fields stand under
/// their names, or in their order.
pub open spec fn entry_of(line: Option<JsonView>) -> Option<Seq<char>> {
    match line {
        Some(j) => if has_fields(j, 3) && uint_field(j, "ts"@, 0) is Some && text_field(
            j,
            "session_id"@,
            1,
        ) is Some {
            text_field(j, "text"@, 2)
        } else {
            None
        },
        None => None,
    }
}

/// The input that a document holds.
pub fn read_entry(j: &Option<Json>) -> (r: Option<String>)
    ensures
        opt_text(r) == entry_of(opt_json(*j)),
{
    match j {
        Some(j) => if j.is_record(3) && j.uint_field("ts", 0).is_some() && j.text_field("session_id", 1).is_some() {
            j.text_field("text", 2)
        } else {
            None
        },
        None => None,
    }
}

/// A marked entry gives no field twice.
pub open spec fn tidy_entry(j: JsonView) -> bool {
    once(j, "ts"@) && once(j, "session_id"@) && once(j, "text"@)
}

/// The input that a line holds. A line that gives a field twice holds none.
pub open spec fn entry_at(line: Seq<char>) -> Option<Seq<char>> {
    if written_once(line) || (json_parse(marked(line)) matches Some(j) && tidy_entry(j)) {
        entry_of(json_parse(line))
    } else {
        None
    }
}

/// The input that a line holds.
pub fn entry_text(line: &str) -> (r: Option<String>)
    ensures
        opt_text(r) == entry_at(line@),
{
    let j = match parse_json(line) {
        Some(j) => j,
        None => {
            return None;
        },
    };
    if !is_written_once(line, &j) {
        match parse_json(mark_strings(line).as_str()) {
            Some(m) => {
                if !(gives_once(&m, "ts") && gives_once(&m, "session_id") && gives_once(&m, "text")) {
                    return None;
                }
            },
            None => {
                return None;
            },
        }
    }
    read_entry(&Some(j))
}

/// The line for an input, without its end. The input is read back from it.
pub fn entry_line(ts: u64, session_id: &str, text: &str) -> (r: String)
    ensures
        r@ == json_text(entry_json(ts, session_id@, text@)),
        entry_at(r@) == Some(text@),
        lines(r@.push('\n')) == seq![r@] && !is_blank(r@),
{
    let j = jobj3("ts", juint(ts), "session_id", jstr(session_id), "text", jstr(text));
    let ghost jv = entry_json(ts, session_id@, text@);
    proof {
        reveal_strlit("ts");
        reveal_strlit("session_id");
        reveal_strlit("text");
        assert("ts"@.len() == 2 && "session_id"@.len() == 10 && "text"@.len() == 4);
        let e = jv->Obj_0;
        assert(keys_distinct(e));
        reveal_with_fuel(plain, 2);
        assert(plain(jv, 127));
        lemma_member_at(e, 0);
        lemma_member_at(e, 1);
        lemma_member_at(e, 2);
    }
    let line = j.to_text();
    proof {
        lemma_one_line(line@);
        lemma_not_blank(line@);
    }
    line
}

/// What is appended to the history for an input: a line, which holds that input.
pub fn append(ts: u64, session_id: &str, text: &str) -> (r: String)
    ensures
        r@ == json_text(entry_json(ts, session_id@, text@)) + "\n"@,
        history_texts(r@) == seq![text@],
        r@.last() == '\n',
{
    let mut s = entry_line(ts, session_id, text);
    let ghost line = s@;
    s.append("\n");
    proof {
        reveal_strlit("\n");
        assert(s@ =~= line.push('\n'));
        let one = seq![line];
        assert(one.drop_last() =~= Seq::<Seq<char>>::empty());
        assert(nonblank(one.drop_last()) =~= Seq::<Seq<char>>::empty());
        assert(nonblank(one) =~= one);
        assert(line_texts(one.drop_last()) =~= Seq::<Seq<char>>::empty());
        assert(history_texts(s@) =~= seq![text@]);
    }
    s
}

/// The last `limit` of a list.
pub open spec fn last_of(v: Seq<Seq<char>>, limit: nat) -> Seq<Seq<char>> {
    if v.len() <= limit {
        v
    } else {
        v.skip(v.len() - limit)
    }
}

/// What the lines of a history hold.
pub open spec fn line_texts(ls: Seq<Seq<char>>) -> Seq<Seq<char>>
    decreases ls.len(),
{
    if ls.len() == 0 {
        Seq::empty()
    } else {
        match entry_at(ls.last()) {
            Some(t) => line_texts(ls.drop_last()).push(t),
            None => line_texts(ls.drop_last()),
        }
    }
}

/// What a history holds, oldest first.
pub open spec fn history_texts(raw: Seq<char>) -> Seq<Seq<char>> {
    line_texts(nonblank(lines(raw)))
}

/// The newest inputs of a history, oldest first. Lines that hold none are passed over.
pub fn load(raw: &str, limit: usize) -> (r: Vec<String>)
    ensures
        texts(r@) == last_of(history_texts(raw@), limit as nat),
{
    let ls = record_lines(raw);
    let ghost lv = texts(ls@);
    let mut all: Vec<String> = Vec::new();
    let mut i: usize = 0;
    assert(lv.take(0) =~= Seq::<Seq<char>>::empty());
    assert(texts(all@) =~= Seq::<Seq<char>>::empty());
    while i < ls.len()
        invariant
            i <= ls@.len(),
            lv == texts(ls@),
            texts(all@) == line_texts(lv.take(i as int)),
        decreases ls@.len() - i,
    {
        broadcast use texts_push;

        assert(lv.take(i + 1).drop_last() =~= lv.take(i as int));
        assert(lv.take(i + 1).last() == ls@[i as int]@);
        match entry_text(ls[i].as_str()) {
            Some(t) => {
                all.push(t);
            },
            None => {},
        }
        i += 1;
    }
    assert(lv.take(i as int) =~= lv);
    newest(all, limit)
}

/// The last `limit` of a list.
pub fn newest(all: Vec<String>, limit: usize) -> (r: Vec<String>)
    ensures
        texts(r@) == last_of(texts(all@), limit as nat),
{
    assert(texts(all@).len() == all@.len());
    if all.len() <= limit {
        return all;
    }
    let ghost av = texts(all@);
    let start: usize = all.len() - limit;
    let mut out: Vec<String> = Vec::new();
    let mut k: usize = start;
    assert(texts(out@) =~= av.skip(start as int).take(0));
    while k < all.len()
        invariant
            start <= k <= all@.len(),
            av == texts(all@),
            av.len() == all@.len(),
            texts(out@) == av.skip(start as int).take(k - start),
        decreases all@.len() - k,
    {
        broadcast use texts_push;

        assert(av.skip(start as int).take(k - start + 1) =~= av.skip(start as int).take(
            k - start,
        ).push(all@[k as int]@));
        out.push(all[k].clone());
        k += 1;
    }
    assert(av.skip(start as int).take(k - start) =~= av.skip(start as int));
    out
}

/// No more inputs are taken up than the limit, and those that are, are the newest in their order.
pub proof fn law_newest_inputs_kept(v: Seq<Seq<char>>, limit: nat)
    ensures
        last_of(v, limit).len() <= limit,
        exists|older: Seq<Seq<char>>| v == #[trigger] (older + last_of(v, limit)) && (v.len() <= limit
            ==> older.len() == 0),
{
    let older = v.take(v.len() - last_of(v, limit).len());
    assert(v =~= older + last_of(v, limit));
}

proof fn lemma_texts_added(a: Seq<Seq<char>>, b: Seq<Seq<char>>)
    ensures
        line_texts(a + b) == line_texts(a) + line_texts(b),
    decreases b.len(),
{
    if b.len() == 0 {
        assert(a + b =~= a);
        assert(line_texts(a) + line_texts(b) =~= line_texts(a));
    } else {
        assert((a + b).drop_last() =~= a + b.drop_last());
        lemma_texts_added(a, b.drop_last());
        assert(line_texts(a + b) =~= line_texts(a) + line_texts(b));
    }
}

/// Inputs that are appended to a history whose last line is ended come after those that it holds.
pub proof fn law_appended_input_is_newest(before: Seq<char>, added: Seq<char>)
    requires
        before.len() == 0 || before.last() == '\n',
    ensures
        history_texts(before + added) == history_texts(before) + history_texts(added),
{
    lemma_lines_added(before, added);
    lemma_nonblank_added(lines(before), lines(added));
    lemma_texts_added(nonblank(lines(before)), nonblank(lines(added)));
}

/// An entry that is written is read back as its text, whatever the time and the session.
pub proof fn law_entry_read_back(ts: u64, session_id: Seq<char>, text: Seq<char>)
    ensures
        entry_of(Some(entry_json(ts, session_id, text))) == Some(text),
        entry_of(None) is None,
{
    let e = seq![
        ("ts"@, JsonView::Num(NumberView::Uint(ts))),
        ("session_id"@, JsonView::Str(session_id)),
        ("text"@, JsonView::Str(text)),
    ];
    reveal_strlit("ts");
    reveal_strlit("session_id");
    reveal_strlit("text");
    assert("ts"@.len() == 2 && "session_id"@.len() == 10 && "text"@.len() == 4);
    assert(e[0].0 == "ts"@ && e[1].0 == "session_id"@ && e[2].0 == "text"@);
    lemma_member_at(e, 0);
    lemma_member_at(e, 1);
    lemma_member_at(e, 2);
}

/// An entry without a time, a session or a text is no entry.
pub proof fn law_entry_whole(j: JsonView)
    requires
        j is Obj,
        member(j, "ts"@) is None || member(j, "session_id"@) is None || member(j, "text"@) is None,
    ensures
        entry_of(Some(j)) is None,
{
}

/// The inputs are read line by line, in their order; a line that holds no entry is passed over.
pub proof fn law_inputs_in_order(ls: Seq<Seq<char>>, l: Seq<char>)
    ensures
        line_texts(ls.push(l)) == line_texts(ls) + (match entry_at(l) {
            Some(t) => seq![t],
            None => Seq::empty(),
        }),
        line_texts(Seq::empty()).len() == 0,
{
    assert(ls.push(l).drop_last() =~= ls);
}

} // verus!
