//! Session records whose text gives a field twice. Such a line is no record; what a record does not read,
//! and the arguments of a call, may repeat keys. The documents here are marked: each string begins with its
//! place in the text.

use crate::json::{entry_views, json_view_arr, json_view_obj, json_views, Json, JsonView};
use crate::text::str_eq;
use crate::written::{
    get_marked, get_word, gives_once, marked_field, marked_word, once, unmark, unmarked,
};
use vstd::prelude::*;

verus! {

/// A tool call gives no field twice.
pub open spec fn tidy_call(j: JsonView) -> bool {
    once(j, "id"@) && once(j, "name"@) && once(j, "args"@)
}

/// No tool call of a list gives a field twice.
pub open spec fn tidy_calls(j: JsonView) -> bool {
    match j {
        JsonView::Arr(v) => forall|i: int| 0 <= i < v.len() ==> tidy_call(#[trigger] v[i]),
        _ => true,
    }
}

/// The content of a message gives no field twice.
pub open spec fn tidy_content(kind: Seq<char>, j: JsonView) -> bool {
    if kind == "ToolCalls"@ {
        tidy_calls(j)
    } else if kind == "Tool"@ {
        once(j, "call_id"@) && once(j, "content"@)
    } else {
        true
    }
}

/// A message gives one kind only, and no field twice.
pub open spec fn tidy_message(j: JsonView) -> bool {
    match j {
        JsonView::Obj(e) => e.len() == 1 && tidy_content(unmarked(e[0].0), e[0].1),
        _ => true,
    }
}

/// All the messages of a list are tidy.
pub open spec fn tidy_messages(j: JsonView) -> bool {
    match j {
        JsonView::Arr(v) => forall|i: int| 0 <= i < v.len() ==> tidy_message(#[trigger] v[i]),
        _ => true,
    }
}

/// A task gives no field twice, and one status only.
pub open spec fn tidy_todo(j: JsonView) -> bool {
    &&& once(j, "content"@)
    &&& once(j, "status"@)
    &&& once(j, "active_form"@)
    &&& marked_field(j, "status"@, 1) matches Some(s) ==> marked_word(s) is Some
}

/// All the tasks of a list are tidy.
pub open spec fn tidy_todos(j: JsonView) -> bool {
    match j {
        JsonView::Arr(v) => forall|i: int| 0 <= i < v.len() ==> tidy_todo(#[trigger] v[i]),
        _ => true,
    }
}

/// A file before a change gives no field twice.
pub open spec fn tidy_snap(j: JsonView) -> bool {
    once(j, "path"@) && once(j, "prior"@)
}

/// No file of a list gives a field twice.
pub open spec fn tidy_snaps(j: JsonView) -> bool {
    match j {
        JsonView::Arr(v) => forall|i: int| 0 <= i < v.len() ==> tidy_snap(#[trigger] v[i]),
        _ => true,
    }
}

/// The metadata of a session give no field twice.
pub open spec fn tidy_meta(j: JsonView) -> bool {
    &&& once(j, "id"@)
    &&& once(j, "parent_id"@)
    &&& once(j, "forked_from"@)
    &&& once(j, "cwd"@)
    &&& once(j, "git"@)
    &&& once(j, "title"@)
    &&& once(j, "carter_version"@)
    &&& once(j, "model"@)
    &&& once(j, "created_at"@)
    &&& marked_field(j, "git"@, 4) matches Some(g) ==> once(g, "commit"@) && once(g, "branch"@)
}

/// What a record says gives no field twice.
pub open spec fn tidy_payload(word: Seq<char>, p: JsonView) -> bool {
    if word == "session_meta"@ {
        tidy_meta(p)
    } else if word == "title"@ {
        once(p, "title"@)
    } else if word == "message"@ {
        tidy_message(p)
    } else if word == "todo"@ {
        tidy_todos(p)
    } else if word == "compacted"@ {
        &&& once(p, "tier"@)
        &&& once(p, "messages"@)
        &&& marked_field(p, "messages"@, 1) matches Some(m) ==> tidy_messages(m)
    } else if word == "checkpoint"@ {
        &&& once(p, "label"@)
        &&& once(p, "snapshots"@)
        &&& marked_field(p, "snapshots"@, 1) matches Some(s) ==> tidy_snaps(s)
    } else {
        true
    }
}

/// A record gives no field twice.
pub open spec fn tidy_record(j: JsonView) -> bool {
    &&& once(j, "ts"@)
    &&& once(j, "type"@)
    &&& once(j, "payload"@)
    &&& match (marked_field(j, "type"@, 1), marked_field(j, "payload"@, 2)) {
        (Some(t), Some(p)) => match marked_word(t) {
            Some(word) => tidy_payload(word, p),
            None => false,
        },
        _ => false,
    }
}

fn call_tidy(j: &Json) -> (r: bool)
    ensures
        r == tidy_call(j@),
{
    gives_once(j, "id") && gives_once(j, "name") && gives_once(j, "args")
}

fn calls_tidy(j: &Json) -> (r: bool)
    ensures
        r == tidy_calls(j@),
{
    match j {
        Json::Arr(v) => {
            proof {
                json_view_arr(*v);
            }
            let ghost vv = json_views(v@);
            let mut i: usize = 0;
            while i < v.len()
                invariant
                    i <= v@.len(),
                    vv == json_views(v@),
                    vv.len() == v@.len(),
                    j@ == JsonView::Arr(vv),
                    forall|k: int| 0 <= k < i ==> tidy_call(#[trigger] vv[k]),
                decreases v@.len() - i,
            {
                assert(vv[i as int] == v@[i as int]@);
                if !call_tidy(&v[i]) {
                    assert(!tidy_call(j@->Arr_0[i as int]));
                    return false;
                }
                i += 1;
            }
            true
        },
        _ => true,
    }
}

fn content_tidy(kind: &str, j: &Json) -> (r: bool)
    ensures
        r == tidy_content(kind@, j@),
{
    if str_eq(kind, "ToolCalls") {
        calls_tidy(j)
    } else if str_eq(kind, "Tool") {
        gives_once(j, "call_id") && gives_once(j, "content")
    } else {
        true
    }
}

fn message_tidy(j: &Json) -> (r: bool)
    ensures
        r == tidy_message(j@),
{
    match j {
        Json::Obj(v) => {
            proof {
                json_view_obj(*v);
            }
            assert(entry_views(v@).len() == v@.len());
            if v.len() != 1 {
                return false;
            }
            assert(entry_views(v@)[0] == (v@[0].0@, v@[0].1@));
            content_tidy(unmark(v[0].0.as_str()).as_str(), &v[0].1)
        },
        _ => true,
    }
}

fn messages_tidy(j: &Json) -> (r: bool)
    ensures
        r == tidy_messages(j@),
{
    match j {
        Json::Arr(v) => {
            proof {
                json_view_arr(*v);
            }
            let ghost vv = json_views(v@);
            let mut i: usize = 0;
            while i < v.len()
                invariant
                    i <= v@.len(),
                    vv == json_views(v@),
                    vv.len() == v@.len(),
                    j@ == JsonView::Arr(vv),
                    forall|k: int| 0 <= k < i ==> tidy_message(#[trigger] vv[k]),
                decreases v@.len() - i,
            {
                assert(vv[i as int] == v@[i as int]@);
                if !message_tidy(&v[i]) {
                    assert(!tidy_message(j@->Arr_0[i as int]));
                    return false;
                }
                i += 1;
            }
            true
        },
        _ => true,
    }
}

fn todo_tidy(j: &Json) -> (r: bool)
    ensures
        r == tidy_todo(j@),
{
    gives_once(j, "content") && gives_once(j, "status") && gives_once(j, "active_form")
        && match get_marked(j, "status", 1) {
        Some(s) => get_word(s).is_some(),
        None => true,
    }
}

fn todos_tidy(j: &Json) -> (r: bool)
    ensures
        r == tidy_todos(j@),
{
    match j {
        Json::Arr(v) => {
            proof {
                json_view_arr(*v);
            }
            let ghost vv = json_views(v@);
            let mut i: usize = 0;
            while i < v.len()
                invariant
                    i <= v@.len(),
                    vv == json_views(v@),
                    vv.len() == v@.len(),
                    j@ == JsonView::Arr(vv),
                    forall|k: int| 0 <= k < i ==> tidy_todo(#[trigger] vv[k]),
                decreases v@.len() - i,
            {
                assert(vv[i as int] == v@[i as int]@);
                if !todo_tidy(&v[i]) {
                    assert(!tidy_todo(j@->Arr_0[i as int]));
                    return false;
                }
                i += 1;
            }
            true
        },
        _ => true,
    }
}

fn snap_tidy(j: &Json) -> (r: bool)
    ensures
        r == tidy_snap(j@),
{
    gives_once(j, "path") && gives_once(j, "prior")
}

fn snaps_tidy(j: &Json) -> (r: bool)
    ensures
        r == tidy_snaps(j@),
{
    match j {
        Json::Arr(v) => {
            proof {
                json_view_arr(*v);
            }
            let ghost vv = json_views(v@);
            let mut i: usize = 0;
            while i < v.len()
                invariant
                    i <= v@.len(),
                    vv == json_views(v@),
                    vv.len() == v@.len(),
                    j@ == JsonView::Arr(vv),
                    forall|k: int| 0 <= k < i ==> tidy_snap(#[trigger] vv[k]),
                decreases v@.len() - i,
            {
                assert(vv[i as int] == v@[i as int]@);
                if !snap_tidy(&v[i]) {
                    assert(!tidy_snap(j@->Arr_0[i as int]));
                    return false;
                }
                i += 1;
            }
            true
        },
        _ => true,
    }
}

fn meta_tidy(j: &Json) -> (r: bool)
    ensures
        r == tidy_meta(j@),
{
    gives_once(j, "id") && gives_once(j, "parent_id") && gives_once(j, "forked_from") && gives_once(
        j,
        "cwd",
    ) && gives_once(j, "git") && gives_once(j, "title") && gives_once(j, "carter_version")
        && gives_once(j, "model") && gives_once(j, "created_at") && match get_marked(j, "git", 4) {
        Some(g) => gives_once(g, "commit") && gives_once(g, "branch"),
        None => true,
    }
}

fn payload_tidy(word: &str, p: &Json) -> (r: bool)
    ensures
        r == tidy_payload(word@, p@),
{
    if str_eq(word, "session_meta") {
        meta_tidy(p)
    } else if str_eq(word, "title") {
        gives_once(p, "title")
    } else if str_eq(word, "message") {
        message_tidy(p)
    } else if str_eq(word, "todo") {
        todos_tidy(p)
    } else if str_eq(word, "compacted") {
        gives_once(p, "tier") && gives_once(p, "messages") && match get_marked(p, "messages", 1) {
            Some(m) => messages_tidy(m),
            None => true,
        }
    } else if str_eq(word, "checkpoint") {
        gives_once(p, "label") && gives_once(p, "snapshots") && match get_marked(p, "snapshots", 1) {
            Some(s) => snaps_tidy(s),
            None => true,
        }
    } else {
        true
    }
}

/// Whether a marked record gives no field twice.
pub fn record_tidy(j: &Json) -> (r: bool)
    ensures
        r == tidy_record(j@),
{
    if !(gives_once(j, "ts") && gives_once(j, "type") && gives_once(j, "payload")) {
        return false;
    }
    match (get_marked(j, "type", 1), get_marked(j, "payload", 2)) {
        (Some(t), Some(p)) => match get_word(t) {
            Some(word) => payload_tidy(word.as_str(), p),
            None => false,
        },
        _ => false,
    }
}

/// A record gives its time, its kind and what it holds once each, and what it holds is read as its kind says; one
/// without a kind or without anything in it is none.
pub proof fn law_record_tidy(j: JsonView, t: JsonView, word: Seq<char>, p: JsonView)
    ensures
        marked_field(j, "type"@, 1) == Some(t) && marked_word(t) == Some(word) && marked_field(j, "payload"@, 2)
            == Some(p) ==> (tidy_record(j) <==> once(j, "ts"@) && once(j, "type"@) && once(j, "payload"@)
            && tidy_payload(word, p)),
        marked_field(j, "type"@, 1) is None || marked_field(j, "payload"@, 2) is None ==> !tidy_record(j),
        marked_field(j, "type"@, 1) == Some(t) && marked_word(t) is None ==> !tidy_record(j),
{
}

/// What each kind of record gives once.
pub proof fn law_payload_tidy(p: JsonView, word: Seq<char>)
    ensures
        tidy_payload("session_meta"@, p) <==> tidy_meta(p),
        tidy_payload("title"@, p) <==> once(p, "title"@),
        tidy_payload("message"@, p) <==> tidy_message(p),
        tidy_payload("todo"@, p) <==> tidy_todos(p),
        tidy_payload("compacted"@, p) <==> once(p, "tier"@) && once(p, "messages"@) && (marked_field(
            p,
            "messages"@,
            1,
        ) matches Some(m) ==> tidy_messages(m)),
        tidy_payload("checkpoint"@, p) <==> once(p, "label"@) && once(p, "snapshots"@) && (marked_field(
            p,
            "snapshots"@,
            1,
        ) matches Some(s) ==> tidy_snaps(s)),
{
    reveal_strlit("session_meta");
    reveal_strlit("title");
    reveal_strlit("message");
    reveal_strlit("todo");
    reveal_strlit("compacted");
    reveal_strlit("checkpoint");
    assert("session_meta"@.len() == 12 && "title"@.len() == 5 && "message"@.len() == 7 && "todo"@.len() == 4
        && "compacted"@.len() == 9 && "checkpoint"@.len() == 10);
}

/// A message is one entry; of calls each gives its number, its name and its arguments once, and of an answer its
/// number and its text.
pub proof fn law_messages_tidy(v: Seq<JsonView>, j: JsonView, n: Seq<char>)
    ensures
        unmarked(n) == "Tool"@ ==> (tidy_message(JsonView::Obj(seq![(n, j)])) <==> once(j, "call_id"@) && once(
            j,
            "content"@,
        )),
        unmarked(n) == "ToolCalls"@ ==> (tidy_message(JsonView::Obj(seq![(n, JsonView::Arr(v))])) <==> forall|
            i: int,
        |
            0 <= i < v.len() ==> once(#[trigger] v[i], "id"@) && once(v[i], "name"@) && once(v[i], "args"@)),
        unmarked(n) != "Tool"@ && unmarked(n) != "ToolCalls"@ ==> tidy_message(JsonView::Obj(seq![(n, j)])),
        tidy_messages(JsonView::Arr(v)) <==> forall|i: int| 0 <= i < v.len() ==> tidy_message(#[trigger] v[i]),
{
    reveal_strlit("Tool");
    reveal_strlit("ToolCalls");
    assert("Tool"@.len() == 4 && "ToolCalls"@.len() == 9);
    let e = seq![(n, j)];
    assert(e[0] == (n, j));
    let f = seq![(n, JsonView::Arr(v))];
    assert(f[0] == (n, JsonView::Arr(v)));
    if forall|i: int|
        0 <= i < v.len() ==> once(#[trigger] v[i], "id"@) && once(v[i], "name"@) && once(v[i], "args"@) {
        assert forall|i: int| 0 <= i < v.len() implies tidy_call(#[trigger] v[i]) by {}
    }
    if tidy_calls(JsonView::Arr(v)) {
        assert forall|i: int| 0 <= i < v.len() implies once(#[trigger] v[i], "id"@) && once(v[i], "name"@)
            && once(v[i], "args"@) by {
            let a = JsonView::Arr(v);
            assert(tidy_call(a->Arr_0[i]));
        }
    }
    let a = JsonView::Arr(v);
    if tidy_messages(a) {
        assert forall|i: int| 0 <= i < v.len() implies tidy_message(#[trigger] v[i]) by {
            assert(tidy_message(a->Arr_0[i]));
        }
    }
}

/// A task gives its text, its state and its active form once; a kept file its path and what it held.
pub proof fn law_tasks_tidy(v: Seq<JsonView>, i: int)
    ensures
        tidy_todos(JsonView::Arr(v)) && 0 <= i < v.len() ==> once(v[i], "content"@) && once(v[i], "status"@)
            && once(v[i], "active_form"@),
        tidy_snaps(JsonView::Arr(v)) && 0 <= i < v.len() ==> once(v[i], "path"@) && once(v[i], "prior"@),
        tidy_todos(JsonView::Arr(Seq::empty())),
        tidy_snaps(JsonView::Arr(Seq::empty())),
{
    let a = JsonView::Arr(v);
    if 0 <= i < v.len() {
        if tidy_todos(a) {
            assert(tidy_todo(a->Arr_0[i]));
        }
        if tidy_snaps(a) {
            assert(tidy_snap(a->Arr_0[i]));
        }
    }
}

/// What is told of a session is told once each.
pub proof fn law_meta_tidy(j: JsonView)
    requires
        tidy_meta(j),
    ensures
        once(j, "id"@) && once(j, "parent_id"@) && once(j, "forked_from"@) && once(j, "cwd"@) && once(j, "git"@)
            && once(j, "title"@) && once(j, "carter_version"@) && once(j, "model"@) && once(j, "created_at"@),
        marked_field(j, "git"@, 4) matches Some(g) ==> once(g, "commit"@) && once(g, "branch"@),
{
}

} // verus!
