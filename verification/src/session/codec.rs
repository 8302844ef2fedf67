//! The lines of a session file: records as JSON, and back.

use super::record::{
    git_view, kind_views, record_views, snap_views, FileSnapshotRecord, GitInfo, KindView, MetaView, Record,
    RecordKind, RecordView, SessionMeta, SnapView,
};
use super::store::{
    entry_list, fold_records, folded, gc, gc_kinds, law_gc_keeps_replay, lemma_nonblank_added, load_records,
    meta_of, newest_first, no_meta_text, nonblank, record_lines, resumed, sort_entries, stamped, EntryView,
    Folded, SessionEntry,
};
use super::tidy::{record_tidy, tidy_record};
use crate::agent::thread::Thread;
use crate::bytes::{byte_len, byte_length};
use crate::error::{CarterError, ErrorView};
use crate::json::{
    entry_views, field, has_fields, jobj, jobj1, jobj2, jobj3, json_parse, json_text, json_view_arr,
    json_view_obj, json_views, jstr, juint, key_from, keys_distinct, lemma_member_at, lemma_plain_deeper,
    lemma_plain_within, member, nests_within, opt_json, opt_view, parse_json, plain, text_field, text_member,
    uint_field, uint_member, with_entry, Json, JsonView, NumberView,
};
use crate::provider::event::{call_views, CallView, ToolCall};
use crate::provider::llm_log::{call_json, calls_json, jmessage, jmessages, message_json, messages_json};
use crate::provider::request::{message_views, Message, MessageView};
use crate::split::{is_blank, lemma_lines_added, lemma_not_blank, lemma_one_line, lines};
use crate::text::{opt_text, str_eq, texts};
use crate::tools::todo_write::{status_of, todo_views, TodoItem, TodoStatus, TodoView};
use crate::written::{is_written_once, mark_strings, marked, written_once};
use vstd::prelude::*;

verus! {

// ---------------------------------------------------------------------------------------------
// Writing
// ---------------------------------------------------------------------------------------------

/// A text that may be missing.
pub open spec fn opt_json_text(s: Option<Seq<char>>) -> JsonView {
    match s {
        Some(t) => JsonView::Str(t),
        None => JsonView::Null,
    }
}

/// The state of a repository, written.
pub open spec fn git_json(g: Option<(Seq<char>, Seq<char>)>) -> JsonView {
    match g {
        Some((commit, branch)) => JsonView::Obj(
            seq![("commit"@, JsonView::Str(commit)), ("branch"@, JsonView::Str(branch))],
        ),
        None => JsonView::Null,
    }
}

/// The metadata of a session, written.
pub open spec fn meta_json(m: MetaView) -> JsonView {
    JsonView::Obj(
        seq![
            ("id"@, JsonView::Str(m.id)),
            ("parent_id"@, opt_json_text(m.parent_id)),
            ("forked_from"@, opt_json_text(m.forked_from)),
            ("cwd"@, JsonView::Str(m.cwd)),
            ("git"@, git_json(m.git)),
            ("title"@, opt_json_text(m.title)),
            ("carter_version"@, JsonView::Str(m.carter_version)),
            ("model"@, JsonView::Str(m.model)),
            ("created_at"@, JsonView::Num(NumberView::Uint(m.created_at))),
        ],
    )
}

/// A status, written.
pub open spec fn status_name(s: TodoStatus) -> Seq<char> {
    match s {
        TodoStatus::Pending => "pending"@,
        TodoStatus::InProgress => "in_progress"@,
        TodoStatus::Completed => "completed"@,
    }
}

/// A task, written.
pub open spec fn todo_json(t: TodoView) -> JsonView {
    JsonView::Obj(
        seq![
            ("content"@, JsonView::Str(t.content)),
            ("status"@, JsonView::Str(status_name(t.status))),
            ("active_form"@, JsonView::Str(t.active_form)),
        ],
    )
}

/// Tasks, written.
pub open spec fn todos_json(ts: Seq<TodoView>) -> JsonView {
    JsonView::Arr(ts.map_values(|t: TodoView| todo_json(t)))
}

/// A file before a change, written.
pub open spec fn snap_json(s: SnapView) -> JsonView {
    JsonView::Obj(seq![("path"@, JsonView::Str(s.path)), ("prior"@, opt_json_text(s.prior))])
}

/// Files before a change, written.
pub open spec fn snaps_json(ss: Seq<SnapView>) -> JsonView {
    JsonView::Arr(ss.map_values(|s: SnapView| snap_json(s)))
}

/// The word for the kind of a record.
pub open spec fn kind_word(k: KindView) -> Seq<char> {
    match k {
        KindView::SessionMeta(_) => "session_meta"@,
        KindView::Title(_) => "title"@,
        KindView::Message(_) => "message"@,
        KindView::Todo(_) => "todo"@,
        KindView::Compacted { .. } => "compacted"@,
        KindView::Checkpoint { .. } => "checkpoint"@,
    }
}

/// What a record says, written.
pub open spec fn payload_json(k: KindView) -> JsonView {
    match k {
        KindView::SessionMeta(m) => meta_json(m),
        KindView::Title(t) => JsonView::Obj(seq![("title"@, JsonView::Str(t))]),
        KindView::Message(m) => message_json(m),
        KindView::Todo(ts) => todos_json(ts),
        KindView::Compacted { tier, messages } => JsonView::Obj(
            seq![("tier"@, JsonView::Str(tier)), ("messages"@, messages_json(messages))],
        ),
        KindView::Checkpoint { label, snapshots } => JsonView::Obj(
            seq![("label"@, JsonView::Str(label)), ("snapshots"@, snaps_json(snapshots))],
        ),
    }
}

/// A record, written: when, of what kind, and what it says.
pub open spec fn record_json(r: RecordView) -> JsonView {
    JsonView::Obj(
        seq![
            ("ts"@, JsonView::Num(NumberView::Uint(r.ts))),
            ("type"@, JsonView::Str(kind_word(r.kind))),
            ("payload"@, payload_json(r.kind)),
        ],
    )
}

fn jopt(s: &Option<String>) -> (r: Json)
    ensures
        r@ == opt_json_text(opt_text(*s)),
{
    match s {
        Some(t) => jstr(t.as_str()),
        None => Json::Null,
    }
}

fn jmeta(m: &SessionMeta) -> (r: Json)
    ensures
        r@ == meta_json(m@),
{
    let git = match &m.git {
        Some(g) => jobj2("commit", jstr(g.commit.as_str()), "branch", jstr(g.branch.as_str())),
        None => Json::Null,
    };
    assert(git@ == git_json(m@.git));
    let v: Vec<(String, Json)> = Vec::new();
    let v = with_entry(v, "id", jstr(m.id.as_str()));
    let v = with_entry(v, "parent_id", jopt(&m.parent_id));
    let v = with_entry(v, "forked_from", jopt(&m.forked_from));
    let v = with_entry(v, "cwd", jstr(m.cwd.as_str()));
    let v = with_entry(v, "git", git);
    let v = with_entry(v, "title", jopt(&m.title));
    let v = with_entry(v, "carter_version", jstr(m.carter_version.as_str()));
    let v = with_entry(v, "model", jstr(m.model.as_str()));
    let v = with_entry(v, "created_at", juint(m.created_at));
    assert(entry_views(v@) =~= meta_json(m@)->Obj_0);
    jobj(v)
}

fn status_text(s: TodoStatus) -> (r: &'static str)
    ensures
        r@ == status_name(s),
{
    match s {
        TodoStatus::Pending => "pending",
        TodoStatus::InProgress => "in_progress",
        TodoStatus::Completed => "completed",
    }
}

fn jtodos(ts: &Vec<TodoItem>) -> (r: Json)
    ensures
        r@ == todos_json(todo_views(ts@)),
{
    let ghost want = todos_json(todo_views(ts@))->Arr_0;
    let mut out: Vec<Json> = Vec::new();
    let mut i: usize = 0;
    assert(json_views(out@) =~= want.take(0));
    while i < ts.len()
        invariant
            i <= ts@.len(),
            want == todos_json(todo_views(ts@))->Arr_0,
            json_views(out@) == want.take(i as int),
        decreases ts@.len() - i,
    {
        let t = &ts[i];
        let j = jobj3(
            "content",
            jstr(t.content.as_str()),
            "status",
            jstr(status_text(t.status)),
            "active_form",
            jstr(t.active_form.as_str()),
        );
        let ghost jv = j@;
        let ghost before = json_views(out@);
        assert(want[i as int] == jv);
        out.push(j);
        assert(json_views(out@) =~= before.push(jv));
        assert(want.take(i + 1) =~= want.take(i as int).push(jv));
        i += 1;
    }
    assert(want.take(i as int) =~= want);
    proof {
        json_view_arr(out);
    }
    Json::Arr(out)
}

fn jsnaps(ss: &Vec<FileSnapshotRecord>) -> (r: Json)
    ensures
        r@ == snaps_json(snap_views(ss@)),
{
    let ghost want = snaps_json(snap_views(ss@))->Arr_0;
    let mut out: Vec<Json> = Vec::new();
    let mut i: usize = 0;
    assert(json_views(out@) =~= want.take(0));
    while i < ss.len()
        invariant
            i <= ss@.len(),
            want == snaps_json(snap_views(ss@))->Arr_0,
            json_views(out@) == want.take(i as int),
        decreases ss@.len() - i,
    {
        let j = jobj2("path", jstr(ss[i].path.as_str()), "prior", jopt(&ss[i].prior));
        let ghost jv = j@;
        let ghost before = json_views(out@);
        assert(want[i as int] == jv);
        out.push(j);
        assert(json_views(out@) =~= before.push(jv));
        assert(want.take(i + 1) =~= want.take(i as int).push(jv));
        i += 1;
    }
    assert(want.take(i as int) =~= want);
    proof {
        json_view_arr(out);
    }
    Json::Arr(out)
}

/// A record, written.
pub fn record_to_json(r: &Record) -> (out: Json)
    ensures
        out@ == record_json(r@),
{
    let (word, payload) = match &r.kind {
        RecordKind::SessionMeta(m) => ("session_meta", jmeta(m)),
        RecordKind::Title { title } => ("title", jobj1("title", jstr(title.as_str()))),
        RecordKind::Message(m) => ("message", jmessage(m)),
        RecordKind::Todo(ts) => ("todo", jtodos(ts)),
        RecordKind::Compacted { tier, messages } => (
            "compacted",
            jobj2("tier", jstr(tier.as_str()), "messages", jmessages(messages)),
        ),
        RecordKind::Checkpoint { label, snapshots } => (
            "checkpoint",
            jobj2("label", jstr(label.as_str()), "snapshots", jsnaps(snapshots)),
        ),
    };
    assert(word@ == kind_word(r@.kind));
    assert(payload@ == payload_json(r@.kind));
    jobj3("ts", juint(r.ts), "type", jstr(word), "payload", payload)
}

// ---------------------------------------------------------------------------------------------
// Reading
// ---------------------------------------------------------------------------------------------

/// A text that may be missing, read: nothing where something else stands there.
pub open spec fn opt_field(j: JsonView, key: Seq<char>, idx: int) -> Option<Option<Seq<char>>> {
    match field(j, key, idx) {
        None => Some(None),
        Some(JsonView::Null) => Some(None),
        Some(JsonView::Str(s)) => Some(Some(s)),
        _ => None,
    }
}

/// All of a list, read; nothing where one of them cannot be.
pub open spec fn read_all<T>(v: Seq<JsonView>, f: spec_fn(JsonView) -> Option<T>) -> Option<Seq<T>>
    decreases v.len(),
{
    if v.len() == 0 {
        Some(Seq::empty())
    } else {
        match read_all(v.drop_last(), f) {
            Some(s) => match f(v.last()) {
                Some(x) => Some(s.push(x)),
                None => None,
            },
            None => None,
        }
    }
}

proof fn lemma_read_fails<T>(v: Seq<JsonView>, f: spec_fn(JsonView) -> Option<T>, i: int)
    requires
        0 <= i <= v.len(),
        read_all(v.take(i), f) is None,
    ensures
        read_all(v, f) is None,
    decreases v.len(),
{
    if i < v.len() {
        assert(v.drop_last().take(i) =~= v.take(i));
        lemma_read_fails(v.drop_last(), f, i);
    } else {
        assert(v.take(i) =~= v);
    }
}

/// What is written of each of a list and read of each is read of the list.
proof fn lemma_read_all<T>(xs: Seq<T>, w: spec_fn(T) -> JsonView, f: spec_fn(JsonView) -> Option<T>)
    requires
        forall|i: int| 0 <= i < xs.len() ==> f(w(#[trigger] xs[i])) == Some(xs[i]),
    ensures
        read_all(xs.map_values(w), f) == Some(xs),
    decreases xs.len(),
{
    if xs.len() > 0 {
        let ys = xs.drop_last();
        assert forall|i: int| 0 <= i < ys.len() implies f(w(#[trigger] ys[i])) == Some(ys[i]) by {
            assert(ys[i] == xs[i]);
        }
        lemma_read_all(ys, w, f);
        assert(xs.map_values(w).drop_last() =~= ys.map_values(w));
        assert(f(w(xs[xs.len() - 1])) == Some(xs[xs.len() - 1]));
        assert(ys.push(xs.last()) =~= xs);
    } else {
        assert(xs =~= Seq::<T>::empty());
    }
}

/// A tool call, read. Like every record with fields of its own, it is an object or an array of its fields.
pub open spec fn read_call(j: JsonView) -> Option<CallView> {
    if !has_fields(j, 3) {
        None
    } else {
        match (text_field(j, "id"@, 0), text_field(j, "name"@, 1), field(j, "args"@, 2)) {
            (Some(id), Some(name), Some(args)) => Some(CallView { id, name, args }),
            _ => None,
        }
    }
}

/// The text that a value is.
pub open spec fn as_str_value(j: JsonView) -> Option<Seq<char>> {
    match j {
        JsonView::Str(s) => Some(s),
        _ => None,
    }
}

/// The content of a message under the word for its kind, read.
pub open spec fn read_content(kind: Seq<char>, j: JsonView) -> Option<MessageView> {
    if kind == "System"@ {
        match as_str_value(j) {
            Some(s) => Some(MessageView::System(s)),
            None => None,
        }
    } else if kind == "User"@ {
        match as_str_value(j) {
            Some(s) => Some(MessageView::User(s)),
            None => None,
        }
    } else if kind == "Assistant"@ {
        match as_str_value(j) {
            Some(s) => Some(MessageView::Assistant(s)),
            None => None,
        }
    } else if kind == "ToolCalls"@ {
        match j {
            JsonView::Arr(v) => match read_all(v, |c: JsonView| read_call(c)) {
                Some(cs) => Some(MessageView::ToolCalls(cs)),
                None => None,
            },
            _ => None,
        }
    } else if kind == "Tool"@ && has_fields(j, 2) {
        match (text_field(j, "call_id"@, 0), text_field(j, "content"@, 1)) {
            (Some(call_id), Some(content)) => Some(MessageView::Tool { call_id, content }),
            _ => None,
        }
    } else {
        None
    }
}

/// A message, read: an object of one entry, whose key is the word for its kind.
pub open spec fn read_message(j: JsonView) -> Option<MessageView> {
    match j {
        JsonView::Obj(e) => if e.len() == 1 {
            read_content(e[0].0, e[0].1)
        } else {
            None
        },
        _ => None,
    }
}

/// The word for one of several states: a string, or an object with the word as its only key and nothing
/// under it.
pub open spec fn state_word(j: JsonView) -> Option<Seq<char>> {
    match j {
        JsonView::Str(s) => Some(s),
        JsonView::Obj(e) => if e.len() == 1 && is_nothing(e[0].1) {
            Some(e[0].0)
        } else {
            None
        },
        _ => None,
    }
}

/// Nothing is written as `null` or as an empty object.
pub open spec fn is_nothing(j: JsonView) -> bool {
    match j {
        JsonView::Null => true,
        JsonView::Obj(e) => e.len() == 0,
        _ => false,
    }
}

/// The word of a field for one of several states.
pub open spec fn word_field(j: JsonView, key: Seq<char>, idx: int) -> Option<Seq<char>> {
    match field(j, key, idx) {
        Some(v) => state_word(v),
        None => None,
    }
}

/// A task, read.
pub open spec fn read_todo(j: JsonView) -> Option<TodoView> {
    if !has_fields(j, 3) {
        None
    } else {
        match (
            text_field(j, "content"@, 0),
            word_field(j, "status"@, 1),
            text_field(j, "active_form"@, 2),
        ) {
            (Some(content), Some(word), Some(active_form)) => match status_of(word) {
                Some(status) => Some(TodoView { content, status, active_form }),
                None => None,
            },
            _ => None,
        }
    }
}

/// A file before a change, read.
pub open spec fn read_snap(j: JsonView) -> Option<SnapView> {
    if !has_fields(j, 2) {
        None
    } else {
        match (text_field(j, "path"@, 0), opt_field(j, "prior"@, 1)) {
            (Some(path), Some(prior)) => Some(SnapView { path, prior }),
            _ => None,
        }
    }
}

/// The state of a repository, read.
pub open spec fn read_git(j: Option<JsonView>) -> Option<Option<(Seq<char>, Seq<char>)>> {
    match j {
        None => Some(None),
        Some(JsonView::Null) => Some(None),
        Some(g) => if !has_fields(g, 2) {
            None
        } else {
            match (text_field(g, "commit"@, 0), text_field(g, "branch"@, 1)) {
                (Some(commit), Some(branch)) => Some(Some((commit, branch))),
                _ => None,
            }
        },
    }
}

/// The metadata of a session, read.
pub open spec fn read_meta(j: JsonView) -> Option<MetaView> {
    match (
        text_field(j, "id"@, 0),
        opt_field(j, "parent_id"@, 1),
        opt_field(j, "forked_from"@, 2),
        text_field(j, "cwd"@, 3),
        read_git(field(j, "git"@, 4)),
        opt_field(j, "title"@, 5),
        text_field(j, "carter_version"@, 6),
        text_field(j, "model"@, 7),
        uint_field(j, "created_at"@, 8),
    ) {
        (
            Some(id),
            Some(parent_id),
            Some(forked_from),
            Some(cwd),
            Some(git),
            Some(title),
            Some(carter_version),
            Some(model),
            Some(created_at),
        ) if has_fields(j, 9) => Some(
            MetaView {
                id,
                parent_id,
                forked_from,
                cwd,
                git,
                title,
                carter_version,
                model,
                created_at,
            },
        ),
        _ => None,
    }
}

/// What a record says, read under the word for its kind.
pub open spec fn read_payload(word: Seq<char>, p: JsonView) -> Option<KindView> {
    if word == "session_meta"@ {
        match read_meta(p) {
            Some(m) => Some(KindView::SessionMeta(m)),
            None => None,
        }
    } else if word == "title"@ {
        match text_member(p, "title"@) {
            Some(t) => Some(KindView::Title(t)),
            None => None,
        }
    } else if word == "message"@ {
        match read_message(p) {
            Some(m) => Some(KindView::Message(m)),
            None => None,
        }
    } else if word == "todo"@ {
        match p {
            JsonView::Arr(v) => match read_all(v, |t: JsonView| read_todo(t)) {
                Some(ts) => Some(KindView::Todo(ts)),
                None => None,
            },
            _ => None,
        }
    } else if word == "compacted"@ {
        match (text_member(p, "tier"@), member(p, "messages"@)) {
            (Some(tier), Some(JsonView::Arr(v))) => match read_all(
                v,
                |m: JsonView| read_message(m),
            ) {
                Some(messages) => Some(KindView::Compacted { tier, messages }),
                None => None,
            },
            _ => None,
        }
    } else if word == "checkpoint"@ {
        match (text_member(p, "label"@), member(p, "snapshots"@)) {
            (Some(label), Some(JsonView::Arr(v))) => match read_all(
                v,
                |s: JsonView| read_snap(s),
            ) {
                Some(snapshots) => Some(KindView::Checkpoint { label, snapshots }),
                None => None,
            },
            _ => None,
        }
    } else {
        None
    }
}

/// The word for the kind of a record.
pub open spec fn kind_of(j: Option<JsonView>) -> Option<Seq<char>> {
    match j {
        Some(j) => state_word(j),
        None => None,
    }
}

/// A record, read from a document.
pub open spec fn read_record(j: Option<JsonView>) -> Option<RecordView> {
    match j {
        Some(j) => match (
            uint_member(j, "ts"@),
            kind_of(member(j, "type"@)),
            member(j, "payload"@),
        ) {
            (Some(ts), Some(word), Some(p)) => match read_payload(word, p) {
                Some(kind) => Some(RecordView { ts, kind }),
                None => None,
            },
            _ => None,
        },
        None => None,
    }
}

fn get_opt(j: &Json, key: &str, idx: usize) -> (r: Option<Option<String>>)
    ensures
        match r {
            Some(o) => opt_field(j@, key@, idx as int) == Some(opt_text(o)),
            None => opt_field(j@, key@, idx as int) is None,
        },
{
    match j.get_field(key, idx) {
        None => Some(None),
        Some(v) => match v {
            Json::Null => Some(None),
            Json::Str(s) => Some(Some(s.clone())),
            _ => None,
        },
    }
}

fn call_from(j: &Json) -> (r: Option<ToolCall>)
    ensures
        match r {
            Some(c) => read_call(j@) == Some(c@),
            None => read_call(j@) is None,
        },
{
    if !j.is_record(3) {
        return None;
    }
    match (j.text_field("id", 0), j.text_field("name", 1), j.get_field("args", 2)) {
        (Some(id), Some(name), Some(args)) => Some(ToolCall { id, name, args: args.dup() }),
        _ => None,
    }
}

fn calls_from(v: &Vec<Json>) -> (r: Option<Vec<ToolCall>>)
    ensures
        match r {
            Some(cs) => read_all(json_views(v@), |c: JsonView| read_call(c)) == Some(
                call_views(cs@),
            ),
            None => read_all(json_views(v@), |c: JsonView| read_call(c)) is None,
        },
{
    let ghost jv = json_views(v@);
    let ghost f = |c: JsonView| read_call(c);
    let mut out: Vec<ToolCall> = Vec::new();
    let mut i: usize = 0;
    assert(jv.take(0) =~= Seq::<JsonView>::empty());
    assert(call_views(out@) =~= Seq::<CallView>::empty());
    while i < v.len()
        invariant
            i <= v@.len(),
            jv == json_views(v@),
            f == |c: JsonView| read_call(c),
            read_all(jv.take(i as int), f) == Some(call_views(out@)),
        decreases v@.len() - i,
    {
        assert(jv.take(i + 1).drop_last() =~= jv.take(i as int));
        assert(jv.take(i + 1).last() == v@[i as int]@);
        match call_from(&v[i]) {
            Some(x) => {
                let ghost before = call_views(out@);
                let ghost xv = x@;
                out.push(x);
                assert(call_views(out@) =~= before.push(xv));
            },
            None => {
                proof {
                    lemma_read_fails(jv, f, i + 1);
                }
                return None;
            },
        }
        i += 1;
    }
    assert(jv.take(i as int) =~= jv);
    Some(out)
}

fn message_from(j: &Json) -> (r: Option<Message>)
    ensures
        match r {
            Some(m) => read_message(j@) == Some(m@),
            None => read_message(j@) is None,
        },
{
    match j {
        Json::Obj(e) => {
            proof {
                json_view_obj(*e);
            }
            assert(entry_views(e@).len() == e@.len());
            if e.len() != 1 {
                return None;
            }
            assert(entry_views(e@)[0] == (e@[0].0@, e@[0].1@));
            let kind = e[0].0.as_str();
            let x = &e[0].1;
            if str_eq(kind, "System") {
                match x {
                    Json::Str(s) => Some(Message::System(s.clone())),
                    _ => None,
                }
            } else if str_eq(kind, "User") {
                match x {
                    Json::Str(s) => Some(Message::User(s.clone())),
                    _ => None,
                }
            } else if str_eq(kind, "Assistant") {
                match x {
                    Json::Str(s) => Some(Message::Assistant(s.clone())),
                    _ => None,
                }
            } else if str_eq(kind, "ToolCalls") {
                match x {
                    Json::Arr(v) => {
                        proof {
                            json_view_arr(*v);
                        }
                        match calls_from(v) {
                            Some(cs) => Some(Message::ToolCalls(cs)),
                            None => None,
                        }
                    },
                    _ => None,
                }
            } else if str_eq(kind, "Tool") {
                if !x.is_record(2) {
                    return None;
                }
                match (x.text_field("call_id", 0), x.text_field("content", 1)) {
                    (Some(call_id), Some(content)) => Some(Message::Tool { call_id, content }),
                    _ => None,
                }
            } else {
                None
            }
        },
        _ => None,
    }
}

fn messages_from(v: &Vec<Json>) -> (r: Option<Vec<Message>>)
    ensures
        match r {
            Some(ms) => read_all(json_views(v@), |m: JsonView| read_message(m)) == Some(
                message_views(ms@),
            ),
            None => read_all(json_views(v@), |m: JsonView| read_message(m)) is None,
        },
{
    let ghost jv = json_views(v@);
    let ghost f = |m: JsonView| read_message(m);
    let mut out: Vec<Message> = Vec::new();
    let mut i: usize = 0;
    assert(jv.take(0) =~= Seq::<JsonView>::empty());
    assert(message_views(out@) =~= Seq::<MessageView>::empty());
    while i < v.len()
        invariant
            i <= v@.len(),
            jv == json_views(v@),
            f == |m: JsonView| read_message(m),
            read_all(jv.take(i as int), f) == Some(message_views(out@)),
        decreases v@.len() - i,
    {
        assert(jv.take(i + 1).drop_last() =~= jv.take(i as int));
        assert(jv.take(i + 1).last() == v@[i as int]@);
        match message_from(&v[i]) {
            Some(x) => {
                let ghost before = message_views(out@);
                let ghost xv = x@;
                out.push(x);
                assert(message_views(out@) =~= before.push(xv));
            },
            None => {
                proof {
                    lemma_read_fails(jv, f, i + 1);
                }
                return None;
            },
        }
        i += 1;
    }
    assert(jv.take(i as int) =~= jv);
    Some(out)
}

fn word_from(j: &Json) -> (r: Option<String>)
    ensures
        opt_text(r) == state_word(j@),
{
    match j {
        Json::Str(s) => Some(s.clone()),
        Json::Obj(v) => {
            proof {
                json_view_obj(*v);
            }
            assert(entry_views(v@).len() == v@.len());
            if v.len() != 1 {
                return None;
            }
            assert(entry_views(v@)[0] == (v@[0].0@, v@[0].1@));
            let empty = match &v[0].1 {
                Json::Null => true,
                Json::Obj(w) => {
                    proof {
                        json_view_obj(*w);
                    }
                    assert(entry_views(w@).len() == w@.len());
                    w.len() == 0
                },
                _ => false,
            };
            if empty {
                Some(v[0].0.clone())
            } else {
                None
            }
        },
        _ => None,
    }
}

fn todo_from(j: &Json) -> (r: Option<TodoItem>)
    ensures
        match r {
            Some(t) => read_todo(j@) == Some(t@),
            None => read_todo(j@) is None,
        },
{
    if !j.is_record(3) {
        return None;
    }
    let word = match j.get_field("status", 1) {
        Some(s) => word_from(s),
        None => None,
    };
    match (j.text_field("content", 0), word, j.text_field("active_form", 2)) {
        (Some(content), Some(word), Some(active_form)) => match TodoStatus::from_word(
            word.as_str(),
        ) {
            Some(status) => Some(TodoItem { content, status, active_form }),
            None => None,
        },
        _ => None,
    }
}

fn todos_from(v: &Vec<Json>) -> (r: Option<Vec<TodoItem>>)
    ensures
        match r {
            Some(ts) => read_all(json_views(v@), |t: JsonView| read_todo(t)) == Some(
                todo_views(ts@),
            ),
            None => read_all(json_views(v@), |t: JsonView| read_todo(t)) is None,
        },
{
    let ghost jv = json_views(v@);
    let ghost f = |t: JsonView| read_todo(t);
    let mut out: Vec<TodoItem> = Vec::new();
    let mut i: usize = 0;
    assert(jv.take(0) =~= Seq::<JsonView>::empty());
    assert(todo_views(out@) =~= Seq::<TodoView>::empty());
    while i < v.len()
        invariant
            i <= v@.len(),
            jv == json_views(v@),
            f == |t: JsonView| read_todo(t),
            read_all(jv.take(i as int), f) == Some(todo_views(out@)),
        decreases v@.len() - i,
    {
        assert(jv.take(i + 1).drop_last() =~= jv.take(i as int));
        assert(jv.take(i + 1).last() == v@[i as int]@);
        match todo_from(&v[i]) {
            Some(x) => {
                let ghost before = todo_views(out@);
                let ghost xv = x@;
                out.push(x);
                assert(todo_views(out@) =~= before.push(xv));
            },
            None => {
                proof {
                    lemma_read_fails(jv, f, i + 1);
                }
                return None;
            },
        }
        i += 1;
    }
    assert(jv.take(i as int) =~= jv);
    Some(out)
}

fn snap_from(j: &Json) -> (r: Option<FileSnapshotRecord>)
    ensures
        match r {
            Some(s) => read_snap(j@) == Some(s@),
            None => read_snap(j@) is None,
        },
{
    if !j.is_record(2) {
        return None;
    }
    match (j.text_field("path", 0), get_opt(j, "prior", 1)) {
        (Some(path), Some(prior)) => Some(FileSnapshotRecord { path, prior }),
        _ => None,
    }
}

fn snaps_from(v: &Vec<Json>) -> (r: Option<Vec<FileSnapshotRecord>>)
    ensures
        match r {
            Some(ss) => read_all(json_views(v@), |s: JsonView| read_snap(s)) == Some(
                snap_views(ss@),
            ),
            None => read_all(json_views(v@), |s: JsonView| read_snap(s)) is None,
        },
{
    let ghost jv = json_views(v@);
    let ghost f = |s: JsonView| read_snap(s);
    let mut out: Vec<FileSnapshotRecord> = Vec::new();
    let mut i: usize = 0;
    assert(jv.take(0) =~= Seq::<JsonView>::empty());
    assert(snap_views(out@) =~= Seq::<SnapView>::empty());
    while i < v.len()
        invariant
            i <= v@.len(),
            jv == json_views(v@),
            f == |s: JsonView| read_snap(s),
            read_all(jv.take(i as int), f) == Some(snap_views(out@)),
        decreases v@.len() - i,
    {
        assert(jv.take(i + 1).drop_last() =~= jv.take(i as int));
        assert(jv.take(i + 1).last() == v@[i as int]@);
        match snap_from(&v[i]) {
            Some(x) => {
                let ghost before = snap_views(out@);
                let ghost xv = x@;
                out.push(x);
                assert(snap_views(out@) =~= before.push(xv));
            },
            None => {
                proof {
                    lemma_read_fails(jv, f, i + 1);
                }
                return None;
            },
        }
        i += 1;
    }
    assert(jv.take(i as int) =~= jv);
    Some(out)
}

fn git_from(j: Option<&Json>) -> (r: Option<Option<GitInfo>>)
    ensures
        match r {
            Some(g) => read_git(opt_view(j)) == Some(git_view(g)),
            None => read_git(opt_view(j)) is None,
        },
{
    match j {
        None => Some(None),
        Some(x) => match x {
            Json::Null => Some(None),
            _ => {
                if !x.is_record(2) {
                    return None;
                }
                match (x.text_field("commit", 0), x.text_field("branch", 1)) {
                    (Some(commit), Some(branch)) => Some(Some(GitInfo { commit, branch })),
                    _ => None,
                }
            },
        },
    }
}

fn meta_from(j: &Json) -> (r: Option<SessionMeta>)
    ensures
        match r {
            Some(m) => read_meta(j@) == Some(m@),
            None => read_meta(j@) is None,
        },
{
    if !j.is_record(9) {
        return None;
    }
    let a = (j.text_field("id", 0), get_opt(j, "parent_id", 1), get_opt(j, "forked_from", 2));
    let b = (j.text_field("cwd", 3), git_from(j.get_field("git", 4)), get_opt(j, "title", 5));
    let c = (j.text_field("carter_version", 6), j.text_field("model", 7), j.uint_field("created_at", 8));
    match a {
        (Some(id), Some(parent_id), Some(forked_from)) => match b {
            (Some(cwd), Some(git), Some(title)) => match c {
                (Some(carter_version), Some(model), Some(created_at)) => Some(
                    SessionMeta {
                        id,
                        parent_id,
                        forked_from,
                        cwd,
                        git,
                        title,
                        carter_version,
                        model,
                        created_at,
                    },
                ),
                _ => None,
            },
            _ => None,
        },
        _ => None,
    }
}

fn kind_from(word: &str, p: &Json) -> (r: Option<RecordKind>)
    ensures
        match r {
            Some(k) => read_payload(word@, p@) == Some(k@),
            None => read_payload(word@, p@) is None,
        },
{
    if str_eq(word, "session_meta") {
        match meta_from(p) {
            Some(m) => Some(RecordKind::SessionMeta(m)),
            None => None,
        }
    } else if str_eq(word, "title") {
        match p.get_str("title") {
            Some(title) => Some(RecordKind::Title { title }),
            None => None,
        }
    } else if str_eq(word, "message") {
        match message_from(p) {
            Some(m) => Some(RecordKind::Message(m)),
            None => None,
        }
    } else if str_eq(word, "todo") {
        match p {
            Json::Arr(v) => {
                proof {
                    json_view_arr(*v);
                }
                match todos_from(v) {
                    Some(ts) => Some(RecordKind::Todo(ts)),
                    None => None,
                }
            },
            _ => None,
        }
    } else if str_eq(word, "compacted") {
        match (p.get_str("tier"), p.get("messages")) {
            (Some(tier), Some(x)) => match x {
                Json::Arr(v) => {
                    proof {
                        json_view_arr(*v);
                    }
                    match messages_from(v) {
                        Some(messages) => Some(RecordKind::Compacted { tier, messages }),
                        None => None,
                    }
                },
                _ => None,
            },
            _ => None,
        }
    } else if str_eq(word, "checkpoint") {
        match (p.get_str("label"), p.get("snapshots")) {
            (Some(label), Some(x)) => match x {
                Json::Arr(v) => {
                    proof {
                        json_view_arr(*v);
                    }
                    match snaps_from(v) {
                        Some(snapshots) => Some(RecordKind::Checkpoint { label, snapshots }),
                        None => None,
                    }
                },
                _ => None,
            },
            _ => None,
        }
    } else {
        None
    }
}

/// A record, read.
pub fn record_from(j: &Option<Json>) -> (r: Option<Record>)
    ensures
        match r {
            Some(x) => read_record(opt_json(*j)) == Some(x@),
            None => read_record(opt_json(*j)) is None,
        },
{
    match j {
        Some(j) => {
            let word = match j.get("type") {
                Some(t) => word_from(t),
                None => None,
            };
            match (j.get_u64("ts"), word, j.get("payload")) {
                (Some(ts), Some(word), Some(p)) => match kind_from(word.as_str(), p) {
                    Some(kind) => Some(Record { ts, kind }),
                    None => None,
                },
                _ => None,
            }
        },
        None => None,
    }
}

// ---------------------------------------------------------------------------------------------
// What is written is read back
// ---------------------------------------------------------------------------------------------

proof fn lemma_two_keys(e: Seq<(Seq<char>, JsonView)>)
    requires
        e.len() == 2,
        e[0].0 != e[1].0,
    ensures
        keys_distinct(e),
        member(JsonView::Obj(e), e[0].0) == Some(e[0].1),
        member(JsonView::Obj(e), e[1].0) == Some(e[1].1),
{
    lemma_member_at(e, 0);
    lemma_member_at(e, 1);
}

proof fn lemma_three_keys(e: Seq<(Seq<char>, JsonView)>)
    requires
        e.len() == 3,
        e[0].0 != e[1].0,
        e[0].0 != e[2].0,
        e[1].0 != e[2].0,
    ensures
        keys_distinct(e),
        member(JsonView::Obj(e), e[0].0) == Some(e[0].1),
        member(JsonView::Obj(e), e[1].0) == Some(e[1].1),
        member(JsonView::Obj(e), e[2].0) == Some(e[2].1),
{
    lemma_member_at(e, 0);
    lemma_member_at(e, 1);
    lemma_member_at(e, 2);
}

/// How deep the arguments of a tool call may be nested in the record of a message that is read back.
pub const DEPTH_ARGS: u32 = 123;

/// How deep they may be nested in the record of a compaction that is read back.
pub const DEPTH_COMPACTED_ARGS: u32 = 121;

/// The arguments of the calls that a message makes are plain.
pub open spec fn message_plain(m: MessageView, depth: nat) -> bool {
    match m {
        MessageView::ToolCalls(cs) => forall|i: int|
            0 <= i < cs.len() ==> plain((#[trigger] cs[i]).args, depth),
        _ => true,
    }
}

/// The arguments of the calls that messages make are plain.
pub open spec fn messages_plain(ms: Seq<MessageView>, depth: nat) -> bool {
    forall|i: int| 0 <= i < ms.len() ==> message_plain(#[trigger] ms[i], depth)
}

/// The arguments of the calls in a record are plain.
pub open spec fn kind_plain(k: KindView) -> bool {
    match k {
        KindView::Message(m) => message_plain(m, DEPTH_ARGS as nat),
        KindView::Compacted { tier, messages } => messages_plain(messages, DEPTH_COMPACTED_ARGS as nat),
        _ => true,
    }
}

proof fn lemma_call(c: CallView, d: nat)
    ensures
        read_call(call_json(c)) == Some(c),
        plain(c.args, d) ==> plain(call_json(c), d + 1),
{
    reveal_strlit("id");
    reveal_strlit("name");
    reveal_strlit("args");
    assert("id"@.len() == 2);
    assert("name"@[0] == 'n');
    assert("args"@[0] == 'a');
    lemma_three_keys(call_json(c)->Obj_0);
    reveal_with_fuel(plain, 2);
}

proof fn lemma_message(m: MessageView, d: nat)
    ensures
        read_message(message_json(m)) == Some(m),
        message_plain(m, d) ==> plain(message_json(m), d + 3),
{
    reveal_strlit("System");
    reveal_strlit("User");
    reveal_strlit("Assistant");
    reveal_strlit("ToolCalls");
    reveal_strlit("Tool");
    assert("System"@.len() == 6);
    assert("User"@[0] == 'U' && "User"@.len() == 4);
    assert("Assistant"@[0] == 'A' && "Assistant"@.len() == 9);
    assert("ToolCalls"@[0] == 'T' && "ToolCalls"@.len() == 9);
    assert("Tool"@[0] == 'T' && "Tool"@.len() == 4);
    reveal_with_fuel(plain, 3);
    match m {
        MessageView::ToolCalls(cs) => {
            let w = |c: CallView| call_json(c);
            let f = |c: JsonView| read_call(c);
            assert forall|i: int| 0 <= i < cs.len() implies f(w(#[trigger] cs[i])) == Some(cs[i]) by {
                lemma_call(cs[i], d);
            }
            lemma_read_all(cs, w, f);
            assert(cs.map_values(w) =~= calls_json(cs)->Arr_0);
            if message_plain(m, d) {
                let v = calls_json(cs)->Arr_0;
                assert forall|i: int| 0 <= i < v.len() implies plain(#[trigger] v[i], d + 1) by {
                    lemma_call(cs[i], d);
                }
                assert(plain(calls_json(cs), d + 2));
                assert(plain(message_json(m), d + 3));
            }
        },
        MessageView::Tool { call_id, content } => {
            reveal_strlit("call_id");
            reveal_strlit("content");
            assert("call_id"@[1] == 'a');
            assert("content"@[1] == 'o');
            let inner = message_json(m)->Obj_0[0].1;
            lemma_two_keys(inner->Obj_0);
            assert(plain(inner, d + 2));
        },
        _ => {},
    }
}

proof fn lemma_messages(ms: Seq<MessageView>, d: nat)
    ensures
        read_all(messages_json(ms)->Arr_0, |m: JsonView| read_message(m)) == Some(ms),
        messages_plain(ms, d) ==> plain(messages_json(ms), d + 4),
{
    let w = |m: MessageView| message_json(m);
    let f = |m: JsonView| read_message(m);
    assert forall|i: int| 0 <= i < ms.len() implies f(w(#[trigger] ms[i])) == Some(ms[i]) by {
        lemma_message(ms[i], d);
    }
    lemma_read_all(ms, w, f);
    assert(ms.map_values(w) =~= messages_json(ms)->Arr_0);
    if messages_plain(ms, d) {
        reveal_with_fuel(plain, 2);
        let v = messages_json(ms)->Arr_0;
        assert forall|i: int| 0 <= i < v.len() implies plain(#[trigger] v[i], d + 3) by {
            assert(message_plain(ms[i], d));
            lemma_message(ms[i], d);
        }
    }
}

proof fn lemma_todo(t: TodoView)
    ensures
        read_todo(todo_json(t)) == Some(t),
        plain(todo_json(t), 93),
{
    reveal_strlit("content");
    reveal_strlit("status");
    reveal_strlit("active_form");
    assert("content"@.len() == 7);
    assert("status"@.len() == 6);
    assert("active_form"@.len() == 11);
    lemma_three_keys(todo_json(t)->Obj_0);
    reveal_strlit("pending");
    reveal_strlit("in_progress");
    reveal_strlit("completed");
    assert("pending"@.len() == 7);
    assert("in_progress"@.len() == 11);
    assert("completed"@.len() == 9);
    reveal_with_fuel(plain, 2);
}

proof fn lemma_todos(ts: Seq<TodoView>)
    ensures
        read_all(todos_json(ts)->Arr_0, |t: JsonView| read_todo(t)) == Some(ts),
        plain(todos_json(ts), 94),
{
    let w = |t: TodoView| todo_json(t);
    let f = |t: JsonView| read_todo(t);
    assert forall|i: int| 0 <= i < ts.len() implies f(w(#[trigger] ts[i])) == Some(ts[i]) by {
        lemma_todo(ts[i]);
    }
    lemma_read_all(ts, w, f);
    assert(ts.map_values(w) =~= todos_json(ts)->Arr_0);
    reveal_with_fuel(plain, 2);
    let v = todos_json(ts)->Arr_0;
    assert forall|i: int| 0 <= i < v.len() implies plain(#[trigger] v[i], 93) by {
        lemma_todo(ts[i]);
    }
}

proof fn lemma_snap(s: SnapView)
    ensures
        read_snap(snap_json(s)) == Some(s),
        plain(snap_json(s), 93),
{
    reveal_strlit("path");
    reveal_strlit("prior");
    assert("path"@.len() == 4);
    assert("prior"@.len() == 5);
    lemma_two_keys(snap_json(s)->Obj_0);
    reveal_with_fuel(plain, 2);
}

proof fn lemma_snaps(ss: Seq<SnapView>)
    ensures
        read_all(snaps_json(ss)->Arr_0, |s: JsonView| read_snap(s)) == Some(ss),
        plain(snaps_json(ss), 94),
{
    let w = |s: SnapView| snap_json(s);
    let f = |s: JsonView| read_snap(s);
    assert forall|i: int| 0 <= i < ss.len() implies f(w(#[trigger] ss[i])) == Some(ss[i]) by {
        lemma_snap(ss[i]);
    }
    lemma_read_all(ss, w, f);
    assert(ss.map_values(w) =~= snaps_json(ss)->Arr_0);
    reveal_with_fuel(plain, 2);
    let v = snaps_json(ss)->Arr_0;
    assert forall|i: int| 0 <= i < v.len() implies plain(#[trigger] v[i], 93) by {
        lemma_snap(ss[i]);
    }
}

proof fn lemma_git(g: Option<(Seq<char>, Seq<char>)>)
    ensures
        read_git(Some(git_json(g))) == Some(g),
        plain(git_json(g), 94),
{
    reveal_with_fuel(plain, 2);
    if g is Some {
        reveal_strlit("commit");
        reveal_strlit("branch");
        assert("commit"@[0] == 'c');
        assert("branch"@[0] == 'b');
        lemma_two_keys(git_json(g)->Obj_0);
    }
}

proof fn lemma_meta_keys(m: MetaView)
    ensures
        keys_distinct(meta_json(m)->Obj_0),
{
    reveal_strlit("id");
    reveal_strlit("parent_id");
    reveal_strlit("forked_from");
    reveal_strlit("cwd");
    reveal_strlit("git");
    reveal_strlit("title");
    reveal_strlit("carter_version");
    reveal_strlit("model");
    reveal_strlit("created_at");
    assert("id"@.len() == 2 && "parent_id"@.len() == 9 && "forked_from"@.len() == 11);
    assert("cwd"@.len() == 3 && "git"@.len() == 3 && "cwd"@[0] == 'c' && "git"@[0] == 'g');
    assert("title"@.len() == 5 && "model"@.len() == 5 && "title"@[0] == 't' && "model"@[0] == 'm');
    assert("carter_version"@.len() == 14 && "created_at"@.len() == 10);
}

proof fn lemma_meta(m: MetaView)
    ensures
        read_meta(meta_json(m)) == Some(m),
        plain(meta_json(m), 95),
{
    let e = meta_json(m)->Obj_0;
    lemma_meta_keys(m);
    lemma_git(m.git);
    assert forall|i: int| 0 <= i < 9 implies member(JsonView::Obj(e), (#[trigger] e[i]).0) == Some(e[i].1) by {
        lemma_member_at(e, i);
    }
    assert(e[0].0 == "id"@ && e[1].0 == "parent_id"@ && e[2].0 == "forked_from"@ && e[3].0 == "cwd"@);
    assert(e[4].0 == "git"@ && e[5].0 == "title"@ && e[6].0 == "carter_version"@);
    assert(e[7].0 == "model"@ && e[8].0 == "created_at"@);
    reveal_with_fuel(plain, 2);
    assert forall|i: int| 0 <= i < e.len() implies plain((#[trigger] e[i]).1, 94) by {
        if i == 4 {
            lemma_git(m.git);
        }
    }
}

proof fn lemma_payload(k: KindView)
    ensures
        read_payload(kind_word(k), payload_json(k)) == Some(k),
        kind_plain(k) ==> plain(payload_json(k), 126),
{
    reveal_strlit("session_meta");
    reveal_strlit("title");
    reveal_strlit("message");
    reveal_strlit("todo");
    reveal_strlit("compacted");
    reveal_strlit("checkpoint");
    assert("session_meta"@.len() == 12 && "title"@.len() == 5 && "message"@.len() == 7);
    assert("todo"@.len() == 4 && "compacted"@.len() == 9 && "checkpoint"@.len() == 10);
    reveal_with_fuel(plain, 2);
    match k {
        KindView::SessionMeta(m) => {
            lemma_meta(m);
            lemma_plain_deeper(meta_json(m), 95, 126);
        },
        KindView::Title(t) => {
            lemma_member_at(payload_json(k)->Obj_0, 0);
        },
        KindView::Message(m) => {
            lemma_message(m, DEPTH_ARGS as nat);
        },
        KindView::Todo(ts) => {
            lemma_todos(ts);
            lemma_plain_deeper(todos_json(ts), 94, 126);
        },
        KindView::Compacted { tier, messages } => {
            lemma_messages(messages, DEPTH_COMPACTED_ARGS as nat);
            reveal_strlit("tier");
            reveal_strlit("messages");
            assert("tier"@.len() == 4 && "messages"@.len() == 8);
            lemma_two_keys(payload_json(k)->Obj_0);
        },
        KindView::Checkpoint { label, snapshots } => {
            lemma_snaps(snapshots);
            lemma_plain_deeper(snaps_json(snapshots), 94, 125);
            reveal_strlit("label");
            reveal_strlit("snapshots");
            assert("label"@.len() == 5 && "snapshots"@.len() == 9);
            lemma_two_keys(payload_json(k)->Obj_0);
        },
    }
}

/// A record is read back from what is written of it.
pub proof fn law_record_read_back(r: RecordView)
    ensures
        read_record(Some(record_json(r))) == Some(r),
        kind_plain(r.kind) ==> plain(record_json(r), 127),
{
    reveal_strlit("ts");
    reveal_strlit("type");
    reveal_strlit("payload");
    assert("ts"@.len() == 2 && "type"@.len() == 4 && "payload"@.len() == 7);
    lemma_three_keys(record_json(r)->Obj_0);
    lemma_payload(r.kind);
    reveal_with_fuel(plain, 2);
}

proof fn lemma_key_from(e: Seq<(Seq<char>, JsonView)>, key: Seq<char>, i: int)
    requires
        0 <= i <= e.len(),
    ensures
        i <= key_from(e, key, i) <= e.len(),
    decreases e.len() - i,
{
    if i < e.len() && e[i].0 != key {
        lemma_key_from(e, key, i + 1);
    }
}

/// What stands in a plain record is plain.
proof fn lemma_field_plain(j: JsonView, key: Seq<char>, idx: int, d: nat)
    requires
        plain(j, d + 1),
    ensures
        field(j, key, idx) matches Some(x) ==> plain(x, d),
{
    match j {
        JsonView::Obj(e) => {
            lemma_key_from(e, key, 0);
        },
        _ => {},
    }
}

proof fn lemma_read_at<T>(v: Seq<JsonView>, f: spec_fn(JsonView) -> Option<T>, i: int)
    requires
        read_all(v, f) is Some,
        0 <= i < v.len(),
    ensures
        (read_all(v, f)->0).len() == v.len(),
        f(v[i]) == Some((read_all(v, f)->0)[i]),
    decreases v.len(),
{
    if i < v.len() - 1 {
        lemma_read_at(v.drop_last(), f, i);
    } else if v.len() > 1 {
        lemma_read_at(v.drop_last(), f, 0);
    } else {
        assert(read_all(v.drop_last(), f) == Some(Seq::<T>::empty()));
    }
}

proof fn lemma_read_len<T>(v: Seq<JsonView>, f: spec_fn(JsonView) -> Option<T>)
    requires
        read_all(v, f) is Some,
    ensures
        (read_all(v, f)->0).len() == v.len(),
    decreases v.len(),
{
    if v.len() > 0 {
        lemma_read_len(v.drop_last(), f);
    }
}

/// A message that is read from a plain value makes calls with plain arguments.
proof fn lemma_message_read_plain(j: JsonView, d: nat)
    requires
        plain(j, d + 3),
    ensures
        read_message(j) matches Some(m) ==> message_plain(m, d),
{
    if let Some(MessageView::ToolCalls(cs)) = read_message(j) {
        let x = j->Obj_0[0].1;
        let v = x->Arr_0;
        let f = |c: JsonView| read_call(c);
        assert(plain(x, d + 2));
        assert(read_all(v, f) == Some(cs));
        lemma_read_len(v, f);
        assert forall|i: int| 0 <= i < cs.len() implies plain((#[trigger] cs[i]).args, d) by {
            lemma_read_at(v, f, i);
            assert(plain(v[i], d + 1));
            lemma_field_plain(v[i], "args"@, 2, d);
        }
    }
}

/// A record that is read from a plain value makes calls with plain arguments.
proof fn lemma_record_read_plain(j: JsonView)
    requires
        plain(j, 127),
    ensures
        read_record(Some(j)) matches Some(r) ==> kind_plain(r.kind),
{
    if let Some(r) = read_record(Some(j)) {
        assert(member(j, "payload"@) == field(j, "payload"@, -1));
        lemma_field_plain(j, "payload"@, -1, 126);
        let p = member(j, "payload"@)->0;
        match r.kind {
            KindView::Message(m) => {
                lemma_message_read_plain(p, DEPTH_ARGS as nat);
            },
            KindView::Compacted { tier, messages } => {
                assert(member(p, "messages"@) == field(p, "messages"@, -1));
                lemma_field_plain(p, "messages"@, -1, 125);
                let v = member(p, "messages"@)->0->Arr_0;
                let f = |m: JsonView| read_message(m);
                assert(read_all(v, f) == Some(messages));
                lemma_read_len(v, f);
                assert forall|i: int| 0 <= i < messages.len() implies message_plain(
                    #[trigger] messages[i],
                    DEPTH_COMPACTED_ARGS as nat,
                ) by {
                    lemma_read_at(v, f, i);
                    assert(plain(v[i], 124));
                    lemma_message_read_plain(v[i], DEPTH_COMPACTED_ARGS as nat);
                }
            },
            _ => {},
        }
    }
}

/// The messages of a session whose records were read make calls with plain arguments.
proof fn lemma_folded_plain(ks: Seq<KindView>)
    requires
        forall|i: int| 0 <= i < ks.len() ==> kind_plain(#[trigger] ks[i]),
    ensures
        messages_plain(folded(ks).messages, DEPTH_ARGS as nat),
    decreases ks.len(),
{
    if ks.len() > 0 {
        assert forall|i: int| 0 <= i < ks.drop_last().len() implies kind_plain(
            #[trigger] ks.drop_last()[i],
        ) by {
            assert(ks.drop_last()[i] == ks[i]);
        }
        lemma_folded_plain(ks.drop_last());
        assert(kind_plain(ks[ks.len() - 1]));
        if let KindView::Compacted { tier, messages } = ks.last() {
            assert forall|i: int| 0 <= i < messages.len() implies message_plain(
                #[trigger] messages[i],
                DEPTH_ARGS as nat,
            ) by {
                assert(message_plain(messages[i], DEPTH_COMPACTED_ARGS as nat));
                if let MessageView::ToolCalls(cs) = messages[i] {
                    assert forall|k: int| 0 <= k < cs.len() implies plain(
                        (#[trigger] cs[k]).args,
                        DEPTH_ARGS as nat,
                    ) by {
                        lemma_plain_deeper(cs[k].args, DEPTH_COMPACTED_ARGS as nat, DEPTH_ARGS as nat);
                    }
                }
            }
        }
    }
}

// ---------------------------------------------------------------------------------------------
// Files
// ---------------------------------------------------------------------------------------------

/// The record that a line holds. A line that gives a field of a record twice holds none.
pub open spec fn record_at(line: Seq<char>) -> Option<RecordView> {
    if written_once(line) || tidy_line(line) {
        read_record(json_parse(line))
    } else {
        None
    }
}

/// The line gives no field of a record twice, though it may repeat other keys.
pub open spec fn tidy_line(line: Seq<char>) -> bool {
    json_parse(marked(line)) matches Some(j) && tidy_record(j)
}

/// The record that a line holds.
pub fn record_of(line: &str) -> (r: Option<Record>)
    ensures
        match r {
            Some(x) => record_at(line@) == Some(x@) && kind_plain(x@.kind),
            None => record_at(line@) is None,
        },
{
    let j = match parse_json(line) {
        Some(j) => j,
        None => {
            return None;
        },
    };
    proof {
        lemma_record_read_plain(j@);
    }
    if !is_written_once(line, &j) {
        match parse_json(mark_strings(line).as_str()) {
            Some(m) => {
                if !record_tidy(&m) {
                    return None;
                }
            },
            None => {
                return None;
            },
        }
    }
    record_from(&Some(j))
}

/// The line of a record, without its end. The record is read back from it where the arguments of its calls
/// are plain, that is unless they nest too deep for the reader.
pub fn record_line(r: &Record) -> (line: String)
    ensures
        line@ == json_text(record_json(r@)),
        kind_plain(r@.kind) ==> record_at(line@) == Some(r@),
        kind_plain(r@.kind) ==> lines(line@.push('\n')) == seq![line@] && !is_blank(line@),
{
    let j = record_to_json(r);
    proof {
        law_record_read_back(r@);
    }
    let line = j.to_text();
    proof {
        lemma_one_line(line@);
        if kind_plain(r@.kind) {
            lemma_not_blank(line@);
        }
    }
    line
}

/// The kinds of the records that the lines hold. Lines that hold none are passed over.
pub open spec fn line_kinds(ls: Seq<Seq<char>>) -> Seq<KindView>
    decreases ls.len(),
{
    if ls.len() == 0 {
        Seq::empty()
    } else {
        match record_at(ls.last()) {
            Some(r) => line_kinds(ls.drop_last()).push(r.kind),
            None => line_kinds(ls.drop_last()),
        }
    }
}

/// What a session file tells.
pub open spec fn file_kinds(raw: Seq<char>) -> Seq<KindView> {
    line_kinds(nonblank(lines(raw)))
}

/// The records that a session file holds, in order. Malformed lines are passed over.
pub fn read_kinds(raw: &str) -> (r: Vec<RecordKind>)
    ensures
        kind_views(r@) == file_kinds(raw@),
        forall|i: int| 0 <= i < r@.len() ==> kind_plain((#[trigger] r@[i])@),
{
    let ls = record_lines(raw);
    let ghost lv = texts(ls@);
    let mut out: Vec<RecordKind> = Vec::new();
    let mut i: usize = 0;
    assert(lv.take(0) =~= Seq::<Seq<char>>::empty());
    assert(kind_views(out@) =~= Seq::<KindView>::empty());
    while i < ls.len()
        invariant
            i <= ls@.len(),
            lv == texts(ls@),
            kind_views(out@) == line_kinds(lv.take(i as int)),
            forall|k: int| 0 <= k < out@.len() ==> kind_plain((#[trigger] out@[k])@),
        decreases ls@.len() - i,
    {
        assert(lv.take(i + 1).drop_last() =~= lv.take(i as int));
        assert(lv.take(i + 1).last() == ls@[i as int]@);
        match record_of(ls[i].as_str()) {
            Some(x) => {
                let ghost before = kind_views(out@);
                let ghost kv = x.kind@;
                out.push(x.kind);
                assert(kind_views(out@) =~= before.push(kv));
            },
            None => {},
        }
        i += 1;
    }
    assert(lv.take(i as int) =~= lv);
    out
}

/// The session that a file tells of; an error where it holds no metadata.
pub fn fold_file(raw: &str, path: &str) -> (r: Result<Folded, CarterError>)
    ensures
        match r {
            Ok(s) => {
                let f = folded(file_kinds(raw@));
                &&& meta_of(f) == Some(s.meta@)
                &&& message_views(s.messages@) == f.messages
                &&& todo_views(s.todos@) == f.todos
                &&& s.checkpoints@ == f.checkpoints
                &&& messages_plain(f.messages, DEPTH_ARGS as nat)
            },
            Err(e) => folded(file_kinds(raw@)).meta is None && e@ == ErrorView::Config(
                no_meta_text(path@),
            ),
        },
{
    let kinds = read_kinds(raw);
    proof {
        let ks = kind_views(kinds@);
        assert forall|i: int| 0 <= i < ks.len() implies kind_plain(#[trigger] ks[i]) by {
            assert(ks[i] == kinds@[i]@);
        }
        lemma_folded_plain(ks);
    }
    fold_records(kinds, path)
}

/// Takes up a session from its file and goes on recording there.
pub fn load(raw: &str, path: &str) -> (r: Result<(Thread, SessionMeta), CarterError>)
    ensures
        match r {
            Ok((t, m)) => {
                let f = folded(file_kinds(raw@));
                &&& meta_of(f) == Some(m@)
                &&& t@ == resumed(f, path@)
            },
            Err(e) => folded(file_kinds(raw@)).meta is None && e@ == ErrorView::Config(
                no_meta_text(path@),
            ),
        },
{
    let kinds = read_kinds(raw);
    load_records(kinds, path)
}

/// What the files tell of their sessions. Files without metadata are passed over.
pub open spec fn entries_of(files: Seq<(Seq<char>, Seq<char>)>) -> Seq<EntryView>
    decreases files.len(),
{
    if files.len() == 0 {
        Seq::empty()
    } else {
        match meta_of(folded(file_kinds(files.last().1))) {
            Some(meta) => entries_of(files.drop_last()).push(EntryView { meta, path: files.last().0 }),
            None => entries_of(files.drop_last()),
        }
    }
}

/// Paths and contents.
pub open spec fn file_views(v: Seq<(String, String)>) -> Seq<(Seq<char>, Seq<char>)> {
    v.map_values(|f: (String, String)| (f.0@, f.1@))
}

/// The sessions that the files, given by path and content, tell of, the newest first.
pub fn list(files: &Vec<(String, String)>) -> (r: Vec<SessionEntry>)
    ensures
        entry_list(r@) == newest_first(entries_of(file_views(files@))),
{
    let ghost fv = file_views(files@);
    let mut out: Vec<SessionEntry> = Vec::new();
    let mut i: usize = 0;
    assert(fv.take(0) =~= Seq::<(Seq<char>, Seq<char>)>::empty());
    assert(entry_list(out@) =~= Seq::<EntryView>::empty());
    while i < files.len()
        invariant
            i <= files@.len(),
            fv == file_views(files@),
            entry_list(out@) == entries_of(fv.take(i as int)),
        decreases files@.len() - i,
    {
        assert(fv.take(i + 1).drop_last() =~= fv.take(i as int));
        assert(fv.take(i + 1).last() == (files@[i as int].0@, files@[i as int].1@));
        match fold_file(files[i].1.as_str(), files[i].0.as_str()) {
            Ok(s) => {
                let ghost before = entry_list(out@);
                let e = SessionEntry { meta: s.meta, path: files[i].0.clone() };
                let ghost ev = e@;
                out.push(e);
                assert(entry_list(out@) =~= before.push(ev));
            },
            Err(_) => {},
        }
        i += 1;
    }
    assert(fv.take(i as int) =~= fv);
    sort_entries(out)
}

/// The text of records: a line for each.
pub open spec fn file_text(rs: Seq<RecordView>) -> Seq<char>
    decreases rs.len(),
{
    if rs.len() == 0 {
        Seq::empty()
    } else {
        file_text(rs.drop_last()) + json_text(record_json(rs.last())).push('\n')
    }
}

/// What records say, without the moments.
pub open spec fn kinds_of(rs: Seq<RecordView>) -> Seq<KindView> {
    rs.map_values(|r: RecordView| r.kind)
}

proof fn lemma_kinds_added(a: Seq<Seq<char>>, b: Seq<Seq<char>>)
    ensures
        line_kinds(a + b) == line_kinds(a) + line_kinds(b),
    decreases b.len(),
{
    if b.len() == 0 {
        assert(a + b =~= a);
        assert(line_kinds(a) + line_kinds(b) =~= line_kinds(a));
    } else {
        assert((a + b).drop_last() =~= a + b.drop_last());
        lemma_kinds_added(a, b.drop_last());
        assert(line_kinds(a + b) =~= line_kinds(a) + line_kinds(b));
    }
}

/// What is appended to a file that ends with a whole line is read after what the file told.
pub proof fn law_appended_text_is_read(before: Seq<char>, added: Seq<char>)
    requires
        before.len() == 0 || before.last() == '\n',
    ensures
        file_kinds(before + added) == file_kinds(before) + file_kinds(added),
{
    lemma_lines_added(before, added);
    lemma_nonblank_added(lines(before), lines(added));
    lemma_kinds_added(nonblank(lines(before)), nonblank(lines(added)));
}

/// What is appended to a session file for the records: a line for each. The file then tells of them, where
/// the arguments of their calls are plain.
pub fn record_text(recs: &Vec<Record>) -> (r: String)
    ensures
        r@ == file_text(record_views(recs@)),
        r@.len() == 0 || r@.last() == '\n',
        (forall|i: int| 0 <= i < recs@.len() ==> kind_plain((#[trigger] recs@[i])@.kind)) ==> file_kinds(r@)
            == kinds_of(record_views(recs@)),
{
    let ghost rv = record_views(recs@);
    let ghost all = forall|i: int| 0 <= i < recs@.len() ==> kind_plain((#[trigger] recs@[i])@.kind);
    let mut out = String::new();
    let mut i: usize = 0;
    assert(rv.take(0) =~= Seq::<RecordView>::empty());
    assert(kinds_of(rv.take(0)) =~= Seq::<KindView>::empty());
    while i < recs.len()
        invariant
            i <= recs@.len(),
            rv == record_views(recs@),
            all == (forall|i: int| 0 <= i < recs@.len() ==> kind_plain((#[trigger] recs@[i])@.kind)),
            out@ == file_text(rv.take(i as int)),
            out@.len() == 0 || out@.last() == '\n',
            all ==> file_kinds(out@) == kinds_of(rv.take(i as int)),
        decreases recs@.len() - i,
    {
        let line = record_line(&recs[i]);
        let ghost before = out@;
        out.append(line.as_str());
        out.append("\n");
        proof {
            reveal_strlit("\n");
            let lv = line@.push('\n');
            assert(out@ =~= before + lv);
            assert(rv.take(i + 1).drop_last() =~= rv.take(i as int));
            assert(rv.take(i + 1).last() == recs@[i as int]@);
            if all {
                assert(kind_plain(recs@[i as int]@.kind));
                law_appended_text_is_read(before, lv);
                let one = seq![line@];
                assert(one.drop_last() =~= Seq::<Seq<char>>::empty());
                assert(nonblank(one.drop_last()) =~= Seq::<Seq<char>>::empty());
                assert(nonblank(one) =~= one);
                assert(line_kinds(one.drop_last()) =~= Seq::<KindView>::empty());
                assert(file_kinds(lv) =~= seq![recs@[i as int]@.kind]);
                assert(kinds_of(rv.take(i + 1)) =~= kinds_of(rv.take(i as int)).push(
                    recs@[i as int]@.kind,
                ));
            }
        }
        i += 1;
    }
    assert(rv.take(i as int) =~= rv);
    out
}

/// Records, all taken down at `now`.
fn stamp(kinds: Vec<RecordKind>, now: u64) -> (r: Vec<Record>)
    ensures
        record_views(r@) == stamped(kind_views(kinds@), now),
{
    let ghost ks = kind_views(kinds@);
    let mut left = kinds;
    let mut out: Vec<Record> = Vec::new();
    assert(ks.skip(0) =~= ks);
    assert(record_views(out@) =~= stamped(ks, now).take(0));
    while left.len() > 0
        invariant
            out@.len() + left@.len() == ks.len(),
            kind_views(left@) == ks.skip(out@.len() as int),
            record_views(out@) == stamped(ks, now).take(out@.len() as int),
        decreases left@.len(),
    {
        let ghost n = out@.len() as int;
        let ghost before = record_views(out@);
        assert(ks.skip(n)[0] == left@[0]@);
        let ghost rest = left@;
        let k = left.remove(0);
        assert(kind_views(left@) =~= ks.skip(n + 1)) by {
            assert forall|i: int| 0 <= i < left@.len() implies #[trigger] kind_views(left@)[i] == ks.skip(n + 1)[i] by {
                assert(left@[i] == rest[i + 1]);
                assert(kind_views(rest)[i + 1] == ks.skip(n)[i + 1]);
            }
        }
        let rec = Record::new(k, now);
        let ghost rv = rec@;
        out.push(rec);
        assert(record_views(out@) =~= before.push(rv));
        assert(stamped(ks, now).take(n + 1) =~= stamped(ks, now).take(n).push(rv));
    }
    assert(stamped(ks, now).take(out@.len() as int) =~= stamped(ks, now));
    out
}

/// The arguments of the calls that messages make nest no deeper than a record of a compaction takes.
pub open spec fn messages_shallow(ms: Seq<MessageView>) -> bool {
    forall|i: int| 0 <= i < ms.len() ==> message_shallow(#[trigger] ms[i])
}

/// The arguments of the calls that a message makes nest no deeper than a record of a compaction takes.
pub open spec fn message_shallow(m: MessageView) -> bool {
    match m {
        MessageView::ToolCalls(cs) => forall|i: int|
            0 <= i < cs.len() ==> nests_within((#[trigger] cs[i]).args, DEPTH_COMPACTED_ARGS as nat),
        _ => true,
    }
}

/// The text to rewrite a session file with, with the lengths of the old and of the new text in bytes; an error
/// where the file holds no metadata. Taking the session up again gives what it gave before, its messages, its
/// tasks, its checkpoints and its metadata, unless the arguments of a call nest so deep that they cannot be read back from the
/// snapshot that holds the messages.
pub fn gc_file(raw: &str, path: &str, now: u64) -> (r: Result<(String, u64, u64), CarterError>)
    ensures
        ({
            let f = folded(file_kinds(raw@));
            match r {
                Ok((text, old_bytes, new_bytes)) => {
                    let g = folded(file_kinds(text@));
                    &&& f.meta is Some
                    &&& text@ == file_text(
                        stamped(
                            gc_kinds(meta_of(f)->0, f.messages, f.todos, f.checkpoints),
                            now,
                        ),
                    )
                    &&& old_bytes == byte_len(raw@)
                    &&& new_bytes == byte_len(text@)
                    &&& messages_shallow(f.messages) ==> {
                        &&& g.messages == f.messages
                        &&& g.todos == f.todos
                        &&& g.checkpoints == f.checkpoints
                        &&& meta_of(g) == meta_of(f)
                    }
                },
                Err(e) => f.meta is None && e@ == ErrorView::Config(no_meta_text(path@)),
            }
        }),
{
    let ghost f = folded(file_kinds(raw@));
    let s = match fold_file(raw, path) {
        Ok(s) => s,
        Err(e) => {
            return Err(e);
        },
    };
    let ghost ks = gc_kinds(meta_of(f)->0, f.messages, f.todos, f.checkpoints);
    let kinds = gc(s);
    assert(kind_views(kinds@) == ks);
    let recs = stamp(kinds, now);
    let text = record_text(&recs);
    proof {
        let rv = record_views(recs@);
        if messages_shallow(f.messages) {
            assert forall|i: int| 0 <= i < f.messages.len() implies message_plain(
                #[trigger] f.messages[i],
                DEPTH_COMPACTED_ARGS as nat,
            ) by {
                assert(message_plain(f.messages[i], DEPTH_ARGS as nat));
                assert(message_shallow(f.messages[i]));
                if let MessageView::ToolCalls(cs) = f.messages[i] {
                    assert forall|k: int| 0 <= k < cs.len() implies plain(
                        (#[trigger] cs[k]).args,
                        DEPTH_COMPACTED_ARGS as nat,
                    ) by {
                        lemma_plain_within(cs[k].args, DEPTH_ARGS as nat, DEPTH_COMPACTED_ARGS as nat);
                    }
                }
            }
            assert forall|i: int| 0 <= i < ks.len() implies kind_plain(#[trigger] ks[i]) by {}
            assert forall|i: int| 0 <= i < recs@.len() implies kind_plain((#[trigger] recs@[i])@.kind) by {
                assert(rv[i] == recs@[i]@);
                assert(rv[i].kind == ks[i]);
            }
            assert(kinds_of(rv) =~= ks);
            law_gc_keeps_replay(file_kinds(raw@));
        }
    }
    let old_bytes: u64 = byte_length(raw) as u64;
    let new_bytes: u64 = byte_length(text.as_str()) as u64;
    Ok((text, old_bytes, new_bytes))
}

/// A record is written with its time, the word for its kind and what it holds.
pub proof fn law_record_written(ts: u64, k: KindView)
    ensures
        ({
            let w = if k is SessionMeta {
                "session_meta"@
            } else if k is Title {
                "title"@
            } else if k is Message {
                "message"@
            } else if k is Todo {
                "todo"@
            } else if k is Compacted {
                "compacted"@
            } else {
                "checkpoint"@
            };
            record_json(RecordView { ts, kind: k }) == JsonView::Obj(
                seq![
                    ("ts"@, JsonView::Num(NumberView::Uint(ts))),
                    ("type"@, JsonView::Str(w)),
                    ("payload"@, payload_json(k)),
                ],
            )
        }),
{
}

/// What each kind of record holds, field by field.
pub proof fn law_payload_written(
    t: Seq<char>,
    m: MessageView,
    ms: Seq<MessageView>,
    ts: Seq<TodoView>,
    ss: Seq<SnapView>,
    i: int,
)
    ensures
        payload_json(KindView::Title(t)) == JsonView::Obj(seq![("title"@, JsonView::Str(t))]),
        payload_json(KindView::Message(m)) == message_json(m),
        payload_json(KindView::Compacted { tier: t, messages: ms }) == JsonView::Obj(
            seq![("tier"@, JsonView::Str(t)), ("messages"@, messages_json(ms))],
        ),
        payload_json(KindView::Todo(ts)) matches JsonView::Arr(v) && v.len() == ts.len() && (0 <= i < ts.len()
            ==> v[i] == JsonView::Obj(
            seq![
                ("content"@, JsonView::Str(ts[i].content)),
                (
                    "status"@,
                    JsonView::Str(
                        if ts[i].status is Pending {
                            "pending"@
                        } else if ts[i].status is InProgress {
                            "in_progress"@
                        } else {
                            "completed"@
                        },
                    ),
                ),
                ("active_form"@, JsonView::Str(ts[i].active_form)),
            ],
        )),
        payload_json(KindView::Checkpoint { label: t, snapshots: ss }) matches JsonView::Obj(e) && e.len() == 2
            && e[0] == ("label"@, JsonView::Str(t)) && e[1].0 == "snapshots"@ && e[1].1 is Arr
            && e[1].1->Arr_0.len() == ss.len() && (0 <= i < ss.len() ==> e[1].1->Arr_0[i] == JsonView::Obj(
            seq![
                ("path"@, JsonView::Str(ss[i].path)),
                (
                    "prior"@,
                    if ss[i].prior is Some {
                        JsonView::Str(ss[i].prior->0)
                    } else {
                        JsonView::Null
                    },
                ),
            ],
        )),
{
}

/// What is written of a session, field by field.
pub proof fn law_meta_written(m: MetaView)
    ensures
        payload_json(KindView::SessionMeta(m)) matches JsonView::Obj(e) && {
            &&& e.len() == 9
            &&& e[0] == ("id"@, JsonView::Str(m.id))
            &&& e[1].0 == "parent_id"@ && (m.parent_id matches Some(t) ==> e[1].1 == JsonView::Str(t)) && (
            m.parent_id is None ==> e[1].1 is Null)
            &&& e[2].0 == "forked_from"@ && (m.forked_from matches Some(t) ==> e[2].1 == JsonView::Str(t)) && (
            m.forked_from is None ==> e[2].1 is Null)
            &&& e[3] == ("cwd"@, JsonView::Str(m.cwd))
            &&& e[4].0 == "git"@ && (m.git matches Some(g) ==> e[4].1 == JsonView::Obj(
                seq![("commit"@, JsonView::Str(g.0)), ("branch"@, JsonView::Str(g.1))],
            )) && (m.git is None ==> e[4].1 is Null)
            &&& e[5].0 == "title"@ && (m.title matches Some(t) ==> e[5].1 == JsonView::Str(t)) && (m.title is None
                ==> e[5].1 is Null)
            &&& e[6] == ("carter_version"@, JsonView::Str(m.carter_version))
            &&& e[7] == ("model"@, JsonView::Str(m.model))
            &&& e[8] == ("created_at"@, JsonView::Num(NumberView::Uint(m.created_at)))
        },
{
}

/// A record without a time, a kind or anything in it, or of an unknown kind, is none, and nor is what is no
/// document.
pub proof fn law_record_refused(j: JsonView, word: Seq<char>, p: JsonView)
    ensures
        read_record(None) is None,
        uint_member(j, "ts"@) is None || member(j, "type"@) is None || member(j, "payload"@) is None
            ==> read_record(Some(j)) is None,
        word != "session_meta"@ && word != "title"@ && word != "message"@ && word != "todo"@ && word
            != "compacted"@ && word != "checkpoint"@ ==> read_payload(word, p) is None,
{
}

/// What is read of a record is what stands in it.
pub proof fn law_record_holds(j: JsonView, r: RecordView)
    requires
        read_record(Some(j)) == Some(r),
    ensures
        uint_member(j, "ts"@) == Some(r.ts),
        member(j, "payload"@) matches Some(p) && {
            &&& r.kind matches KindView::Title(t) ==> text_member(p, "title"@) == Some(t)
            &&& r.kind matches KindView::Message(m) ==> read_message(p) == Some(m)
            &&& r.kind matches KindView::SessionMeta(m) ==> read_meta(p) == Some(m)
            &&& r.kind matches KindView::Compacted { tier, messages } ==> text_member(p, "tier"@) == Some(tier)
            &&& r.kind matches KindView::Checkpoint { label, snapshots } ==> text_member(p, "label"@) == Some(
                label,
            )
        },
{
}

/// A list is read whole and in its order, or not at all.
pub proof fn law_lists_read<T>(v: Seq<JsonView>, j: JsonView, f: spec_fn(JsonView) -> Option<T>)
    ensures
        read_all(Seq::empty(), f) == Some(Seq::<T>::empty()),
        read_all(v, f) is None ==> read_all(v.push(j), f) is None,
        read_all(v, f) matches Some(s) ==> {
            &&& f(j) matches Some(x) ==> read_all(v.push(j), f) == Some(s + seq![x])
            &&& f(j) is None ==> read_all(v.push(j), f) is None
        },
{
    assert(v.push(j).drop_last() =~= v);
    if let Some(s) = read_all(v, f) {
        if let Some(x) = f(j) {
            assert(s.push(x) =~= s + seq![x]);
        }
    }
}

/// A field that need not be there is none where it is missing or null, and spoils what holds it where it is neither
/// that nor a text.
pub proof fn law_optional_fields(j: JsonView, key: Seq<char>, i: int, v: JsonView)
    ensures
        field(j, key, i) is None ==> opt_field(j, key, i) == Some(None::<Seq<char>>),
        field(j, key, i) == Some(JsonView::Null) ==> opt_field(j, key, i) == Some(None::<Seq<char>>),
        field(j, key, i) == Some(v) ==> (v matches JsonView::Str(s) ==> opt_field(j, key, i) == Some(Some(s))),
        field(j, key, i) == Some(v) && !(v is Str) && !(v is Null) ==> opt_field(j, key, i) is None,
{
}

/// The records of a file are read line by line, in their order; a line that holds none is passed over.
pub proof fn law_records_in_order(ls: Seq<Seq<char>>, l: Seq<char>, r: RecordView)
    ensures
        line_kinds(Seq::empty()).len() == 0,
        record_at(l) == Some(r) ==> line_kinds(ls.push(l)) == line_kinds(ls) + seq![r.kind],
        record_at(l) is None ==> line_kinds(ls.push(l)) == line_kinds(ls),
{
    assert(ls.push(l).drop_last() =~= ls);
}

/// Each record of a file is written on a line of its own, in its order.
pub proof fn law_file_written(rs: Seq<RecordView>, r: RecordView)
    ensures
        file_text(Seq::empty()).len() == 0,
        file_text(rs.push(r)) == file_text(rs) + json_text(record_json(r)) + seq!['\n'],
{
    assert(rs.push(r).drop_last() =~= rs);
    assert(file_text(rs) + json_text(record_json(r)).push('\n') =~= file_text(rs) + json_text(record_json(r)) + seq![
        '\n',
    ]);
}

/// Every file that tells of its session is listed, in the order of the files.
pub proof fn law_sessions_listed(files: Seq<(Seq<char>, Seq<char>)>, path: Seq<char>, raw: Seq<char>, m: MetaView)
    ensures
        entries_of(Seq::empty()).len() == 0,
        meta_of(folded(file_kinds(raw))) == Some(m) ==> entries_of(files.push((path, raw))) == entries_of(files)
            + seq![EntryView { meta: m, path }],
        meta_of(folded(file_kinds(raw))) is None ==> entries_of(files.push((path, raw))) == entries_of(files),
{
    assert(files.push((path, raw)).drop_last() =~= files);
}

} // verus!
