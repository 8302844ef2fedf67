//! Sessions: records, files, forks, history.

use carter::provider::event::ToolCall;
use carter::provider::request::Message;
use carter::json::parse_json;
use carter::session::codec::{
    fold_file, gc_file, list, load as load_session, read_kinds, record_from, record_line, record_of, record_text,
};
use carter::session::history::{append, history_path, load, LOAD_LIMIT};
use carter::session::record::{
    cap_for_persist, FileSnapshotRecord, GitInfo, Record, RecordKind, SessionMeta, TOOL_OUTPUT_PERSIST_CAP,
};
use carter::session::recorder::Recorder;
use carter::session::store::{
    fork, gc, latest, project_dir, project_key, session_filename, sort_entries, start_new, Folded, SessionEntry,
    SessionOpts,
};
use carter::tools::todo_write::{TodoItem, TodoStatus};

fn meta() -> SessionMeta {
    SessionMeta {
        id: "s1".into(),
        parent_id: None,
        forked_from: None,
        cwd: "/x".into(),
        git: None,
        title: None,
        carter_version: "0.1.0".into(),
        model: "m".into(),
        created_at: 1,
    }
}

fn written(kinds: Vec<RecordKind>) -> String {
    let recs: Vec<Record> = kinds.into_iter().map(|k| Record::new(k, 5)).collect();
    record_text(&recs)
}

fn folded(raw: &str) -> Folded {
    match fold_file(raw, "/f.jsonl") {
        Ok(f) => f,
        Err(e) => panic!("{}", e.message()),
    }
}

#[test]
fn record_roundtrips_with_flattened_tag() {
    let rec = Record::new(RecordKind::Message(Message::User("你好".into())), 3);
    let line = record_line(&rec);
    assert!(line.contains("\"type\":\"message\""));
    assert!(line.contains("\"payload\""));
    assert!(line.contains("\"ts\""));
    let back = record_from(&parse_json(&line)).unwrap();
    assert_eq!(back.ts, 3);
    match back.kind {
        RecordKind::Message(Message::User(s)) => assert_eq!(s, "你好"),
        _ => panic!("variant mismatch"),
    }
}

#[test]
fn record_line_has_the_written_form() {
    let rec = Record::new(RecordKind::Message(Message::User("你好".into())), 3);
    assert_eq!(record_line(&rec), r#"{"ts":3,"type":"message","payload":{"User":"你好"}}"#);
    let rec = Record::new(RecordKind::Title { title: "t".into() }, 4);
    assert_eq!(record_line(&rec), r#"{"ts":4,"type":"title","payload":{"title":"t"}}"#);
}

#[test]
fn meta_and_compacted_roundtrip() {
    let meta = SessionMeta {
        id: "abc".into(),
        parent_id: None,
        forked_from: Some("p".into()),
        cwd: "/x".into(),
        git: Some(GitInfo { commit: "deadbee".into(), branch: "main".into() }),
        title: Some("标题".into()),
        carter_version: "0.1.0".into(),
        model: "ws/sonnet".into(),
        created_at: 123,
    };
    let line = record_line(&Record::new(RecordKind::SessionMeta(meta), 1));
    match record_from(&parse_json(&line)).unwrap().kind {
        RecordKind::SessionMeta(m) => {
            assert_eq!(m.forked_from.as_deref(), Some("p"));
            assert_eq!(m.git.unwrap().commit, "deadbee");
            assert_eq!(m.title.as_deref(), Some("标题"));
            assert_eq!(m.created_at, 123);
        }
        _ => panic!("variant mismatch"),
    }

    let comp = Record::new(
        RecordKind::Compacted { tier: "L3".into(), messages: vec![Message::Assistant("摘要".into())] },
        1,
    );
    match record_from(&parse_json(&record_line(&comp))).unwrap().kind {
        RecordKind::Compacted { tier, messages } => {
            assert_eq!(tier, "L3");
            assert_eq!(messages.len(), 1);
        }
        _ => panic!("variant mismatch"),
    }
}

#[test]
fn every_kind_of_record_is_read_back() {
    let call = ToolCall { id: "1".into(), name: "grep".into(), args: parse_json(r#"{"a":[1,-2,null,true]}"#).unwrap() };
    let todo = TodoItem { content: "c".into(), status: TodoStatus::InProgress, active_form: "f".into() };
    let raw = written(vec![
        RecordKind::SessionMeta(meta()),
        RecordKind::Message(Message::System("s".into())),
        RecordKind::Message(Message::ToolCalls(vec![call])),
        RecordKind::Message(Message::Tool { call_id: "1".into(), content: "line\nline".into() }),
        RecordKind::Todo(vec![todo]),
        RecordKind::Checkpoint {
            label: "cp".into(),
            snapshots: vec![
                FileSnapshotRecord { path: "a".into(), prior: None },
                FileSnapshotRecord { path: "b".into(), prior: Some("old".into()) },
            ],
        },
    ]);
    assert_eq!(raw.lines().count(), 6);
    let f = folded(&raw);
    assert_eq!(f.meta.id, "s1");
    assert_eq!(f.messages.len(), 3);
    assert!(matches!(&f.messages[1], Message::ToolCalls(c) if c[0].args.to_text() == r#"{"a":[1,-2,null,true]}"#));
    assert!(matches!(&f.messages[2], Message::Tool { content, .. } if content == "line\nline"));
    assert_eq!(f.todos[0].status, TodoStatus::InProgress);
    assert_eq!(f.checkpoints.len(), 1);
    assert_eq!(f.checkpoints.list()[0].snapshots[1].prior.as_deref(), Some("old"));
}

#[test]
fn malformed_records_are_passed_over() {
    let good = written(vec![RecordKind::SessionMeta(meta()), RecordKind::Message(Message::User("q".into()))]);
    let raw = format!("not json\n\n{{\"ts\":1}}\n{{\"ts\":1,\"type\":\"message\",\"payload\":{{\"Nobody\":\"x\"}}}}\n{good}");
    assert_eq!(read_kinds(&raw).len(), 2);
    assert!(fold_file("not json\n", "/f.jsonl").is_err());
    assert!(matches!(fold_file("", "/f.jsonl"), Err(e) if e.message().contains("/f.jsonl")));
}

#[test]
fn appended_records_come_after() {
    let first = written(vec![RecordKind::SessionMeta(meta()), RecordKind::Message(Message::User("q".into()))]);
    let second = written(vec![RecordKind::Message(Message::Assistant("a".into()))]);
    let f = folded(&format!("{first}{second}"));
    assert_eq!(f.messages.len(), 2);
    assert!(matches!(&f.messages[1], Message::Assistant(s) if s == "a"));
}

#[test]
fn cap_truncates_only_oversized_tool_output() {
    let small = Message::Tool { call_id: "1".into(), content: "ok".into() };
    assert!(matches!(cap_for_persist(&small), Message::Tool { content, .. } if content == "ok"));

    let big = Message::Tool { call_id: "1".into(), content: "x".repeat(TOOL_OUTPUT_PERSIST_CAP + 10) };
    if let Message::Tool { content, .. } = cap_for_persist(&big) {
        assert!(content.contains("truncated for session log"));
        assert!(content.len() < TOOL_OUTPUT_PERSIST_CAP + 200);
    } else {
        panic!("expected tool msg");
    }

    let user = Message::User("hi".into());
    assert!(matches!(cap_for_persist(&user), Message::User(s) if s == "hi"));
}

#[test]
fn deferred_creates_file_only_on_first_record() {
    let header = Record::new(RecordKind::SessionMeta(meta()), 1);
    let mut rec = Recorder::deferred("/s.jsonl".to_string(), header);
    assert!(!rec.needs_file());
    assert!(rec.flush(true).is_empty());

    rec.record(RecordKind::Message(Message::User("hi".into())), 2);
    assert!(rec.needs_file());
    let content = record_text(&rec.flush(true));
    let lines: Vec<&str> = content.lines().collect();
    assert_eq!(lines.len(), 2);
    assert!(lines[0].contains("\"type\":\"session_meta\""));
    assert!(lines[1].contains("\"type\":\"message\""));
    rec.record(RecordKind::Message(Message::User("again".into())), 3);
    assert!(!rec.needs_file());
    assert_eq!(rec.flush(true).len(), 1);
}

#[test]
fn fold_accumulates_messages_and_backfills_title() {
    let raw = written(vec![
        RecordKind::SessionMeta(meta()),
        RecordKind::Message(Message::User("q".into())),
        RecordKind::Message(Message::Assistant("a".into())),
        RecordKind::Title { title: "标题".into() },
    ]);
    let f = folded(&raw);
    assert_eq!(f.messages.len(), 2);
    assert_eq!(f.meta.title.as_deref(), Some("标题"));
}

#[test]
fn compacted_snapshot_replaces_prior_messages() {
    let raw = written(vec![
        RecordKind::SessionMeta(meta()),
        RecordKind::Message(Message::User("q1".into())),
        RecordKind::Message(Message::Assistant("a1".into())),
        RecordKind::Compacted { tier: "L3".into(), messages: vec![Message::Assistant("【摘要】".into())] },
        RecordKind::Message(Message::User("q2".into())),
    ]);
    let messages = folded(&raw).messages;
    assert_eq!(messages.len(), 2);
    assert!(matches!(&messages[0], Message::Assistant(s) if s == "【摘要】"));
    assert!(matches!(&messages[1], Message::User(s) if s == "q2"));
}

#[test]
fn project_key_is_stable_and_sanitized() {
    let k1 = project_key("/home/u/proj");
    let k2 = project_key("/home/u/proj");
    assert_eq!(k1, k2);
    assert!(k1.starts_with("proj-"));
    assert!(!project_key("/a/b c").contains(' '));
    assert_ne!(project_key("/other/proj"), k1);
    assert_eq!(k1.len(), "proj-".len() + 16);
    assert!(project_dir("/r", "/home/u/proj").ends_with(&k1));
}

#[test]
fn session_files_sort_by_time() {
    assert_eq!(session_filename(7, "abc"), "0000000000007-abc.jsonl");
    assert!(session_filename(9, "z") < session_filename(10, "a"));
}

#[test]
fn gc_collapses_history_but_preserves_replay_state() {
    let raw = written(vec![
        RecordKind::SessionMeta(meta()),
        RecordKind::Title { title: "标题".into() },
        RecordKind::Message(Message::User("q1".into())),
        RecordKind::Message(Message::Tool { call_id: "1".into(), content: "x".repeat(5000) }),
        RecordKind::Message(Message::Assistant("a1".into())),
        RecordKind::Message(Message::User("q2".into())),
    ]);
    let before = folded(&raw).messages;
    let smaller = written(gc(folded(&raw)));
    assert!(smaller.len() < raw.len(), "gc 应缩小文件: {} -> {}", raw.len(), smaller.len());
    let after = folded(&smaller);
    assert_eq!(before.len(), after.messages.len());
    assert_eq!(after.meta.title.as_deref(), Some("标题"));
    assert_eq!(written(gc(folded(&smaller))), smaller);
}

#[test]
fn new_session_waits_with_its_header() {
    let opts = SessionOpts { session_id: Some("given".into()) };
    let (mut t, m) = start_new("/r", "/home/u/proj", "ws/m", &opts, None, "0.1.0", 9);
    assert_eq!(m.id, "given");
    assert_eq!(m.created_at, 9);
    assert!(t.messages.is_empty());
    t.append_user("hello".to_string(), 10);
    let rec = t.recorder.as_mut().unwrap();
    assert!(rec.path().ends_with("0000000000009-given.jsonl"));
    let raw = record_text(&rec.flush(true));
    assert_eq!(folded(&raw).meta.id, "given");
}

#[test]
fn new_session_has_a_random_id() {
    let opts = SessionOpts { session_id: None };
    let (_, a) = start_new("/r", "/p", "m", &opts, None, "v", 1);
    let (_, b) = start_new("/r", "/p", "m", &opts, None, "v", 1);
    assert_eq!(a.id.len(), 36);
    assert_ne!(a.id, b.id);
}

#[test]
fn fork_is_a_file_of_its_own() {
    let raw = written(vec![
        RecordKind::SessionMeta(meta()),
        RecordKind::Message(Message::User("q".into())),
        RecordKind::Title { title: "T".into() },
    ]);
    let (mut t, m) = fork("/r", folded(&raw), None, "0.2.0", 50);
    assert_eq!(m.forked_from.as_deref(), Some("s1"));
    assert_ne!(m.id, "s1");
    assert_eq!(t.messages.len(), 1);
    let copy = folded(&record_text(&t.recorder.as_mut().unwrap().flush(true)));
    assert_eq!(copy.meta.id, m.id);
    assert_eq!(copy.meta.title.as_deref(), Some("T"));
    assert_eq!(copy.messages.len(), 1);
}

#[test]
fn resumed_session_goes_on_in_its_file() {
    let raw = written(vec![RecordKind::SessionMeta(meta()), RecordKind::Message(Message::User("q".into()))]);
    match load_session(&raw, "/f.jsonl") {
        Ok((t, m)) => {
            assert_eq!(m.id, "s1");
            assert_eq!(t.messages.len(), 1);
            assert_eq!(t.recorder.as_ref().unwrap().path(), "/f.jsonl");
            assert!(!t.recorder.as_ref().unwrap().needs_file());
        }
        Err(e) => panic!("{}", e.message()),
    }
}

fn entry(id: &str, at: u64) -> SessionEntry {
    let mut m = meta();
    m.id = id.into();
    m.created_at = at;
    SessionEntry { meta: m, path: format!("/{id}.jsonl") }
}

#[test]
fn sessions_are_listed_newest_first() {
    let sorted = sort_entries(vec![entry("a", 1), entry("b", 3), entry("c", 2)]);
    let ids: Vec<&str> = sorted.iter().map(|e| e.meta.id.as_str()).collect();
    assert_eq!(ids, vec!["b", "c", "a"]);
    assert_eq!(latest(vec![entry("a", 1), entry("b", 3)]).unwrap().meta.id, "b");
    assert!(latest(vec![]).is_none());
}

#[test]
fn files_without_metadata_are_not_listed() {
    let files = vec![
        ("/1.jsonl".to_string(), written(vec![RecordKind::SessionMeta(meta())])),
        ("/2.jsonl".to_string(), "broken".to_string()),
    ];
    let all = list(&files);
    assert_eq!(all.len(), 1);
    assert_eq!(all[0].path, "/1.jsonl");
}

// ----- what was typed -----

#[test]
fn append_then_load_roundtrip_in_order() {
    let mut raw = append(1, "s1", "第一条");
    raw.push_str(&append(2, "s1", "第二条"));
    let got = load(&raw, 10);
    assert_eq!(got, vec!["第一条".to_string(), "第二条".to_string()]);
}

#[test]
fn load_caps_to_limit_keeping_newest() {
    let mut raw = String::new();
    for i in 0..5 {
        raw.push_str(&append(1, "s", &format!("m{i}")));
    }
    let got = load(&raw, 2);
    assert_eq!(got, vec!["m3".to_string(), "m4".to_string()]);
}

#[test]
fn load_missing_file_is_empty() {
    assert!(load("", 10).is_empty());
    assert_eq!(history_path("/r"), "/r/history.jsonl");
    assert_eq!(LOAD_LIMIT, 1000);
}

#[test]
fn skips_malformed_lines() {
    let raw = "not json\n{\"ts\":1,\"session_id\":\"s\",\"text\":\"ok\"}\n";
    assert_eq!(load(raw, 10), vec!["ok".to_string()]);
}

#[test]
fn typed_lines_stay_one_entry() {
    let raw = append(1, "s", "two\nlines");
    assert_eq!(raw.lines().count(), 1);
    assert_eq!(load(&raw, 10), vec!["two\nlines".to_string()]);
}

#[test]
fn cap_counts_bytes() {
    let wide = Message::Tool { call_id: "1".into(), content: "汉".repeat(TOOL_OUTPUT_PERSIST_CAP / 2) };
    match cap_for_persist(&wide) {
        Message::Tool { content, .. } => {
            assert!(content.len() < TOOL_OUTPUT_PERSIST_CAP + 200);
            assert!(content.starts_with(&"汉".repeat(TOOL_OUTPUT_PERSIST_CAP / 3)));
            assert!(content.ends_with("\n[tool result truncated for session log: 49152 bytes total]"));
        }
        _ => panic!("expected tool msg"),
    }
}

fn nested(depth: usize) -> String {
    format!("{}{}", "[".repeat(depth), "]".repeat(depth))
}

fn calling(args: &str) -> Message {
    Message::ToolCalls(vec![ToolCall { id: "1".into(), name: "t".into(), args: parse_json(args).unwrap() }])
}

fn args_of(m: &Message) -> String {
    match m {
        Message::ToolCalls(cs) => cs[0].args.to_text(),
        _ => panic!("expected calls"),
    }
}

#[test]
fn doubles_are_read_back() {
    let args = "[0.1,1e300,-0.0,5e-324,1.7976931348623157e308,0.30000000000000004,123456789.12345679,1e16,-2.5e-7]";
    let doc = parse_json(args).unwrap();
    assert_eq!(doc.to_text(), parse_json(&doc.to_text()).unwrap().to_text());
    let rec = Record::new(RecordKind::Message(calling(args)), 3);
    let back = record_from(&parse_json(&record_line(&rec))).unwrap();
    match (&rec.kind, &back.kind) {
        (RecordKind::Message(a), RecordKind::Message(b)) => {
            assert_eq!(args_of(a), args_of(b));
            assert_eq!(format!("{a:?}"), format!("{b:?}"));
        }
        _ => panic!("variant mismatch"),
    }
}

#[test]
fn depth_of_arguments_is_limited_by_the_reader() {
    assert!(parse_json(&nested(127)).is_some());
    assert!(parse_json(&nested(128)).is_none());
    let fits = record_line(&Record::new(RecordKind::Message(calling(&nested(123))), 1));
    assert!(record_from(&parse_json(&fits)).is_some());
    let deep = record_line(&Record::new(RecordKind::Message(calling(&nested(124))), 1));
    assert!(record_from(&parse_json(&deep)).is_none());
}

#[test]
fn rewritten_file_tells_the_same() {
    let raw = written(vec![
        RecordKind::SessionMeta(meta()),
        RecordKind::Title { title: "标题".into() },
        RecordKind::Message(Message::User("q".into())),
        RecordKind::Message(calling(&format!("[0.1,{}]", nested(120)))),
        RecordKind::Todo(vec![TodoItem { content: "c".into(), status: TodoStatus::Pending, active_form: "f".into() }]),
        RecordKind::Checkpoint {
            label: "one".into(),
            snapshots: vec![
                FileSnapshotRecord { path: "a".into(), prior: None },
                FileSnapshotRecord { path: "b".into(), prior: Some("old".into()) },
            ],
        },
        RecordKind::Checkpoint { label: "two".into(), snapshots: vec![] },
    ]);
    let (text, old, new) = gc_file(&raw, "/f.jsonl", 9).unwrap();
    assert_eq!((old, new), (raw.len() as u64, text.len() as u64));
    let (a, b) = (folded(&raw), folded(&text));
    assert_eq!(format!("{:?}", a.messages), format!("{:?}", b.messages));
    assert_eq!(format!("{:?}", a.todos), format!("{:?}", b.todos));
    assert_eq!(format!("{:?}", a.meta), format!("{:?}", b.meta));
    assert_eq!(b.checkpoints.len(), 2);
    assert_eq!(format!("{:?}", a.checkpoints), format!("{:?}", b.checkpoints));
    assert!(gc_file("{}", "/f.jsonl", 9).is_err());
}

#[test]
fn records_are_read_in_the_order_of_their_fields() {
    let raw = r#"{"ts":1,"type":"session_meta","payload":["s1",null,null,"/x",["c","b"],"T","0.1.0","m",1]}
{"ts":2,"type":"message","payload":{"Tool":["c1","out"]}}
{"ts":3,"type":"message","payload":{"ToolCalls":[["1","t",{"a":1}]]}}
{"ts":4,"type":"todo","payload":[["c","pending","f"]]}
{"ts":5,"type":"message","payload":{"Tool":["c1","out","more"]}}
"#;
    let s = folded(raw);
    assert_eq!(s.meta.title.as_deref(), Some("T"));
    assert_eq!(s.meta.git.as_ref().map(|g| g.branch.as_str()), Some("b"));
    assert_eq!(s.messages.len(), 2);
    assert!(matches!(&s.messages[0], Message::Tool { call_id, content } if call_id == "c1" && content == "out"));
    assert_eq!(s.todos.len(), 1);
    assert_eq!(load("[1,\"s\",\"typed\"]\n[1,\"s\"]\n", 10), vec!["typed"]);
}

#[test]
fn lines_that_give_a_field_twice_are_passed_over() {
    for line in [
        r#"{"ts":1,"ts":1,"type":"title","payload":{"title":"a"}}"#,
        r#"{"ts":1,"type":"title","\u0074ype":"title","payload":{"title":"a"}}"#,
        r#"{"ts":1,"type":"title","payload":{"title":"a"},"payload":{"title":"a"}}"#,
        r#"{"ts":1,"type":"title","payload":{"title":"a","title":"b"}}"#,
        r#"{"ts":1,"type":{"title":null,"title":null},"payload":{"title":"a"}}"#,
        r#"{"ts":1,"type":"message","payload":{"User":"a","User":"b"}}"#,
        r#"{"ts":1,"type":"message","payload":{"Tool":{"call_id":"1","content":"a","content":"b"}}}"#,
        r#"{"ts":1,"type":"message","payload":{"ToolCalls":[{"id":"1","name":"t","args":1,"args":2}]}}"#,
        r#"{"ts":1,"type":"todo","payload":[{"content":"c","content":"c","status":"pending","active_form":"f"}]}"#,
        r#"{"ts":1,"type":"todo","payload":[{"content":"c","status":{"pending":{},"pending":{}},"active_form":"f"}]}"#,
        r#"{"ts":1,"type":"compacted","payload":{"tier":"t","messages":[{"User":"a","User":"b"}]}}"#,
        r#"{"ts":1,"type":"compacted","payload":{"tier":"t","tier":"t","messages":[]}}"#,
        r#"{"ts":1,"type":"checkpoint","payload":{"label":"l","snapshots":[{"path":"a","path":"b"}]}}"#,
        r#"{"ts":1,"type":"session_meta","payload":{"id":"s","cwd":"/","carter_version":"0","model":"m","model":"n","created_at":1}}"#,
        r#"{"ts":1,"type":"session_meta","payload":{"id":"s","cwd":"/","git":{"commit":"a","commit":"b","branch":"c"},"carter_version":"0","model":"m","created_at":1}}"#,
    ] {
        assert!(record_of(line).is_none(), "{line}");
        assert!(read_kinds(line).is_empty(), "{line}");
    }
    assert!(load("{\"ts\":1,\"session_id\":\"s\",\"text\":\"a\",\"text\":\"b\"}\n", 9).is_empty());
}

#[test]
fn keys_that_no_record_reads_may_be_repeated() {
    let unknown = r#"{"ts":1,"x":":","x":{"a":1,"a":2},"type":"title","payload":{"title":"a","y":1,"y":2}}"#;
    assert!(matches!(record_of(unknown), Some(Record { kind: RecordKind::Title { title }, .. }) if title == "a"));
    let args = r#"{"ts":1,"type":"message","payload":{"ToolCalls":[{"id":"1","name":"t","args":{"a":1,"b":0,"a":"x/\"y"}}]}}"#;
    match record_of(args) {
        Some(Record { kind: RecordKind::Message(Message::ToolCalls(calls)), .. }) => {
            assert_eq!(calls[0].args.to_text(), r#"{"a":"x/\"y","b":0}"#);
        }
        _ => panic!("expected a record"),
    }
    let typed = "{\"ts\":1,\"session_id\":\"s\",\"text\":\"a\",\"z\":1,\"z\":2}\n";
    assert_eq!(load(typed, 9), vec!["a"]);
}

#[test]
fn states_are_words_or_objects_with_one_key() {
    let raw = r#"{"ts":1,"type":{"todo":null},"payload":[{"content":"c","status":{"in_progress":null},"active_form":"f"}]}"#;
    match record_of(raw) {
        Some(Record { kind: RecordKind::Todo(todos), .. }) => assert_eq!(todos[0].status, TodoStatus::InProgress),
        _ => panic!("expected a record"),
    }
    let empty = r#"{"ts":1,"type":"todo","payload":[["c",{"completed":{}},"f"]]}"#;
    assert!(matches!(record_of(empty), Some(Record { kind: RecordKind::Todo(t), .. }) if t[0].status == TodoStatus::Completed));
    for line in [
        r#"{"ts":1,"type":{"title":1},"payload":{"title":"a"}}"#,
        r#"{"ts":1,"type":{},"payload":{"title":"a"}}"#,
        r#"{"ts":1,"type":"todo","payload":[["c",{"completed":{"a":1}},"f"]]}"#,
        r#"{"ts":1,"type":"todo","payload":[["c",{"completed":null,"pending":null},"f"]]}"#,
    ] {
        assert!(record_of(line).is_none(), "{line}");
    }
}
