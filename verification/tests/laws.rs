//! Properties that hold over several calls, on concrete values, and exact texts.

use carter::agent::context::elide_old_tool_outputs;
use carter::agent::subagent::answer_call;
use carter::agent::thread::Thread;
use carter::agent::turn::{
    blocked_result, plan_batches, prepare_call, render_todos, BatchKind, RoundEnd, StreamRules, TurnOutcome, TurnRun,
};
use carter::agent::ui::{StdoutSink, UiEvent};
use carter::cli::report::{gc_failed, gc_line, gc_total, human_age, session_label, sessions_report};
use carter::cli::repl::{context_notice, cost_notice, servers_text, skills_text};
use carter::config::settings::McpServerConfig;
use carter::error::CarterError;
use carter::hooks::types::HookDecision;
use carter::json::parse_json;
use carter::provider::event::{Event, StopReason, ToolCall, Usage};
use carter::provider::request::Message;
use carter::registry::model::{ModelInfo, Pricing, Rate};
use carter::session::dates::{civil_from_days, date_utc, iso_utc};
use carter::session::record::SessionMeta;
use carter::session::store::{project_key, SessionEntry};
use carter::skills::skill::{discover, SkillMeta};
use carter::tools::args::ToolResult;
use carter::tools::bash::{Bash, BashEnd, BashPlan};
use carter::tools::edit_file::{apply_edit, EditFile};
use carter::tools::glob_tool::{Glob, GlobPlan};
use carter::tools::read_file::{ReadFile, ReadPlan};
use carter::tools::save_memory::append_bullet;
use carter::tools::todo_write::{TodoItem, TodoStatus};

const RULES: StreamRules = StreamRules { show_thinking: true, compact_enabled: false, compact_threshold: 0 };

fn model() -> ModelInfo {
    ModelInfo {
        key: "k".into(),
        provider: "p".into(),
        api_name: "m".into(),
        context_window: 1000,
        max_output_tokens: 10,
        tokenizer: "cl100k".into(),
        capabilities: vec![],
        pricing: Pricing { input: Rate::Uint(1), output: Rate::Uint(2), cache_write: None, cache_read: None },
        default_reasoning: None,
    }
}

fn call(name: &str) -> ToolCall {
    ToolCall { id: format!("id-{name}"), name: name.into(), args: parse_json("{}").unwrap() }
}

fn meta(id: &str, title: Option<&str>) -> SessionMeta {
    SessionMeta {
        id: id.into(),
        parent_id: None,
        forked_from: None,
        cwd: "/x".into(),
        git: None,
        title: title.map(|t| t.to_string()),
        carter_version: "0.1.0".into(),
        model: "ws/m".into(),
        created_at: 1_000,
    }
}

// ----- turns -----

#[test]
fn usages_add_up_in_any_order() {
    let a = Usage { input: 1, output: 2, cache_read: 3, cache_write: 4, reasoning: 5 };
    let b = Usage { input: 10, output: 20, cache_read: 30, cache_write: 40, reasoning: 50 };
    let (mut x, mut y) = (a, b);
    x.add(&b);
    y.add(&a);
    assert_eq!(x, y);
    assert_eq!(x.cache_write, 44);
    let full = Usage { input: u64::MAX, output: 0, cache_read: 0, cache_write: 0, reasoning: 0 };
    assert!(!full.fits(&a));
    assert!(a.fits(&b));
}

#[test]
fn results_come_in_the_order_of_the_prompts() {
    let res = answer_call(vec![(1, Ok("second".to_string())), (0, Err("first".to_string()))]);
    assert!(!res.ok);
    assert_eq!(res.content, "--- subagent 1 ---\nERROR: first\n\n--- subagent 2 ---\nsecond");
}

#[test]
fn batches_keep_calls_apart_that_must_not_run_together() {
    let block = HookDecision::Block { reason: "no".into() };
    let ps = vec![
        prepare_call(&call("grep"), HookDecision::Continue),
        prepare_call(&call("glob"), HookDecision::Continue),
        prepare_call(&call("grep"), block),
        prepare_call(&call("bash"), HookDecision::Continue),
        prepare_call(&call("bash"), HookDecision::Continue),
        prepare_call(&call("read_file"), HookDecision::Continue),
    ];
    let plan: Vec<(BatchKind, usize, usize)> = plan_batches(&ps).iter().map(|b| (b.kind, b.start, b.end)).collect();
    assert_eq!(
        plan,
        vec![
            (BatchKind::Concurrent, 0, 2),
            (BatchKind::Blocked, 2, 3),
            (BatchKind::Serial, 3, 4),
            (BatchKind::Serial, 4, 5),
            (BatchKind::Concurrent, 5, 6),
        ]
    );
    assert_eq!(blocked_result("no").content, "blocked by hook: no");
}

#[test]
fn nothing_counts_after_the_end_of_a_stream() {
    let mut run = TurnRun::new();
    run.begin_round();
    run.on_event(Event::TextDelta("a".into()), &RULES);
    run.on_event(Event::Done(StopReason::EndTurn), &RULES);
    assert!(run.done);
    assert!(run.on_event(Event::TextDelta("b".into()), &RULES).is_none());
    run.on_event(Event::ToolCall(call("bash")), &RULES);
    assert_eq!(run.text, "a");
    assert!(run.calls.is_empty());
}

#[test]
fn text_before_a_cancel_is_kept() {
    let mut run = TurnRun::new();
    let mut t = Thread::new("q".to_string());
    run.begin_round();
    run.on_event(Event::TextDelta("half".into()), &RULES);
    run.on_event(Event::ToolCall(call("bash")), &RULES);
    let r = run.end_round(&mut t, true, 10, &model(), 1);
    assert!(matches!(r.next, RoundEnd::Finish(TurnOutcome::Cancelled)));
    assert_eq!(t.messages.len(), 2);
    assert!(matches!(&t.messages[0], Message::User(s) if s == "q"));
    assert!(matches!(&t.messages[1], Message::Assistant(s) if s == "half"));
}

#[test]
fn answer_cut_short_is_a_limit() {
    let mut run = TurnRun::new();
    let mut t = Thread::new("q".to_string());
    run.begin_round();
    run.on_event(Event::TextDelta("long".into()), &RULES);
    run.on_event(Event::Done(StopReason::MaxTokens), &RULES);
    let r = run.end_round(&mut t, false, 10, &model(), 1);
    assert!(matches!(r.next, RoundEnd::Finish(TurnOutcome::Limit)));
    assert_eq!(t.turns, 1);
    assert_eq!(TurnOutcome::Limit.label(), "limit");
    assert_eq!(TurnOutcome::Error("x".into()).label(), "error");
}

#[test]
fn eliding_keeps_everything_but_old_outputs() {
    let mut ms = vec![
        Message::User("u".into()),
        Message::Tool { call_id: "c1".into(), content: "12345".into() },
        Message::Assistant("a".into()),
        Message::Tool { call_id: "c2".into(), content: "kept".into() },
    ];
    elide_old_tool_outputs(&mut ms, 1);
    assert_eq!(ms.len(), 4);
    assert!(matches!(&ms[0], Message::User(s) if s == "u"));
    assert!(matches!(&ms[1], Message::Tool { call_id, content }
        if call_id == "c1" && content == "[tool result elided: 5 bytes, call_id=c1]"));
    assert!(matches!(&ms[3], Message::Tool { content, .. } if content == "kept"));
}

#[test]
fn tasks_are_recited() {
    let item = |c: &str, s: TodoStatus| TodoItem { content: c.into(), status: s, active_form: format!("{c}ing") };
    let todos = vec![
        item("build", TodoStatus::Completed),
        item("test", TodoStatus::InProgress),
        item("ship", TodoStatus::Pending),
    ];
    let text = render_todos(&todos);
    assert!(text.starts_with("当前待办（持续推进，完成即更新状态）：\n[x] build\n[~] testing\n[ ] ship"));
}

// ----- the terminal -----

#[test]
fn reasoning_is_closed_before_text() {
    let mut s = StdoutSink::new();
    assert_eq!(s.emit(&UiEvent::ThinkingDelta("hm".into()), ""), "\x1b[90m[thinking] hm");
    assert_eq!(s.emit(&UiEvent::ThinkingDelta("m".into()), ""), "m");
    assert_eq!(s.emit(&UiEvent::AssistantTextDelta("hi".into()), ""), "\x1b[0m\nhi");
    assert_eq!(s.emit(&UiEvent::AssistantTextEnd, ""), "\n");
    assert!(!s.in_thinking);
}

#[test]
fn events_have_their_colours() {
    let mut s = StdoutSink::new();
    let started = UiEvent::ToolCallStarted { name: "bash".into(), args_preview: "command=ls".into() };
    assert_eq!(s.emit(&started, ""), "\x1b[36m⚙ bash(command=ls)\x1b[0m\n");
    assert_eq!(s.emit(&UiEvent::ToolResult { ok: true, summary: "ok".into() }, ""), "\x1b[32m  ✓ ok\x1b[0m\n");
    assert_eq!(s.emit(&UiEvent::ToolResult { ok: false, summary: "no".into() }, ""), "\x1b[31m  ✗ no\x1b[0m\n");
    assert_eq!(s.emit(&UiEvent::Notice("n".into()), ""), "\x1b[90mn\x1b[0m\n");
    assert_eq!(s.emit(&UiEvent::Divider("d".into()), ""), "\x1b[90m──── d ────\x1b[0m\n");
    assert_eq!(s.emit(&UiEvent::Idle, ""), "");
    let usage = Usage { input: 1, output: 2, cache_read: 3, cache_write: 4, reasoning: 5 };
    let end = UiEvent::TurnUsage { usage, pricing: model().pricing, model: "m".into() };
    assert_eq!(
        s.emit(&end, "0.1234"),
        "\n[tokens] in=1 out=2 cache_read=3 cache_write=4 reasoning=5 | cost=$0.1234 (m)\n"
    );
    let ask = UiEvent::AskUser { id: 1, question: "q?".into(), options: vec!["a".into(), "b".into()] };
    assert_eq!(s.emit(&ask, ""), "\x1b[33m[ask] q?\x1b[0m\n\x1b[33m  options: a | b\x1b[0m\n");
}

// ----- sessions and reports -----

#[test]
fn every_day_has_the_day_after() {
    let mut last = civil_from_days(-1);
    for day in 0..150_000i64 {
        let (y, m, d) = civil_from_days(day);
        let next_day = (y, m, d) == (last.0, last.1, last.2 + 1);
        let next_month = d == 1 && (y, m) == (last.0, last.1 + 1) && last.2 >= 28;
        let next_year = (m, d) == (1, 1) && y == last.0 + 1 && (last.1, last.2) == (12, 31);
        assert!(next_day || next_month || next_year, "{day}");
        last = (y, m, d);
    }
    assert_eq!(date_utc(951_782_400_000), "2000-02-29");
}

#[test]
fn dates_sort_as_their_moments_do() {
    let moments = [0u64, 86_399_999, 86_400_000, 951_782_400_000, 1_700_000_000_000, 253_402_300_799_999];
    for w in moments.windows(2) {
        assert!(date_utc(w[0]) <= date_utc(w[1]));
    }
    for ms in moments {
        assert_eq!(date_utc(ms), iso_utc(ms)[..10]);
    }
    assert_eq!(date_utc(253_402_300_799_999), "9999-12-31");
}

#[test]
fn keys_keep_letters_of_any_script() {
    assert!(project_key("/home/u/项目 1").starts_with("项目-1-"));
    assert!(project_key("/").starts_with("root-"));
}

#[test]
fn reports_have_their_words() {
    assert_eq!(human_age(59_999), "59秒");
    assert_eq!(human_age(60_000), "1分");
    assert_eq!(human_age(7_200_000), "2时");
    assert_eq!(human_age(86_400_000), "1天");
    let e = SessionEntry { meta: meta("abcdef0123", Some("T")), path: "/f".into() };
    assert_eq!(sessions_report(&vec![e], 61_000), "  1. T  ·  1分前  ·  ws/m  ·  abcdef0123\n");
    assert_eq!(sessions_report(&vec![], 0), "（无会话）\n");
    assert_eq!(gc_line("L", "10B", "5B"), "  L: 10B → 5B");
    assert_eq!(gc_failed("L", "e"), "  L: gc 失败 — e");
    assert_eq!(gc_total("10B", "5B", "5B"), "合计 10B → 5B（省 5B）");
    assert_eq!(session_label(&meta("abcdef0123", Some("T"))), "T (abcdef01)");
    assert_eq!(session_label(&meta("abcdef0123", None)), "abcdef01");
}

#[test]
fn notices_have_their_words() {
    let n = |e: UiEvent| match e {
        UiEvent::Notice(s) => s,
        _ => panic!("expected a notice"),
    };
    assert_eq!(n(context_notice(10, 100, "10.0", 3)), "上下文估算 ~10 tokens / 100 窗口（约 10.0%）· 3 条消息");
    let u = Usage { input: 7, output: 8, cache_read: 0, cache_write: 0, reasoning: 0 };
    assert_eq!(n(cost_notice(&u, "0.5000")), "本会话累计 in=7 out=8 | 约 $0.5000");
    let skills = vec![SkillMeta { name: "a".into(), description: "first".into(), allowed_tools: vec![] }];
    assert_eq!(skills_text(&skills), "可用 skills（1）：\n  a — first");
    let server = McpServerConfig {
        transport: "http".into(),
        command: None,
        args: vec![],
        env: vec![],
        url: Some("https://e".into()),
        headers: vec![],
    };
    assert_eq!(servers_text(&vec![("s".to_string(), server)], 4), "MCP servers（1）· 已加载 4 个工具：\n  s [http] https://e");
}

#[test]
fn skills_stand_in_the_order_of_their_names() {
    let file = |n: &str| format!("---\nname: {n}\ndescription: d\n---\nb\n");
    let metas = discover(&vec![file("c"), file("a"), file("b")]);
    let names: Vec<&str> = metas.iter().map(|m| m.name.as_str()).collect();
    assert_eq!(names, vec!["a", "b", "c"]);
}

#[test]
fn errors_are_named() {
    assert_eq!(CarterError::ModelNotFound("x".into()).message(), "model not found: x");
    assert_eq!(CarterError::Config("x".into()).message(), "config error: x");
    assert_eq!(CarterError::Provider("x".into()).message(), "provider error: x");
    assert_eq!(CarterError::Io("x".into()).message(), "io error: x");
    assert_eq!(CarterError::TomlParse("x".into()).message(), "toml parse error: x");
    assert_eq!(CarterError::Other("x".into()).message(), "x");
}

// ----- tools -----

#[test]
fn edits_say_what_is_wrong() {
    assert_eq!(apply_edit("abc", "", "q", false).unwrap_err(), "old_string must not be empty");
    assert_eq!(apply_edit("abc", "x\"y", "q", false).unwrap_err(), "old_string not found: \"x\\\"y\"");
    assert_eq!(
        apply_edit("a\nb\na\n", "a", "q", false).unwrap_err(),
        "old_string appears 2 times (lines 1, 3); pass replace_all=true or provide a more specific string"
    );
    assert_eq!(EditFile::done_answer(2, "f").content, "replaced 2 occurrence(s) in f");
}

#[test]
fn unique_edit_leaves_the_rest() {
    let (once, _) = apply_edit("left MID right", "MID", "new", false).unwrap();
    let (all, n) = apply_edit("left MID right", "MID", "new", true).unwrap();
    assert_eq!(once, "left new right");
    assert_eq!(once, all);
    assert_eq!(n, 1);
}

#[test]
fn command_reports_are_exact() {
    let p = BashPlan { command: "rm -rf /tmp/x".into(), timeout_secs: 5 };
    let end = BashEnd::Exited { code: 1, success: false, stdout: "out".into(), stderr: "err\n".into() };
    let res = Bash::answer(&p, &end);
    assert!(!res.ok);
    assert_eq!(
        res.content,
        "[warning] detected `rm -rf` against a sensitive target — double-check before relying on the result\nexit_code=1\nout\n[stderr]\nerr\n"
    );
    let silent = BashEnd::Exited { code: 0, success: true, stdout: "".into(), stderr: "".into() };
    assert_eq!(
        Bash::answer(&p, &silent).content,
        "[warning] detected `rm -rf` against a sensitive target — double-check before relying on the result\nexit_code=0\n"
    );
    let warning = "[warning] detected `rm -rf` against a sensitive target — double-check before relying on the result\n";
    let long = BashEnd::Exited { code: 0, success: true, stdout: "x".repeat(30000), stderr: "".into() };
    assert_eq!(
        Bash::answer(&p, &long).content,
        format!(
            "{warning}exit_code=0\n{}\n... [truncated {} bytes]",
            "x".repeat(30000 - warning.len()),
            warning.len()
        )
    );
    let quiet = BashPlan { command: "true".into(), timeout_secs: 5 };
    let none = BashEnd::Exited { code: 0, success: true, stdout: "".into(), stderr: "".into() };
    assert_eq!(Bash::answer(&quiet, &none).content, "exit_code=0\n(no output)");
    assert_eq!(
        Bash::answer(&quiet, &BashEnd::TimedOut).content,
        "command timed out after 5s (process tree killed)"
    );
}

#[test]
fn lists_of_files_are_exact() {
    let p = GlobPlan { pattern: "*".into(), include_hidden: false, include_noise: false };
    let found = vec![Some("a".to_string()), Some("target/b".to_string()), Some("c".to_string())];
    assert_eq!(
        Glob::report(&p, &found).content,
        "a\nc\n[note] filtered 1 noise paths (.git/node_modules/target/...)"
    );
    assert_eq!(Glob::report(&p, &vec![]).content, "no files match: *");
}

#[test]
fn lines_are_numbered() {
    let p = ReadPlan { path: "f".into(), offset: 2, limit: 2 };
    assert_eq!(ReadFile::answer(&p, "one\ntwo\nthree\nfour").content, "     2\ttwo\n     3\tthree\n");
    let far = ReadPlan { path: "f".into(), offset: 9, limit: 2 };
    assert_eq!(ReadFile::answer(&far, "one\n").content, "offset 9 beyond end of file (1 lines)");
    assert!(!ReadFile::answer(&far, "one\n").ok);
}

#[test]
fn memory_keeps_what_it_held() {
    let before = "# t\n\nold text";
    let after = append_bullet(before, "- b", None, "facts");
    assert!(after.starts_with(before));
    assert_eq!(after, "# t\n\nold text\n\n## Facts\n- b\n");
    assert_eq!(append_bullet("", "- b", None, "profile"), "# Carter 记忆 (profile)\n\n## Profile\n\n- b\n");
}

#[test]
fn errors_are_marked_for_the_model() {
    assert_eq!(ToolResult::err("x".into()).to_model_string(), "ERROR: x");
}
