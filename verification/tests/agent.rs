//! The agent: checkpoints, context, sub-agents, turns and what they show.

use carter::agent::ask_user::{AskReply, AskUserQuestionTool};
use carter::agent::checkpoint::{mutating_paths, CheckpointStore, FileSnapshot};
use carter::agent::context::{
    collect_summary, compact_first, compact_summary, elide_old_tool_outputs, estimate_message, estimate_tokens,
    loose_request, render_messages, split_for_summary, structured_request, structured_summary_system,
    title_from_answer, title_request, Tier, L2_KEEP_RECENT, L3_SUMMARY_MAX_TOKENS, SUMMARY_MAX_TOKENS,
    TITLE_MAX_TOKENS,
};
use carter::agent::subagent::{
    allows, answer_call, fork_messages, task_outcome, task_thread, CollectSink, TaskTool, DEFAULT_MAX_DEPTH,
};
use carter::agent::thread::Thread;
use carter::agent::turn::{
    batch_started, blocked_result, build_request, checkpoint_before, compact_skipped, feed_results,
    offered_tools, plan_batches, post_tool_events, pre_compact_payload, pre_tool_payload, pre_turn_payload,
    prepare_call, render_todos,
    turn_end_events, BatchKind, PreparedCall, RoundEnd, StreamRules, TurnOutcome, TurnRun,
};
use carter::agent::ui::{
    args_preview, auto_answer, replay_from_messages, truncate_inline, ReplayRole, StdoutSink, UiEvent,
};
use carter::error::CarterError;
use carter::hooks::registry::{HookChain, HookRegistry};
use carter::hooks::types::{HookConfig, HookDecision, HookEvent};
use carter::json::{parse_json, Json};
use carter::provider::event::{Event, StopReason, ToolCall, Usage};
use carter::provider::request::{Message, ToolSpec};
use carter::registry::model::{Capability, ModelInfo, Pricing, Rate, ReasoningEffort};
use carter::session::record::RecordKind;
use carter::session::recorder::Recorder;
use carter::tools::args::ToolResult;
use carter::tools::todo_write::{TodoItem, TodoStatus};

fn js(text: &str) -> Json {
    parse_json(text).unwrap()
}

fn tool_msg(id: &str, content: &str) -> Message {
    Message::Tool { call_id: id.to_string(), content: content.to_string() }
}

fn call(id: &str, name: &str, args: &str) -> ToolCall {
    ToolCall { id: id.into(), name: name.into(), args: js(args) }
}

fn snap(path: &str, prior: Option<&str>) -> FileSnapshot {
    FileSnapshot { path: path.into(), prior: prior.map(|s| s.to_string()) }
}

fn no_usage() -> Usage {
    Usage { input: 0, output: 0, cache_read: 0, cache_write: 0, reasoning: 0 }
}

fn fake_model() -> ModelInfo {
    ModelInfo {
        key: "k".into(),
        provider: "p".into(),
        api_name: "m".into(),
        context_window: 100_000,
        max_output_tokens: 8000,
        tokenizer: "cl100k".into(),
        capabilities: vec![],
        pricing: Pricing { input: Rate::Uint(0), output: Rate::Uint(0), cache_write: None, cache_read: None },
        default_reasoning: Some(ReasoningEffort::Medium),
    }
}

// ----- questions to the user -----

#[test]
fn missing_question_errors() {
    let mut tool = AskUserQuestionTool::new();
    let res = tool.ask(&js("{}"));
    assert!(matches!(res, Err(ToolResult { ok: false, .. })));
}

#[test]
fn emits_event_and_waits_for_response() {
    let mut tool = AskUserQuestionTool::new();
    match tool.ask(&js(r#"{"question": "OK?", "options": ["yes", "no"]}"#)) {
        Ok(UiEvent::AskUser { question, options, .. }) => {
            assert_eq!(question, "OK?");
            assert_eq!(options, vec!["yes", "no"]);
        }
        _ => panic!("expected a question"),
    }
    let res = tool.answer(AskReply::Answer("yes".to_string()));
    assert!(res.ok);
    assert_eq!(res.content, "yes");
}

#[test]
fn questions_have_ids_of_their_own() {
    let mut tool = AskUserQuestionTool::new();
    let first = tool.ask(&js(r#"{"question": "a"}"#));
    let second = tool.ask(&js(r#"{"question": "b"}"#));
    match (first, second) {
        (Ok(UiEvent::AskUser { id: a, options, .. }), Ok(UiEvent::AskUser { id: b, .. })) => {
            assert_ne!(a, b);
            assert!(options.is_empty());
        }
        _ => panic!("expected questions"),
    }
}

#[test]
fn question_without_answer_is_an_error() {
    let tool = AskUserQuestionTool::new();
    assert!(!tool.answer(AskReply::Closed).ok);
    assert!(!tool.answer(AskReply::Gone).ok);
}

// ----- checkpoints -----

#[test]
fn mutating_paths_extracts_path() {
    assert_eq!(mutating_paths("/r", "write_file", &js(r#"{"path": "a.rs", "content": "x"}"#)), vec!["a.rs"]);
    assert_eq!(mutating_paths("/r", "edit_file", &js(r#"{"path": "b.rs"}"#)), vec!["b.rs"]);
    assert!(mutating_paths("/r", "bash", &js(r#"{"command": "rm x"}"#)).is_empty());
}

#[test]
fn memory_calls_change_a_memory_file() {
    assert_eq!(mutating_paths("/r", "save_memory", &js(r#"{"content": "x"}"#)), vec!["CARTER.md"]);
    assert_eq!(mutating_paths("/r", "save_memory", &js(r#"{"scope": "global"}"#)), vec!["/r/facts.md"]);
    let facts = js(r#"{"content": "x", "kind": "facts", "scope": "global"}"#);
    assert_eq!(mutating_paths("/h", "save_memory", &facts), vec!["/h/facts.md"]);
    let profile = js(r#"{"content": "x", "kind": "profile"}"#);
    assert_eq!(mutating_paths("/h", "save_memory", &profile), vec!["/h/profile.md"]);
    let skill = js(r#"{"content": "x", "kind": "skill", "slug": "rust-tests"}"#);
    assert_eq!(mutating_paths("/h", "save_memory", &skill), vec!["/h/skills/rust-tests.md"]);
    assert!(mutating_paths("/h", "save_memory", &js(r#"{"content": "x", "kind": "skill"}"#)).is_empty());
    assert!(mutating_paths("/h", "save_memory", &js(r#"{"content": "x", "kind": "other"}"#)).is_empty());
}

#[test]
fn rewind_restores_modified_and_deletes_created() {
    let mut store = CheckpointStore::new();
    store.snapshot("edit keep".into(), vec![snap("keep.txt", Some("原始内容"))]);
    store.snapshot("write new".into(), vec![snap("new.txt", None)]);
    assert_eq!(store.len(), 2);
    let files = store.rewind_to(1).unwrap();
    assert_eq!(files.len(), 2);
    assert!(files.iter().any(|f| f.path == "keep.txt" && f.prior.as_deref() == Some("原始内容")));
    assert!(files.iter().any(|f| f.path == "new.txt" && f.prior.is_none()));
    assert!(store.is_empty());
}

#[test]
fn rewind_partial_keeps_earlier_checkpoints() {
    let mut store = CheckpointStore::new();
    store.snapshot("e1".into(), vec![snap("f.txt", Some("v0"))]);
    store.snapshot("e2".into(), vec![snap("f.txt", Some("v1"))]);
    let files = store.rewind_to(2).unwrap();
    assert_eq!(files.len(), 1);
    assert_eq!(files[0].prior.as_deref(), Some("v1"));
    assert_eq!(store.len(), 1);
}

#[test]
fn rewind_takes_the_newest_checkpoint_first() {
    let mut store = CheckpointStore::new();
    store.snapshot("e1".into(), vec![snap("f.txt", Some("v0"))]);
    store.snapshot("e2".into(), vec![snap("f.txt", Some("v1"))]);
    let files = store.rewind_to(1).unwrap();
    let order: Vec<&str> = files.iter().map(|f| f.prior.as_deref().unwrap()).collect();
    assert_eq!(order, vec!["v1", "v0"]);
}

#[test]
fn rewind_out_of_range_errs() {
    let mut store = CheckpointStore::new();
    assert!(store.rewind_to(1).is_err());
    assert!(store.rewind_to(0).is_err());
}

#[test]
fn empty_paths_no_checkpoint() {
    let mut store = CheckpointStore::new();
    store.snapshot("noop".into(), vec![]);
    assert!(store.is_empty());
}

// ----- context -----

#[test]
fn estimate_empty_is_zero() {
    assert_eq!(estimate_tokens(&vec![]), 0);
}

#[test]
fn estimate_grows_with_content() {
    let short = vec![Message::User("hi".to_string())];
    let long = vec![Message::User("x".repeat(400))];
    assert!(estimate_tokens(&long) > estimate_tokens(&short));
}

#[test]
fn estimate_counts_a_quarter_of_the_characters() {
    assert_eq!(estimate_message(&Message::User("x".repeat(400))), 104);
    assert_eq!(estimate_tokens(&vec![Message::User("x".repeat(400)), Message::Assistant("y".repeat(9))]), 111);
}

#[test]
fn l1_elides_old_tool_outputs_keeps_recent() {
    let mut msgs = vec![
        Message::User("task".to_string()),
        tool_msg("a", &"big output ".repeat(100)),
        Message::Assistant("thinking".to_string()),
        tool_msg("b", "recent output kept"),
    ];
    elide_old_tool_outputs(&mut msgs, 2);
    if let Message::Tool { content, .. } = &msgs[1] {
        assert!(content.starts_with("[tool result elided"));
    } else {
        panic!("expected tool msg");
    }
    if let Message::Tool { content, .. } = &msgs[3] {
        assert_eq!(content, "recent output kept");
    } else {
        panic!("expected tool msg");
    }
}

#[test]
fn l1_noop_when_short() {
    let mut msgs = vec![tool_msg("a", "out")];
    elide_old_tool_outputs(&mut msgs, 6);
    if let Message::Tool { content, .. } = &msgs[0] {
        assert_eq!(content, "out");
    }
}

#[test]
fn elided_output_is_elided_once() {
    let mut msgs = vec![tool_msg("a", &"x".repeat(1000)), Message::User("q".into())];
    elide_old_tool_outputs(&mut msgs, 1);
    let once = match &msgs[0] {
        Message::Tool { content, .. } => content.clone(),
        _ => panic!("expected tool msg"),
    };
    elide_old_tool_outputs(&mut msgs, 1);
    assert!(matches!(&msgs[0], Message::Tool { content, .. } if *content == once));
}

#[test]
fn split_keeps_head_and_recent() {
    let msgs = vec![
        Message::User("ORIGINAL TASK".to_string()),
        Message::Assistant("m1".to_string()),
        Message::ToolCalls(vec![call("1", "read", "{}")]),
        tool_msg("1", "r1"),
        Message::Assistant("m2".to_string()),
        tool_msg("2", "r2"),
    ];
    let cut = split_for_summary(&msgs, 2).unwrap();
    if let Message::User(s) = &cut.head {
        assert_eq!(s, "ORIGINAL TASK");
    } else {
        panic!("head must be first user msg");
    }
    assert_eq!(cut.recent.len(), 2);
    assert_eq!(cut.middle.len(), 3);
}

#[test]
fn split_none_when_too_short() {
    let msgs = vec![Message::User("task".to_string()), Message::Assistant("m1".to_string())];
    assert!(split_for_summary(&msgs, 8).is_none());
}

#[test]
fn l3_system_has_all_sections() {
    let s = structured_summary_system();
    for section in ["## 已完成的关键决策", "## 涉及的文件/路径", "## 未决问题", "## 下一步", "## 关键发现"] {
        assert!(s.contains(section), "missing section: {section}");
    }
}

#[test]
fn l3_summarize_returns_text() {
    let middle = vec![Message::User("hi".into()), Message::Assistant("ok".into())];
    let req = structured_request(&middle, &fake_model().api_name);
    assert_eq!(req.model_api_name, "m");
    assert_eq!(req.max_output_tokens, Some(L3_SUMMARY_MAX_TOKENS));
    let evs = vec![
        Event::TextDelta("## 已完成的关键决策\n- 做了 X".to_string()),
        Event::Done(StopReason::EndTurn),
    ];
    let out = collect_summary(&evs).unwrap();
    assert!(out.contains("做了 X"));
}

#[test]
fn summarize_empty_text_errors() {
    let evs = vec![Event::TextDelta("   ".to_string()), Event::Done(StopReason::EndTurn)];
    assert!(collect_summary(&evs).is_err());
}

#[test]
fn generate_title_strips_quotes_and_takes_first_line() {
    let req = title_request("帮我修复对话历史字间隔过宽", "m");
    assert_eq!(req.max_output_tokens, Some(TITLE_MAX_TOKENS));
    let title = title_from_answer("\"修复字间隔\"\n多余的第二行");
    assert_eq!(title, "修复字间隔");
}

#[test]
fn loose_summary_is_asked_for_with_its_own_limit() {
    let req = loose_request(&vec![Message::User("hi".into())], "api");
    assert_eq!(req.max_output_tokens, Some(SUMMARY_MAX_TOKENS));
    assert_eq!(req.model_api_name, "api");
    assert!(matches!(&req.messages[0], Message::User(s) if s.contains("hi")));
}

#[test]
fn rendered_messages_hold_every_text() {
    let text = render_messages(&vec![
        Message::User("ask".into()),
        Message::Assistant("reply".into()),
        tool_msg("1", "output"),
    ]);
    assert!(text.contains("ask") && text.contains("reply") && text.contains("output"));
}

fn long_thread(n: usize) -> Thread {
    let mut t = Thread::new("ORIGINAL".to_string());
    for i in 0..n {
        t.messages.push(Message::Assistant(format!("m{i} {}", "x".repeat(400))));
    }
    t
}

#[test]
fn compaction_below_the_threshold_needs_no_summary() {
    let mut t = long_thread(20);
    let first = compact_first(&mut t, 1_000_000);
    assert!(first.cut.is_none());
    assert_eq!(t.messages.len(), 21);
}

#[test]
fn compaction_replaces_the_middle_by_the_summary() {
    let mut t = long_thread(20);
    t.recorder = Some(Recorder::open("/s.jsonl".to_string()));
    let cut = compact_first(&mut t, 10).cut.unwrap();
    let step = compact_summary(&mut t, &cut, Tier::L3, Ok("THE SUMMARY".to_string()), 7);
    assert!(step.next.is_none());
    assert_eq!(t.messages.len(), 2 + L2_KEEP_RECENT);
    assert!(matches!(&t.messages[0], Message::User(s) if s == "ORIGINAL"));
    assert!(matches!(&t.messages[1], Message::Assistant(s) | Message::User(s) if s.contains("THE SUMMARY")));
    assert!(matches!(t.messages.last(), Some(Message::Assistant(s)) if s.starts_with("m19")));
    let queue = &t.recorder.as_ref().unwrap().queue;
    assert!(matches!(&queue[0].kind, RecordKind::Compacted { tier, messages }
        if tier == Tier::L3.name() && messages.len() == t.messages.len()));
    assert_eq!(queue[0].ts, 7);
}

#[test]
fn failed_structured_summary_is_followed_by_a_loose_one() {
    let mut t = long_thread(20);
    let cut = compact_first(&mut t, 10).cut.unwrap();
    let step = compact_summary(&mut t, &cut, Tier::L3, Err(CarterError::Other("x".into())), 0);
    assert_eq!(step.next, Some(Tier::L2));
    assert_eq!(t.messages.len(), 21);
    let step = compact_summary(&mut t, &cut, Tier::L2, Err(CarterError::Other("y".into())), 0);
    assert!(step.next.is_none());
    assert_eq!(t.messages.len(), 21);
}

// ----- sub-agents -----

#[test]
fn collect_sink_keeps_last_block() {
    let mut s = CollectSink::new();
    s.emit(&UiEvent::AssistantTextDelta("hello ".into()));
    s.emit(&UiEvent::AssistantTextDelta("world".into()));
    s.emit(&UiEvent::AssistantTextEnd);
    assert_eq!(s.final_text(), "hello world");
}

#[test]
fn collect_sink_falls_back_to_buf_without_end() {
    let mut s = CollectSink::new();
    s.emit(&UiEvent::AssistantTextDelta("partial".into()));
    assert_eq!(s.final_text(), "partial");
}

#[test]
fn collect_sink_ignores_other_events() {
    let mut s = CollectSink::new();
    s.emit(&UiEvent::ThinkingDelta("hmm".into()));
    s.emit(&UiEvent::Notice("note".into()));
    assert_eq!(s.final_text(), "");
}

#[test]
fn depth_limit_refuses_spawn_beyond_max() {
    let task = TaskTool::new(Some(2), "system".to_string(), 2);
    match task.plan(&js(r#"{"description": "x", "prompt": "hi"}"#)) {
        Err(res) => {
            assert!(!res.ok);
            assert!(res.content.contains("depth limit"));
        }
        Ok(_) => panic!("expected a refusal"),
    }
}

#[test]
fn depth_limit_has_a_default() {
    let args = js(r#"{"description": "x", "prompt": "hi"}"#);
    assert!(TaskTool::new(None, "s".into(), DEFAULT_MAX_DEPTH - 1).plan(&args).is_ok());
    assert!(TaskTool::new(None, "s".into(), DEFAULT_MAX_DEPTH).plan(&args).is_err());
}

#[test]
fn single_prompt_returns_fixed_text() {
    let task = TaskTool::new(None, "system".to_string(), 0);
    let plan = task.plan(&js(r#"{"description": "x", "prompt": "task A"}"#));
    let plan = match plan {
        Ok(p) => p,
        Err(_) => panic!("expected a plan"),
    };
    assert_eq!(plan.prompts, vec!["task A"]);
    let done = task_outcome(Ok(TurnOutcome::Assistant), "done".to_string());
    let res = answer_call(vec![(0, done)]);
    assert!(res.ok, "got: {}", res.content);
    assert_eq!(res.content, "done");
}

#[test]
fn parallel_prompts_aggregate_results() {
    let task = TaskTool::new(None, "system".to_string(), 0);
    let plan = match task.plan(&js(r#"{"description": "x", "prompts": ["a", "b", "c"]}"#)) {
        Ok(p) => p,
        Err(_) => panic!("expected a plan"),
    };
    assert_eq!(plan.prompts, vec!["a", "b", "c"]);
    let results = (0..3).map(|i| (i, task_outcome(Ok(TurnOutcome::Assistant), "subdone".to_string()))).collect();
    let res = answer_call(results);
    assert!(res.ok);
    assert!(res.content.contains("subagent 1"));
    assert!(res.content.contains("subagent 2"));
    assert!(res.content.contains("subagent 3"));
    assert_eq!(res.content.matches("subdone").count(), 3);
}

#[test]
fn missing_prompt_and_prompts_errors() {
    let task = TaskTool::new(None, "system".to_string(), 0);
    match task.plan(&js(r#"{ "description": "x" }"#)) {
        Err(res) => {
            assert!(!res.ok);
            assert!(res.content.contains("prompt"));
        }
        Ok(_) => panic!("expected a refusal"),
    }
}

#[test]
fn failed_sub_agent_is_an_error() {
    let res = answer_call(vec![(0, task_outcome(Err(CarterError::Provider("down".into())), String::new()))]);
    assert!(!res.ok);
    assert!(res.content.contains("down"));
}

#[test]
fn sub_agent_starts_from_the_system_and_its_task() {
    let task = TaskTool::new(None, "SYS".to_string(), 0);
    let opts = task.child_options();
    assert!(opts.system.iter().any(|s| s.contains("SYS")));
    let t = task_thread(vec![], "do it".to_string());
    assert!(matches!(t.messages.last(), Some(Message::User(s)) if s == "do it"));
}

#[test]
fn sub_agent_is_given_the_last_messages() {
    let task = TaskTool::new(None, "SYS".to_string(), 0);
    let plan = match task.plan(&js(r#"{"description": "x", "prompt": "go", "fork_messages": 2}"#)) {
        Ok(p) => p,
        Err(_) => panic!("expected a plan"),
    };
    assert_eq!(plan.fork, 2);
    let history = vec![
        Message::User("a".into()),
        Message::Assistant("b".into()),
        Message::User("c".into()),
        Message::ToolCalls(vec![]),
    ];
    let t = task_thread(fork_messages(&history, plan.fork), "go".to_string());
    assert_eq!(t.messages.len(), 3);
    assert!(matches!(&t.messages[0], Message::Assistant(s) if s == "b"));
    assert!(matches!(&t.messages[1], Message::User(s) if s == "c"));
    assert!(matches!(&t.messages[2], Message::User(s) if s == "go"));
    assert!(fork_messages(&history, 0).is_empty());
    assert_eq!(fork_messages(&history, 9).len(), 3);
    match task.plan(&js(r#"{"description": "x", "prompt": "go"}"#)) {
        Ok(p) => assert_eq!(p.fork, 0),
        Err(_) => panic!("expected a plan"),
    }
}

#[test]
fn whitelist_limits_tools() {
    let list = Some(vec!["grep".to_string()]);
    assert!(allows(&list, "grep"));
    assert!(!allows(&list, "bash"));
    assert!(allows(&None, "bash"));
}

// ----- turns -----

fn prepared(c: ToolCall) -> PreparedCall {
    prepare_call(&c, HookDecision::Continue)
}

fn started_names(calls: &Vec<PreparedCall>) -> Vec<String> {
    let mut names = Vec::new();
    for b in plan_batches(calls).iter() {
        for e in batch_started(calls, b) {
            if let UiEvent::ToolCallStarted { name, .. } = e {
                names.push(name);
            }
        }
    }
    names
}

#[test]
fn safe_and_unsafe_batches_emit_in_call_order() {
    let calls = vec![
        prepared(call("1", "grep", r#"{"pattern":"x"}"#)),
        prepared(call("2", "bash", r#"{"command":"true"}"#)),
        prepared(call("3", "read_file", r#"{"path":"Cargo.toml"}"#)),
    ];
    let batches = plan_batches(&calls);
    let covered: usize = batches.iter().map(|b| b.end - b.start).sum();
    assert_eq!(covered, 3);
    assert_eq!(started_names(&calls), vec!["grep", "bash", "read_file"]);
}

#[test]
fn all_safe_calls_run_concurrently_and_preserve_order() {
    let calls: Vec<PreparedCall> = (0..4)
        .map(|i| prepared(call(&format!("g{i}"), "grep", &format!("{{\"pattern\": \"p{i}\", \"path\": \".\"}}"))))
        .collect();
    let batches = plan_batches(&calls);
    assert_eq!(batches.len(), 1);
    assert_eq!(batches[0].kind, BatchKind::Concurrent);
    assert_eq!((batches[0].start, batches[0].end), (0, 4));
    assert_eq!(started_names(&calls).len(), 4);
}

#[test]
fn pre_tool_use_hook_blocks_tool_execution() {
    let c = call("1", "bash", r#"{"command":"echo should-not-run"}"#);
    let p = prepare_call(&c, HookDecision::Block { reason: "nope".into() });
    let reason = p.blocked.clone().unwrap();
    let calls = vec![p];
    assert_eq!(plan_batches(&calls)[0].kind, BatchKind::Blocked);
    let res = blocked_result(&reason);
    assert!(!res.ok);
    assert!(res.content.contains("blocked by hook"));
    assert!(!res.content.contains("should-not-run"));
}

#[test]
fn pre_tool_use_hook_can_rewrite_args() {
    let c = call("1", "read_file", r#"{"path":"/nonexistent/should/fail"}"#);
    assert_eq!(pre_tool_payload(&c).get_str("tool").as_deref(), Some("read_file"));
    let p = prepare_call(&c, HookDecision::Rewrite(js(r#"{"args":{"path":"Cargo.toml"}}"#)));
    assert!(p.blocked.is_none());
    assert_eq!(p.call.args.get_str("path").as_deref(), Some("Cargo.toml"));
    assert_eq!(p.call.name, "read_file");
}

#[test]
fn subagent_stop_fires_for_task_tool() {
    let c = call("t1", "task", r#"{"description":"x","prompt":"do something"}"#);
    let res = ToolResult::ok("done".to_string());
    let evs = post_tool_events(&c, &res);
    assert!(evs.iter().any(|(e, _)| *e == HookEvent::SubagentStop));
    let other = post_tool_events(&call("1", "bash", "{}"), &res);
    assert!(!other.iter().any(|(e, _)| *e == HookEvent::SubagentStop));
    assert!(other.iter().any(|(e, _)| *e == HookEvent::PostToolUse));
}

#[test]
fn pre_post_turn_and_stop_fire_in_order() {
    let hook = |event, label: &str| HookConfig::new(event, format!("echo {label}"));
    let hooks = HookRegistry::from_configs(vec![
        hook(HookEvent::PreTurn, "pre-turn"),
        hook(HookEvent::PostTurn, "post-turn"),
        hook(HookEvent::Stop, "stop"),
    ]);
    let mut events = vec![(HookEvent::PreTurn, pre_turn_payload(0, 0))];
    events.extend(turn_end_events(1, "assistant", &no_usage()));
    let mut order: Vec<String> = Vec::new();
    for (event, data) in events {
        let mut chain = HookChain::start(event, data);
        while let Some(h) = chain.next_hook(&hooks) {
            order.push(h.command.clone());
            chain.take_decision(HookDecision::Continue);
        }
    }
    assert_eq!(order, vec!["echo pre-turn", "echo post-turn", "echo stop"]);
}

#[test]
fn compaction_hooks_learn_the_tier() {
    assert_eq!(pre_compact_payload(3, 9).to_text(), r#"{"tier":"L1","message_count":3,"threshold":9}"#);
}

const RULES: StreamRules = StreamRules { show_thinking: true, compact_enabled: true, compact_threshold: 100 };

#[test]
fn round_with_text_ends_the_turn() {
    let mut run = TurnRun::new();
    let mut thread = Thread::new("q".to_string());
    run.begin_round();
    assert!(matches!(run.on_event(Event::TextDelta("an".into()), &RULES), Some(UiEvent::AssistantTextDelta(s)) if s == "an"));
    run.on_event(Event::TextDelta("swer".into()), &RULES);
    run.on_event(Event::Done(StopReason::EndTurn), &RULES);
    let r = run.end_round(&mut thread, false, 10, &fake_model(), 5);
    assert!(matches!(r.next, RoundEnd::Finish(TurnOutcome::Assistant)));
    assert!(matches!(thread.messages.last(), Some(Message::Assistant(s)) if s == "answer"));
}

#[test]
fn round_with_calls_runs_tools_and_feeds_their_results() {
    let mut run = TurnRun::new();
    let mut thread = Thread::new("q".to_string());
    run.begin_round();
    run.on_event(Event::ToolCall(call("1", "grep", "{}")), &RULES);
    run.on_event(Event::Done(StopReason::ToolUse), &RULES);
    let r = run.end_round(&mut thread, false, 10, &fake_model(), 5);
    let calls = match r.next {
        RoundEnd::RunTools(c) => c,
        RoundEnd::Finish(_) => panic!("expected tools"),
    };
    assert_eq!(calls.len(), 1);
    let before = thread.turns;
    feed_results(&mut thread, &calls, &vec![ToolResult::ok("found".into())], 6);
    assert!(matches!(thread.messages.last(), Some(Message::Tool { call_id, content })
        if call_id == "1" && content.contains("found")));
    assert!(thread.turns >= before);
}

#[test]
fn turn_stops_at_its_limit() {
    let mut run = TurnRun::new();
    let mut thread = Thread::new("q".to_string());
    thread.turns = 3;
    run.begin_round();
    run.on_event(Event::ToolCall(call("1", "grep", "{}")), &RULES);
    run.on_event(Event::Done(StopReason::ToolUse), &RULES);
    let r = run.end_round(&mut thread, false, 3, &fake_model(), 5);
    assert!(matches!(r.next, RoundEnd::Finish(TurnOutcome::Limit)));
}

#[test]
fn cancelled_round_is_cancelled() {
    let mut run = TurnRun::new();
    let mut thread = Thread::new("q".to_string());
    run.begin_round();
    let r = run.end_round(&mut thread, true, 10, &fake_model(), 5);
    assert!(matches!(r.next, RoundEnd::Finish(TurnOutcome::Cancelled)));
}

#[test]
fn usage_adds_up_and_asks_for_compaction() {
    let mut run = TurnRun::new();
    run.begin_round();
    let u = Usage { input: 101, output: 1, cache_read: 20, cache_write: 0, reasoning: 2 };
    run.on_event(Event::Usage(u), &RULES);
    run.on_event(Event::Usage(u), &RULES);
    assert_eq!(run.total.input, 202);
    assert_eq!(run.total.reasoning, 4);
    assert!(run.take_compaction());
    assert!(!run.take_compaction());
}

#[test]
fn thinking_is_shown_only_where_it_is_wanted() {
    let hidden = StreamRules { show_thinking: false, compact_enabled: true, compact_threshold: 100 };
    let mut run = TurnRun::new();
    run.begin_round();
    assert!(run.on_event(Event::ThinkingDelta("hm".into()), &hidden).is_none());
    assert!(matches!(run.on_event(Event::ThinkingDelta("hm".into()), &RULES), Some(UiEvent::ThinkingDelta(_))));
}

#[test]
fn request_holds_the_system_the_tasks_and_the_messages() {
    let mut thread = Thread::new("q".to_string());
    thread.todos.push(TodoItem { content: "build".into(), status: TodoStatus::Pending, active_form: "Building".into() });
    let mut model = fake_model();
    model.capabilities.push(Capability::Tools);
    let spec = ToolSpec { name: "bash".into(), description: "d".into(), parameters: js("{}") };
    let tools = offered_tools(&model, vec![spec]);
    assert_eq!(tools.len(), 1);
    let req = build_request(&thread, &model, &vec!["SYS".to_string()], &tools, Some(9));
    assert_eq!(req.model_api_name, "m");
    assert_eq!(req.max_output_tokens, Some(9));
    assert_eq!(req.tools.len(), 1);
    assert!(req.system.iter().any(|s| s == "SYS"));
    assert_eq!(req.system.len(), 1);
    assert_eq!(req.messages.len(), 2);
    assert!(matches!(&req.messages[1], Message::User(s) if *s == render_todos(&thread.todos)));
    assert!(render_todos(&thread.todos).contains("build"));
    let none = ToolSpec { name: "bash".into(), description: "d".into(), parameters: js("{}") };
    assert!(offered_tools(&fake_model(), vec![none]).is_empty());
}

#[test]
fn file_tools_are_checkpointed_before_they_run() {
    let cp = checkpoint_before("/r", &call("1", "write_file", r#"{"path":"a.rs"}"#)).unwrap();
    assert_eq!(cp.1, vec!["a.rs"]);
    assert!(checkpoint_before("/r", &call("1", "grep", "{}")).is_none());
}

#[test]
fn blocked_compaction_is_noticed() {
    assert!(matches!(compact_skipped(&HookDecision::Block { reason: "later".into() }), Some(UiEvent::Notice(_))));
    assert!(compact_skipped(&HookDecision::Continue).is_none());
}

#[test]
fn thread_records_what_is_appended() {
    let mut t = Thread::new_empty();
    t.set_recorder(Recorder::open("/s.jsonl".to_string()));
    t.append_user("hello".to_string(), 11);
    t.append(Message::Assistant("hi".into()), 12);
    t.set_todos(vec![], 13);
    let q = &t.recorder.as_ref().unwrap().queue;
    assert_eq!(q.len(), 3);
    assert!(matches!(&q[0].kind, RecordKind::Message(Message::User(s)) if s == "hello"));
    assert_eq!(q[1].ts, 12);
    assert!(matches!(&q[2].kind, RecordKind::Todo(v) if v.is_empty()));
}

// ----- what is shown -----

#[test]
fn stdout_sink_emit_does_not_panic() {
    let mut sink = StdoutSink::new();
    assert_eq!(sink.emit(&UiEvent::AssistantTextDelta("hi".into()), ""), "hi");
    sink.emit(&UiEvent::AssistantTextEnd, "");
    assert!(sink.emit(&UiEvent::ToolResult { ok: true, summary: "done".into() }, "").contains("done"));
    assert!(sink.emit(&UiEvent::Notice("note".into()), "").contains("note"));
}

#[test]
fn args_preview_compacts_object() {
    let v = js(r#"{"path": "a.txt", "n": 3}"#);
    let p = args_preview(&v);
    assert!(p.contains("path="));
    assert!(p.contains("n=3"));
}

#[test]
fn truncate_respects_char_boundary() {
    assert_eq!(truncate_inline("abc", 5), "abc");
    assert_eq!(truncate_inline("abcdef", 3), "abc…");
    assert_eq!(truncate_inline("标题很长", 2), "标题…");
}

#[test]
fn replay_maps_roles_and_truncates_tool_output() {
    let msgs = vec![
        Message::System("sys".into()),
        Message::User("问题".into()),
        Message::Assistant("回答".into()),
        Message::ToolCalls(vec![call("1", "read", r#"{"path": "a.rs"}"#)]),
        Message::Tool { call_id: "1".into(), content: format!("第一行\n{}", "x".repeat(500)) },
    ];
    let out = replay_from_messages(&msgs);
    assert_eq!(out.len(), 4);
    assert_eq!(out[0].role, ReplayRole::User);
    assert_eq!(out[1].role, ReplayRole::Assistant);
    assert_eq!(out[2].role, ReplayRole::ToolCall);
    assert!(out[2].text.contains("read"));
    assert_eq!(out[3].role, ReplayRole::ToolResult);
    assert!(out[3].text.starts_with("第一行"));
    assert!(out[3].text.chars().count() <= 121);
}

#[test]
fn question_without_a_terminal_takes_the_first_option() {
    assert_eq!(auto_answer(&vec!["a".to_string(), "b".to_string()]), "a");
}
