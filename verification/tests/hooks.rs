//! Hooks: which run, what their ends mean, and how they follow each other.

use carter::hooks::registry::{HookChain, HookRegistry};
use carter::hooks::runner::{decide, finished_outcome, glob_match, should_run, skipped_outcome, truncate_for_log};
use carter::hooks::types::{HookConfig, HookDecision, HookEvent, HookMatcher, HookPayload};
use carter::json::{parse_json, Json};

fn js(text: &str) -> Json {
    parse_json(text).unwrap()
}

fn make(event: HookEvent, command: &str) -> HookConfig {
    HookConfig { event, command: command.to_string(), matcher: None, timeout_secs: 5, enabled: true }
}

#[test]
fn empty_registry_continues() {
    let r = HookRegistry::from_configs(vec![]);
    let mut chain = HookChain::start(HookEvent::PreToolUse, js("{}"));
    assert!(chain.next_hook(&r).is_none());
    assert!(matches!(chain.finish(), HookDecision::Continue));
}

#[test]
fn block_short_circuits_chain() {
    let r = HookRegistry::from_configs(vec![
        make(HookEvent::PreToolUse, "exit 2"),
        make(HookEvent::PreToolUse, "echo never; exit 0"),
    ]);
    let mut chain = HookChain::start(HookEvent::PreToolUse, js("{}"));
    assert_eq!(chain.next_hook(&r).unwrap().command, "exit 2");
    chain.take_decision(decide(HookEvent::PreToolUse, 2, ""));
    assert!(chain.next_hook(&r).is_none());
    assert!(matches!(chain.finish(), HookDecision::Block { .. }));
}

#[test]
fn rewrite_chains_through() {
    let r = HookRegistry::from_configs(vec![
        make(HookEvent::UserPromptSubmit, r#"echo '{"prompt":"step1"}'"#),
        make(HookEvent::UserPromptSubmit, r#"echo '{"prompt":"step2"}'"#),
    ]);
    let mut chain = HookChain::start(HookEvent::UserPromptSubmit, js(r#"{"prompt":"orig"}"#));
    assert!(chain.next_hook(&r).is_some());
    chain.take_decision(decide(HookEvent::UserPromptSubmit, 0, r#"{"prompt":"step1"}"#));
    assert_eq!(chain.payload.data.get_str("prompt").as_deref(), Some("step1"));
    assert!(chain.next_hook(&r).is_some());
    chain.take_decision(decide(HookEvent::UserPromptSubmit, 0, r#"{"prompt":"step2"}"#));
    match chain.finish() {
        HookDecision::Rewrite(v) => assert_eq!(v.get_str("prompt").as_deref(), Some("step2")),
        _ => panic!("expected Rewrite"),
    }
}

#[test]
fn chain_passes_over_other_events() {
    let r = HookRegistry::from_configs(vec![make(HookEvent::Stop, "a"), make(HookEvent::PreTurn, "b")]);
    assert!(r.has(HookEvent::Stop));
    assert!(!r.has(HookEvent::PreCompact));
    let mut chain = HookChain::start(HookEvent::PreTurn, js("{}"));
    assert_eq!(chain.next_hook(&r).unwrap().command, "b");
    assert!(chain.next_hook(&r).is_none());
}

#[test]
fn exit_zero_continues() {
    let out = finished_outcome(HookEvent::PreToolUse, 0, "", "");
    assert!(matches!(out.decision, HookDecision::Continue));
}

#[test]
fn exit_two_blocks_for_blockable_event() {
    let out = finished_outcome(HookEvent::PreToolUse, 2, "not allowed\n", "");
    match out.decision {
        HookDecision::Block { reason } => assert!(reason.contains("not allowed")),
        _ => panic!("expected Block"),
    }
}

#[test]
fn exit_two_on_non_blockable_event_continues() {
    let out = finished_outcome(HookEvent::PostToolUse, 2, "", "");
    assert!(matches!(out.decision, HookDecision::Continue));
}

#[test]
fn rewrite_via_stdout_json() {
    let out = finished_outcome(HookEvent::UserPromptSubmit, 0, "{\"prompt\":\"REWRITTEN\"}\n", "");
    match out.decision {
        HookDecision::Rewrite(v) => assert_eq!(v.get_str("prompt").as_deref(), Some("REWRITTEN")),
        _ => panic!("expected Rewrite"),
    }
}

#[test]
fn output_may_name_the_decision() {
    match decide(HookEvent::PreToolUse, 0, r#"{"decision":"rewrite","data":{"args":{"path":"Cargo.toml"}}}"#) {
        HookDecision::Rewrite(v) => {
            assert_eq!(v.get("args").unwrap().get_str("path").as_deref(), Some("Cargo.toml"))
        }
        _ => panic!("expected Rewrite"),
    }
    assert!(matches!(
        decide(HookEvent::PreToolUse, 0, r#"{"decision":"block","reason":"no"}"#),
        HookDecision::Block { reason } if reason == "no"
    ));
    assert!(matches!(decide(HookEvent::PreToolUse, 0, "plain words"), HookDecision::Continue));
}

#[test]
fn other_exits_continue() {
    assert!(matches!(decide(HookEvent::PreToolUse, 1, "oops"), HookDecision::Continue));
    assert!(matches!(skipped_outcome(-1).decision, HookDecision::Continue));
    assert_eq!(skipped_outcome(-1).exit_code, -1);
}

#[test]
fn matcher_filters_by_tool_name() {
    let mut cfg = make(HookEvent::PreToolUse, "exit 2");
    cfg.matcher = Some(HookMatcher { tool: Some("bash".to_string()), tool_glob: None });
    let payload = HookPayload::new(HookEvent::PreToolUse, js(r#"{"tool":"read_file"}"#));
    assert!(!should_run(&cfg, &payload));
    let payload = HookPayload::new(HookEvent::PreToolUse, js(r#"{"tool":"bash"}"#));
    assert!(should_run(&cfg, &payload));
    assert!(matches!(decide(HookEvent::PreToolUse, 2, ""), HookDecision::Block { .. }));
    cfg.enabled = false;
    assert!(!should_run(&cfg, &payload));
}

#[test]
fn matcher_filters_by_pattern() {
    let mut cfg = make(HookEvent::PreToolUse, "x");
    cfg.matcher = Some(HookMatcher { tool: None, tool_glob: Some("*_file".to_string()) });
    assert!(should_run(&cfg, &HookPayload::new(HookEvent::PreToolUse, js(r#"{"tool":"read_file"}"#))));
    assert!(!should_run(&cfg, &HookPayload::new(HookEvent::PreToolUse, js(r#"{"tool":"bash"}"#))));
}

#[test]
fn glob_basic() {
    assert!(glob_match("*", "anything"));
    assert!(glob_match("*_file", "read_file"));
    assert!(glob_match("*_file", "write_file"));
    assert!(!glob_match("*_file", "bash"));
    assert!(glob_match("?ash", "bash"));
    assert!(!glob_match("?ash", "trash"));
}

#[test]
fn payload_names_its_event() {
    let text = HookPayload::new(HookEvent::PreToolUse, js(r#"{"tool":"bash"}"#)).to_json().to_text();
    assert!(text.contains("\"tool\":\"bash\""));
    assert!(text.contains(HookEvent::PreToolUse.name()));
}

#[test]
fn only_some_events_can_be_blocked_or_rewritten() {
    assert!(HookEvent::PreToolUse.is_blockable() && HookEvent::PreToolUse.is_rewritable());
    assert!(!HookEvent::PostToolUse.is_blockable());
    assert!(!HookEvent::Stop.is_rewritable());
}

#[test]
fn long_output_is_cut_for_the_log() {
    assert_eq!(truncate_for_log("short", 200), "short");
    assert!(truncate_for_log(&"x".repeat(500), 200).len() < 300);
}
