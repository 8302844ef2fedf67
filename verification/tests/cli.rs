//! The command line: choosing a session, starting, the line loop and reports.

use carter::agent::thread::Thread;
use carter::agent::turn::TurnOutcome;
use carter::agent::ui::UiEvent;
use carter::cli::complete::{command_items, model_items, session_items};
use carter::cli::repl::{
    clear_thread, compact_done, context_notice, cost_notice, dispatch_builtin, line_action, load_failed,
    model_switched, opening_events, rewound_event, split_slash, start_new_done, swap_thread, switch_failed,
    take_title, BuiltinStep, LineAction,
};
use carter::cli::report::{gc_failed, gc_label, gc_line, gc_total, human_age, session_label, sessions_report};
use carter::cli::select::{find_session, session_choice, SessionChoice};
use carter::cli::startup::{
    assemble_system, blocked_prompt_events, oneshot_start_data, outcome_to_code, prompt_after_hooks, prompt_data,
    resolve_provider, run_mode, session_end_data, session_start_data, RunMode,
};
use carter::commands::loader::parse;
use carter::commands::registry::{Scope, SlashCommand};
use carter::config::settings::{
    AgentConfig, Config, DebugConfig, McpConfig, ModelEntry, ProviderConfig, ReasoningConfig, SkillsConfig,
    RATIO_THREE_QUARTERS,
};
use carter::error::CarterError;
use carter::hooks::types::HookDecision;
use carter::json::{jobj1, jstr};
use carter::provider::event::Usage;
use carter::provider::request::Message;
use carter::registry::model::Rate;
use carter::session::record::{RecordKind, SessionMeta};
use carter::session::recorder::Recorder;
use carter::session::store::SessionEntry;

fn meta(id: &str, at: u64) -> SessionMeta {
    SessionMeta {
        id: id.into(),
        parent_id: None,
        forked_from: None,
        cwd: "/x".into(),
        git: None,
        title: None,
        carter_version: "0.1.0".into(),
        model: "ws/m".into(),
        created_at: at,
    }
}

fn entry(id: &str, at: u64) -> SessionEntry {
    SessionEntry { meta: meta(id, at), path: format!("/{id}.jsonl") }
}

fn config() -> Config {
    let model = ModelEntry { meta: "anthropic/opus".into(), api_name: None, default_reasoning: None };
    Config {
        agent: AgentConfig {
            model: "ws/sonnet".into(),
            fast_model: None,
            system_prompt_file: None,
            max_turns: 50,
            max_output_tokens: None,
            compact_enabled: true,
            compact_threshold_ratio: Rate::Bits(RATIO_THREE_QUARTERS),
            subagent_max_depth: None,
        },
        reasoning: ReasoningConfig { effort: None, show_thinking: true },
        skills: SkillsConfig { enabled: true },
        mcp: McpConfig { servers: vec![] },
        providers: vec![(
            "ws".to_string(),
            ProviderConfig {
                kind: "anthropic".into(),
                api_key: Some("k".into()),
                base_url: None,
                models: vec![("sonnet".to_string(), model)],
            },
        )],
        env: vec![],
        debug: DebugConfig { log_requests: false, llm_log_dir: None },
    }
}

fn usage() -> Usage {
    Usage { input: 11, output: 22, cache_read: 33, cache_write: 44, reasoning: 55 }
}

// ----- choosing a session -----

#[test]
fn resume_comes_before_fork_and_continue() {
    assert!(matches!(session_choice(Some("a".into()), Some("b".into()), true), SessionChoice::Resume(s) if s == "a"));
    assert!(matches!(session_choice(None, Some("b".into()), true), SessionChoice::Fork(s) if s == "b"));
    assert!(matches!(session_choice(None, None, true), SessionChoice::Continue));
    assert!(matches!(session_choice(None, None, false), SessionChoice::New));
}

#[test]
fn session_is_found_by_id_or_number() {
    let all = vec![entry("aaa-1", 3), entry("bbb-2", 2), entry("bbb-3", 1)];
    assert!(matches!(find_session(&all, "bbb-2"), Ok(1)));
    assert!(find_session(&all, "zzz").is_err());
    assert!(find_session(&vec![], "1").is_err());
}

// ----- starting -----

#[test]
fn system_holds_the_parts_that_there_are() {
    let sys = assemble_system("BASE".into(), &vec![], None, "INFO".into());
    assert!(sys.iter().any(|s| s.contains("BASE")));
    assert!(sys.iter().any(|s| s.contains("INFO")));
    let more = assemble_system("BASE".into(), &vec![], Some("MEM".into()), "INFO".into());
    assert!(more.iter().any(|s| s.contains("MEM")));
}

#[test]
fn provider_is_resolved_with_the_model() {
    let cache = r#"{"anthropic":{"models":{"opus":{"id":"opus","limit":{"context":10,"output":5}}}}}"#;
    match resolve_provider("/r", &config(), cache, "ws/sonnet") {
        Ok((m, p)) => {
            assert_eq!(m.context_window, 10);
            assert_eq!(p.api_key.as_deref(), Some("k"));
        }
        Err(e) => panic!("{}", e.message()),
    }
    assert!(resolve_provider("/r", &config(), "{}", "ws/sonnet").is_err());
}

#[test]
fn mode_follows_the_arguments() {
    assert_eq!(run_mode(false, false), RunMode::Interactive);
    assert_eq!(run_mode(true, false), RunMode::Oneshot);
}

#[test]
fn hooks_are_told_what_happens() {
    let d = session_start_data("tui", "s1", "/x", "ws/m", true);
    assert!(d.to_text().contains("s1"));
    assert_eq!(
        oneshot_start_data("s1", "/x", "ws/m").to_text(),
        r#"{"mode":"oneshot","session_id":"s1","cwd":"/x","model":"ws/m"}"#
    );
    let end = session_end_data("tui", "s1", &usage());
    assert_eq!(end.get_str("mode").as_deref(), Some("tui"));
    assert_eq!(end.get_str("session_id").as_deref(), Some("s1"));
    assert_eq!(end.get_u64("total_in"), Some(usage().input));
    assert_eq!(end.get_u64("total_out"), Some(usage().output));
    assert_eq!(prompt_data("hello").get_str("prompt").as_deref(), Some("hello"));
}

#[test]
fn hooks_may_stop_or_change_a_prompt() {
    assert_eq!(prompt_after_hooks(&HookDecision::Continue, "a".into()).as_deref(), Some("a"));
    assert_eq!(prompt_after_hooks(&HookDecision::Block { reason: "no".into() }, "a".into()), None);
    let changed = HookDecision::Rewrite(jobj1("prompt", jstr("b")));
    assert_eq!(prompt_after_hooks(&changed, "a".into()).as_deref(), Some("b"));
    assert!(!blocked_prompt_events().is_empty());
}

#[test]
fn outcome_becomes_an_exit_code() {
    assert_eq!(outcome_to_code(&TurnOutcome::Assistant), 0);
    assert_ne!(outcome_to_code(&TurnOutcome::Error("x".into())), 0);
}

// ----- the line loop -----

#[test]
fn slash_lines_are_split() {
    assert_eq!(split_slash("/model ws/m"), Some(("model".to_string(), "ws/m".to_string())));
    assert_eq!(split_slash("hello"), None);
}

#[test]
fn lines_are_told_apart() {
    let custom: Vec<SlashCommand> = vec![parse("mine".into(), "body", Scope::User)];
    assert!(matches!(line_action("hello", &custom), LineAction::Prompt));
    assert!(matches!(line_action("/mine a b", &custom), LineAction::Custom { index: 0, args } if args == "a b"));
    assert!(matches!(line_action("/help", &custom), LineAction::Builtin { name, .. } if name == "help"));
    assert!(matches!(line_action("/nope", &custom), LineAction::Unknown { notice: UiEvent::Notice(n) } if n.contains("nope")));
}

#[test]
fn custom_command_shadows_a_builtin() {
    let custom: Vec<SlashCommand> = vec![parse("help".into(), "body", Scope::User)];
    assert!(matches!(line_action("/help", &custom), LineAction::Custom { index: 0, .. }));
}

fn builtin(name: &str, args: &str, sessions: &Vec<SessionEntry>) -> BuiltinStep {
    dispatch_builtin(name, args, &Thread::new_empty(), sessions, "ws/sonnet", &config(), &vec![], &vec![], 0)
}

#[test]
fn builtins_become_steps() {
    let none = vec![];
    assert!(matches!(builtin("help", "", &none), BuiltinStep::Show(_)));
    assert!(matches!(builtin("clear", "", &none), BuiltinStep::Clear));
    assert!(matches!(builtin("compact", "", &none), BuiltinStep::Compact));
    assert!(matches!(builtin("context", "", &none), BuiltinStep::Context));
    assert!(matches!(builtin("cost", "", &none), BuiltinStep::Cost));
    assert!(matches!(builtin("model", "ws/other", &none), BuiltinStep::SwitchModel(k) if k == "ws/other"));
    let all = vec![entry("aaa", 2), entry("bbb", 1)];
    assert!(matches!(builtin("resume", "bbb", &all), BuiltinStep::Load(1)));
    assert!(matches!(builtin("fork", "aaa", &all), BuiltinStep::Fork(0)));
}

#[test]
fn clearing_is_recorded() {
    let mut t = Thread::new("q".to_string());
    t.set_recorder(Recorder::open("/s.jsonl".to_string()));
    let evs = clear_thread(&mut t, 4);
    assert!(t.messages.is_empty());
    assert!(!evs.is_empty());
    let q = &t.recorder.as_ref().unwrap().queue;
    assert!(q.iter().any(|r| matches!(&r.kind, RecordKind::Compacted { messages, .. } if messages.is_empty())));
}

#[test]
fn title_is_recorded_once_it_is_known() {
    let mut t = Thread::new_empty();
    t.set_recorder(Recorder::open("/s.jsonl".to_string()));
    assert!(take_title(&mut t, None, 1).is_empty());
    let evs = take_title(&mut t, Some("T".into()), 2);
    assert!(evs.iter().any(|e| matches!(e, UiEvent::Title(s) if s == "T")));
    assert!(matches!(&t.recorder.as_ref().unwrap().queue[0].kind, RecordKind::Title { title } if title == "T"));
}

#[test]
fn another_session_takes_the_place() {
    let mut t = Thread::new("old".to_string());
    let mut needs_title = false;
    let evs = swap_thread(&mut t, &mut needs_title, Thread::new("new".to_string()), &meta("s2", 1), "resumed");
    assert!(matches!(&t.messages[0], Message::User(s) if s == "new"));
    assert!(!evs.is_empty());
    let done = start_new_done(&mut t, &mut needs_title, Ok(Thread::new_empty()));
    assert!(t.messages.is_empty());
    assert!(needs_title);
    assert!(matches!(done, UiEvent::Notice(_) | UiEvent::Divider(_)));
    assert!(!opening_events("ws/m", &meta("s", 1), &vec![Message::User("q".into())]).is_empty());
}

#[test]
fn notices_say_what_went_wrong() {
    let e = CarterError::Other("boom".into());
    assert!(matches!(load_failed(false, &e), UiEvent::Notice(n) if n.contains("boom")));
    assert!(matches!(switch_failed(&e), UiEvent::Notice(n) if n.contains("boom")));
    assert!(matches!(compact_done(Some(e)), UiEvent::Notice(n) if n.contains("boom")));
    assert!(matches!(rewound_event(1, Err("bad index".into())), UiEvent::Notice(n) if n.contains("bad index")));
    assert!(matches!(rewound_event(1, Ok(2)), UiEvent::Divider(n)
        if n == "已回滚到检查点 1 之前（恢复 2 个文件）"));
    assert!(matches!(context_notice(10, 100, "10.0", 3), UiEvent::Notice(n) if n.contains("100")));
    assert!(matches!(cost_notice(&usage(), "0.5"), UiEvent::Notice(n) if n.contains("0.5")));
    assert!(model_switched("ws/m").iter().any(|e| matches!(e, UiEvent::ModelChanged(m) if m == "ws/m")));
}

// ----- reports -----

#[test]
fn ages_are_readable() {
    assert_ne!(human_age(5_000), human_age(3_600_000));
    assert!(human_age(3 * 86_400_000).contains('3'));
}

#[test]
fn sessions_are_reported() {
    let r = sessions_report(&vec![entry("abcdef", 1_000)], 61_000);
    assert!(r.contains("abcdef") || r.contains("abc"));
    assert_ne!(sessions_report(&vec![], 0), r);
    assert!(gc_line("L", "10 B", "5 B").contains("10 B"));
    assert!(gc_failed("L", "denied").contains("denied"));
    assert!(gc_total("10 B", "5 B", "5 B").contains("5 B"));
    assert!(!gc_label(&meta("abcdef", 1)).is_empty());
    assert!(!session_label(&meta("abcdef", 1)).is_empty());
}

#[test]
fn completions_are_offered() {
    let custom: Vec<SlashCommand> = vec![parse("mine".into(), "---\ndescription: d\n---\nbody", Scope::User)];
    assert!(command_items(&custom).iter().any(|i| i.name.contains("mine") && i.description.contains('d')));
    assert!(model_items(&config().providers).iter().any(|i| i.name == "ws/sonnet"));
    assert_eq!(session_items(&vec![entry("abc", 1)]).len(), 1);
}
