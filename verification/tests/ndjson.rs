//! The line protocol: commands in, events out.

use carter::agent::ui::UiEvent;
use carter::json::{parse_json, Json};
use carter::ndjson::protocol::{parse_line, to_line, Command, Event, WireTodo, WireTodoStatus, WireUsage};
use carter::ndjson::reader::{dispatch, read_line, Action, LineStep};
use carter::ndjson::runner::ready_event;
use carter::ndjson::sink::{wire_event, PendingAsks};
use carter::provider::event::Usage;
use carter::session::record::SessionMeta;
use carter::tools::todo_write::{TodoItem, TodoStatus};

#[test]
fn roundtrip_text_delta() {
    let ev = Event::TextDelta { text: "hi".into() };
    let line = to_line(&ev);
    assert!(line.starts_with("{"));
    assert!(line.ends_with("\n"));
    assert!(line.contains("\"type\":\"text_delta\""));
    assert!(line.contains("\"text\":\"hi\""));
}

#[test]
fn parses_user_prompt_command() {
    let cmd = parse_line(r#"{"type":"user_prompt","text":"hello"}"#);
    match cmd {
        Ok(Command::UserPrompt { text }) => assert_eq!(text, "hello"),
        _ => panic!("expected a prompt"),
    }
}

#[test]
fn parses_ask_response_with_id() {
    let cmd = parse_line(r#"{"type":"ask_response","id":42,"answer":"yes"}"#);
    match cmd {
        Ok(Command::AskResponse { id, answer }) => {
            assert_eq!(id, 42);
            assert_eq!(answer, "yes");
        }
        _ => panic!("expected an answer"),
    }
}

#[test]
fn parses_every_command() {
    assert!(matches!(parse_line(r#"{"type":"cancel"}"#), Ok(Command::Cancel)));
    assert!(matches!(parse_line(r#"{"type":"stop"}"#), Ok(Command::Stop)));
    assert!(matches!(parse_line(r#"{"type":"set_model","model":"a/b"}"#), Ok(Command::SetModel { model }) if model == "a/b"));
}

#[test]
fn malformed_returns_err() {
    assert!(parse_line("not json").is_err());
    assert!(parse_line(r#"{"type":"unknown"}"#).is_err());
    assert!(parse_line(r#"{"type":"user_prompt"}"#).is_err());
}

#[test]
fn event_type_tags_are_snake_case() {
    let cases = [
        (Event::TextEnd, "text_end"),
        (Event::Idle, "idle"),
        (Event::ToolCallStarted { name: "x".into(), args_preview: "".into() }, "tool_call_started"),
    ];
    for (ev, expected) in cases {
        let line = to_line(&ev);
        assert!(line.contains(&format!("\"type\":\"{expected}\"")), "missing tag {expected} in {line}");
    }
}

#[test]
fn ask_user_carries_question_and_options() {
    let ev = Event::AskUser { id: 7, question: "ok?".into(), options: vec!["yes".into(), "no".into()] };
    let line = to_line(&ev);
    assert!(line.contains("\"id\":7"));
    assert!(line.contains("\"question\":\"ok?\""));
    assert!(line.contains("\"yes\""));
}

#[test]
fn user_prompt_forwards_to_input_channel() {
    let mut asks: PendingAsks<u8> = PendingAsks::new();
    let a = dispatch(Command::UserPrompt { text: "hi".into() }, &mut asks);
    assert!(matches!(a, Action::Submit(t) if t == "hi"));
}

#[test]
fn cancel_sets_token() {
    let mut asks: PendingAsks<u8> = PendingAsks::new();
    assert!(matches!(dispatch(Command::Cancel, &mut asks), Action::Cancel));
}

#[test]
fn stop_returns_true() {
    let mut asks: PendingAsks<u8> = PendingAsks::new();
    assert!(matches!(dispatch(Command::Stop, &mut asks), Action::Stop));
}

#[test]
fn ask_response_fulfills_pending_oneshot() {
    let mut asks: PendingAsks<&str> = PendingAsks::new();
    asks.add(7, "waiting");
    let a = dispatch(Command::AskResponse { id: 7, answer: "yes".into() }, &mut asks);
    assert_eq!(asks.len(), 0);
    assert!(matches!(a, Action::Reply { to: "waiting", answer } if answer == "yes"));
}

#[test]
fn ask_response_unknown_id_is_silently_ignored() {
    let mut asks: PendingAsks<&str> = PendingAsks::new();
    asks.add(7, "waiting");
    let a = dispatch(Command::AskResponse { id: 999, answer: "y".into() }, &mut asks);
    assert!(matches!(a, Action::NobodyWaits { id: 999 }));
    assert!(asks.contains(7));
}

#[test]
fn set_model_is_answered_with_a_notice() {
    let mut asks: PendingAsks<u8> = PendingAsks::new();
    match dispatch(Command::SetModel { model: "a/b".into() }, &mut asks) {
        Action::Tell(Event::Notice { message }) => {
            assert_eq!(message, "[ndjson] set_model 暂不支持热切换；请用 --model a/b 重启 carter")
        }
        _ => panic!("expected a notice"),
    }
}

#[test]
fn lines_are_read() {
    assert!(matches!(read_line("   ", None), LineStep::Skip));
    assert!(matches!(read_line(r#"{"type":"stop"}"#, None), LineStep::Obey(Command::Stop)));
    assert!(matches!(read_line("oops", Some("expected value at line 1 column 1".to_string())), LineStep::Malformed(Event::Notice { message })
        if message.starts_with("[ndjson] malformed command: ")));
}

#[test]
fn emit_does_not_panic_on_various_events() {
    let cost = Json::Null;
    assert!(matches!(wire_event(&UiEvent::AssistantTextDelta("hi".into()), &cost), Event::TextDelta { text } if text == "hi"));
    assert!(matches!(wire_event(&UiEvent::AssistantTextEnd, &cost), Event::TextEnd));
    assert!(matches!(wire_event(&UiEvent::Notice("note".into()), &cost), Event::Notice { message } if message == "note"));
    assert!(matches!(wire_event(&UiEvent::Idle, &cost), Event::Idle));
    let todo = TodoItem { status: TodoStatus::Pending, content: "x".into(), active_form: "doing x".into() };
    assert_eq!(WireTodo::from_item(&todo).status, WireTodoStatus::Pending);
    match wire_event(&UiEvent::TodoUpdated(vec![todo]), &cost) {
        Event::TodoUpdated { todos } => {
            assert_eq!(todos.len(), 1);
            assert_eq!(todos[0].content, "x");
            assert_eq!(todos[0].active_form, "doing x");
        }
        _ => panic!("expected the tasks"),
    }
}

#[test]
fn ask_user_event_stores_sender_in_pending_table() {
    let mut asks: PendingAsks<&str> = PendingAsks::new();
    let ev = UiEvent::AskUser { id: 99, question: "ok?".into(), options: vec!["yes".into()] };
    asks.add(99, "sender");
    assert!(matches!(wire_event(&ev, &Json::Null), Event::AskUser { id: 99, .. }));
    assert!(asks.contains(99));
}

#[test]
fn ask_response_roundtrip_through_pending_table() {
    let mut asks: PendingAsks<&str> = PendingAsks::new();
    let ev = UiEvent::AskUser { id: 42, question: "do?".into(), options: vec!["yes".into(), "no".into()] };
    asks.add(42, "tool");
    assert!(to_line(&wire_event(&ev, &Json::Null)).contains("\"do?\""));
    let a = dispatch(Command::AskResponse { id: 42, answer: "yes".into() }, &mut asks);
    assert!(matches!(a, Action::Reply { to: "tool", answer } if answer == "yes"));
    assert_eq!(asks.len(), 0);
    let again = dispatch(Command::AskResponse { id: 42, answer: "no".into() }, &mut asks);
    assert!(matches!(again, Action::NobodyWaits { id: 42 }));
}

#[test]
fn usage_is_sent_with_its_cost() {
    let u = Usage { input: 1, output: 2, cache_read: 3, cache_write: 4, reasoning: 5 };
    let w = WireUsage::from_usage(&u);
    assert_eq!((w.input, w.output, w.cache_read, w.cache_write, w.reasoning), (1, 2, 3, 4, 5));
    let line = to_line(&Event::TurnUsage { usage: w, cost: parse_json("0.5").unwrap(), model: "m".into() });
    assert!(line.contains("\"type\":\"turn_usage\""));
    assert!(line.contains("\"cache_write\":4"));
    assert!(line.contains("0.5"));
}

#[test]
fn ready_names_the_session() {
    let meta = SessionMeta {
        id: "s1".into(),
        parent_id: None,
        forked_from: None,
        cwd: "/x".into(),
        git: None,
        title: None,
        carter_version: "0.1.0".into(),
        model: "m".into(),
        created_at: 1,
    };
    match ready_event(&meta, "ws/m", "/x") {
        Event::Ready { session_id, model, cwd, .. } => {
            assert_eq!((session_id.as_str(), model.as_str(), cwd.as_str()), ("s1", "ws/m", "/x"))
        }
        _ => panic!("expected ready"),
    }
}

#[test]
fn commands_are_read_in_the_order_of_their_fields() {
    assert!(matches!(parse_line(r#"["user_prompt","hi"]"#), Ok(Command::UserPrompt { text }) if text == "hi"));
    assert!(matches!(parse_line(r#"["cancel"]"#), Ok(Command::Cancel)));
    assert!(matches!(parse_line(r#"["ask_response",3,"yes"]"#), Ok(Command::AskResponse { id: 3, answer }) if answer == "yes"));
    assert!(parse_line(r#"["cancel",1]"#).is_err());
    assert!(parse_line(r#"["user_prompt"]"#).is_err());
    assert!(parse_line("[]").is_err());
}

#[test]
fn refused_line_is_told_in_the_words_of_the_reader() {
    let twice = r#"{"type":"user_prompt","text":"a","text":"b"}"#;
    let step = read_line(twice, Some("duplicate field `text`".to_string()));
    assert!(matches!(step, LineStep::Malformed(Event::Notice { message })
        if message == "[ndjson] malformed command: duplicate field `text`"));
    assert!(matches!(read_line("oops", None), LineStep::Malformed(Event::Notice { message })
        if message == "[ndjson] malformed command: not a JSON document"));
}

#[test]
fn commands_give_each_field_once() {
    assert_eq!(
        parse_line(r#"{"type":"user_prompt","text":"a","text":"b"}"#).err().as_deref(),
        Some("duplicate field `text`")
    );
    assert_eq!(parse_line(r#"{"type":"stop","type":"stop"}"#).err().as_deref(), Some("duplicate field `type`"));
    assert_eq!(
        parse_line(r#"{"type":"ask_response","id":1,"id":1,"answer":"y"}"#).err().as_deref(),
        Some("duplicate field `id`")
    );
    assert_eq!(
        parse_line(r#"{"type":"ask_response","id":1,"answer":"y","answer":"y"}"#).err().as_deref(),
        Some("duplicate field `answer`")
    );
    assert_eq!(
        parse_line(r#"{"type":"set_model","model":"a","model":"a"}"#).err().as_deref(),
        Some("duplicate field `model`")
    );
    assert!(matches!(parse_line(r#"{"type":"stop","text":1,"text":2}"#), Ok(Command::Stop)));
}
