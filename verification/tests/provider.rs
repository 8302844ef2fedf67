//! The provider: requests, streams and their log.

use carter::config::settings::ProviderConfig;
use carter::json::{parse_json, Json};
use carter::provider::event::{Event, StopReason, ToolCall, Usage};
use carter::provider::genai_provider::{
    adapter_kind_from_str, stop_from_raw, usage_from_raw, wire_messages, Adapter, GenaiProvider, RawEvent, RawStop,
    RawUsage, StreamMapper,
};
use carter::provider::llm_log::{build_request_json, log_file, usage_to_json, write_exchange};
use carter::provider::request::{ChatRequest, Message};
use carter::session::dates::{civil_from_days, date_utc, iso_utc};

fn js(text: &str) -> Json {
    parse_json(text).unwrap()
}

fn request() -> ChatRequest {
    ChatRequest {
        model_api_name: "m".into(),
        system: vec!["S1".into(), "S2".into()],
        messages: vec![Message::User("你好".into()), Message::Assistant("ok".into()), Message::User("next".into())],
        tools: vec![],
        reasoning: None,
        max_output_tokens: Some(10),
    }
}

#[test]
fn civil_from_days_known_dates() {
    assert_eq!(civil_from_days(0), (1970, 1, 1));
    assert_eq!(civil_from_days(20_632), (2026, 6, 28));
}

#[test]
fn civil_from_days_around_leap_days() {
    assert_eq!(civil_from_days(11_016), (2000, 2, 29));
    assert_eq!(civil_from_days(11_017), (2000, 3, 1));
    assert_eq!(civil_from_days(-1), (1969, 12, 31));
    assert_eq!(civil_from_days(47_540), (2100, 2, 28));
    assert_eq!(civil_from_days(47_541), (2100, 3, 1));
}

#[test]
fn iso_utc_formats() {
    assert_eq!(iso_utc(0), "1970-01-01T00:00:00.000Z");
    let ms = (86_400 + 3661) * 1000 + 500;
    assert_eq!(iso_utc(ms), "1970-01-02T01:01:01.500Z");
    assert_eq!(date_utc(ms), "1970-01-02");
}

#[test]
fn write_exchange_keeps_utf8_unescaped() {
    let entry = js(r#"{"id": "x", "request": { "messages": [{"User": "你好"}] }, "response": { "text": "世界" }}"#);
    let content = write_exchange(&entry);
    assert!(content.contains("你好") && content.contains("世界"), "原样中文: {content}");
    assert!(!content.contains("\\u4f60"), "不应转义: {content}");
    assert_eq!(content.lines().count(), 1);
}

#[test]
fn log_goes_to_a_file_of_the_day() {
    let f = log_file("/logs", 0);
    assert!(f.starts_with("/logs/"));
    assert!(f.contains("1970-01-01"));
}

#[test]
fn request_is_logged_with_its_parts() {
    let j = build_request_json(&Some("https://e".into()), "anthropic", &request());
    let t = j.to_text();
    assert!(t.contains("你好") && t.contains("S1") && t.contains("anthropic") && t.contains("https://e"));
    let u = usage_to_json(&Usage { input: 1, output: 2, cache_read: 3, cache_write: 4, reasoning: 5 });
    assert_eq!(u.get_u64("cache_read"), Some(3));
}

#[test]
fn adapters_are_known_by_name() {
    assert_eq!(adapter_kind_from_str("anthropic"), Some(Adapter::Anthropic));
    assert_eq!(adapter_kind_from_str("openai"), Some(Adapter::OpenAi));
    assert_eq!(adapter_kind_from_str("gemini"), Some(Adapter::Gemini));
    assert_eq!(adapter_kind_from_str("no-such-kind"), None);
}

#[test]
fn unknown_provider_kind_is_refused() {
    let cfg = ProviderConfig { kind: "weird".into(), api_key: None, base_url: None, models: vec![] };
    assert!(GenaiProvider::from_provider_config(&cfg, false, "/l".into()).is_err());
    let cfg = ProviderConfig { kind: "anthropic".into(), api_key: Some("k".into()), base_url: Some("https://e/v1".into()), models: vec![] };
    match GenaiProvider::from_provider_config(&cfg, true, "/l".into()) {
        Ok(p) => {
            assert_eq!(p.protocol, Some(Adapter::Anthropic));
            assert_eq!(p.api_key.as_deref(), Some("k"));
            assert!(p.endpoint.unwrap().starts_with("https://e/v1"));
            assert!(p.debug);
        }
        Err(e) => panic!("{}", e.message()),
    }
}

#[test]
fn cache_mark_is_set_once() {
    let wire = wire_messages(&request());
    assert_eq!(wire.iter().filter(|w| w.cached).count(), 1);
    assert!(wire.len() >= 3);
}

#[test]
fn usage_is_taken_over() {
    let u = usage_from_raw(RawUsage { prompt: Some(10), completion: Some(4), cached: Some(3), cache_creation: None, reasoning: Some(-1) });
    assert_eq!(u.output, 4);
    assert_eq!(u.cache_read, 3);
    assert_eq!(u.cache_write, 0);
    assert_eq!(u.reasoning, 0);
}

#[test]
fn stop_reasons_are_taken_over() {
    assert!(matches!(stop_from_raw(&Some(RawStop::ToolCall)), StopReason::ToolUse));
    assert!(matches!(stop_from_raw(&Some(RawStop::MaxTokens)), StopReason::MaxTokens));
    assert!(matches!(stop_from_raw(&Some(RawStop::Completed)), StopReason::EndTurn));
    assert!(matches!(stop_from_raw(&None), StopReason::EndTurn));
}

#[test]
fn stream_ends_with_calls_usage_and_done() {
    let mut m = StreamMapper::new(true);
    assert!(matches!(&m.on_event(&RawEvent::Text("a".into()))[..], [Event::TextDelta(s)] if s == "a"));
    assert!(matches!(&m.on_event(&RawEvent::Thinking("t".into()))[..], [Event::ThinkingDelta(_)]));
    assert!(m.on_event(&RawEvent::Ignored).is_empty());
    let calls = vec![ToolCall { id: "1".into(), name: "grep".into(), args: js("{}") }];
    let usage = Some(RawUsage { prompt: Some(1), completion: Some(1), cached: None, cache_creation: None, reasoning: None });
    let end = RawEvent::End { calls, usage, stop: Some(RawStop::ToolCall) };
    let evs = m.on_event(&end);
    assert!(matches!(&evs[0], Event::ToolCall(c) if c.id == "1"));
    assert!(matches!(evs.last(), Some(Event::Done(StopReason::ToolUse))));
    assert_eq!(evs.iter().filter(|e| matches!(e, Event::Usage(_))).count(), 1);
    let p = GenaiProvider::new(true, "/l".into());
    let entry = p.log_entry(&m, &js("{}"), &end, 0, "x1").unwrap();
    assert_eq!(entry.get_str("id").as_deref(), Some("x1"));
    assert!(entry.to_text().contains("1970-01-01T00:00:00.000Z"));
    assert!(p.log_entry(&m, &js("{}"), &RawEvent::Ignored, 0, "x2").is_none());
    assert!(GenaiProvider::new(false, "/l".into()).log_entry(&m, &js("{}"), &end, 0, "x3").is_none());
}
