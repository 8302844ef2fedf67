//! Counting tokens.

use carter::provider::request::Message;
use carter::tokens::{count_text, encoder_for, estimate_message, estimate_messages, or_rough, Encoding};

#[test]
fn cl100k_returns_reasonable_count_for_english() {
    let n = count_text("Hello, world", "cl100k");
    assert!(n > 0 && n < 10, "got {n}");
    assert_eq!(n, 3);
}

#[test]
fn cl100k_handles_chinese() {
    let n = count_text("中文测试", "cl100k");
    assert!(n >= 2 && n <= 12, "got {n}");
}

#[test]
fn unknown_tokenizer_falls_back_to_chars_over_4() {
    let n = count_text("abcdefgh", "unknown-tokenizer");
    assert_eq!(n, 2);
}

#[test]
fn anthropic_alias_uses_cl100k() {
    let a = count_text("Hello, world", "anthropic");
    let c = count_text("Hello, world", "cl100k");
    assert_eq!(a, c);
}

#[test]
fn estimate_messages_sums_with_envelope_overhead() {
    let msgs = vec![Message::User("hi".to_string()), Message::Assistant("ok".to_string())];
    let n = estimate_messages(&msgs, "cl100k");
    assert!(n >= 8);
    let each: u64 = msgs.iter().map(|m| estimate_message(m, "cl100k")).sum();
    assert_eq!(n, each + 8);
}

#[test]
fn encodings_count_differently() {
    assert_eq!(encoder_for("cl100k"), Some(Encoding::Cl100k));
    assert_eq!(encoder_for("o200k"), Some(Encoding::O200k));
    assert_eq!(encoder_for("p50k"), Some(Encoding::P50k));
    assert_eq!(encoder_for("unknown-tokenizer"), None);
    assert_eq!(count_text("Hello, world", "o200k"), 3);
    assert_eq!(count_text("Hello, world", "p50k"), 3);
}

#[test]
fn failed_counts_are_rough() {
    assert_eq!(or_rough(None, "abcdefgh"), 2);
    assert_eq!(or_rough(Some(7), "abcdefgh"), 7);
}
