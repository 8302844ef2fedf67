//! The context of a conversation: how large it is, and how it is made smaller.
//!
//! Compaction has three tiers. The first replaces old tool outputs by a note; where that is not
//! enough, the middle of the history is replaced by a summary, structured if the model can make one,
//! loose otherwise. The first message and the most recent ones are always kept.

use super::thread::{recorded, Thread, ThreadView};
use super::ui::{UiEvent, UiView};
use crate::bytes::{byte_len, byte_length};
use crate::error::{error_text, CarterError, ErrorView};
use crate::json::json_text;
use crate::number::{dec, push_dec};
use crate::provider::event::{call_views, CallView, Event, ToolCall};
use crate::provider::request::{
    dup_messages, message_views, message_views_push, ChatRequest, Message, MessageView,
};
use crate::session::record::{KindView, RecordKind};
use crate::split::{blank, is_blank, trim, trim_chars};
use crate::text::{chars_of, has_prefix, starts_with, string_of, texts};
use super::ui::{first_line, first_line_of};
use vstd::prelude::*;
use vstd::slice::slice_subrange;

verus! {

/// How many messages at the end keep their tool outputs.
pub const L1_KEEP_RECENT: usize = 6;

/// How many messages at the end are not summarised.
pub const L2_KEEP_RECENT: usize = 8;

/// The limit of a loose summary, in tokens.
pub const SUMMARY_MAX_TOKENS: u32 = 2000;

/// The limit of a structured summary, in tokens.
pub const L3_SUMMARY_MAX_TOKENS: u32 = 3000;

/// The limit of a title, in tokens.
pub const TITLE_MAX_TOKENS: u32 = 32;

// ---------------------------------------------------------------------------------------------
// Estimation
// ---------------------------------------------------------------------------------------------

/// The characters of tool calls that the estimate counts.
pub open spec fn calls_chars(calls: Seq<CallView>) -> nat
    decreases calls.len(),
{
    if calls.len() == 0 {
        0
    } else {
        calls_chars(calls.drop_last()) + calls.last().name.len() + json_text(
            calls.last().args,
        ).len()
    }
}

/// The characters of a message that the estimate counts.
pub open spec fn message_chars(m: MessageView) -> nat {
    match m {
        MessageView::System(s) => s.len(),
        MessageView::User(s) => s.len(),
        MessageView::Assistant(s) => s.len(),
        MessageView::Tool { call_id, content } => content.len() + call_id.len(),
        MessageView::ToolCalls(calls) => calls_chars(calls),
    }
}

/// The tokens of a message, roughly: one for four characters, rounded up, and four for its frame.
pub open spec fn message_tokens(m: MessageView) -> nat {
    (message_chars(m) + 3) / 4 + 4
}

/// The tokens of a history, roughly.
pub open spec fn history_tokens(ms: Seq<MessageView>) -> nat
    decreases ms.len(),
{
    if ms.len() == 0 {
        0
    } else {
        history_tokens(ms.drop_last()) + message_tokens(ms.last())
    }
}

/// A count as far as 64 bits hold it.
pub open spec fn held(n: nat) -> u64 {
    if n <= u64::MAX {
        n as u64
    } else {
        u64::MAX
    }
}

/// A count as far as 128 bits hold it.
spec fn held_wide(n: nat) -> u128 {
    if n <= u128::MAX {
        n as u128
    } else {
        u128::MAX
    }
}

fn wide_sum(a: u128, b: u128) -> (r: u128)
    ensures
        r == held_wide((a + b) as nat),
{
    if a > u128::MAX - b {
        u128::MAX
    } else {
        a + b
    }
}

fn count_calls(calls: &Vec<ToolCall>) -> (r: u128)
    ensures
        r == held_wide(calls_chars(call_views(calls@))),
{
    let ghost cv = call_views(calls@);
    let mut n: u128 = 0;
    let mut i: usize = 0;
    assert(cv.take(0) =~= Seq::<CallView>::empty());
    while i < calls.len()
        invariant
            i <= calls@.len(),
            cv == call_views(calls@),
            n == held_wide(calls_chars(cv.take(i as int))),
        decreases calls@.len() - i,
    {
        assert(cv.take(i + 1).drop_last() =~= cv.take(i as int));
        assert(cv.take(i + 1).last() == calls@[i as int]@);
        let a: usize = calls[i].name.as_str().unicode_len();
        let b: usize = calls[i].args.to_text().as_str().unicode_len();
        n = wide_sum(n, a as u128 + b as u128);
        i += 1;
    }
    assert(cv.take(i as int) =~= cv);
    n
}

/// The tokens of a message, roughly.
pub fn estimate_message(msg: &Message) -> (r: u64)
    ensures
        r == held(message_tokens(msg@)),
{
    let chars: u128 = match msg {
        Message::System(s) => s.as_str().unicode_len() as u128,
        Message::User(s) => s.as_str().unicode_len() as u128,
        Message::Assistant(s) => s.as_str().unicode_len() as u128,
        Message::Tool { call_id, content } => {
            let a: usize = content.as_str().unicode_len();
            let b: usize = call_id.as_str().unicode_len();
            a as u128 + b as u128
        },
        Message::ToolCalls(calls) => count_calls(calls),
    };
    assert(chars == held_wide(message_chars(msg@)));
    if chars >= 4 * (u64::MAX as u128) {
        return u64::MAX;
    }
    let n: u128 = (chars + 3) / 4 + 4;
    if n > u64::MAX as u128 {
        u64::MAX
    } else {
        n as u64
    }
}

/// The tokens of a history, roughly, as far as 64 bits hold them.
pub fn estimate_tokens(messages: &Vec<Message>) -> (r: u64)
    ensures
        r == held(history_tokens(message_views(messages@))),
{
    let ghost mv = message_views(messages@);
    let mut n: u64 = 0;
    let mut i: usize = 0;
    assert(mv.take(0) =~= Seq::<MessageView>::empty());
    while i < messages.len()
        invariant
            i <= messages@.len(),
            mv == message_views(messages@),
            n == held(history_tokens(mv.take(i as int))),
        decreases messages@.len() - i,
    {
        assert(mv.take(i + 1).drop_last() =~= mv.take(i as int));
        assert(mv.take(i + 1).last() == messages@[i as int]@);
        let e: u64 = estimate_message(&messages[i]);
        n = if n > u64::MAX - e {
            u64::MAX
        } else {
            n + e
        };
        i += 1;
    }
    assert(mv.take(i as int) =~= mv);
    n
}

// ---------------------------------------------------------------------------------------------
// First tier: old tool outputs
// ---------------------------------------------------------------------------------------------

/// What stands for a tool output that was taken out.
pub open spec fn elision_note(content: Seq<char>, call_id: Seq<char>) -> Seq<char> {
    "[tool result elided: "@ + dec(byte_len(content)) + " bytes, call_id="@ + call_id + "]"@
}

/// A message without its tool output; one that was taken out already stays as it is.
pub open spec fn elided(m: MessageView) -> MessageView {
    match m {
        MessageView::Tool { call_id, content } => if starts_with(content, "[tool result elided"@) {
            m
        } else {
            MessageView::Tool { call_id, content: elision_note(content, call_id) }
        },
        _ => m,
    }
}

/// The history with the tool outputs taken out of all but the last `keep` messages.
pub open spec fn elided_history(ms: Seq<MessageView>, keep: nat) -> Seq<MessageView> {
    Seq::new(
        ms.len(),
        |i: int|
            if i + keep < ms.len() {
                elided(ms[i])
            } else {
                ms[i]
            },
    )
}

fn elide(msg: &Message) -> (r: Message)
    ensures
        r@ == elided(msg@),
{
    match msg {
        Message::Tool { call_id, content } => {
            if has_prefix(content.as_str(), "[tool result elided") {
                msg.dup()
            } else {
                let mut s = "[tool result elided: ".to_owned();
                push_dec(&mut s, byte_length(content.as_str()) as u64);
                s.append(" bytes, call_id=");
                s.append(call_id.as_str());
                s.append("]");
                Message::Tool { call_id: call_id.clone(), content: s }
            }
        },
        _ => msg.dup(),
    }
}

/// Takes the tool outputs out of all but the last `keep_recent` messages.
pub fn elide_old_tool_outputs(messages: &mut Vec<Message>, keep_recent: usize)
    ensures
        message_views(final(messages)@) == elided_history(
            message_views(old(messages)@),
            keep_recent as nat,
        ),
{
    let ghost mv = message_views(messages@);
    let len = messages.len();
    if len <= keep_recent {
        assert(message_views(messages@) =~= elided_history(mv, keep_recent as nat));
        return;
    }
    let cutoff: usize = len - keep_recent;
    let mut i: usize = 0;
    while i < cutoff
        invariant
            cutoff <= len,
            i <= cutoff,
            len == messages@.len(),
            len == mv.len(),
            forall|j: int| 0 <= j < i ==> (#[trigger] messages@[j])@ == elided(mv[j]),
            forall|j: int| i <= j < len ==> (#[trigger] messages@[j])@ == mv[j],
        decreases cutoff - i,
    {
        let m = elide(&messages[i]);
        messages.set(i, m);
        i += 1;
    }
    assert(message_views(messages@) =~= elided_history(mv, keep_recent as nat));
}

/// The note of an elision begins as the notes do.
proof fn lemma_note_marked(content: Seq<char>, call_id: Seq<char>)
    ensures
        starts_with(elision_note(content, call_id), "[tool result elided"@),
{
    reveal_strlit("[tool result elided");
    reveal_strlit("[tool result elided: ");
    let n = elision_note(content, call_id);
    let p = "[tool result elided"@;
    assert(n.subrange(0, p.len() as int) =~= p);
}

/// Taking tool outputs out twice is taking them out once.
pub proof fn law_elision_idempotent(ms: Seq<MessageView>, keep: nat)
    ensures
        elided_history(elided_history(ms, keep), keep) == elided_history(ms, keep),
{
    assert forall|i: int| 0 <= i < ms.len() implies elided(elided(#[trigger] ms[i])) == elided(
        ms[i],
    ) by {
        match ms[i] {
            MessageView::Tool { call_id, content } => {
                lemma_note_marked(content, call_id);
            },
            _ => {},
        }
    }
    assert(elided_history(elided_history(ms, keep), keep) =~= elided_history(ms, keep));
}

/// Taking tool outputs out keeps the number of messages, every message that is no tool output, every
/// call id, and the last `keep` messages.
pub proof fn law_elision_keeps(ms: Seq<MessageView>, keep: nat, i: int)
    requires
        0 <= i < ms.len(),
    ensures
        elided_history(ms, keep).len() == ms.len(),
        !(ms[i] is Tool) ==> elided_history(ms, keep)[i] == ms[i],
        ms[i] is Tool ==> elided_history(ms, keep)[i] is Tool && elided_history(
            ms,
            keep,
        )[i]->call_id == ms[i]->call_id,
        i + keep >= ms.len() ==> elided_history(ms, keep)[i] == ms[i],
{
}

// ---------------------------------------------------------------------------------------------
// Splitting for a summary
// ---------------------------------------------------------------------------------------------

/// The history falls into a first message, a middle, and the last `keep` messages.
pub open spec fn splits(ms: Seq<MessageView>, keep: nat) -> bool {
    ms.len() > keep + 1
}

/// A history cut for a summary.
#[derive(Debug)]
pub struct Cut {
    pub head: Message,
    pub middle: Vec<Message>,
    pub recent: Vec<Message>,
}

/// The cut is that of the history.
pub open spec fn cut_of(c: Cut, ms: Seq<MessageView>, keep: nat) -> bool {
    &&& c.head@ == ms[0]
    &&& message_views(c.middle@) == ms.subrange(1, ms.len() - keep)
    &&& message_views(c.recent@) == ms.skip(ms.len() - keep)
}

fn dup_range(v: &Vec<Message>, from: usize, upto: usize) -> (r: Vec<Message>)
    requires
        from <= upto <= v@.len(),
    ensures
        message_views(r@) == message_views(v@).subrange(from as int, upto as int),
{
    let ghost mv = message_views(v@);
    let mut out: Vec<Message> = Vec::new();
    let mut i: usize = from;
    assert(message_views(out@) =~= mv.subrange(from as int, from as int));
    while i < upto
        invariant
            from <= i <= upto <= v@.len(),
            mv == message_views(v@),
            message_views(out@) == mv.subrange(from as int, i as int),
        decreases upto - i,
    {
        broadcast use message_views_push;

        out.push(v[i].dup());
        assert(mv.subrange(from as int, i + 1) =~= mv.subrange(from as int, i as int).push(
            mv[i as int],
        ));
        i += 1;
    }
    out
}

/// Cuts a history for a summary: the first message, the middle that is summarised, and the last
/// `keep_recent` messages. A history that is too short is not cut.
pub fn split_for_summary(messages: &Vec<Message>, keep_recent: usize) -> (r: Option<Cut>)
    ensures
        match r {
            Some(c) => splits(message_views(messages@), keep_recent as nat) && cut_of(
                c,
                message_views(messages@),
                keep_recent as nat,
            ),
            None => !splits(message_views(messages@), keep_recent as nat),
        },
{
    if messages.len() == 0 || messages.len() - 1 <= keep_recent {
        return None;
    }
    let split: usize = messages.len() - keep_recent;
    let head = messages[0].dup();
    let middle = dup_range(messages, 1, split);
    let recent = dup_range(messages, split, messages.len());
    assert(message_views(recent@) =~= message_views(messages@).skip(split as int));
    Some(Cut { head, middle, recent })
}

// ---------------------------------------------------------------------------------------------
// Summaries
// ---------------------------------------------------------------------------------------------

/// A tool call as the summariser reads it.
pub open spec fn call_line(c: CallView) -> Seq<char> {
    "[tool_call] "@ + c.name + "("@ + json_text(c.args) + ")\n"@
}

/// Tool calls as the summariser reads them.
pub open spec fn call_lines(cs: Seq<CallView>) -> Seq<char>
    decreases cs.len(),
{
    if cs.len() == 0 {
        Seq::empty()
    } else {
        call_lines(cs.drop_last()) + call_line(cs.last())
    }
}

/// A message as the summariser reads it.
pub open spec fn message_line(m: MessageView) -> Seq<char> {
    match m {
        MessageView::System(s) => "[system] "@ + s + "\n"@,
        MessageView::User(s) => "[user] "@ + s + "\n"@,
        MessageView::Assistant(s) => "[assistant] "@ + s + "\n"@,
        MessageView::ToolCalls(cs) => call_lines(cs),
        MessageView::Tool { call_id, content } => "[tool_result "@ + call_id + "] "@ + content
            + "\n"@,
    }
}

/// A history as the summariser reads it.
pub open spec fn rendered(ms: Seq<MessageView>) -> Seq<char>
    decreases ms.len(),
{
    if ms.len() == 0 {
        Seq::empty()
    } else {
        rendered(ms.drop_last()) + message_line(ms.last())
    }
}

fn render_calls(calls: &Vec<ToolCall>) -> (r: String)
    ensures
        r@ == call_lines(call_views(calls@)),
{
    let ghost cv = call_views(calls@);
    let mut out = String::new();
    let mut i: usize = 0;
    assert(cv.take(0) =~= Seq::<CallView>::empty());
    while i < calls.len()
        invariant
            i <= calls@.len(),
            cv == call_views(calls@),
            out@ == call_lines(cv.take(i as int)),
        decreases calls@.len() - i,
    {
        assert(cv.take(i + 1).drop_last() =~= cv.take(i as int));
        assert(cv.take(i + 1).last() == calls@[i as int]@);
        let mut s = "[tool_call] ".to_owned();
        s.append(calls[i].name.as_str());
        s.append("(");
        s.append(calls[i].args.to_text().as_str());
        s.append(")\n");
        assert(s@ == call_line(calls@[i as int]@));
        out.append(s.as_str());
        i += 1;
    }
    assert(cv.take(i as int) =~= cv);
    out
}

/// The history as the summariser reads it.
pub fn render_messages(messages: &Vec<Message>) -> (r: String)
    ensures
        r@ == rendered(message_views(messages@)),
{
    let ghost mv = message_views(messages@);
    let mut out = String::new();
    let mut i: usize = 0;
    assert(mv.take(0) =~= Seq::<MessageView>::empty());
    while i < messages.len()
        invariant
            i <= messages@.len(),
            mv == message_views(messages@),
            out@ == rendered(mv.take(i as int)),
        decreases messages@.len() - i,
    {
        assert(mv.take(i + 1).drop_last() =~= mv.take(i as int));
        assert(mv.take(i + 1).last() == messages@[i as int]@);
        let line: String = match &messages[i] {
            Message::System(s) => {
                let mut l = "[system] ".to_owned();
                l.append(s.as_str());
                l.append("\n");
                l
            },
            Message::User(s) => {
                let mut l = "[user] ".to_owned();
                l.append(s.as_str());
                l.append("\n");
                l
            },
            Message::Assistant(s) => {
                let mut l = "[assistant] ".to_owned();
                l.append(s.as_str());
                l.append("\n");
                l
            },
            Message::ToolCalls(calls) => render_calls(calls),
            Message::Tool { call_id, content } => {
                let mut l = "[tool_result ".to_owned();
                l.append(call_id.as_str());
                l.append("] ");
                l.append(content.as_str());
                l.append("\n");
                l
            },
        };
        assert(line@ == message_line(messages@[i as int]@));
        out.append(line.as_str());
        i += 1;
    }
    assert(mv.take(i as int) =~= mv);
    out
}

/// What the model is told to make a loose summary.
pub const SUMMARY_SYSTEM: &'static str =
    "你是上下文压缩器。把以下 agent 执行历史压成简洁要点，务必保留：已做的关键决策、尝试过的方案、重要发现/文件路径、未决问题与下一步。丢弃冗长的原始工具输出。用紧凑的中文列点。";

/// What the model is told to make a structured summary.
pub const STRUCTURED_SYSTEM: &'static str =
    "你是上下文压缩器，做高保真结构化压缩。把以下 agent 执行历史压成下列固定分节的中文笔记，每节用紧凑列点，保留具体细节（文件路径、函数名、关键数值、错误信息），丢弃冗长的原始工具输出：\n## 已完成的关键决策\n## 涉及的文件/路径\n## 未决问题\n## 下一步\n## 关键发现\n即使某节暂无内容也要保留标题并写「（无）」。";

/// What the model is told to make a title.
pub const TITLE_SYSTEM: &'static str =
    "为下面这条用户消息开启的对话生成一个简洁的 3-6 词中文标题。只输出标题本身，不要引号、不要标点结尾、不要解释。";

/// What the model is told to make a structured summary.
pub fn structured_summary_system() -> (r: &'static str)
    ensures
        r@ == STRUCTURED_SYSTEM@,
{
    STRUCTURED_SYSTEM
}

/// The request is one for a summary of `text` under the instructions `system`.
pub open spec fn is_summary_request(
    r: ChatRequest,
    text: Seq<char>,
    system: Seq<char>,
    max_tokens: u32,
    model: Seq<char>,
) -> bool {
    &&& r.model_api_name@ == model
    &&& texts(r.system@) == seq![system]
    &&& message_views(r.messages@) == seq![MessageView::User("【待压缩历史】\n"@ + text)]
    &&& r.tools@.len() == 0
    &&& r.reasoning is None
    &&& r.max_output_tokens == Some(max_tokens)
}

/// The request for a summary of `text` under the instructions `system`.
pub fn summary_request(text: &str, system: &str, max_tokens: u32, model_api_name: &str) -> (r:
    ChatRequest)
    ensures
        is_summary_request(r, text@, system@, max_tokens, model_api_name@),
{
    let mut segments: Vec<String> = Vec::new();
    segments.push(system.to_owned());
    assert(texts(segments@) =~= seq![system@]);
    let mut messages: Vec<Message> = Vec::new();
    let body = "【待压缩历史】\n".to_owned().concat(text);
    messages.push(Message::User(body));
    assert(message_views(messages@) =~= seq![MessageView::User("【待压缩历史】\n"@ + text@)]);
    ChatRequest {
        model_api_name: model_api_name.to_owned(),
        system: segments,
        messages,
        tools: Vec::new(),
        reasoning: None,
        max_output_tokens: Some(max_tokens),
    }
}

/// The request for a structured summary of the middle of a history.
pub fn structured_request(middle: &Vec<Message>, model_api_name: &str) -> (r: ChatRequest)
    ensures
        is_summary_request(
            r,
            rendered(message_views(middle@)),
            STRUCTURED_SYSTEM@,
            L3_SUMMARY_MAX_TOKENS,
            model_api_name@,
        ),
{
    summary_request(
        render_messages(middle).as_str(),
        structured_summary_system(),
        L3_SUMMARY_MAX_TOKENS,
        model_api_name,
    )
}

/// The request for a loose summary of the middle of a history.
pub fn loose_request(middle: &Vec<Message>, model_api_name: &str) -> (r: ChatRequest)
    ensures
        is_summary_request(
            r,
            rendered(message_views(middle@)),
            SUMMARY_SYSTEM@,
            SUMMARY_MAX_TOKENS,
            model_api_name@,
        ),
{
    summary_request(
        render_messages(middle).as_str(),
        SUMMARY_SYSTEM,
        SUMMARY_MAX_TOKENS,
        model_api_name,
    )
}

/// The request for a session's title.
pub fn title_request(first_prompt: &str, model_api_name: &str) -> (r: ChatRequest)
    ensures
        is_summary_request(
            r,
            first_prompt@,
            TITLE_SYSTEM@,
            TITLE_MAX_TOKENS,
            model_api_name@,
        ),
{
    summary_request(first_prompt, TITLE_SYSTEM, TITLE_MAX_TOKENS, model_api_name)
}

/// The text of a stream: its text pieces, one after the other.
pub open spec fn text_of(evs: Seq<Event>) -> Seq<char>
    decreases evs.len(),
{
    if evs.len() == 0 {
        Seq::empty()
    } else {
        match evs.last() {
            Event::TextDelta(t) => text_of(evs.drop_last()) + t@,
            _ => text_of(evs.drop_last()),
        }
    }
}

/// The summary that a stream gave; a blank one is an error.
pub open spec fn summary_of(evs: Seq<Event>) -> Result<Seq<char>, ErrorView> {
    if is_blank(text_of(evs)) {
        Err(ErrorView::Provider("summary returned empty text"@))
    } else {
        Ok(text_of(evs))
    }
}

/// The view of a summary or of the error in its place.
pub open spec fn summary_view(r: Result<String, CarterError>) -> Result<Seq<char>, ErrorView> {
    match r {
        Ok(s) => Ok(s@),
        Err(e) => Err(e@),
    }
}

/// Collects the summary that a stream gave.
pub fn collect_summary(evs: &Vec<Event>) -> (r: Result<String, CarterError>)
    ensures
        summary_view(r) == summary_of(evs@),
{
    let mut out = String::new();
    let mut i: usize = 0;
    assert(evs@.take(0) =~= Seq::<Event>::empty());
    while i < evs.len()
        invariant
            i <= evs@.len(),
            out@ == text_of(evs@.take(i as int)),
        decreases evs@.len() - i,
    {
        assert(evs@.take(i + 1).drop_last() =~= evs@.take(i as int));
        assert(evs@.take(i + 1).last() == evs@[i as int]);
        match &evs[i] {
            Event::TextDelta(t) => {
                out.append(t.as_str());
            },
            _ => {},
        }
        i += 1;
    }
    assert(evs@.take(i as int) =~= evs@);
    if blank(out.as_str()) {
        Err(CarterError::Provider("summary returned empty text".to_owned()))
    } else {
        Ok(out)
    }
}

/// `s` without the quotation marks at its front.
pub open spec fn unquote_start(s: Seq<char>) -> Seq<char>
    decreases s.len(),
{
    if s.len() > 0 && s[0] == '"' {
        unquote_start(s.skip(1))
    } else {
        s
    }
}

/// `s` without the quotation marks at its end.
pub open spec fn unquote_end(s: Seq<char>) -> Seq<char>
    decreases s.len(),
{
    if s.len() > 0 && s.last() == '"' {
        unquote_end(s.drop_last())
    } else {
        s
    }
}

/// The title in a model's answer: its first line, without white space or quotation marks around it.
pub open spec fn title_in(answer: Seq<char>) -> Seq<char> {
    unquote_end(unquote_start(trim(first_line(answer))))
}

/// The title in a model's answer.
pub fn title_from_answer(answer: &str) -> (r: String)
    ensures
        r@ == title_in(answer@),
{
    let first = first_line_of(answer);
    let cs = chars_of(first.as_str());
    let t = trim_chars(cs.as_slice());
    let mut i: usize = 0;
    assert(t@.skip(0) =~= t@);
    while i < t.len() && t[i] == '"'
        invariant
            i <= t@.len(),
            unquote_start(t@) == unquote_start(t@.skip(i as int)),
        decreases t@.len() - i,
    {
        assert(t@.skip(i as int).skip(1) =~= t@.skip(i + 1));
        i += 1;
    }
    let u = slice_subrange(t, i, t.len());
    assert(u@ =~= t@.skip(i as int));
    let mut n: usize = u.len();
    assert(u@.take(n as int) =~= u@);
    while n > 0 && u[n - 1] == '"'
        invariant
            n <= u@.len(),
            unquote_end(u@) == unquote_end(u@.take(n as int)),
        decreases n,
    {
        assert(u@.take(n as int).drop_last() =~= u@.take(n - 1));
        n -= 1;
    }
    let w = slice_subrange(u, 0, n);
    assert(w@ =~= u@.take(n as int));
    string_of(w)
}

// ---------------------------------------------------------------------------------------------
// Compaction
// ---------------------------------------------------------------------------------------------

/// What is said after the first tier.
pub open spec fn l1_notice(before: u64, after: u64) -> Seq<char> {
    "[compact] L1 elided old tool outputs: ~"@ + dec(before as nat) + " → ~"@ + dec(after as nat)
        + " tokens (est)"@
}

/// A compaction after its first tier: what is said, and the history cut for a summary where one is
/// needed.
#[derive(Debug)]
pub struct FirstTier {
    pub notice: UiEvent,
    pub cut: Option<Cut>,
}

/// A summary is needed: the history is still above the threshold and can be cut.
pub open spec fn needs_summary(ms: Seq<MessageView>, threshold: u64) -> bool {
    held(history_tokens(ms)) > threshold && splits(ms, L2_KEEP_RECENT as nat)
}

/// The first tier of a compaction: takes out old tool outputs, and cuts the history for a summary
/// where it is still above the threshold.
pub fn compact_first(thread: &mut Thread, threshold: u64) -> (r: FirstTier)
    ensures
        ({
            let ms = elided_history(old(thread)@.messages, L1_KEEP_RECENT as nat);
            &&& final(thread)@ == (ThreadView { messages: ms, ..old(thread)@ })
            &&& r.notice@ == UiView::Notice(
                l1_notice(held(history_tokens(old(thread)@.messages)), held(history_tokens(ms))),
            )
            &&& match r.cut {
                Some(c) => needs_summary(ms, threshold) && cut_of(c, ms, L2_KEEP_RECENT as nat),
                None => !needs_summary(ms, threshold),
            }
        }),
{
    let before: u64 = estimate_tokens(&thread.messages);
    elide_old_tool_outputs(&mut thread.messages, L1_KEEP_RECENT);
    let after: u64 = estimate_tokens(&thread.messages);
    let mut s = "[compact] L1 elided old tool outputs: ~".to_owned();
    push_dec(&mut s, before);
    s.append(" → ~");
    push_dec(&mut s, after);
    s.append(" tokens (est)");
    let cut = if after <= threshold {
        None
    } else {
        split_for_summary(&thread.messages, L2_KEEP_RECENT)
    };
    FirstTier { notice: UiEvent::Notice(s), cut }
}

/// The tier of a summary.
#[derive(Clone, Copy, Debug, PartialEq, Eq, Structural)]
pub enum Tier {
    /// A loose summary.
    L2,
    /// A structured summary.
    L3,
}

/// The name of a tier.
pub open spec fn tier_text(t: Tier) -> Seq<char> {
    match t {
        Tier::L2 => "L2"@,
        Tier::L3 => "L3"@,
    }
}

impl Tier {
    /// The name of the tier.
    pub fn name(&self) -> (r: &'static str)
        ensures
            r@ == tier_text(*self),
    {
        match self {
            Tier::L2 => "L2",
            Tier::L3 => "L3",
        }
    }
}

/// What is said when a summary could not be had.
pub open spec fn tier_failed(t: Tier, e: ErrorView) -> Seq<char> {
    match t {
        Tier::L3 => "[compact] L3 structured summary failed ("@ + error_text(e)
            + "); trying L2"@,
        Tier::L2 => "[compact] L2 summary failed ("@ + error_text(e)
            + "); kept L1-only result"@,
    }
}

/// The history after a summary: the first message, the summary, and the recent messages.
pub open spec fn summarised(
    ms: Seq<MessageView>,
    keep: nat,
    tier: Tier,
    summary: Seq<char>,
) -> Seq<MessageView> {
    seq![ms[0], MessageView::Assistant("【历史摘要·"@ + tier_text(tier) + "】\n"@ + summary)] + ms.skip(
        ms.len() - keep,
    )
}

/// What is said when a summary was put in place.
pub open spec fn tier_applied(tier: Tier, tokens: u64) -> Seq<char> {
    "[compact] "@ + tier_text(tier) + " rolling summary applied: ~"@ + dec(tokens as nat)
        + " tokens (est)"@
}

/// The conversation after a summary of the tier, and what is said. The new history is recorded. A
/// summary that could not be had leaves the conversation as it is.
pub open spec fn after_summary(
    t: ThreadView,
    keep: nat,
    tier: Tier,
    summary: Result<Seq<char>, ErrorView>,
    ts: u64,
) -> (ThreadView, UiView) {
    match summary {
        Ok(s) => {
            let ms = summarised(t.messages, keep, tier, s);
            (
                ThreadView {
                    messages: ms,
                    recorder: recorded(
                        t.recorder,
                        ts,
                        KindView::Compacted { tier: tier_text(tier), messages: ms },
                    ),
                    ..t
                },
                UiView::Notice(tier_applied(tier, held(history_tokens(ms)))),
            )
        },
        Err(e) => (t, UiView::Notice(tier_failed(tier, e))),
    }
}

/// A compaction after an attempt at a summary: what is said, and the tier to try next.
#[derive(Debug)]
pub struct SummaryStep {
    pub notice: UiEvent,
    pub next: Option<Tier>,
}

/// Puts a summary of the tier in the place of the middle of the history. Where the summary could not
/// be had, says so and leaves the history.
pub fn compact_summary(
    thread: &mut Thread,
    cut: &Cut,
    tier: Tier,
    summary: Result<String, CarterError>,
    ts: u64,
) -> (r: SummaryStep)
    requires
        splits(old(thread)@.messages, L2_KEEP_RECENT as nat),
        cut_of(*cut, old(thread)@.messages, L2_KEEP_RECENT as nat),
    ensures
        (final(thread)@, r.notice@) == after_summary(
            old(thread)@,
            L2_KEEP_RECENT as nat,
            tier,
            summary_view(summary),
            ts,
        ),
        r.next == if summary is Err && tier == Tier::L3 {
            Some(Tier::L2)
        } else {
            None
        },
{
    broadcast use message_views_push;

    match summary {
        Ok(text) => {
            let mut s = "【历史摘要·".to_owned();
            s.append(tier.name());
            s.append("】\n");
            s.append(text.as_str());
            let mut rebuilt: Vec<Message> = Vec::new();
            rebuilt.push(cut.head.dup());
            rebuilt.push(Message::Assistant(s));
            let ghost front = message_views(rebuilt@);
            let mut recent = dup_messages(&cut.recent);
            let ghost rv = message_views(recent@);
            rebuilt.append(&mut recent);
            assert(message_views(rebuilt@) =~= front + rv);
            assert(message_views(rebuilt@) =~= summarised(
                old(thread)@.messages,
                L2_KEEP_RECENT as nat,
                tier,
                text@,
            ));
            let after: u64 = estimate_tokens(&rebuilt);
            let kept = dup_messages(&rebuilt);
            thread.note(
                RecordKind::Compacted { tier: tier.name().to_owned(), messages: kept },
                ts,
            );
            thread.messages = rebuilt;
            let mut n = "[compact] ".to_owned();
            n.append(tier.name());
            n.append(" rolling summary applied: ~");
            push_dec(&mut n, after);
            n.append(" tokens (est)");
            SummaryStep { notice: UiEvent::Notice(n), next: None }
        },
        Err(e) => {
            let mut n: String;
            let mut next: Option<Tier> = None;
            match tier {
                Tier::L3 => {
                    next = Some(Tier::L2);
                    n = "[compact] L3 structured summary failed (".to_owned();
                    n.append(e.message().as_str());
                    n.append("); trying L2");
                },
                Tier::L2 => {
                    n = "[compact] L2 summary failed (".to_owned();
                    n.append(e.message().as_str());
                    n.append("); kept L1-only result");
                },
            }
            SummaryStep { notice: UiEvent::Notice(n), next }
        },
    }
}

/// A whole compaction, given what the model would answer for a structured and for a loose summary.
pub open spec fn compacted(
    t: ThreadView,
    threshold: u64,
    structured: Result<Seq<char>, ErrorView>,
    loose: Result<Seq<char>, ErrorView>,
    ts: u64,
) -> ThreadView {
    let ms = elided_history(t.messages, L1_KEEP_RECENT as nat);
    let t1 = ThreadView { messages: ms, ..t };
    let keep = L2_KEEP_RECENT as nat;
    if !needs_summary(ms, threshold) {
        t1
    } else if structured is Ok {
        after_summary(t1, keep, Tier::L3, structured, ts).0
    } else {
        after_summary(t1, keep, Tier::L2, loose, ts).0
    }
}

/// Compaction never loses the task or what is at hand: the first message stays the first (but for an
/// old tool output), the last messages stay the last, and the task list, the turns and the
/// checkpoints are untouched, whatever the model answers.
pub proof fn law_compaction_keeps_ends(
    t: ThreadView,
    threshold: u64,
    structured: Result<Seq<char>, ErrorView>,
    loose: Result<Seq<char>, ErrorView>,
    ts: u64,
)
    requires
        t.messages.len() > 0,
    ensures
        ({
            let c = compacted(t, threshold, structured, loose, ts);
            let n = t.messages.len();
            let m = c.messages.len();
            &&& 0 < m <= n
            &&& c.messages[0] == t.messages[0] || c.messages[0] == elided(t.messages[0])
            &&& !(t.messages[0] is Tool) ==> c.messages[0] == t.messages[0]
            &&& forall|k: int|
                1 <= k <= L1_KEEP_RECENT && k <= n ==> #[trigger] c.messages[m - k]
                    == t.messages[n - k]
            &&& c.todos == t.todos
            &&& c.turns == t.turns
            &&& c.checkpoints == t.checkpoints
        }),
{
    let ms = elided_history(t.messages, L1_KEEP_RECENT as nat);
    let c = compacted(t, threshold, structured, loose, ts);
    let n = t.messages.len();
    let m = c.messages.len();
    assert forall|k: int| 1 <= k <= L1_KEEP_RECENT && k <= n implies #[trigger] c.messages[m - k]
        == t.messages[n - k] by {
        assert(ms[n - k] == t.messages[n - k]);
    }
}

/// Where no summary can be had, compaction is its first tier alone, and nothing is recorded.
pub proof fn law_compaction_falls_back(
    t: ThreadView,
    threshold: u64,
    e3: ErrorView,
    e2: ErrorView,
    ts: u64,
)
    ensures
        compacted(t, threshold, Err(e3), Err(e2), ts) == (ThreadView {
            messages: elided_history(t.messages, L1_KEEP_RECENT as nat),
            ..t
        }),
{
}

/// A history that holds little enough is not summarised.
pub proof fn law_small_history_not_summarised(
    t: ThreadView,
    threshold: u64,
    structured: Result<Seq<char>, ErrorView>,
    loose: Result<Seq<char>, ErrorView>,
    ts: u64,
)
    requires
        history_tokens(elided_history(t.messages, L1_KEEP_RECENT as nat)) <= threshold,
    ensures
        compacted(t, threshold, structured, loose, ts).messages.len() == t.messages.len(),
        compacted(t, threshold, structured, loose, ts).recorder == t.recorder,
{
}

/// The estimate of a message counts a token for every four characters of all that it holds, and four more: the
/// text of a message, an output with the id of its call, and the names and arguments of calls.
pub proof fn law_estimate_counts_everything(m: MessageView)
    ensures
        ({
            let chars: int = match m {
                MessageView::System(s) => s.len() as int,
                MessageView::User(s) => s.len() as int,
                MessageView::Assistant(s) => s.len() as int,
                MessageView::Tool { call_id, content } => (call_id.len() + content.len()) as int,
                MessageView::ToolCalls(cs) => cs.fold_left(
                    0int,
                    |n: int, c: CallView| n + c.name.len() + json_text(c.args).len(),
                ),
            };
            &&& 4 * (message_tokens(m) - 4) >= chars
            &&& 4 * (message_tokens(m) - 4) < chars + 4
        }),
{
    if let MessageView::ToolCalls(cs) = m {
        lemma_calls_chars(cs, |n: int, c: CallView| n + c.name.len() + json_text(c.args).len());
    }
}

proof fn lemma_calls_chars(cs: Seq<CallView>, f: spec_fn(int, CallView) -> int)
    requires
        forall|n: int, c: CallView| #[trigger]
            f(n, c) == n + c.name.len() + json_text(c.args).len(),
    ensures
        cs.fold_left(0int, f) == calls_chars(cs),
    decreases cs.len(),
{
    reveal(Seq::fold_left);
    if cs.len() > 0 {
        lemma_calls_chars(cs.drop_last(), f);
    }
}

/// A longer output makes a larger estimate: every four characters more are one token more.
pub proof fn law_estimate_grows(call_id: Seq<char>, content: Seq<char>, more: Seq<char>)
    ensures
        ({
            let a = message_tokens(MessageView::Tool { call_id, content });
            let b = message_tokens(MessageView::Tool { call_id, content: content + more });
            &&& a <= b
            &&& b >= a + more.len() / 4
        }),
        message_tokens(MessageView::User(content + more)) >= message_tokens(MessageView::User(content))
            + more.len() / 4,
        message_tokens(MessageView::Assistant(content + more)) >= message_tokens(
            MessageView::Assistant(content),
        ) + more.len() / 4,
        message_tokens(MessageView::System(content + more)) >= message_tokens(
            MessageView::System(content),
        ) + more.len() / 4,
{
}

/// The estimate of a history is the sum of those of its messages, wherever it is cut.
pub proof fn law_estimate_adds_up(a: Seq<MessageView>, b: Seq<MessageView>, m: MessageView)
    ensures
        history_tokens(a + b) == history_tokens(a) + history_tokens(b),
        history_tokens(seq![m]) == message_tokens(m),
        history_tokens(Seq::empty()) == 0,
    decreases b.len(),
{
    assert(seq![m].drop_last() =~= Seq::<MessageView>::empty());
    assert(history_tokens(seq![m].drop_last()) == 0);
    if b.len() == 0 {
        assert(a + b =~= a);
    } else {
        assert((a + b).drop_last() =~= a + b.drop_last());
        law_estimate_adds_up(a, b.drop_last(), m);
    }
}

/// An output that is older than the last ones gives way to a note with its length and its call, unless it is
/// such a note already; nothing else changes.
pub proof fn law_elision_note(ms: Seq<MessageView>, keep: nat, i: int)
    requires
        0 <= i < ms.len(),
    ensures
        elided_history(ms, keep).len() == ms.len(),
        ms[i] matches MessageView::Tool { call_id, content } ==> ((i + keep < ms.len() && !starts_with(
            content,
            "[tool result elided"@,
        )) ==> elided_history(ms, keep)[i] == (MessageView::Tool {
            call_id,
            content: "[tool result elided: "@ + dec(byte_len(content)) + " bytes, call_id="@ + call_id
                + "]"@,
        })),
        ms[i] matches MessageView::Tool { call_id, content } ==> ((i + keep >= ms.len() || starts_with(
            content,
            "[tool result elided"@,
        )) ==> elided_history(ms, keep)[i] == ms[i]),
        !(ms[i] is Tool) ==> elided_history(ms, keep)[i] == ms[i],
{
}

/// What a compaction leaves. Old outputs are elided. Where what is left is still beyond the threshold, and more
/// than one message would give way, the first message, a summary and the last eight stay, and they are recorded
/// as the whole history; the structured summary is taken where there is one, the loose one otherwise. Without a
/// summary the elided history stays, and nothing is recorded.
pub proof fn law_compaction_result(
    t: ThreadView,
    threshold: u64,
    structured: Result<Seq<char>, ErrorView>,
    loose: Result<Seq<char>, ErrorView>,
    ts: u64,
)
    ensures
        ({
            let c = compacted(t, threshold, structured, loose, ts);
            let es = elided_history(t.messages, 6);
            let n = es.len();
            let over = history_tokens(es) > threshold && n > 9 && threshold < u64::MAX;
            let ms = |word: Seq<char>, summary: Seq<char>|
                seq![es[0], MessageView::Assistant("【历史摘要·"@ + word + "】\n"@ + summary)] + es.subrange(
                    n - 8,
                    n as int,
                );
            &&& c.todos == t.todos && c.turns == t.turns && c.checkpoints == t.checkpoints
            &&& over && structured is Ok ==> {
                &&& c.messages == ms("L3"@, structured->Ok_0)
                &&& c.recorder == recorded(
                    t.recorder,
                    ts,
                    KindView::Compacted { tier: "L3"@, messages: ms("L3"@, structured->Ok_0) },
                )
            }
            &&& over && structured is Err && loose is Ok ==> {
                &&& c.messages == ms("L2"@, loose->Ok_0)
                &&& c.recorder == recorded(
                    t.recorder,
                    ts,
                    KindView::Compacted { tier: "L2"@, messages: ms("L2"@, loose->Ok_0) },
                )
            }
            &&& !over || (structured is Err && loose is Err) ==> c.messages == es && c.recorder
                == t.recorder
        }),
{
    let es = elided_history(t.messages, 6);
    let n = es.len();
    if n > 9 {
        assert(es.subrange(n - 8, n as int) =~= es.skip(n - 8));
    }
}

/// What is put to the model for a summary shows every message in its order, each under what it is: a line for
/// a text, an output with its call, and a line for each call with its arguments.
pub proof fn law_rendered_in_order(
    a: Seq<MessageView>,
    b: Seq<MessageView>,
    s: Seq<char>,
    id: Seq<char>,
)
    ensures
        rendered(a + b) == rendered(a) + rendered(b),
        rendered(seq![MessageView::System(s)]) == "[system] "@ + s + "\n"@,
        rendered(seq![MessageView::User(s)]) == "[user] "@ + s + "\n"@,
        rendered(seq![MessageView::Assistant(s)]) == "[assistant] "@ + s + "\n"@,
        rendered(seq![MessageView::Tool { call_id: id, content: s }]) == "[tool_result "@ + id + "] "@ + s
            + "\n"@,
    decreases b.len(),
{
    lemma_rendered_one(MessageView::System(s));
    lemma_rendered_one(MessageView::User(s));
    lemma_rendered_one(MessageView::Assistant(s));
    lemma_rendered_one(MessageView::Tool { call_id: id, content: s });
    if b.len() == 0 {
        assert(a + b =~= a);
        assert(rendered(a) + rendered(b) =~= rendered(a));
    } else {
        assert((a + b).drop_last() =~= a + b.drop_last());
        law_rendered_in_order(a, b.drop_last(), s, id);
        assert(rendered(a + b) =~= rendered(a) + rendered(b));
    }
}

proof fn lemma_rendered_one(m: MessageView)
    ensures
        rendered(seq![m]) == message_line(m),
{
    assert(seq![m].drop_last() =~= Seq::<MessageView>::empty());
    assert(rendered(seq![m].drop_last()) =~= Seq::<char>::empty());
    assert(Seq::<char>::empty() + message_line(m) =~= message_line(m));
}

/// Every call of a message has its line, in the order of the calls.
pub proof fn law_calls_rendered(cs: Seq<CallView>, c: CallView)
    ensures
        rendered(seq![MessageView::ToolCalls(cs.push(c))]) == rendered(seq![MessageView::ToolCalls(cs)]) + (
        "[tool_call] "@ + c.name + "("@ + json_text(c.args) + ")\n"@),
        rendered(seq![MessageView::ToolCalls(Seq::empty())]).len() == 0,
{
    lemma_rendered_one(MessageView::ToolCalls(cs.push(c)));
    lemma_rendered_one(MessageView::ToolCalls(cs));
    lemma_rendered_one(MessageView::ToolCalls(Seq::empty()));
    assert(cs.push(c).drop_last() =~= cs);
}

/// The text of a stream is that of its text events, one after the other; other events add nothing to it.
pub proof fn law_text_collected(a: Seq<Event>, b: Seq<Event>, e: Event)
    ensures
        text_of(a + b) == text_of(a) + text_of(b),
        e matches Event::TextDelta(s) ==> text_of(seq![e]) == s@,
        !(e is TextDelta) ==> text_of(seq![e]).len() == 0,
    decreases b.len(),
{
    assert(seq![e].drop_last() =~= Seq::<Event>::empty());
    assert(text_of(seq![e].drop_last()) =~= Seq::<char>::empty());
    if let Event::TextDelta(s) = e {
        assert(text_of(seq![e]) =~= s@);
    }
    if b.len() == 0 {
        assert(a + b =~= a);
        assert(text_of(a) + text_of(b) =~= text_of(a));
    } else {
        assert((a + b).drop_last() =~= a + b.drop_last());
        law_text_collected(a, b.drop_last(), e);
        assert(text_of(a + b) =~= text_of(a) + text_of(b));
    }
}

/// A title is the first line of the answer without the blanks around it and without the quotation marks at
/// its ends: nothing else is taken away.
pub proof fn law_title_unquoted(answer: Seq<char>)
    ensures
        ({
            let line = trim(first_line(answer));
            let title = title_in(answer);
            &&& title.len() > 0 ==> title[0] != '"' && title.last() != '"'
            &&& exists|i: int, j: int|
                0 <= i <= j <= line.len() && title == #[trigger] line.subrange(i, j) && (forall|k: int|
                    0 <= k < line.len() && !(i <= k < j) ==> (#[trigger] line[k]) == '"')
        }),
{
    let line = trim(first_line(answer));
    let i = lemma_unquote_start(line);
    let rest = line.skip(i);
    let j = lemma_unquote_end(rest);
    assert(rest.take(j) =~= line.subrange(i, i + j));
    assert forall|k: int| 0 <= k < line.len() && !(i <= k < i + j) implies (#[trigger] line[k]) == '"' by {
        if k >= i + j {
            assert(rest[k - i] == '"');
        }
    }
}

proof fn lemma_unquote_start(s: Seq<char>) -> (i: int)
    ensures
        0 <= i <= s.len(),
        unquote_start(s) == s.skip(i),
        forall|k: int| 0 <= k < i ==> (#[trigger] s[k]) == '"',
        i < s.len() ==> s[i] != '"',
    decreases s.len(),
{
    if s.len() > 0 && s[0] == '"' {
        let t = s.skip(1);
        let i = lemma_unquote_start(t);
        assert(t.skip(i) =~= s.skip(i + 1));
        assert forall|k: int| 0 <= k < i + 1 implies (#[trigger] s[k]) == '"' by {
            if k > 0 {
                assert(t[k - 1] == '"');
            }
        }
        i + 1
    } else {
        assert(s.skip(0) =~= s);
        0
    }
}

proof fn lemma_unquote_end(s: Seq<char>) -> (j: int)
    ensures
        0 <= j <= s.len(),
        unquote_end(s) == s.take(j),
        forall|k: int| j <= k < s.len() ==> (#[trigger] s[k]) == '"',
        j > 0 ==> s[j - 1] != '"',
    decreases s.len(),
{
    if s.len() > 0 && s.last() == '"' {
        let t = s.drop_last();
        let j = lemma_unquote_end(t);
        assert(t.take(j) =~= s.take(j));
        assert forall|k: int| j <= k < s.len() implies (#[trigger] s[k]) == '"' by {
            if k < t.len() {
                assert(t[k] == '"');
            }
        }
        j
    } else {
        assert(s.take(s.len() as int) =~= s);
        s.len() as int
    }
}

/// What is told of a compaction: how far the old outputs were cut, that a summary took the place of the old messages
/// and what is left, or why there is none and what is done about it.
pub proof fn law_compaction_told(before: u64, after: u64, tokens: u64, e: ErrorView)
    ensures
        l1_notice(before, after) == "[compact] L1 elided old tool outputs: ~"@ + dec(before as nat) + " → ~"@ + dec(
            after as nat,
        ) + " tokens (est)"@,
        tier_applied(Tier::L3, tokens) == "[compact] "@ + "L3"@ + " rolling summary applied: ~"@ + dec(
            tokens as nat,
        ) + " tokens (est)"@,
        tier_applied(Tier::L2, tokens) == "[compact] "@ + "L2"@ + " rolling summary applied: ~"@ + dec(
            tokens as nat,
        ) + " tokens (est)"@,
        tier_failed(Tier::L3, e) == "[compact] L3 structured summary failed ("@ + error_text(e) + "); trying L2"@,
        tier_failed(Tier::L2, e) == "[compact] L2 summary failed ("@ + error_text(e) + "); kept L1-only result"@,
{
}

/// A summary takes the place of the old messages, is recorded and told with what is left; without one the thread
/// stays as it is, and it is told why.
pub proof fn law_summary_put(
    t: ThreadView,
    keep: nat,
    tier: Tier,
    s: Seq<char>,
    e: ErrorView,
    ts: u64,
)
    requires
        t.messages.len() > keep + 1,
    ensures
        ({
            let (u, shown) = after_summary(t, keep, tier, Ok(s), ts);
            let word = if tier is L2 {
                "L2"@
            } else {
                "L3"@
            };
            let ms = seq![t.messages[0], MessageView::Assistant("【历史摘要·"@ + word + "】\n"@ + s)]
                + t.messages.skip(t.messages.len() - keep);
            &&& u.messages == ms
            &&& u.messages.len() == keep + 2
            &&& u.recorder == recorded(t.recorder, ts, KindView::Compacted { tier: word, messages: ms })
            &&& u.todos == t.todos && u.turns == t.turns && u.checkpoints == t.checkpoints
            &&& history_tokens(ms) <= u64::MAX ==> shown == UiView::Notice(
                "[compact] "@ + word + " rolling summary applied: ~"@ + dec(history_tokens(ms))
                    + " tokens (est)"@,
            )
        }),
        after_summary(t, keep, tier, Err(e), ts).0 == t,
        after_summary(t, keep, tier, Err(e), ts).1 == UiView::Notice(tier_failed(tier, e)),
{
}

/// What is summarised is what lies between the first message and the latest ones; the three parts are the thread.
pub proof fn law_thread_cut(c: Cut, ms: Seq<MessageView>, keep: nat)
    requires
        ms.len() > keep + 1,
        cut_of(c, ms, keep),
    ensures
        seq![c.head@] + message_views(c.middle@) + message_views(c.recent@) == ms,
        c.recent@.len() == keep,
        splits(ms, keep),
{
    assert(message_views(c.recent@).len() == keep);
}

/// A history is summarised where it is over the limit and has more than the first message and the latest eight.
pub proof fn law_when_summarised(ms: Seq<MessageView>, threshold: u64)
    requires
        history_tokens(ms) <= u64::MAX,
    ensures
        needs_summary(ms, threshold) <==> history_tokens(ms) > threshold && ms.len() > 9,
{
}

/// A summary is asked of the model in one message with the text under a heading, without tools and without thought,
/// and with a limit on its length.
pub proof fn law_summary_asked(
    r: ChatRequest,
    text: Seq<char>,
    system: Seq<char>,
    max_tokens: u32,
    model: Seq<char>,
)
    requires
        is_summary_request(r, text, system, max_tokens, model),
    ensures
        r.model_api_name@ == model,
        r.system@.len() == 1 && r.system@[0]@ == system,
        r.messages@.len() == 1 && r.messages@[0]@ == MessageView::User("【待压缩历史】\n"@ + text),
        r.tools@.len() == 0,
        r.reasoning is None,
        r.max_output_tokens == Some(max_tokens),
{
    assert(texts(r.system@).len() == r.system@.len());
    assert(texts(r.system@)[0] == r.system@[0]@);
    assert(message_views(r.messages@).len() == r.messages@.len());
    assert(message_views(r.messages@)[0] == r.messages@[0]@);
}

/// The summary is all the text that came, unless it is blank.
pub proof fn law_summary_taken(evs: Seq<Event>)
    ensures
        is_blank(text_of(evs)) ==> summary_of(evs) == Err::<Seq<char>, ErrorView>(
            ErrorView::Provider("summary returned empty text"@),
        ),
        !is_blank(text_of(evs)) ==> summary_of(evs) == Ok::<Seq<char>, ErrorView>(text_of(evs)),
{
}

} // verus!
