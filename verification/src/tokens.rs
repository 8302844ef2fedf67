//! How many tokens texts and messages take: with the tokenizer of the model where there is one, roughly
//! where there is none. Only the decision when to compact rests on these numbers.

use crate::agent::context::held;
use crate::json::json_text;
use crate::provider::event::{call_views, CallView, ToolCall};
use crate::provider::request::{message_views, Message, MessageView};
use crate::split::{join, join_strings, law_joined};
use crate::text::{lower_str, lower_text, str_eq, texts, texts_push};
use vstd::prelude::*;

verus! {

/// The encodings that are known.
#[derive(Clone, Copy, Debug, PartialEq, Eq, Structural)]
pub enum Encoding {
    Cl100k,
    O200k,
    P50k,
}

/// The encoding of a tokenizer.
pub open spec fn encoding_of(tokenizer: Seq<char>) -> Option<Encoding> {
    let t = lower_text(tokenizer);
    if t == "cl100k"@ || t == "cl100k_base"@ || t == "anthropic"@ {
        Some(Encoding::Cl100k)
    } else if t == "o200k"@ || t == "o200k_base"@ || t == "o1"@ || t == "o3"@ {
        Some(Encoding::O200k)
    } else if t == "p50k"@ || t == "p50k_base"@ {
        Some(Encoding::P50k)
    } else {
        None
    }
}

/// The encoding of a tokenizer.
pub fn encoder_for(tokenizer: &str) -> (r: Option<Encoding>)
    ensures
        r == encoding_of(tokenizer@),
{
    let low = lower_str(tokenizer);
    let t = low.as_str();
    if str_eq(t, "cl100k") || str_eq(t, "cl100k_base") || str_eq(t, "anthropic") {
        Some(Encoding::Cl100k)
    } else if str_eq(t, "o200k") || str_eq(t, "o200k_base") || str_eq(t, "o1") || str_eq(t, "o3") {
        Some(Encoding::O200k)
    } else if str_eq(t, "p50k") || str_eq(t, "p50k_base") {
        Some(Encoding::P50k)
    } else {
        None
    }
}

/// The number of `cl100k_base` tokens of a text, special tokens included; none where it cannot be split.
pub uninterp spec fn cl100k_count(text: Seq<char>) -> Option<u64>;

/// The number of `o200k_base` tokens of a text, special tokens included; none where it cannot be split.
pub uninterp spec fn o200k_count(text: Seq<char>) -> Option<u64>;

/// The number of `p50k_base` tokens of a text, special tokens included; none where it cannot be split.
pub uninterp spec fn p50k_count(text: Seq<char>) -> Option<u64>;

/// `CoreBPE::encode` of `tiktoken_rs::cl100k_base_singleton` with all special tokens allowed: how many
/// tokens it gives is a function of the text, and it fails where its regular expression does.
#[verifier::external_body]
fn count_cl100k(text: &str) -> (r: Option<u64>)
    ensures
        r == cl100k_count(text@),
{
    let bpe = tiktoken_rs::cl100k_base_singleton();
    bpe.encode(text, &bpe.special_tokens()).ok().map(|t| t.0.len() as u64)
}

/// `CoreBPE::encode` of `tiktoken_rs::o200k_base_singleton` with all special tokens allowed: how many
/// tokens it gives is a function of the text, and it fails where its regular expression does.
#[verifier::external_body]
fn count_o200k(text: &str) -> (r: Option<u64>)
    ensures
        r == o200k_count(text@),
{
    let bpe = tiktoken_rs::o200k_base_singleton();
    bpe.encode(text, &bpe.special_tokens()).ok().map(|t| t.0.len() as u64)
}

/// `CoreBPE::encode` of `tiktoken_rs::p50k_base_singleton` with all special tokens allowed: how many
/// tokens it gives is a function of the text, and it fails where its regular expression does.
#[verifier::external_body]
fn count_p50k(text: &str) -> (r: Option<u64>)
    ensures
        r == p50k_count(text@),
{
    let bpe = tiktoken_rs::p50k_base_singleton();
    bpe.encode(text, &bpe.special_tokens()).ok().map(|t| t.0.len() as u64)
}

/// A quarter of the characters, rounded up.
pub open spec fn rough(text: Seq<char>) -> u64 {
    ((text.len() + 3) / 4) as u64
}

/// The count, or a rough one where there is none.
pub open spec fn count_or_rough(n: Option<u64>, text: Seq<char>) -> u64 {
    match n {
        Some(n) => n,
        None => rough(text),
    }
}

/// The count, or a rough one where there is none.
pub fn or_rough(n: Option<u64>, text: &str) -> (r: u64)
    ensures
        r == count_or_rough(n, text@),
{
    match n {
        Some(n) => n,
        None => {
            let c: u64 = text.unicode_len() as u64;
            if c % 4 == 0 {
                c / 4
            } else {
                c / 4 + 1
            }
        },
    }
}

/// The number of tokens of a text under a tokenizer.
pub open spec fn token_count(text: Seq<char>, tokenizer: Seq<char>) -> u64 {
    match encoding_of(tokenizer) {
        Some(Encoding::Cl100k) => count_or_rough(cl100k_count(text), text),
        Some(Encoding::O200k) => count_or_rough(o200k_count(text), text),
        Some(Encoding::P50k) => count_or_rough(p50k_count(text), text),
        None => rough(text),
    }
}

/// The number of tokens of a text under a tokenizer.
pub fn count_text(text: &str, tokenizer: &str) -> (r: u64)
    ensures
        r == token_count(text@, tokenizer@),
{
    let n = match encoder_for(tokenizer) {
        Some(Encoding::Cl100k) => count_cl100k(text),
        Some(Encoding::O200k) => count_o200k(text),
        Some(Encoding::P50k) => count_p50k(text),
        None => None,
    };
    or_rough(n, text)
}

/// A call as it is counted.
pub open spec fn call_line(c: CallView) -> Seq<char> {
    "[call:"@ + c.id + "] "@ + c.name + "("@ + json_text(c.args) + ")"@
}

/// A message as it is counted.
pub open spec fn counting_text(m: MessageView) -> Seq<char> {
    match m {
        MessageView::System(s) => s,
        MessageView::User(s) => s,
        MessageView::Assistant(s) => s,
        MessageView::Tool { call_id, content } => "[tool:"@ + call_id + "] "@ + content,
        MessageView::ToolCalls(calls) => join(calls.map_values(|c: CallView| call_line(c)), "\n"@),
    }
}

fn call_lines(calls: &Vec<ToolCall>) -> (r: Vec<String>)
    ensures
        texts(r@) == call_views(calls@).map_values(|c: CallView| call_line(c)),
{
    let ghost f = |c: CallView| call_line(c);
    let ghost cv = call_views(calls@);
    let mut out: Vec<String> = Vec::new();
    let mut i: usize = 0;
    assert(texts(out@) =~= cv.map_values(f).take(0));
    while i < calls.len()
        invariant
            i <= calls@.len(),
            cv == call_views(calls@),
            f == |c: CallView| call_line(c),
            texts(out@) == cv.map_values(f).take(i as int),
        decreases calls@.len() - i,
    {
        broadcast use texts_push;

        let c = &calls[i];
        let mut s = "[call:".to_owned();
        s.append(c.id.as_str());
        s.append("] ");
        s.append(c.name.as_str());
        s.append("(");
        s.append(c.args.to_text().as_str());
        s.append(")");
        assert(cv[i as int] == c@);
        assert(cv.map_values(f).take(i + 1) =~= cv.map_values(f).take(i as int).push(s@));
        out.push(s);
        i += 1;
    }
    assert(cv.map_values(f).take(i as int) =~= cv.map_values(f));
    out
}

/// A message as it is counted.
pub fn render_for_counting(msg: &Message) -> (r: String)
    ensures
        r@ == counting_text(msg@),
{
    match msg {
        Message::System(s) => s.clone(),
        Message::User(s) => s.clone(),
        Message::Assistant(s) => s.clone(),
        Message::Tool { call_id, content } => {
            let mut s = "[tool:".to_owned();
            s.append(call_id.as_str());
            s.append("] ");
            s.append(content.as_str());
            s
        },
        Message::ToolCalls(calls) => {
            let ls = call_lines(calls);
            join_strings(&ls, "\n")
        },
    }
}

/// The number of tokens of a message.
pub fn estimate_message(msg: &Message, tokenizer: &str) -> (r: u64)
    ensures
        r == token_count(counting_text(msg@), tokenizer@),
{
    let text = render_for_counting(msg);
    count_text(text.as_str(), tokenizer)
}

/// The number of tokens of messages, with four more for each.
pub open spec fn messages_count(ms: Seq<MessageView>, tokenizer: Seq<char>) -> nat
    decreases ms.len(),
{
    if ms.len() == 0 {
        0
    } else {
        messages_count(ms.drop_last(), tokenizer) + token_count(counting_text(ms.last()), tokenizer)
            as nat + 4
    }
}

/// The number of tokens of messages, with four more for each, as far as 64 bits hold it.
pub fn estimate_messages(messages: &Vec<Message>, tokenizer: &str) -> (r: u64)
    ensures
        r == held(messages_count(message_views(messages@), tokenizer@)),
{
    let ghost mv = message_views(messages@);
    let mut n: u64 = 0;
    let mut i: usize = 0;
    assert(mv.take(0) =~= Seq::<MessageView>::empty());
    while i < messages.len()
        invariant
            i <= messages@.len(),
            mv == message_views(messages@),
            n == held(messages_count(mv.take(i as int), tokenizer@)),
        decreases messages@.len() - i,
    {
        assert(mv.take(i + 1).drop_last() =~= mv.take(i as int));
        assert(mv.take(i + 1).last() == messages@[i as int]@);
        let e: u64 = estimate_message(&messages[i], tokenizer);
        n = if e > u64::MAX - 4 || n > u64::MAX - (e + 4) {
            u64::MAX
        } else {
            n + (e + 4)
        };
        i += 1;
    }
    assert(mv.take(i as int) =~= mv);
    n
}

/// The tokenizers are known by these names, in whatever case they are written, and by no others.
pub proof fn law_tokenizers_known(t: Seq<char>)
    ensures
        encoding_of(t) == Some(Encoding::Cl100k) <==> lower_text(t) == "cl100k"@ || lower_text(t)
            == "cl100k_base"@ || lower_text(t) == "anthropic"@,
        encoding_of(t) == Some(Encoding::O200k) <==> lower_text(t) == "o200k"@ || lower_text(t)
            == "o200k_base"@ || lower_text(t) == "o1"@ || lower_text(t) == "o3"@,
        encoding_of(t) == Some(Encoding::P50k) <==> lower_text(t) == "p50k"@ || lower_text(t)
            == "p50k_base"@,
{
    reveal_strlit("cl100k");
    reveal_strlit("cl100k_base");
    reveal_strlit("anthropic");
    reveal_strlit("o200k");
    reveal_strlit("o200k_base");
    reveal_strlit("o1");
    reveal_strlit("o3");
    reveal_strlit("p50k");
    reveal_strlit("p50k_base");
    assert("cl100k"@[0] == 'c' && "cl100k_base"@[0] == 'c' && "anthropic"@[0] == 'a');
    assert("o200k"@[0] == 'o' && "o200k_base"@[0] == 'o' && "o1"@[0] == 'o' && "o3"@[0] == 'o');
    assert("p50k"@[0] == 'p' && "p50k_base"@[0] == 'p');
}

/// A text is counted by its tokenizer; where there is none, or it cannot be had, four characters count as a token,
/// and what is left over as one more.
pub proof fn law_tokens_counted(text: Seq<char>, t: Seq<char>, n: u64)
    requires
        text.len() <= u64::MAX,
    ensures
        encoding_of(t) is None ==> token_count(text, t) == (text.len() + 3) / 4,
        encoding_of(t) == Some(Encoding::Cl100k) && cl100k_count(text) == Some(n) ==> token_count(text, t)
            == n,
        encoding_of(t) == Some(Encoding::O200k) && o200k_count(text) == Some(n) ==> token_count(text, t)
            == n,
        encoding_of(t) == Some(Encoding::P50k) && p50k_count(text) == Some(n) ==> token_count(text, t) == n,
        encoding_of(t) == Some(Encoding::Cl100k) && cl100k_count(text) is None ==> token_count(text, t) == (
        text.len() + 3) / 4,
        encoding_of(t) == Some(Encoding::O200k) && o200k_count(text) is None ==> token_count(text, t) == (
        text.len() + 3) / 4,
        encoding_of(t) == Some(Encoding::P50k) && p50k_count(text) is None ==> token_count(text, t) == (
        text.len() + 3) / 4,
{
}

/// Of a message all is counted that is sent: what is said, the number of the call that is answered and the answer,
/// and each call with its number, its name and its arguments on a line of its own.
pub proof fn law_text_counted(s: Seq<char>, id: Seq<char>, calls: Seq<CallView>, c: CallView)
    ensures
        counting_text(MessageView::System(s)) == s,
        counting_text(MessageView::User(s)) == s,
        counting_text(MessageView::Assistant(s)) == s,
        counting_text(MessageView::Tool { call_id: id, content: s }) == "[tool:"@ + id + "] "@ + s,
        counting_text(MessageView::ToolCalls(seq![c])) == "[call:"@ + c.id + "] "@ + c.name + "("@ + json_text(
            c.args,
        ) + ")"@,
        calls.len() > 0 ==> counting_text(MessageView::ToolCalls(calls.push(c))) == counting_text(
            MessageView::ToolCalls(calls),
        ) + "\n"@ + counting_text(MessageView::ToolCalls(seq![c])),
        counting_text(MessageView::ToolCalls(Seq::empty())).len() == 0,
{
    let f = |c: CallView| call_line(c);
    assert(seq![c].map_values(f) =~= seq![call_line(c)]);
    assert(calls.push(c).map_values(f) =~= calls.map_values(f).push(call_line(c)));
    assert(Seq::<CallView>::empty().map_values(f) =~= Seq::empty());
    law_joined(calls.map_values(f), call_line(c), "\n"@);
}

/// The messages of a thread are counted one by one, and each costs four tokens more than its text.
pub proof fn law_messages_counted(ms: Seq<MessageView>, m: MessageView, t: Seq<char>)
    ensures
        messages_count(ms.push(m), t) == messages_count(ms, t) + token_count(counting_text(m), t) + 4,
        messages_count(Seq::empty(), t) == 0,
{
    assert(ms.push(m).drop_last() =~= ms);
}

} // verus!
