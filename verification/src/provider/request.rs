//! Conversation messages and model requests.

use super::event::{call_views, dup_calls, CallView, ToolCall};
use crate::json::{Json, JsonView};
use crate::registry::model::ReasoningEffort;
use vstd::prelude::*;

verus! {

/// A conversation message.
#[derive(Debug)]
pub enum Message {
    System(String),
    User(String),
    Assistant(String),
    /// The tool calls that the assistant asked for.
    ToolCalls(Vec<ToolCall>),
    /// The answer to one tool call.
    Tool { call_id: String, content: String },
}

/// What a message holds.
pub enum MessageView {
    System(Seq<char>),
    User(Seq<char>),
    Assistant(Seq<char>),
    ToolCalls(Seq<CallView>),
    Tool { call_id: Seq<char>, content: Seq<char> },
}

impl View for Message {
    type V = MessageView;

    open spec fn view(&self) -> MessageView {
        match *self {
            Message::System(s) => MessageView::System(s@),
            Message::User(s) => MessageView::User(s@),
            Message::Assistant(s) => MessageView::Assistant(s@),
            Message::ToolCalls(c) => MessageView::ToolCalls(call_views(c@)),
            Message::Tool { call_id, content } => MessageView::Tool {
                call_id: call_id@,
                content: content@,
            },
        }
    }
}

/// The views of a list of messages.
pub open spec fn message_views(v: Seq<Message>) -> Seq<MessageView> {
    v.map_values(|m: Message| m@)
}

/// The views of a list of messages with one message added at the end.
pub broadcast proof fn message_views_push(v: Seq<Message>, m: Message)
    ensures
        #[trigger] message_views(v.push(m)) == message_views(v).push(m@),
{
    assert(message_views(v.push(m)) =~= message_views(v).push(m@));
}

impl Message {
    /// A copy of the message.
    pub fn dup(&self) -> (r: Message)
        ensures
            r@ == self@,
    {
        match self {
            Message::System(s) => Message::System(s.clone()),
            Message::User(s) => Message::User(s.clone()),
            Message::Assistant(s) => Message::Assistant(s.clone()),
            Message::ToolCalls(c) => Message::ToolCalls(dup_calls(c)),
            Message::Tool { call_id, content } => Message::Tool {
                call_id: call_id.clone(),
                content: content.clone(),
            },
        }
    }
}

/// A copy of a list of messages.
pub fn dup_messages(v: &Vec<Message>) -> (r: Vec<Message>)
    ensures
        message_views(r@) == message_views(v@),
        r@.len() == v@.len(),
{
    broadcast use message_views_push;

    let mut out: Vec<Message> = Vec::new();
    let mut i: usize = 0;
    while i < v.len()
        invariant
            i <= v@.len(),
            message_views(out@) == message_views(v@).take(i as int),
        decreases v@.len() - i,
    {
        broadcast use message_views_push;

        out.push(v[i].dup());
        assert(message_views(v@).take(i + 1) =~= message_views(v@).take(i as int).push(
            v@[i as int]@,
        ));
        i += 1;
    }
    assert(message_views(v@).take(i as int) =~= message_views(v@));
    assert(message_views(out@).len() == out@.len());
    out
}

/// A tool as the model is told of it.
#[derive(Debug)]
pub struct ToolSpec {
    pub name: String,
    pub description: String,
    pub parameters: Json,
}

/// What a tool declaration holds.
pub struct ToolSpecView {
    pub name: Seq<char>,
    pub description: Seq<char>,
    pub parameters: JsonView,
}

impl View for ToolSpec {
    type V = ToolSpecView;

    open spec fn view(&self) -> ToolSpecView {
        ToolSpecView {
            name: self.name@,
            description: self.description@,
            parameters: self.parameters@,
        }
    }
}

/// The views of a list of tool declarations.
pub open spec fn spec_views(v: Seq<ToolSpec>) -> Seq<ToolSpecView> {
    v.map_values(|t: ToolSpec| t@)
}

/// A copy of a list of tool declarations.
pub fn dup_specs(v: &Vec<ToolSpec>) -> (r: Vec<ToolSpec>)
    ensures
        spec_views(r@) == spec_views(v@),
{
    let mut out: Vec<ToolSpec> = Vec::new();
    let mut i: usize = 0;
    while i < v.len()
        invariant
            i <= v@.len(),
            spec_views(out@) == spec_views(v@).take(i as int),
        decreases v@.len() - i,
    {
        let t = ToolSpec {
            name: v[i].name.clone(),
            description: v[i].description.clone(),
            parameters: v[i].parameters.dup(),
        };
        let ghost before = spec_views(out@);
        out.push(t);
        assert(spec_views(out@) =~= before.push(t@));
        assert(spec_views(v@).take(i + 1) =~= spec_views(v@).take(i as int).push(v@[i as int]@));
        i += 1;
    }
    assert(spec_views(v@).take(i as int) =~= spec_views(v@));
    out
}

/// One request to a model.
#[derive(Debug)]
pub struct ChatRequest {
    /// The model's name at its provider.
    pub model_api_name: String,
    /// The system segments, in order; none where the request carries no system prompt.
    pub system: Vec<String>,
    pub messages: Vec<Message>,
    pub tools: Vec<ToolSpec>,
    pub reasoning: Option<ReasoningEffort>,
    pub max_output_tokens: Option<u32>,
}

} // verus!
