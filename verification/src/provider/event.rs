//! Normalised stream events.

use crate::json::{Json, JsonView};
use vstd::prelude::*;

verus! {

/// A stream event, whatever provider it came from.
#[derive(Debug)]
pub enum Event {
    /// More assistant text.
    TextDelta(String),
    /// More reasoning text.
    ThinkingDelta(String),
    /// A complete tool call.
    ToolCall(ToolCall),
    /// A usage snapshot.
    Usage(Usage),
    /// The end of the stream, and why it ended.
    Done(StopReason),
}

/// Why a stream ended.
#[derive(Debug)]
pub enum StopReason {
    EndTurn,
    ToolUse,
    MaxTokens,
    Stop,
    Other(String),
}

/// What a reason holds.
pub enum StopView {
    EndTurn,
    ToolUse,
    MaxTokens,
    Stop,
    Other(Seq<char>),
}

impl View for StopReason {
    type V = StopView;

    open spec fn view(&self) -> StopView {
        match *self {
            StopReason::EndTurn => StopView::EndTurn,
            StopReason::ToolUse => StopView::ToolUse,
            StopReason::MaxTokens => StopView::MaxTokens,
            StopReason::Stop => StopView::Stop,
            StopReason::Other(s) => StopView::Other(s@),
        }
    }
}

/// What an event holds.
pub enum EventView {
    TextDelta(Seq<char>),
    ThinkingDelta(Seq<char>),
    ToolCall(CallView),
    Usage(Usage),
    Done(StopView),
}

impl View for Event {
    type V = EventView;

    open spec fn view(&self) -> EventView {
        match *self {
            Event::TextDelta(s) => EventView::TextDelta(s@),
            Event::ThinkingDelta(s) => EventView::ThinkingDelta(s@),
            Event::ToolCall(c) => EventView::ToolCall(c@),
            Event::Usage(u) => EventView::Usage(u),
            Event::Done(r) => EventView::Done(r@),
        }
    }
}

/// What a list of events holds.
pub open spec fn event_views(v: Seq<Event>) -> Seq<EventView> {
    v.map_values(|e: Event| e@)
}

/// Token counts.
#[derive(Clone, Copy, Debug, PartialEq, Eq, Structural)]
pub struct Usage {
    pub input: u64,
    pub output: u64,
    pub cache_read: u64,
    pub cache_write: u64,
    /// Reasoning tokens, which `output` already counts.
    pub reasoning: u64,
}

/// No tokens at all.
pub open spec fn no_usage() -> Usage {
    Usage { input: 0, output: 0, cache_read: 0, cache_write: 0, reasoning: 0 }
}

/// Two usages can be added without leaving 64 bits.
pub open spec fn usages_fit(a: Usage, b: Usage) -> bool {
    &&& a.input + b.input <= u64::MAX
    &&& a.output + b.output <= u64::MAX
    &&& a.cache_read + b.cache_read <= u64::MAX
    &&& a.cache_write + b.cache_write <= u64::MAX
    &&& a.reasoning + b.reasoning <= u64::MAX
}

/// The sum of two usages, field by field.
pub open spec fn usage_sum(a: Usage, b: Usage) -> Usage {
    Usage {
        input: (a.input + b.input) as u64,
        output: (a.output + b.output) as u64,
        cache_read: (a.cache_read + b.cache_read) as u64,
        cache_write: (a.cache_write + b.cache_write) as u64,
        reasoning: (a.reasoning + b.reasoning) as u64,
    }
}

impl Default for Usage {
    fn default() -> (r: Usage)
        ensures
            r == no_usage(),
    {
        Usage { input: 0, output: 0, cache_read: 0, cache_write: 0, reasoning: 0 }
    }
}

impl Usage {
    /// Adds `other`, field by field.
    pub fn add(&mut self, other: &Usage)
        requires
            usages_fit(*old(self), *other),
        ensures
            *final(self) == usage_sum(*old(self), *other),
    {
        self.input = self.input + other.input;
        self.output = self.output + other.output;
        self.cache_read = self.cache_read + other.cache_read;
        self.cache_write = self.cache_write + other.cache_write;
        self.reasoning = self.reasoning + other.reasoning;
    }

    /// Whether `add` can add `other`.
    pub fn fits(&self, other: &Usage) -> (r: bool)
        ensures
            r == usages_fit(*self, *other),
    {
        self.input <= u64::MAX - other.input && self.output <= u64::MAX - other.output
            && self.cache_read <= u64::MAX - other.cache_read && self.cache_write <= u64::MAX
            - other.cache_write && self.reasoning <= u64::MAX - other.reasoning
    }
}

/// A tool call that the model asks for.
#[derive(Debug)]
pub struct ToolCall {
    pub id: String,
    pub name: String,
    pub args: Json,
}

/// What a tool call holds.
pub struct CallView {
    pub id: Seq<char>,
    pub name: Seq<char>,
    pub args: JsonView,
}

impl View for ToolCall {
    type V = CallView;

    open spec fn view(&self) -> CallView {
        CallView { id: self.id@, name: self.name@, args: self.args@ }
    }
}

/// The views of a list of tool calls.
pub open spec fn call_views(v: Seq<ToolCall>) -> Seq<CallView> {
    v.map_values(|c: ToolCall| c@)
}

impl ToolCall {
    /// A copy of the call.
    pub fn dup(&self) -> (r: ToolCall)
        ensures
            r@ == self@,
    {
        ToolCall { id: self.id.clone(), name: self.name.clone(), args: self.args.dup() }
    }
}

/// A copy of a list of calls.
pub fn dup_calls(v: &Vec<ToolCall>) -> (r: Vec<ToolCall>)
    ensures
        call_views(r@) == call_views(v@),
        r@.len() == v@.len(),
{
    let mut out: Vec<ToolCall> = Vec::new();
    let mut i: usize = 0;
    while i < v.len()
        invariant
            i <= v@.len(),
            call_views(out@) == call_views(v@).take(i as int),
        decreases v@.len() - i,
    {
        let c = v[i].dup();
        let ghost before = call_views(out@);
        out.push(c);
        assert(call_views(out@) =~= before.push(c@));
        assert(call_views(v@).take(i + 1) =~= call_views(v@).take(i as int).push(v@[i as int]@));
        i += 1;
    }
    assert(call_views(v@).take(i as int) =~= call_views(v@));
    assert(call_views(out@).len() == out@.len());
    out
}

/// Adding usages one after the other adds up, in whichever order they come.
pub proof fn law_usage_sum_order(a: Usage, b: Usage, c: Usage)
    requires
        usages_fit(a, b),
        usages_fit(usage_sum(a, b), c),
    ensures
        usages_fit(a, c),
        usages_fit(usage_sum(a, c), b),
        usage_sum(usage_sum(a, b), c) == usage_sum(usage_sum(a, c), b),
        usage_sum(no_usage(), a) == a,
{
}

/// The tokens of two rounds are added up kind by kind.
pub proof fn law_usage_added(a: Usage, b: Usage)
    requires
        usages_fit(a, b),
    ensures
        usage_sum(a, b).input == a.input + b.input,
        usage_sum(a, b).output == a.output + b.output,
        usage_sum(a, b).cache_read == a.cache_read + b.cache_read,
        usage_sum(a, b).cache_write == a.cache_write + b.cache_write,
        usage_sum(a, b).reasoning == a.reasoning + b.reasoning,
        no_usage().input == 0 && no_usage().output == 0 && no_usage().cache_read == 0
            && no_usage().cache_write == 0 && no_usage().reasoning == 0,
{
}

} // verus!
