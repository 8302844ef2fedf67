//! A turn: the model is asked, its stream is taken in, its tool calls are run and answered, and it is
//! asked again, until it calls no tool or a limit is reached.

use super::checkpoint::{mutating_paths, paths_changed};
use super::thread::{appended, with_todos, Thread, ThreadView};
use super::ui::{
    first_line, first_line_of, shortened, opt_ui, started_event, tool_call_started, truncate_inline,
    ui_views, ui_views_push, UiEvent, UiView,
};
use crate::hooks::registry::HookRegistry;
use crate::hooks::types::{DecisionView, HookDecision, HookEvent};
use crate::json::{jobj1, jobj2, jobj3, jobj4, jobj5, jstr, juint, member, text_member, Json, JsonView, NumberView};
use crate::provider::event::{
    call_views, dup_calls, no_usage, usage_sum, usages_fit, CallView, Event, StopReason, ToolCall,
    Usage,
};
use crate::provider::request::{
    dup_messages, dup_specs, message_views, message_views_push, spec_views, ChatRequest, Message,
    MessageView, ToolSpec, ToolSpecView,
};
use crate::registry::model::{Capability, ModelInfo, Pricing};
use crate::session::record::{capped, KindView, RecordView};
use crate::text::{copy_strings, opt_text, str_eq, texts};
use crate::tools::args::{concurrent_safe, is_concurrent_safe, model_text, ToolResult};
use crate::tools::todo_write::{
    dup_todos, parse_todos, parsed_todos, todo_views, TodoItem, TodoStatus, TodoView,
};
use vstd::prelude::*;

verus! {

/// Where a turn stands.
#[derive(Clone, Copy, Debug, PartialEq, Eq, Structural)]
pub enum TurnState {
    Idle,
    Building,
    Streaming,
    Finalizing,
    Done,
    Cancelled,
}

/// How a turn ended.
#[derive(Debug)]
pub enum TurnOutcome {
    /// The model answered without calling a tool.
    Assistant,
    /// A limit was reached.
    Limit,
    /// The user broke it off.
    Cancelled,
    /// It failed.
    Error(String),
}

/// How a turn ended, without the error's text.
#[derive(Clone, Copy, Debug, PartialEq, Eq, Structural)]
pub enum OutcomeView {
    Assistant,
    Limit,
    Cancelled,
    Error,
}

impl View for TurnOutcome {
    type V = OutcomeView;

    open spec fn view(&self) -> OutcomeView {
        match *self {
            TurnOutcome::Assistant => OutcomeView::Assistant,
            TurnOutcome::Limit => OutcomeView::Limit,
            TurnOutcome::Cancelled => OutcomeView::Cancelled,
            TurnOutcome::Error(_) => OutcomeView::Error,
        }
    }
}

/// The word for how a turn ended.
pub open spec fn outcome_word(o: OutcomeView) -> Seq<char> {
    match o {
        OutcomeView::Assistant => "assistant"@,
        OutcomeView::Limit => "limit"@,
        OutcomeView::Cancelled => "cancelled"@,
        OutcomeView::Error => "error"@,
    }
}

impl TurnOutcome {
    /// The word for how the turn ended.
    pub fn label(&self) -> (r: &'static str)
        ensures
            r@ == outcome_word(self@),
    {
        match self {
            TurnOutcome::Assistant => "assistant",
            TurnOutcome::Limit => "limit",
            TurnOutcome::Cancelled => "cancelled",
            TurnOutcome::Error(_) => "error",
        }
    }
}

/// The model that compacts in place of the main one.
#[derive(Debug)]
pub struct CompactModel {
    pub model: ModelInfo,
}

/// How a turn is run.
#[derive(Debug)]
pub struct RunOptions {
    pub show_thinking: bool,
    /// The system segments of every request, in order.
    pub system: Vec<String>,
    /// The model that compacts; the main one where this is missing.
    pub compact_model: Option<CompactModel>,
    pub hooks: HookRegistry,
}

impl RunOptions {
    /// The model that compacts.
    pub fn compaction_model<'a>(&'a self, main: &'a ModelInfo) -> (r: &'a ModelInfo)
        ensures
            *r == match self.compact_model {
                Some(c) => c.model,
                None => *main,
            },
    {
        match &self.compact_model {
            Some(c) => &c.model,
            None => main,
        }
    }
}

// ---------------------------------------------------------------------------------------------
// Asking the model
// ---------------------------------------------------------------------------------------------

/// One task as the model is reminded of it.
pub open spec fn todo_reminder(t: TodoView) -> Seq<char> {
    match t.status {
        TodoStatus::Completed => "[x] "@ + t.content + "\n"@,
        TodoStatus::InProgress => "[~] "@ + t.active_form + "\n"@,
        TodoStatus::Pending => "[ ] "@ + t.content + "\n"@,
    }
}

/// The tasks as the model is reminded of them.
pub open spec fn todo_reminders(ts: Seq<TodoView>) -> Seq<char>
    decreases ts.len(),
{
    if ts.len() == 0 {
        "当前待办（持续推进，完成即更新状态）：\n"@
    } else {
        todo_reminders(ts.drop_last()) + todo_reminder(ts.last())
    }
}

/// The task list as the model is reminded of it.
pub fn render_todos(todos: &Vec<TodoItem>) -> (r: String)
    ensures
        r@ == todo_reminders(todo_views(todos@)),
{
    let ghost tv = todo_views(todos@);
    let mut out = "当前待办（持续推进，完成即更新状态）：\n".to_owned();
    let mut i: usize = 0;
    assert(tv.take(0) =~= Seq::<TodoView>::empty());
    while i < todos.len()
        invariant
            i <= todos@.len(),
            tv == todo_views(todos@),
            out@ == todo_reminders(tv.take(i as int)),
        decreases todos@.len() - i,
    {
        assert(tv.take(i + 1).drop_last() =~= tv.take(i as int));
        assert(tv.take(i + 1).last() == todos@[i as int]@);
        let t = &todos[i];
        let mut line: String;
        match t.status {
            TodoStatus::Completed => {
                line = "[x] ".to_owned();
                line.append(t.content.as_str());
            },
            TodoStatus::InProgress => {
                line = "[~] ".to_owned();
                line.append(t.active_form.as_str());
            },
            TodoStatus::Pending => {
                line = "[ ] ".to_owned();
                line.append(t.content.as_str());
            },
        }
        line.append("\n");
        assert(line@ == todo_reminder(t@));
        out.append(line.as_str());
        i += 1;
    }
    assert(tv.take(i as int) =~= tv);
    out
}

/// The messages of a request: the history, and the task list as a last reminder. The reminder is not
/// part of the history.
pub open spec fn request_messages(t: ThreadView) -> Seq<MessageView> {
    if t.todos.len() == 0 {
        t.messages
    } else {
        t.messages.push(MessageView::User(todo_reminders(t.todos)))
    }
}

/// The tools that a model is told of: none where it cannot call tools.
pub fn offered_tools(model: &ModelInfo, specs: Vec<ToolSpec>) -> (r: Vec<ToolSpec>)
    ensures
        spec_views(r@) == if model@.capabilities.contains(Capability::Tools) {
            spec_views(specs@)
        } else {
            Seq::empty()
        },
{
    if model.supports(&Capability::Tools) {
        specs
    } else {
        let r: Vec<ToolSpec> = Vec::new();
        assert(spec_views(r@) =~= Seq::<ToolSpecView>::empty());
        r
    }
}

/// The request of a round.
pub fn build_request(
    thread: &Thread,
    model: &ModelInfo,
    system: &Vec<String>,
    tools: &Vec<ToolSpec>,
    max_output_tokens: Option<u32>,
) -> (r: ChatRequest)
    ensures
        r.model_api_name@ == model@.api_name,
        texts(r.system@) == texts(system@),
        message_views(r.messages@) == request_messages(thread@),
        spec_views(r.tools@) == spec_views(tools@),
        r.reasoning == model@.default_reasoning,
        r.max_output_tokens == max_output_tokens,
{
    broadcast use message_views_push;

    let mut messages = dup_messages(&thread.messages);
    assert(todo_views(thread.todos@).len() == thread.todos@.len());
    if thread.todos.len() > 0 {
        messages.push(Message::User(render_todos(&thread.todos)));
    }
    ChatRequest {
        model_api_name: model.api_name.clone(),
        system: copy_strings(system),
        messages,
        tools: dup_specs(tools),
        reasoning: model.default_reasoning,
        max_output_tokens,
    }
}

// ---------------------------------------------------------------------------------------------
// Taking in the stream
// ---------------------------------------------------------------------------------------------

/// A turn under way: what it has used so far, and what the stream of its round has brought.
#[derive(Debug)]
pub struct TurnRun {
    pub total: Usage,
    pub needs_compaction: bool,
    pub text: String,
    pub calls: Vec<ToolCall>,
    pub stop: StopReason,
    /// Whether text or reasoning was shown in this round.
    pub shown: bool,
    /// Whether the stream has ended.
    pub done: bool,
}

/// What a turn under way holds.
pub struct TurnView {
    pub total: Usage,
    pub needs_compaction: bool,
    pub text: Seq<char>,
    pub calls: Seq<CallView>,
    pub hit_max_tokens: bool,
    pub shown: bool,
    pub done: bool,
}

impl View for TurnRun {
    type V = TurnView;

    open spec fn view(&self) -> TurnView {
        TurnView {
            total: self.total,
            needs_compaction: self.needs_compaction,
            text: self.text@,
            calls: call_views(self.calls@),
            hit_max_tokens: self.stop is MaxTokens,
            shown: self.shown,
            done: self.done,
        }
    }
}

/// What decides how stream events are taken in.
#[derive(Clone, Copy, Debug, PartialEq, Eq, Structural)]
pub struct StreamRules {
    pub show_thinking: bool,
    pub compact_enabled: bool,
    /// How many input tokens call for a compaction when they are exceeded.
    pub compact_threshold: u64,
}

/// A turn at the beginning of a round; what it has used so far is kept.
pub open spec fn round_start(t: TurnView) -> TurnView {
    TurnView {
        text: Seq::empty(),
        calls: Seq::empty(),
        hit_max_tokens: false,
        shown: false,
        done: false,
        ..t
    }
}

/// A turn that begins.
pub open spec fn turn_start() -> TurnView {
    TurnView {
        total: no_usage(),
        needs_compaction: false,
        text: Seq::empty(),
        calls: Seq::empty(),
        hit_max_tokens: false,
        shown: false,
        done: false,
    }
}

/// The turn after one stream event. Usage adds up over the rounds; a prompt above the threshold calls
/// for a compaction; nothing counts after the end of the stream.
pub open spec fn event_step(t: TurnView, ev: Event, rules: StreamRules) -> TurnView {
    if t.done {
        t
    } else {
        match ev {
            Event::ThinkingDelta(_) => TurnView { shown: t.shown || rules.show_thinking, ..t },
            Event::TextDelta(s) => TurnView { text: t.text + s@, shown: true, ..t },
            Event::ToolCall(c) => TurnView { calls: t.calls.push(c@), ..t },
            Event::Usage(u) => TurnView {
                total: usage_sum(t.total, u),
                needs_compaction: t.needs_compaction || (rules.compact_enabled && u.input
                    > rules.compact_threshold),
                ..t
            },
            Event::Done(r) => TurnView { hit_max_tokens: r is MaxTokens, done: true, ..t },
        }
    }
}

/// What a stream event shows.
pub open spec fn event_shown(t: TurnView, ev: Event, rules: StreamRules) -> Option<UiView> {
    if t.done {
        None
    } else {
        match ev {
            Event::ThinkingDelta(s) => if rules.show_thinking {
                Some(UiView::ThinkingDelta(s@))
            } else {
                None
            },
            Event::TextDelta(s) => Some(UiView::AssistantTextDelta(s@)),
            _ => None,
        }
    }
}

/// The turn after several stream events.
pub open spec fn events_step(t: TurnView, evs: Seq<Event>, rules: StreamRules) -> TurnView
    decreases evs.len(),
{
    if evs.len() == 0 {
        t
    } else {
        event_step(events_step(t, evs.drop_last(), rules), evs.last(), rules)
    }
}

impl TurnRun {
    /// A turn that begins.
    pub fn new() -> (r: TurnRun)
        ensures
            r@ == turn_start(),
    {
        let r = TurnRun {
            total: Usage { input: 0, output: 0, cache_read: 0, cache_write: 0, reasoning: 0 },
            needs_compaction: false,
            text: String::new(),
            calls: Vec::new(),
            stop: StopReason::EndTurn,
            shown: false,
            done: false,
        };
        assert(call_views(r.calls@) =~= Seq::<CallView>::empty());
        r
    }

    /// Begins a round.
    pub fn begin_round(&mut self)
        ensures
            final(self)@ == round_start(old(self)@),
    {
        self.text = String::new();
        self.calls = Vec::new();
        self.stop = StopReason::EndTurn;
        self.shown = false;
        self.done = false;
        assert(call_views(self.calls@) =~= Seq::<CallView>::empty());
    }

    /// Takes in a stream event and says what it shows.
    pub fn on_event(&mut self, ev: Event, rules: &StreamRules) -> (r: Option<UiEvent>)
        requires
            ev matches Event::Usage(u) ==> usages_fit(old(self)@.total, u),
        ensures
            final(self)@ == event_step(old(self)@, ev, *rules),
            opt_ui(r) == event_shown(old(self)@, ev, *rules),
    {
        if self.done {
            return None;
        }
        match ev {
            Event::ThinkingDelta(s) => {
                if rules.show_thinking {
                    self.shown = true;
                    Some(UiEvent::ThinkingDelta(s))
                } else {
                    None
                }
            },
            Event::TextDelta(s) => {
                self.text.append(s.as_str());
                self.shown = true;
                Some(UiEvent::AssistantTextDelta(s))
            },
            Event::ToolCall(c) => {
                let ghost before = call_views(self.calls@);
                let ghost cv = c@;
                self.calls.push(c);
                assert(call_views(self.calls@) =~= before.push(cv));
                None
            },
            Event::Usage(u) => {
                self.total.add(&u);
                if rules.compact_enabled && u.input > rules.compact_threshold {
                    self.needs_compaction = true;
                }
                None
            },
            Event::Done(r) => {
                self.stop = r;
                self.done = true;
                None
            },
        }
    }

    /// Whether a compaction is due before the next round; asking for it settles it.
    pub fn take_compaction(&mut self) -> (r: bool)
        ensures
            r == old(self)@.needs_compaction,
            final(self)@ == (TurnView { needs_compaction: false, ..old(self)@ }),
    {
        let due = self.needs_compaction;
        self.needs_compaction = false;
        due
    }
}

// ---------------------------------------------------------------------------------------------
// The end of a round
// ---------------------------------------------------------------------------------------------

/// What follows a round.
#[derive(Debug)]
pub enum RoundEnd {
    /// The turn is over.
    Finish(TurnOutcome),
    /// The tool calls are to be run.
    RunTools(Vec<ToolCall>),
}

/// What follows a round, as far as it is stated.
pub enum EndView {
    Finish(OutcomeView),
    RunTools(Seq<CallView>),
}

impl View for RoundEnd {
    type V = EndView;

    open spec fn view(&self) -> EndView {
        match *self {
            RoundEnd::Finish(o) => EndView::Finish(o@),
            RoundEnd::RunTools(c) => EndView::RunTools(call_views(c@)),
        }
    }
}

/// The conversation with the assistant's text, unless it is empty.
pub open spec fn with_text(t: ThreadView, text: Seq<char>, ts: u64) -> ThreadView {
    if text.len() == 0 {
        t
    } else {
        appended(t, MessageView::Assistant(text), ts)
    }
}

/// What follows a round. A round that was broken off ends the turn; so does one without tool calls,
/// and one that would go beyond the limit of rounds.
pub open spec fn end_of_round(run: TurnView, turns: u32, cancelled: bool, max_turns: u32) -> EndView {
    if cancelled {
        EndView::Finish(OutcomeView::Cancelled)
    } else if run.calls.len() == 0 {
        EndView::Finish(
            if run.hit_max_tokens {
                OutcomeView::Limit
            } else {
                OutcomeView::Assistant
            },
        )
    } else if turns >= max_turns {
        EndView::Finish(OutcomeView::Limit)
    } else {
        EndView::RunTools(run.calls)
    }
}

/// The conversation after a round: what the assistant said is kept, and the tool calls that are to be
/// run follow it. Calls that are not run are not kept, nor is the text before them.
pub open spec fn thread_after_round(
    t: ThreadView,
    run: TurnView,
    cancelled: bool,
    max_turns: u32,
    ts: u64,
) -> ThreadView {
    if cancelled {
        with_text(t, run.text, ts)
    } else if run.calls.len() == 0 {
        with_text(ThreadView { turns: (t.turns + 1) as u32, ..t }, run.text, ts)
    } else if t.turns >= max_turns {
        t
    } else {
        appended(with_text(t, run.text, ts), MessageView::ToolCalls(run.calls), ts)
    }
}

/// What is shown at the end of a round: the end of the text, and the usage where the turn ends
/// without being broken off.
pub open spec fn shown_after_round(
    run: TurnView,
    turns: u32,
    cancelled: bool,
    max_turns: u32,
    pricing: Pricing,
    model: Seq<char>,
) -> Seq<UiView> {
    let end = if run.shown {
        seq![UiView::AssistantTextEnd]
    } else {
        Seq::empty()
    };
    if !cancelled && end_of_round(run, turns, cancelled, max_turns) is Finish {
        end.push(UiView::TurnUsage { usage: run.total, pricing, model })
    } else {
        end
    }
}

/// The end of a round: what is shown and what follows.
#[derive(Debug)]
pub struct RoundResult {
    pub events: Vec<UiEvent>,
    pub next: RoundEnd,
}

impl TurnRun {
    /// Ends a round.
    pub fn end_round(
        &mut self,
        thread: &mut Thread,
        cancelled: bool,
        max_turns: u32,
        model: &ModelInfo,
        ts: u64,
    ) -> (r: RoundResult)
        requires
            old(thread)@.turns < u32::MAX,
        ensures
            final(thread)@ == thread_after_round(
                old(thread)@,
                old(self)@,
                cancelled,
                max_turns,
                ts,
            ),
            ui_views(r.events@) == shown_after_round(
                old(self)@,
                old(thread)@.turns,
                cancelled,
                max_turns,
                model@.pricing,
                model@.api_name,
            ),
            r.next@ == end_of_round(old(self)@, old(thread)@.turns, cancelled, max_turns),
            final(self)@.total == old(self)@.total,
            final(self)@.needs_compaction == old(self)@.needs_compaction,
    {
        broadcast use ui_views_push;

        let mut events: Vec<UiEvent> = Vec::new();
        assert(ui_views(events@) =~= Seq::<UiView>::empty());
        if self.shown {
            events.push(UiEvent::AssistantTextEnd);
            assert(ui_views(events@) =~= seq![UiView::AssistantTextEnd]);
        }
        let mut text = String::new();
        std::mem::swap(&mut text, &mut self.text);
        let mut calls: Vec<ToolCall> = Vec::new();
        std::mem::swap(&mut calls, &mut self.calls);
        assert(call_views(calls@).len() == calls@.len());
        let usage = UiEvent::TurnUsage {
            usage: self.total,
            pricing: model.pricing,
            model: model.api_name.clone(),
        };
        if cancelled {
            if !text.as_str().is_empty() {
                thread.append(Message::Assistant(text), ts);
            }
            return RoundResult { events, next: RoundEnd::Finish(TurnOutcome::Cancelled) };
        }
        if calls.len() == 0 {
            thread.turns = thread.turns + 1;
            if !text.as_str().is_empty() {
                thread.append(Message::Assistant(text), ts);
            }
            events.push(usage);
            let outcome = match &self.stop {
                StopReason::MaxTokens => TurnOutcome::Limit,
                _ => TurnOutcome::Assistant,
            };
            return RoundResult { events, next: RoundEnd::Finish(outcome) };
        }
        if thread.turns >= max_turns {
            events.push(usage);
            return RoundResult { events, next: RoundEnd::Finish(TurnOutcome::Limit) };
        }
        if !text.as_str().is_empty() {
            thread.append(Message::Assistant(text), ts);
        }
        thread.append(Message::ToolCalls(dup_calls(&calls)), ts);
        RoundResult { events, next: RoundEnd::RunTools(calls) }
    }
}

// ---------------------------------------------------------------------------------------------
// Before a tool call
// ---------------------------------------------------------------------------------------------

/// A tool call after its hooks: perhaps with other arguments, perhaps blocked.
#[derive(Debug)]
pub struct PreparedCall {
    pub call: ToolCall,
    /// Why a hook blocked the call.
    pub blocked: Option<String>,
}

/// What a prepared call holds.
pub struct PreparedView {
    pub call: CallView,
    pub blocked: Option<Seq<char>>,
}

impl View for PreparedCall {
    type V = PreparedView;

    open spec fn view(&self) -> PreparedView {
        PreparedView { call: self.call@, blocked: opt_text(self.blocked) }
    }
}

/// The views of a list of prepared calls.
pub open spec fn prepared_views(v: Seq<PreparedCall>) -> Seq<PreparedView> {
    v.map_values(|p: PreparedCall| p@)
}

/// A call after its hooks' decision: a rewrite counts as far as it has `args`.
pub open spec fn prepared(c: CallView, d: DecisionView) -> PreparedView {
    match d {
        DecisionView::Continue => PreparedView { call: c, blocked: None },
        DecisionView::Rewrite(v) => PreparedView {
            call: match member(v, "args"@) {
                Some(args) => CallView { args, ..c },
                None => c,
            },
            blocked: None,
        },
        DecisionView::Block(reason) => PreparedView { call: c, blocked: Some(reason) },
    }
}

/// A call after its hooks' decision.
pub fn prepare_call(tc: &ToolCall, d: HookDecision) -> (r: PreparedCall)
    ensures
        r@ == prepared(tc@, d@),
{
    let mut call = tc.dup();
    match d {
        HookDecision::Continue => PreparedCall { call, blocked: None },
        HookDecision::Rewrite(v) => {
            match v.get("args") {
                Some(args) => {
                    call.args = args.dup();
                },
                None => {},
            }
            PreparedCall { call, blocked: None }
        },
        HookDecision::Block { reason } => PreparedCall { call, blocked: Some(reason) },
    }
}

/// What the hooks before a tool call are told.
pub fn pre_tool_payload(tc: &ToolCall) -> (r: Json)
    ensures
        r@ == JsonView::Obj(seq![("tool"@, JsonView::Str(tc@.name)), ("args"@, tc@.args)]),
{
    jobj2("tool", jstr(tc.name.as_str()), "args", tc.args.dup())
}

// ---------------------------------------------------------------------------------------------
// The order of tool calls
// ---------------------------------------------------------------------------------------------

/// How the calls of a batch are run.
#[derive(Clone, Copy, Debug, PartialEq, Eq, Structural)]
pub enum BatchKind {
    /// One call that a hook blocked: it is answered without being run.
    Blocked,
    /// Calls that run at the same time.
    Concurrent,
    /// One call that runs alone.
    Serial,
}

/// The calls `start..end`, run together.
#[derive(Clone, Copy, Debug, PartialEq, Eq, Structural)]
pub struct Batch {
    pub kind: BatchKind,
    pub start: usize,
    pub end: usize,
}

/// What a batch holds.
pub struct BatchView {
    pub kind: BatchKind,
    pub start: int,
    pub end: int,
}

impl View for Batch {
    type V = BatchView;

    open spec fn view(&self) -> BatchView {
        BatchView { kind: self.kind, start: self.start as int, end: self.end as int }
    }
}

/// The call may run at the same time as others.
pub open spec fn runs_with_others(p: PreparedView) -> bool {
    p.blocked is None && concurrent_safe(p.call.name)
}

/// The end of the row of calls from `i` on that may run at the same time.
pub open spec fn row_end(ps: Seq<PreparedView>, i: int) -> int
    decreases ps.len() - i,
{
    if 0 <= i < ps.len() && runs_with_others(ps[i]) {
        row_end(ps, i + 1)
    } else {
        i
    }
}

/// The batch that begins with the call `i`.
pub open spec fn batch_at(ps: Seq<PreparedView>, i: int) -> BatchView {
    if ps[i].blocked is Some {
        BatchView { kind: BatchKind::Blocked, start: i, end: i + 1 }
    } else if concurrent_safe(ps[i].call.name) {
        BatchView { kind: BatchKind::Concurrent, start: i, end: row_end(ps, i) }
    } else {
        BatchView { kind: BatchKind::Serial, start: i, end: i + 1 }
    }
}

/// The end of a row lies within the calls.
pub proof fn lemma_row_end(ps: Seq<PreparedView>, i: int)
    requires
        0 <= i <= ps.len(),
    ensures
        i <= row_end(ps, i) <= ps.len(),
        forall|j: int| i <= j < row_end(ps, i) ==> runs_with_others(#[trigger] ps[j]),
        row_end(ps, i) < ps.len() ==> !runs_with_others(ps[row_end(ps, i)]),
        i < ps.len() && runs_with_others(ps[i]) ==> row_end(ps, i) > i,
    decreases ps.len() - i,
{
    if i < ps.len() && runs_with_others(ps[i]) {
        lemma_row_end(ps, i + 1);
    }
}

/// The batches of the calls from `i` on.
pub open spec fn plan_from(ps: Seq<PreparedView>, i: int) -> Seq<BatchView>
    decreases ps.len() - i,
{
    if i < 0 || i >= ps.len() {
        Seq::empty()
    } else {
        let b = batch_at(ps, i);
        proof {
            lemma_row_end(ps, i);
        }
        if b.end <= i {
            Seq::empty()
        } else {
            seq![b] + plan_from(ps, b.end)
        }
    }
}

/// The views of a list of batches.
pub open spec fn batch_views(v: Seq<Batch>) -> Seq<BatchView> {
    v.map_values(|b: Batch| b@)
}

/// Divides the calls into batches, in their order.
pub fn plan_batches(calls: &Vec<PreparedCall>) -> (r: Vec<Batch>)
    ensures
        batch_views(r@) == plan_from(prepared_views(calls@), 0),
{
    let ghost ps = prepared_views(calls@);
    let mut out: Vec<Batch> = Vec::new();
    let mut i: usize = 0;
    assert(batch_views(out@) + plan_from(ps, 0) =~= plan_from(ps, 0));
    while i < calls.len()
        invariant
            i <= calls@.len(),
            ps == prepared_views(calls@),
            batch_views(out@) + plan_from(ps, i as int) == plan_from(ps, 0),
        decreases calls@.len() - i,
    {
        let start: usize = i;
        assert(ps[i as int] == calls@[i as int]@);
        let kind = if calls[i].blocked.is_some() {
            i += 1;
            BatchKind::Blocked
        } else if is_concurrent_safe(calls[i].call.name.as_str()) {
            proof {
                lemma_row_end(ps, start as int);
            }
            while i < calls.len() && calls[i].blocked.is_none() && is_concurrent_safe(
                calls[i].call.name.as_str(),
            )
                invariant
                    start <= i <= calls@.len(),
                    ps == prepared_views(calls@),
                    row_end(ps, start as int) == row_end(ps, i as int),
                decreases calls@.len() - i,
            {
                assert(ps[i as int] == calls@[i as int]@);
                i += 1;
            }
            assert(i < calls@.len() ==> ps[i as int] == calls@[i as int]@);
            BatchKind::Concurrent
        } else {
            i += 1;
            BatchKind::Serial
        };
        let b = Batch { kind, start, end: i };
        let ghost before = batch_views(out@);
        assert(b@ == batch_at(ps, start as int));
        out.push(b);
        assert(batch_views(out@) =~= before.push(b@));
        assert(batch_views(out@) + plan_from(ps, i as int) =~= before + (seq![b@] + plan_from(
            ps,
            i as int,
        )));
    }
    assert(batch_views(out@) + plan_from(ps, i as int) =~= batch_views(out@));
    out
}

/// The calls of a batch, by their positions.
pub open spec fn batch_range(b: BatchView) -> Seq<int> {
    Seq::new((b.end - b.start) as nat, |k: int| b.start + k)
}

/// The calls of several batches, by their positions.
pub open spec fn plan_order(bs: Seq<BatchView>) -> Seq<int>
    decreases bs.len(),
{
    if bs.len() == 0 {
        Seq::empty()
    } else {
        batch_range(bs[0]) + plan_order(bs.skip(1))
    }
}

/// Every call is in exactly one batch, and the batches keep the order of the calls.
pub proof fn law_plan_keeps_order(ps: Seq<PreparedView>, i: int)
    requires
        0 <= i <= ps.len(),
    ensures
        plan_order(plan_from(ps, i)) == Seq::new((ps.len() - i) as nat, |k: int| i + k),
    decreases ps.len() - i,
{
    if i < ps.len() {
        lemma_row_end(ps, i);
        let b = batch_at(ps, i);
        law_plan_keeps_order(ps, b.end);
        assert(plan_from(ps, i).skip(1) =~= plan_from(ps, b.end));
        assert(plan_order(plan_from(ps, i)) =~= Seq::new((ps.len() - i) as nat, |k: int| i + k));
    } else {
        assert(plan_order(plan_from(ps, i)) =~= Seq::new((ps.len() - i) as nat, |k: int| i + k));
    }
}

/// What the plan promises of one batch.
pub open spec fn batch_sound(ps: Seq<PreparedView>, b: BatchView) -> bool {
    &&& 0 <= b.start < b.end <= ps.len()
    &&& match b.kind {
        BatchKind::Blocked => b.end == b.start + 1 && ps[b.start].blocked is Some,
        BatchKind::Serial => b.end == b.start + 1 && ps[b.start].blocked is None
            && !concurrent_safe(ps[b.start].call.name),
        BatchKind::Concurrent => {
            &&& forall|j: int| b.start <= j < b.end ==> runs_with_others(#[trigger] ps[j])
            &&& b.end < ps.len() ==> !runs_with_others(ps[b.end])
        },
    }
}

/// Only calls that are safe together and not blocked run together, and such calls in a row all do; a
/// call that is neither runs alone; a blocked call is in a batch that is not run.
pub proof fn law_batches_sound(ps: Seq<PreparedView>, i: int)
    requires
        0 <= i <= ps.len(),
    ensures
        forall|k: int|
            0 <= k < plan_from(ps, i).len() ==> batch_sound(ps, #[trigger] plan_from(ps, i)[k]),
    decreases ps.len() - i,
{
    if i < ps.len() {
        lemma_row_end(ps, i);
        let b = batch_at(ps, i);
        law_batches_sound(ps, b.end);
        assert forall|k: int| 0 <= k < plan_from(ps, i).len() implies batch_sound(
            ps,
            #[trigger] plan_from(ps, i)[k],
        ) by {
            if k > 0 {
                assert(plan_from(ps, i)[k] == plan_from(ps, b.end)[k - 1]);
            }
        }
    }
}

/// What is shown when the calls of a batch begin.
pub fn batch_started(calls: &Vec<PreparedCall>, b: &Batch) -> (r: Vec<UiEvent>)
    requires
        b.start <= b.end <= calls@.len(),
    ensures
        ui_views(r@) == prepared_views(calls@).subrange(b.start as int, b.end as int).map_values(
            |p: PreparedView| started_event(p.call),
        ),
{
    let ghost ps = prepared_views(calls@);
    let ghost f = |p: PreparedView| started_event(p.call);
    let mut out: Vec<UiEvent> = Vec::new();
    let mut i: usize = b.start;
    assert(ui_views(out@) =~= ps.subrange(b.start as int, i as int).map_values(f));
    while i < b.end
        invariant
            b.start <= i <= b.end <= calls@.len(),
            ps == prepared_views(calls@),
            f == (|p: PreparedView| started_event(p.call)),
            ui_views(out@) == ps.subrange(b.start as int, i as int).map_values(f),
        decreases b.end - i,
    {
        broadcast use ui_views_push;

        let e = tool_call_started(&calls[i].call);
        assert(e@ == f(ps[i as int]));
        out.push(e);
        assert(ps.subrange(b.start as int, i + 1).map_values(f) =~= ps.subrange(
            b.start as int,
            i as int,
        ).map_values(f).push(f(ps[i as int])));
        i += 1;
    }
    out
}

/// What is shown as calls begin, over several batches.
pub open spec fn all_started(ps: Seq<PreparedView>, bs: Seq<BatchView>) -> Seq<UiView>
    decreases bs.len(),
{
    if bs.len() == 0 {
        Seq::empty()
    } else {
        ps.subrange(bs[0].start, bs[0].end).map_values(|p: PreparedView| started_event(p.call))
            + all_started(ps, bs.skip(1))
    }
}

/// The calls are shown to begin in the order in which the model made them, each once.
pub proof fn law_started_in_call_order(ps: Seq<PreparedView>, i: int)
    requires
        0 <= i <= ps.len(),
    ensures
        all_started(ps, plan_from(ps, i)) == ps.skip(i).map_values(
            |p: PreparedView| started_event(p.call),
        ),
    decreases ps.len() - i,
{
    let f = |p: PreparedView| started_event(p.call);
    if i < ps.len() {
        lemma_row_end(ps, i);
        let b = batch_at(ps, i);
        law_started_in_call_order(ps, b.end);
        assert(plan_from(ps, i).skip(1) =~= plan_from(ps, b.end));
        assert(ps.subrange(i, b.end).map_values(f) + ps.skip(b.end).map_values(f) =~= ps.skip(
            i,
        ).map_values(f));
    } else {
        assert(ps.skip(i).map_values(f) =~= Seq::<UiView>::empty());
    }
}

/// The answer to a blocked call.
pub fn blocked_result(reason: &str) -> (r: ToolResult)
    ensures
        !r.ok,
        r.content@ == "blocked by hook: "@ + reason@,
{
    ToolResult::err("blocked by hook: ".to_owned().concat(reason))
}

/// What is shown of a tool's answer: its shortened first line.
pub open spec fn result_event(ok: bool, content: Seq<char>) -> UiView {
    UiView::ToolResult { ok, summary: shortened(first_line(content), 120) }
}

/// What is shown of a tool's answer.
pub fn tool_result_event(res: &ToolResult) -> (r: UiEvent)
    ensures
        r@ == result_event(res.ok, res.content@),
{
    let first = first_line_of(res.content.as_str());
    UiEvent::ToolResult { ok: res.ok, summary: truncate_inline(first.as_str(), 120) }
}

/// The label of the checkpoint before a call.
pub open spec fn checkpoint_label(name: Seq<char>, path: Seq<char>) -> Seq<char> {
    name + " "@ + path
}

/// The checkpoint to take before a call: its label and its files; none where the call changes no file
/// that can be told.
pub fn checkpoint_before(root: &str, call: &ToolCall) -> (r: Option<(String, Vec<String>)>)
    ensures
        ({
            let paths = paths_changed(root@, call@.name, call@.args);
            match r {
                Some((label, files)) => {
                    &&& paths.len() > 0
                    &&& texts(files@) == paths
                    &&& label@ == checkpoint_label(call@.name, paths[0])
                },
                None => paths.len() == 0,
            }
        }),
{
    let files = mutating_paths(root, call.name.as_str(), &call.args);
    assert(texts(files@).len() == files@.len());
    if files.len() == 0 {
        return None;
    }
    let mut label = call.name.clone();
    label.append(" ");
    label.append(files[0].as_str());
    assert(texts(files@)[0] == files@[0]@);
    Some((label, files))
}

// ---------------------------------------------------------------------------------------------
// After the tool calls
// ---------------------------------------------------------------------------------------------

/// The conversation after the answer to one call: a task list that was written takes effect, and the
/// answer is added.
pub open spec fn answered(t: ThreadView, c: CallView, ok: bool, content: Seq<char>, ts: u64) -> ThreadView {
    let t1 = match parsed_todos(c.args) {
        Ok(todos) => if c.name == "todo_write"@ && ok {
            with_todos(t, todos, ts)
        } else {
            t
        },
        Err(_) => t,
    };
    appended(t1, MessageView::Tool { call_id: c.id, content: model_text(ok, content) }, ts)
}

/// What is shown when the answer to one call is added: a task list that was written.
pub open spec fn answer_shown(c: CallView, ok: bool) -> Seq<UiView> {
    match parsed_todos(c.args) {
        Ok(todos) => if c.name == "todo_write"@ && ok {
            seq![UiView::TodoUpdated(todos)]
        } else {
            Seq::empty()
        },
        Err(_) => Seq::empty(),
    }
}

/// The conversation after the answers to the first `n` calls.
pub open spec fn all_answered(
    t: ThreadView,
    calls: Seq<CallView>,
    results: Seq<ToolResult>,
    n: int,
    ts: u64,
) -> ThreadView
    decreases n,
{
    if n <= 0 {
        t
    } else {
        answered(
            all_answered(t, calls, results, n - 1, ts),
            calls[n - 1],
            results[n - 1].ok,
            results[n - 1].content@,
            ts,
        )
    }
}

/// What is shown when the answers to the first `n` calls are added.
pub open spec fn all_answers_shown(calls: Seq<CallView>, results: Seq<ToolResult>, n: int) -> Seq<
    UiView,
>
    decreases n,
{
    if n <= 0 {
        Seq::empty()
    } else {
        all_answers_shown(calls, results, n - 1) + answer_shown(calls[n - 1], results[n - 1].ok)
    }
}

/// Adds the answers to the calls of a round, in their order, and counts the round.
pub fn feed_results(
    thread: &mut Thread,
    calls: &Vec<ToolCall>,
    results: &Vec<ToolResult>,
    ts: u64,
) -> (r: Vec<UiEvent>)
    requires
        calls@.len() == results@.len(),
        old(thread)@.turns < u32::MAX,
    ensures
        final(thread)@ == (ThreadView {
            turns: (old(thread)@.turns + 1) as u32,
            ..all_answered(
                old(thread)@,
                call_views(calls@),
                results@,
                calls@.len() as int,
                ts,
            )
        }),
        ui_views(r@) == all_answers_shown(call_views(calls@), results@, calls@.len() as int),
{
    let ghost cv = call_views(calls@);
    let ghost t0 = thread@;
    let mut out: Vec<UiEvent> = Vec::new();
    assert(ui_views(out@) =~= Seq::<UiView>::empty());
    let mut i: usize = 0;
    while i < calls.len()
        invariant
            i <= calls@.len(),
            calls@.len() == results@.len(),
            cv == call_views(calls@),
            thread@ == all_answered(t0, cv, results@, i as int, ts),
            thread@.turns == t0.turns,
            ui_views(out@) == all_answers_shown(cv, results@, i as int),
        decreases calls@.len() - i,
    {
        broadcast use ui_views_push;

        let tc = &calls[i];
        let res = &results[i];
        assert(cv[i as int] == tc@);
        let ghost shown = ui_views(out@);
        if str_eq(tc.name.as_str(), "todo_write") && res.ok {
            match parse_todos(&tc.args) {
                Ok(todos) => {
                    let copy = dup_todos(&todos);
                    thread.set_todos(todos, ts);
                    out.push(UiEvent::TodoUpdated(copy));
                    assert(ui_views(out@) =~= shown + answer_shown(cv[i as int], res.ok));
                },
                Err(_) => {
                    assert(ui_views(out@) =~= shown + answer_shown(cv[i as int], res.ok));
                },
            }
        } else {
            assert(ui_views(out@) =~= shown + answer_shown(cv[i as int], res.ok));
        }
        thread.append(
            Message::Tool { call_id: tc.id.clone(), content: res.to_model_string() },
            ts,
        );
        i += 1;
    }
    thread.turns = thread.turns + 1;
    out
}

/// The messages that a round with tool calls adds: every call is answered, in order, under its id.
pub proof fn law_every_call_answered(
    t: ThreadView,
    calls: Seq<CallView>,
    results: Seq<ToolResult>,
    n: int,
    ts: u64,
)
    requires
        0 <= n <= calls.len(),
        calls.len() == results.len(),
    ensures
        all_answered(t, calls, results, n, ts).messages == t.messages + Seq::new(
            n as nat,
            |i: int|
                MessageView::Tool {
                    call_id: calls[i].id,
                    content: model_text(results[i].ok, results[i].content@),
                },
        ),
    decreases n,
{
    let f = |i: int|
        MessageView::Tool {
            call_id: calls[i].id,
            content: model_text(results[i].ok, results[i].content@),
        };
    if n == 0 {
        assert(t.messages + Seq::new(0, f) =~= t.messages);
    } else {
        law_every_call_answered(t, calls, results, n - 1, ts);
        assert(t.messages + Seq::new(n as nat, f) =~= (t.messages + Seq::new(
            (n - 1) as nat,
            f,
        )).push(f(n - 1)));
    }
}

// ---------------------------------------------------------------------------------------------
// What the hooks of a turn are told
// ---------------------------------------------------------------------------------------------

/// A number as a JSON value.
pub open spec fn num(n: u64) -> JsonView {
    JsonView::Num(NumberView::Uint(n))
}

/// What the hooks before a round are told.
pub fn pre_turn_payload(turns: u32, message_count: usize) -> (r: Json)
    ensures
        r@ == JsonView::Obj(
            seq![("turn"@, num(turns as u64)), ("message_count"@, num(message_count as u64))],
        ),
{
    jobj2("turn", juint(turns as u64), "message_count", juint(message_count as u64))
}

/// What the hooks before a compaction are told: the tier that it begins with, and what it works on.
pub fn pre_compact_payload(message_count: usize, threshold: u64) -> (r: Json)
    ensures
        r@ == JsonView::Obj(
            seq![
                ("tier"@, JsonView::Str("L1"@)),
                ("message_count"@, num(message_count as u64)),
                ("threshold"@, num(threshold)),
            ],
        ),
{
    jobj3(
        "tier",
        jstr("L1"),
        "message_count",
        juint(message_count as u64),
        "threshold",
        juint(threshold),
    )
}

/// What is said when a hook's decision keeps a compaction from happening.
pub open spec fn compact_skip(d: DecisionView) -> Option<UiView> {
    match d {
        DecisionView::Block(reason) => Some(
            UiView::Notice("[compact] skipped by hook: "@ + reason),
        ),
        _ => None,
    }
}

/// Whether a hook's decision keeps a compaction from happening, and what is said of it.
pub fn compact_skipped(d: &HookDecision) -> (r: Option<UiEvent>)
    ensures
        opt_ui(r) == compact_skip(d@),
{
    match d {
        HookDecision::Block { reason } => Some(
            UiEvent::Notice("[compact] skipped by hook: ".to_owned().concat(reason.as_str())),
        ),
        _ => None,
    }
}

/// What the hooks are told after a compaction.
pub fn compact_done_payload(message_count: usize) -> (r: Json)
    ensures
        r@ == JsonView::Obj(
            seq![
                ("kind"@, JsonView::Str("compact_done"@)),
                ("message"@, JsonView::Str("context compacted"@)),
                ("message_count"@, num(message_count as u64)),
            ],
        ),
{
    jobj3(
        "kind",
        jstr("compact_done"),
        "message",
        jstr("context compacted"),
        "message_count",
        juint(message_count as u64),
    )
}

/// What the hooks after a tool call are told.
pub open spec fn post_tool_json(c: CallView, ok: bool, content: Seq<char>) -> JsonView {
    JsonView::Obj(
        seq![
            ("tool"@, JsonView::Str(c.name)),
            ("args"@, c.args),
            ("ok"@, JsonView::Bool(ok)),
            ("content"@, JsonView::Str(content)),
        ],
    )
}

/// What the hooks after a task are told.
pub open spec fn subagent_stop_json(c: CallView, ok: bool, content: Seq<char>) -> JsonView {
    JsonView::Obj(
        seq![
            (
                "description"@,
                JsonView::Str(
                    match text_member(c.args, "description"@) {
                        Some(d) => d,
                        None => Seq::empty(),
                    },
                ),
            ),
            ("ok"@, JsonView::Bool(ok)),
            ("output"@, JsonView::Str(content)),
        ],
    )
}

/// The hook events after a tool call: the end of the call, and for a task the end of the task too.
pub open spec fn post_tool_seq(c: CallView, ok: bool, content: Seq<char>) -> Seq<
    (HookEvent, JsonView),
> {
    let first = seq![(HookEvent::PostToolUse, post_tool_json(c, ok, content))];
    if c.name == "task"@ {
        first.push((HookEvent::SubagentStop, subagent_stop_json(c, ok, content)))
    } else {
        first
    }
}

/// The views of a list of hook events.
pub open spec fn hook_event_views(v: Seq<(HookEvent, Json)>) -> Seq<(HookEvent, JsonView)> {
    v.map_values(|x: (HookEvent, Json)| (x.0, x.1@))
}

/// The hook events after a tool call, in order.
pub fn post_tool_events(call: &ToolCall, res: &ToolResult) -> (r: Vec<(HookEvent, Json)>)
    ensures
        hook_event_views(r@) == post_tool_seq(call@, res.ok, res.content@),
{
    let mut out: Vec<(HookEvent, Json)> = Vec::new();
    let p = jobj4(
        "tool",
        jstr(call.name.as_str()),
        "args",
        call.args.dup(),
        "ok",
        Json::Bool(res.ok),
        "content",
        jstr(res.content.as_str()),
    );
    assert(p@ == post_tool_json(call@, res.ok, res.content@));
    out.push((HookEvent::PostToolUse, p));
    if str_eq(call.name.as_str(), "task") {
        let d = match call.args.get_str("description") {
            Some(d) => d,
            None => String::new(),
        };
        assert(d@ =~= match text_member(call@.args, "description"@) {
            Some(d) => d,
            None => Seq::empty(),
        });
        let q = jobj3(
            "description",
            jstr(d.as_str()),
            "ok",
            Json::Bool(res.ok),
            "output",
            jstr(res.content.as_str()),
        );
        assert(q@->Obj_0 =~= subagent_stop_json(call@, res.ok, res.content@)->Obj_0);
        out.push((HookEvent::SubagentStop, q));
    }
    assert(hook_event_views(out@) =~= post_tool_seq(call@, res.ok, res.content@));
    out
}

/// A usage as a JSON value.
pub open spec fn usage_json(u: Usage) -> JsonView {
    JsonView::Obj(
        seq![
            ("input"@, num(u.input)),
            ("output"@, num(u.output)),
            ("cache_read"@, num(u.cache_read)),
            ("cache_write"@, num(u.cache_write)),
            ("reasoning"@, num(u.reasoning)),
        ],
    )
}

/// The hook events at the end of a turn: the end of the turn, then the stop.
pub open spec fn turn_end_seq(turns: u32, outcome: Seq<char>, u: Usage) -> Seq<
    (HookEvent, JsonView),
> {
    seq![
        (
            HookEvent::PostTurn,
            JsonView::Obj(
                seq![
                    ("turn"@, num(turns as u64)),
                    ("outcome"@, JsonView::Str(outcome)),
                    ("usage"@, usage_json(u)),
                ],
            ),
        ),
        (HookEvent::Stop, JsonView::Obj(seq![("reason"@, JsonView::Str(outcome))])),
    ]
}

/// The hook events at the end of a turn, in order.
pub fn turn_end_events(turns: u32, outcome: &str, usage: &Usage) -> (r: Vec<(HookEvent, Json)>)
    ensures
        hook_event_views(r@) == turn_end_seq(turns, outcome@, *usage),
{
    let u = jobj5(
        "input",
        juint(usage.input),
        "output",
        juint(usage.output),
        "cache_read",
        juint(usage.cache_read),
        "cache_write",
        juint(usage.cache_write),
        "reasoning",
        juint(usage.reasoning),
    );
    let p = jobj3("turn", juint(turns as u64), "outcome", jstr(outcome), "usage", u);
    let q = jobj1("reason", jstr(outcome));
    let mut out: Vec<(HookEvent, Json)> = Vec::new();
    out.push((HookEvent::PostTurn, p));
    out.push((HookEvent::Stop, q));
    assert(hook_event_views(out@) =~= turn_end_seq(turns, outcome@, *usage));
    out
}

// ---------------------------------------------------------------------------------------------
// Laws
// ---------------------------------------------------------------------------------------------

/// Nothing that follows the end of a stream counts.
pub proof fn law_nothing_after_done(t: TurnView, evs: Seq<Event>, rules: StreamRules)
    requires
        t.done,
    ensures
        events_step(t, evs, rules) == t,
    decreases evs.len(),
{
    if evs.len() > 0 {
        law_nothing_after_done(t, evs.drop_last(), rules);
    }
}

/// The tool calls of a stream, in order, up to its end.
pub open spec fn calls_of(evs: Seq<Event>) -> Seq<CallView>
    decreases evs.len(),
{
    if evs.len() == 0 {
        Seq::empty()
    } else {
        match evs.last() {
            Event::ToolCall(c) => calls_of(evs.drop_last()).push(c@),
            _ => calls_of(evs.drop_last()),
        }
    }
}

/// A stream that has not ended has brought all its text and all its tool calls, in order.
pub proof fn law_stream_collected(t: TurnView, evs: Seq<Event>, rules: StreamRules)
    requires
        forall|i: int| 0 <= i < evs.len() ==> !(#[trigger] evs[i] is Done),
        !t.done,
    ensures
        !events_step(t, evs, rules).done,
        events_step(t, evs, rules).text == t.text + super::context::text_of(evs),
        events_step(t, evs, rules).calls == t.calls + calls_of(evs),
    decreases evs.len(),
{
    if evs.len() == 0 {
        assert(t.text + super::context::text_of(evs) =~= t.text);
        assert(t.calls + calls_of(evs) =~= t.calls);
    } else {
        let front = evs.drop_last();
        assert forall|i: int| 0 <= i < front.len() implies !(#[trigger] front[i] is Done) by {
            assert(front[i] == evs[i]);
        }
        law_stream_collected(t, front, rules);
        assert(!(evs[evs.len() - 1] is Done));
        let before = events_step(t, front, rules);
        match evs.last() {
            Event::TextDelta(s) => {
                assert(before.text + s@ =~= t.text + (super::context::text_of(front) + s@));
            },
            Event::ToolCall(c) => {
                assert(before.calls.push(c@) =~= t.calls + calls_of(front).push(c@));
            },
            _ => {},
        }
    }
}

/// A turn that runs its tools has not reached its limit, and one that has never runs them.
pub proof fn law_limit_stops_tools(run: TurnView, turns: u32, cancelled: bool, max_turns: u32)
    ensures
        end_of_round(run, turns, cancelled, max_turns) is RunTools ==> turns < max_turns
            && !cancelled && run.calls.len() > 0,
        turns >= max_turns ==> end_of_round(run, turns, cancelled, max_turns) is Finish,
        cancelled ==> end_of_round(run, turns, cancelled, max_turns) == EndView::Finish(
            OutcomeView::Cancelled,
        ),
{
}

/// What was said before a turn was broken off is kept.
pub proof fn law_cancel_keeps_text(t: ThreadView, run: TurnView, max_turns: u32, ts: u64)
    requires
        run.text.len() > 0,
    ensures
        thread_after_round(t, run, true, max_turns, ts).messages == t.messages.push(
            MessageView::Assistant(run.text),
        ),
        thread_after_round(t, run, true, max_turns, ts).turns == t.turns,
{
}

/// A turn only ever adds to the history.
pub proof fn law_history_append_only(
    t: ThreadView,
    run: TurnView,
    cancelled: bool,
    max_turns: u32,
    ts: u64,
)
    ensures
        ({
            let after = thread_after_round(t, run, cancelled, max_turns, ts).messages;
            &&& after.len() >= t.messages.len()
            &&& after.take(t.messages.len() as int) == t.messages
        }),
{
    let after = thread_after_round(t, run, cancelled, max_turns, ts).messages;
    assert(after.take(t.messages.len() as int) =~= t.messages);
}

/// A blocked call is not run with the others, and a call whose hooks decide nothing is as the model
/// made it.
pub proof fn law_hooks_on_calls(c: CallView, reason: Seq<char>)
    ensures
        prepared(c, DecisionView::Continue) == (PreparedView { call: c, blocked: None }),
        !runs_with_others(prepared(c, DecisionView::Block(reason))),
        prepared(c, DecisionView::Block(reason)).call == c,
{
}

/// What a round leaves in the conversation and on its way to the session file. What the assistant said is kept
/// where it said something, before the calls that are to be run; calls that are not run are not kept, nor is
/// the text before them. A round that ends a turn of its own accord is counted.
pub proof fn law_round_kept(t: ThreadView, run: TurnView, cancelled: bool, max_turns: u32, ts: u64)
    requires
        t.turns < u32::MAX,
    ensures
        ({
            let u = thread_after_round(t, run, cancelled, max_turns, ts);
            let said = if run.text.len() == 0 {
                Seq::<MessageView>::empty()
            } else {
                seq![MessageView::Assistant(run.text)]
            };
            let runs = !cancelled && run.calls.len() > 0 && t.turns < max_turns;
            let over = !cancelled && run.calls.len() > 0 && t.turns >= max_turns;
            let added = if runs {
                said + seq![MessageView::ToolCalls(run.calls)]
            } else if over {
                Seq::empty()
            } else {
                said
            };
            &&& u.messages == t.messages + added
            &&& u.turns == t.turns + if !cancelled && run.calls.len() == 0 {
                1int
            } else {
                0int
            }
            &&& u.todos == t.todos && u.checkpoints == t.checkpoints
            &&& t.recorder is None ==> u.recorder is None
            &&& t.recorder matches Some(r) ==> u.recorder matches Some(v) && v.path == r.path
                && v.created == r.created && v.header == r.header && v.queue == r.queue + added.map_values(
                |m: MessageView| RecordView { ts, kind: KindView::Message(m) },
            )
        }),
{
    let u = thread_after_round(t, run, cancelled, max_turns, ts);
    let said = if run.text.len() == 0 {
        Seq::<MessageView>::empty()
    } else {
        seq![MessageView::Assistant(run.text)]
    };
    let runs = !cancelled && run.calls.len() > 0 && t.turns < max_turns;
    let over = !cancelled && run.calls.len() > 0 && t.turns >= max_turns;
    let added = if runs {
        said + seq![MessageView::ToolCalls(run.calls)]
    } else if over {
        Seq::empty()
    } else {
        said
    };
    assert(u.messages =~= t.messages + added);
    if let Some(r) = t.recorder {
        assert(u.recorder->0.queue =~= r.queue + added.map_values(
            |m: MessageView| RecordView { ts, kind: KindView::Message(m) },
        ));
    }
}

/// How a round ends: broken off where it was; with the assistant's last word where it calls no tool, or at the
/// limit where the model ran out of tokens; at the limit where the rounds are used up; and else with all the
/// calls that the stream brought, in their order.
pub proof fn law_round_ends(run: TurnView, turns: u32, cancelled: bool, max_turns: u32)
    ensures
        ({
            let e = end_of_round(run, turns, cancelled, max_turns);
            &&& e == EndView::Finish(OutcomeView::Cancelled) <==> cancelled
            &&& e == EndView::Finish(OutcomeView::Assistant) <==> !cancelled && run.calls.len() == 0
                && !run.hit_max_tokens
            &&& e == EndView::Finish(OutcomeView::Limit) <==> !cancelled && if run.calls.len() == 0 {
                run.hit_max_tokens
            } else {
                turns >= max_turns
            }
            &&& e == EndView::RunTools(run.calls) <==> !cancelled && run.calls.len() > 0 && turns < max_turns
        }),
{
}

/// The end of the text is shown exactly where something was shown, and the usage exactly where the turn ends
/// without being broken off, as the last thing.
pub proof fn law_round_shown(
    run: TurnView,
    turns: u32,
    cancelled: bool,
    max_turns: u32,
    pricing: Pricing,
    model: Seq<char>,
)
    ensures
        ({
            let s = shown_after_round(run, turns, cancelled, max_turns, pricing, model);
            let usage = UiView::TurnUsage { usage: run.total, pricing, model };
            let ends = !cancelled && (run.calls.len() == 0 || turns >= max_turns);
            &&& run.shown && ends ==> s == seq![UiView::AssistantTextEnd, usage]
            &&& run.shown && !ends ==> s == seq![UiView::AssistantTextEnd]
            &&& !run.shown && ends ==> s == seq![usage]
            &&& !run.shown && !ends ==> s.len() == 0
        }),
{
    let s = shown_after_round(run, turns, cancelled, max_turns, pricing, model);
    let usage = UiView::TurnUsage { usage: run.total, pricing, model };
    let ends = !cancelled && (run.calls.len() == 0 || turns >= max_turns);
    if run.shown && ends {
        assert(s =~= seq![UiView::AssistantTextEnd, usage]);
    }
    if !run.shown && ends {
        assert(s =~= seq![usage]);
    }
}

/// What an event of the stream changes, and what it shows: text is collected and shown, thoughts are shown
/// where that is wanted and never collected, a call is collected, usage is added up and asks for a compaction
/// beyond the threshold, and the end of the stream says whether the tokens ran out.
pub proof fn law_event_taken(t: TurnView, ev: Event, rules: StreamRules)
    requires
        !t.done,
    ensures
        ({
            let u = event_step(t, ev, rules);
            let shown = event_shown(t, ev, rules);
            match ev {
                Event::TextDelta(s) => {
                    &&& u.text == t.text + s@ && u.shown && shown == Some(
                        UiView::AssistantTextDelta(s@),
                    )
                    &&& u.calls == t.calls && u.total == t.total && !u.done
                    &&& u.needs_compaction == t.needs_compaction && u.hit_max_tokens == t.hit_max_tokens
                },
                Event::ThinkingDelta(s) => {
                    &&& u.text == t.text && u.calls == t.calls && u.total == t.total && !u.done
                    &&& u.shown == (t.shown || rules.show_thinking)
                    &&& shown == if rules.show_thinking {
                        Some(UiView::ThinkingDelta(s@))
                    } else {
                        None
                    }
                    &&& u.needs_compaction == t.needs_compaction && u.hit_max_tokens == t.hit_max_tokens
                },
                Event::ToolCall(c) => {
                    &&& u.calls == t.calls + seq![c@] && u.text == t.text && u.total == t.total
                    &&& u.shown == t.shown && !u.done && shown is None
                    &&& u.needs_compaction == t.needs_compaction && u.hit_max_tokens == t.hit_max_tokens
                },
                Event::Usage(n) => {
                    &&& u.total == usage_sum(t.total, n)
                    &&& u.needs_compaction == (t.needs_compaction || (rules.compact_enabled && n.input
                        > rules.compact_threshold))
                    &&& u.text == t.text && u.calls == t.calls && u.shown == t.shown && !u.done
                    &&& u.hit_max_tokens == t.hit_max_tokens && shown is None
                },
                Event::Done(r) => {
                    &&& u.done && u.hit_max_tokens == (r is MaxTokens)
                    &&& u.text == t.text && u.calls == t.calls && u.shown == t.shown && u.total == t.total
                    &&& u.needs_compaction == t.needs_compaction && shown is None
                },
            }
        }),
{
    if let Event::ToolCall(c) = ev {
        assert(event_step(t, ev, rules).calls =~= t.calls + seq![c@]);
    }
}

/// A new round begins with nothing collected; the usage of the turn goes on, and so does a compaction that is
/// due.
pub proof fn law_round_begins(t: TurnView)
    ensures
        ({
            let u = round_start(t);
            &&& u.text.len() == 0 && u.calls.len() == 0 && !u.shown && !u.done && !u.hit_max_tokens
            &&& u.total == t.total && u.needs_compaction == t.needs_compaction
        }),
        turn_start().total == (Usage {
            input: 0,
            output: 0,
            cache_read: 0,
            cache_write: 0,
            reasoning: 0,
        }),
        !turn_start().needs_compaction,
{
}

/// The calls of a stream are all of them and in their order.
pub proof fn law_calls_in_order(a: Seq<Event>, b: Seq<Event>, c: ToolCall)
    ensures
        calls_of(a + b) == calls_of(a) + calls_of(b),
        calls_of(seq![Event::ToolCall(c)]) == seq![c@],
    decreases b.len(),
{
    let one = seq![Event::ToolCall(c)];
    assert(one.drop_last() =~= Seq::<Event>::empty());
    assert(calls_of(one.drop_last()) =~= Seq::<CallView>::empty());
    if b.len() == 0 {
        assert(a + b =~= a);
        assert(calls_of(a) + calls_of(b) =~= calls_of(a));
    } else {
        assert((a + b).drop_last() =~= a + b.drop_last());
        law_calls_in_order(a, b.drop_last(), c);
        assert(calls_of(a + b) =~= calls_of(a) + calls_of(b));
    }
}

/// The model is sent the whole conversation; where there are tasks, a message with a line for each of them
/// in their order comes last.
pub proof fn law_request_holds_history(t: ThreadView)
    ensures
        t.todos.len() == 0 ==> request_messages(t) == t.messages,
        t.todos.len() > 0 ==> request_messages(t).len() == t.messages.len() + 1 && request_messages(
            t,
        ).drop_last() == t.messages && request_messages(t).last() == MessageView::User(
            todo_reminders(t.todos),
        ),
{
    if t.todos.len() > 0 {
        assert(request_messages(t).drop_last() =~= t.messages);
    }
}

/// Every task has its line in the reminder, behind those of the tasks before it: done, begun or open, and a
/// task that is begun under its active form.
pub proof fn law_reminder_lines(ts: Seq<TodoView>, t: TodoView)
    ensures
        todo_reminders(Seq::empty()) == "当前待办（持续推进，完成即更新状态）：\n"@,
        t.status is Completed ==> todo_reminders(ts.push(t)) == todo_reminders(ts) + ("[x] "@ + t.content
            + "\n"@),
        t.status is InProgress ==> todo_reminders(ts.push(t)) == todo_reminders(ts) + ("[~] "@
            + t.active_form + "\n"@),
        t.status is Pending ==> todo_reminders(ts.push(t)) == todo_reminders(ts) + ("[ ] "@ + t.content
            + "\n"@),
{
    assert(ts.push(t).drop_last() =~= ts);
}

/// A hook that rewrites a call gives it other arguments, where it names any, and nothing else; one that blocks
/// it says why.
pub proof fn law_call_prepared(c: CallView, v: JsonView, reason: Seq<char>)
    ensures
        ({
            let p = prepared(c, DecisionView::Rewrite(v));
            &&& p.blocked is None
            &&& p.call.id == c.id && p.call.name == c.name
            &&& member(v, "args"@) is None ==> p.call.args == c.args
            &&& member(v, "args"@) matches Some(args) ==> p.call.args == args
        }),
        prepared(c, DecisionView::Block(reason)) == (PreparedView { call: c, blocked: Some(reason) }),
        prepared(c, DecisionView::Continue) == (PreparedView { call: c, blocked: None }),
{
}

/// The answer to a call reaches the model under the call's id as the last message; a task list that was
/// written takes the place of the old one before that, and is shown. A call of another tool, one that failed
/// and one without a list leave the tasks as they are.
pub proof fn law_answer_fed_back(t: ThreadView, c: CallView, ok: bool, content: Seq<char>, ts: u64)
    ensures
        ({
            let u = answered(t, c, ok, content, ts);
            let writes = c.name == "todo_write"@ && ok && parsed_todos(c.args) is Ok;
            &&& u.messages == t.messages + seq![
                MessageView::Tool { call_id: c.id, content: model_text(ok, content) },
            ]
            &&& u.turns == t.turns && u.checkpoints == t.checkpoints
            &&& writes ==> u.todos == parsed_todos(c.args)->Ok_0 && answer_shown(c, ok) == seq![
                UiView::TodoUpdated(parsed_todos(c.args)->Ok_0),
            ]
            &&& !writes ==> u.todos == t.todos && answer_shown(c, ok).len() == 0
            &&& t.recorder is None ==> u.recorder is None
            &&& t.recorder matches Some(r) ==> u.recorder matches Some(v) && v.queue.len() == r.queue.len()
                + if writes {
                2int
            } else {
                1int
            } && v.queue.take(r.queue.len() as int) == r.queue && v.queue.last() == (RecordView {
                ts,
                kind: KindView::Message(
                    capped(MessageView::Tool { call_id: c.id, content: model_text(ok, content) }),
                ),
            }) && (writes ==> v.queue[r.queue.len() as int] == (RecordView {
                ts,
                kind: KindView::Todo(parsed_todos(c.args)->Ok_0),
            }))
        }),
{
    let u = answered(t, c, ok, content, ts);
    assert(u.messages =~= t.messages + seq![
        MessageView::Tool { call_id: c.id, content: model_text(ok, content) },
    ]);
    if let Some(r) = t.recorder {
        assert(u.recorder->0.queue.take(r.queue.len() as int) =~= r.queue);
    }
}

/// The answers are fed back one after the other: those of the first calls, then the next one.
pub proof fn law_answers_in_call_order(
    t: ThreadView,
    calls: Seq<CallView>,
    results: Seq<ToolResult>,
    n: int,
    ts: u64,
)
    requires
        0 < n <= calls.len(),
        calls.len() == results.len(),
    ensures
        all_answered(t, calls, results, 0, ts) == t,
        all_answered(t, calls, results, n, ts) == answered(
            all_answered(t, calls, results, n - 1, ts),
            calls[n - 1],
            results[n - 1].ok,
            results[n - 1].content@,
            ts,
        ),
        all_answers_shown(calls, results, 0).len() == 0,
        all_answers_shown(calls, results, n) == all_answers_shown(calls, results, n - 1) + answer_shown(
            calls[n - 1],
            results[n - 1].ok,
        ),
{
}

/// What the hooks after a call are told: the tool, its arguments, how it went and what it answered; and after
/// a task also its description and its output.
pub proof fn law_hooks_told_of_calls(c: CallView, ok: bool, content: Seq<char>)
    ensures
        ({
            let s = post_tool_seq(c, ok, content);
            let d = match text_member(c.args, "description"@) {
                Some(d) => d,
                None => Seq::empty(),
            };
            &&& s.len() == if c.name == "task"@ {
                2int
            } else {
                1int
            }
            &&& s[0] == (
                HookEvent::PostToolUse,
                JsonView::Obj(
                    seq![
                        ("tool"@, JsonView::Str(c.name)),
                        ("args"@, c.args),
                        ("ok"@, JsonView::Bool(ok)),
                        ("content"@, JsonView::Str(content)),
                    ],
                ),
            )
            &&& c.name == "task"@ ==> s[1] == (
                HookEvent::SubagentStop,
                JsonView::Obj(
                    seq![
                        ("description"@, JsonView::Str(d)),
                        ("ok"@, JsonView::Bool(ok)),
                        ("output"@, JsonView::Str(content)),
                    ],
                ),
            )
        }),
{
    let d = match text_member(c.args, "description"@) {
        Some(d) => d,
        None => Seq::empty(),
    };
    let told = seq![
        ("tool"@, JsonView::Str(c.name)),
        ("args"@, c.args),
        ("ok"@, JsonView::Bool(ok)),
        ("content"@, JsonView::Str(content)),
    ];
    assert(post_tool_seq(c, ok, content)[0].1->Obj_0 =~= told);
    if c.name == "task"@ {
        let stop = seq![
            ("description"@, JsonView::Str(d)),
            ("ok"@, JsonView::Bool(ok)),
            ("output"@, JsonView::Str(content)),
        ];
        assert(post_tool_seq(c, ok, content)[1].1->Obj_0 =~= stop);
    }
}

/// A compaction is passed over exactly where a hook blocks it, and the user is told why.
pub proof fn law_compaction_blocked(d: DecisionView)
    ensures
        compact_skip(d) is Some <==> d is Block,
        d matches DecisionView::Block(reason) ==> compact_skip(d) == Some(
            UiView::Notice("[compact] skipped by hook: "@ + reason),
        ),
{
}

/// The hooks are told of the end of a turn, first with its number, how it ended and its tokens, each kind under its
/// name, and then that it stopped.
pub proof fn law_hooks_told_of_end(turns: u32, o: OutcomeView, u: Usage)
    ensures
        turn_end_seq(turns, outcome_word(o), u) == seq![
            (
                HookEvent::PostTurn,
                JsonView::Obj(
                    seq![
                        ("turn"@, JsonView::Num(NumberView::Uint(turns as u64))),
                        ("outcome"@, JsonView::Str(outcome_word(o))),
                        (
                            "usage"@,
                            JsonView::Obj(
                                seq![
                                    ("input"@, JsonView::Num(NumberView::Uint(u.input))),
                                    ("output"@, JsonView::Num(NumberView::Uint(u.output))),
                                    ("cache_read"@, JsonView::Num(NumberView::Uint(u.cache_read))),
                                    ("cache_write"@, JsonView::Num(NumberView::Uint(u.cache_write))),
                                    ("reasoning"@, JsonView::Num(NumberView::Uint(u.reasoning))),
                                ],
                            ),
                        ),
                    ],
                ),
            ),
            (HookEvent::Stop, JsonView::Obj(seq![("reason"@, JsonView::Str(outcome_word(o)))])),
        ],
        outcome_word(OutcomeView::Assistant) == "assistant"@,
        outcome_word(OutcomeView::Limit) == "limit"@,
        outcome_word(OutcomeView::Cancelled) == "cancelled"@,
        outcome_word(OutcomeView::Error) == "error"@,
{
}

/// Of an answer the first line is shown, at most a hundred and twenty characters of it; what is kept of a file
/// before a tool changes it is called by the tool and the path.
pub proof fn law_answer_summed_up(ok: bool, content: Seq<char>, name: Seq<char>, path: Seq<char>)
    ensures
        result_event(ok, content) == (UiView::ToolResult { ok, summary: shortened(first_line(content), 120) }),
        checkpoint_label(name, path) == name + " "@ + path,
{
}

/// A call runs together with its neighbours exactly where no hook blocked it and its tool may.
pub proof fn law_runs_with_others(p: PreparedView)
    ensures
        runs_with_others(p) <==> p.blocked is None && concurrent_safe(p.call.name),
{
}

} // verus!
