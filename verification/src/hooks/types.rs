//! What a hook is, when it runs, and what it can decide.

use crate::json::{jobj2, jstr, Json, JsonView};
use vstd::prelude::*;

verus! {

/// The points at which hooks run.
#[derive(Clone, Copy, Debug, PartialEq, Eq, Structural)]
pub enum HookEvent {
    SessionStart,
    SessionEnd,
    UserPromptSubmit,
    PreTurn,
    PostTurn,
    PreToolUse,
    PostToolUse,
    PreCompact,
    SubagentStop,
    Notification,
    Stop,
}

/// The hooks of the event can block what is about to happen.
pub open spec fn blockable(e: HookEvent) -> bool {
    e == HookEvent::PreToolUse || e == HookEvent::PreCompact || e == HookEvent::UserPromptSubmit
}

/// The hooks of the event can rewrite what is about to happen.
pub open spec fn rewritable(e: HookEvent) -> bool {
    e == HookEvent::PreToolUse || e == HookEvent::UserPromptSubmit
}

/// The name of an event.
pub open spec fn event_text(e: HookEvent) -> Seq<char> {
    match e {
        HookEvent::SessionStart => "session-start"@,
        HookEvent::SessionEnd => "session-end"@,
        HookEvent::UserPromptSubmit => "user-prompt-submit"@,
        HookEvent::PreTurn => "pre-turn"@,
        HookEvent::PostTurn => "post-turn"@,
        HookEvent::PreToolUse => "pre-tool-use"@,
        HookEvent::PostToolUse => "post-tool-use"@,
        HookEvent::PreCompact => "pre-compact"@,
        HookEvent::SubagentStop => "subagent-stop"@,
        HookEvent::Notification => "notification"@,
        HookEvent::Stop => "stop"@,
    }
}

impl HookEvent {
    /// Whether the hooks of the event can block.
    pub fn is_blockable(&self) -> (r: bool)
        ensures
            r == blockable(*self),
    {
        matches!(*self, HookEvent::PreToolUse | HookEvent::PreCompact | HookEvent::UserPromptSubmit)
    }

    /// Whether the hooks of the event can rewrite.
    pub fn is_rewritable(&self) -> (r: bool)
        ensures
            r == rewritable(*self),
    {
        matches!(*self, HookEvent::PreToolUse | HookEvent::UserPromptSubmit)
    }

    /// The name of the event, as the configuration and the payload write it.
    pub fn name(&self) -> (r: &'static str)
        ensures
            r@ == event_text(*self),
    {
        match self {
            HookEvent::SessionStart => "session-start",
            HookEvent::SessionEnd => "session-end",
            HookEvent::UserPromptSubmit => "user-prompt-submit",
            HookEvent::PreTurn => "pre-turn",
            HookEvent::PostTurn => "post-turn",
            HookEvent::PreToolUse => "pre-tool-use",
            HookEvent::PostToolUse => "post-tool-use",
            HookEvent::PreCompact => "pre-compact",
            HookEvent::SubagentStop => "subagent-stop",
            HookEvent::Notification => "notification",
            HookEvent::Stop => "stop",
        }
    }
}

/// For which tools a hook runs.
#[derive(Debug)]
pub struct HookMatcher {
    /// The tool's name.
    pub tool: Option<String>,
    /// A pattern for the tool's name, which counts only where `tool` is missing.
    pub tool_glob: Option<String>,
}

/// One hook.
#[derive(Debug)]
pub struct HookConfig {
    pub event: HookEvent,
    /// The command, run by the shell.
    pub command: String,
    /// For which tools it runs; for everything where this is missing.
    pub matcher: Option<HookMatcher>,
    pub timeout_secs: u64,
    pub enabled: bool,
}

impl HookConfig {
    /// A hook with the default settings.
    pub fn new(event: HookEvent, command: String) -> (r: HookConfig)
        ensures
            r == (HookConfig { event, command, matcher: None, timeout_secs: 30, enabled: true }),
    {
        HookConfig { event, command, matcher: None, timeout_secs: 30, enabled: true }
    }
}

/// What a hook is told.
#[derive(Debug)]
pub struct HookPayload {
    pub event: HookEvent,
    pub data: Json,
}

/// What a payload holds.
pub struct PayloadView {
    pub event: HookEvent,
    pub data: JsonView,
}

impl View for HookPayload {
    type V = PayloadView;

    open spec fn view(&self) -> PayloadView {
        PayloadView { event: self.event, data: self.data@ }
    }
}

/// A payload as a hook reads it.
pub open spec fn payload_json(p: PayloadView) -> JsonView {
    JsonView::Obj(seq![("event"@, JsonView::Str(event_text(p.event))), ("data"@, p.data)])
}

impl HookPayload {
    /// What a hook of the event is told.
    pub fn new(event: HookEvent, data: Json) -> (r: HookPayload)
        ensures
            r@ == (PayloadView { event, data: data@ }),
    {
        HookPayload { event, data }
    }

    /// The payload as a hook reads it.
    pub fn to_json(&self) -> (r: Json)
        ensures
            r@ == payload_json(self@),
    {
        jobj2("event", jstr(self.event.name()), "data", self.data.dup())
    }
}

/// What a hook decides.
#[derive(Debug)]
pub enum HookDecision {
    /// Go on.
    Continue,
    /// Go on with other data.
    Rewrite(Json),
    /// Do not go on.
    Block { reason: String },
}

/// What a decision holds.
pub enum DecisionView {
    Continue,
    Rewrite(JsonView),
    Block(Seq<char>),
}

impl View for HookDecision {
    type V = DecisionView;

    open spec fn view(&self) -> DecisionView {
        match *self {
            HookDecision::Continue => DecisionView::Continue,
            HookDecision::Rewrite(j) => DecisionView::Rewrite(j@),
            HookDecision::Block { reason } => DecisionView::Block(reason@),
        }
    }
}

/// How a hook's run ended.
#[derive(Debug)]
pub struct HookOutcome {
    pub decision: HookDecision,
    pub stdout_preview: String,
    pub stderr_preview: String,
    pub exit_code: i32,
}

/// A hook may block a tool call, a compaction and a prompt, and may rewrite a tool call and a prompt; at any
/// other event it only watches.
pub proof fn law_what_hooks_may_do(e: HookEvent)
    ensures
        blockable(e) <==> e is PreToolUse || e is PreCompact || e is UserPromptSubmit,
        rewritable(e) <==> e is PreToolUse || e is UserPromptSubmit,
        rewritable(e) ==> blockable(e),
{
}

/// Every event has its own name, which a hook is told with the data.
pub proof fn law_events_named(e: HookEvent, data: JsonView)
    ensures
        payload_json(PayloadView { event: e, data }) matches JsonView::Obj(o) && o.len() == 2 && o[0].0
            == "event"@ && o[1] == ("data"@, data) && o[0].1 == JsonView::Str(
            match e {
                HookEvent::SessionStart => "session-start"@,
                HookEvent::SessionEnd => "session-end"@,
                HookEvent::UserPromptSubmit => "user-prompt-submit"@,
                HookEvent::PreTurn => "pre-turn"@,
                HookEvent::PostTurn => "post-turn"@,
                HookEvent::PreToolUse => "pre-tool-use"@,
                HookEvent::PostToolUse => "post-tool-use"@,
                HookEvent::PreCompact => "pre-compact"@,
                HookEvent::SubagentStop => "subagent-stop"@,
                HookEvent::Notification => "notification"@,
                HookEvent::Stop => "stop"@,
            },
        ),
{
}

} // verus!
