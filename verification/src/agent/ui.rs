//! What the agent shows: events for whoever renders them, and their plain terminal form.

use crate::json::{entry_views, json_text, json_view_obj, Json, JsonView};
use crate::number::{dec, push_dec};
use crate::provider::event::{call_views, CallView, ToolCall, Usage};
use crate::provider::request::{message_views, Message, MessageView};
use crate::registry::model::Pricing;
use crate::split::{
    join, join_strings, law_joined, law_lines_of_text, law_split_and_joined, law_split_at, lines,
    split_lines, split_on,
};
use crate::text::{chars_of, string_of, texts, texts_push};
use crate::tools::todo_write::{todo_views, TodoItem, TodoStatus, TodoView};
use vstd::prelude::*;
use vstd::slice::slice_subrange;

verus! {

/// Whose message a replayed one is.
#[derive(Clone, Copy, Debug, PartialEq, Eq, Structural)]
pub enum ReplayRole {
    User,
    Assistant,
    ToolCall,
    ToolResult,
}

/// One message of a conversation that is shown again.
#[derive(Debug)]
pub struct ReplayMsg {
    pub role: ReplayRole,
    pub text: String,
}

/// What a replayed message holds.
pub struct ReplayView {
    pub role: ReplayRole,
    pub text: Seq<char>,
}

impl View for ReplayMsg {
    type V = ReplayView;

    open spec fn view(&self) -> ReplayView {
        ReplayView { role: self.role, text: self.text@ }
    }
}

/// The views of a list of replayed messages.
pub open spec fn replay_views(v: Seq<ReplayMsg>) -> Seq<ReplayView> {
    v.map_values(|m: ReplayMsg| m@)
}

/// What the agent tells whoever renders it.
#[derive(Debug)]
pub enum UiEvent {
    /// More assistant text.
    AssistantTextDelta(String),
    /// More reasoning text.
    ThinkingDelta(String),
    /// The end of a block of text.
    AssistantTextEnd,
    /// A tool call begins.
    ToolCallStarted { name: String, args_preview: String },
    /// A tool call has ended.
    ToolResult { ok: bool, summary: String },
    /// A question to the user.
    AskUser { id: u64, question: String, options: Vec<String> },
    /// The task list has changed.
    TodoUpdated(Vec<TodoItem>),
    /// A note of the system's.
    Notice(String),
    /// The title of the session.
    Title(String),
    /// Another model is in use.
    ModelChanged(String),
    /// A labelled line that divides the conversation.
    Divider(String),
    /// A conversation to show again.
    ReplayHistory(Vec<ReplayMsg>),
    /// A turn or a command has ended.
    Idle,
    /// What a turn has used; the cost follows from the prices.
    TurnUsage { usage: Usage, pricing: Pricing, model: String },
}

/// What an event holds.
pub enum UiView {
    AssistantTextDelta(Seq<char>),
    ThinkingDelta(Seq<char>),
    AssistantTextEnd,
    ToolCallStarted { name: Seq<char>, args_preview: Seq<char> },
    ToolResult { ok: bool, summary: Seq<char> },
    AskUser { id: u64, question: Seq<char>, options: Seq<Seq<char>> },
    TodoUpdated(Seq<TodoView>),
    Notice(Seq<char>),
    Title(Seq<char>),
    ModelChanged(Seq<char>),
    Divider(Seq<char>),
    ReplayHistory(Seq<ReplayView>),
    Idle,
    TurnUsage { usage: Usage, pricing: Pricing, model: Seq<char> },
}

impl View for UiEvent {
    type V = UiView;

    open spec fn view(&self) -> UiView {
        match *self {
            UiEvent::AssistantTextDelta(s) => UiView::AssistantTextDelta(s@),
            UiEvent::ThinkingDelta(s) => UiView::ThinkingDelta(s@),
            UiEvent::AssistantTextEnd => UiView::AssistantTextEnd,
            UiEvent::ToolCallStarted { name, args_preview } => UiView::ToolCallStarted {
                name: name@,
                args_preview: args_preview@,
            },
            UiEvent::ToolResult { ok, summary } => UiView::ToolResult { ok, summary: summary@ },
            UiEvent::AskUser { id, question, options } => UiView::AskUser {
                id,
                question: question@,
                options: texts(options@),
            },
            UiEvent::TodoUpdated(t) => UiView::TodoUpdated(todo_views(t@)),
            UiEvent::Notice(s) => UiView::Notice(s@),
            UiEvent::Title(s) => UiView::Title(s@),
            UiEvent::ModelChanged(s) => UiView::ModelChanged(s@),
            UiEvent::Divider(s) => UiView::Divider(s@),
            UiEvent::ReplayHistory(v) => UiView::ReplayHistory(replay_views(v@)),
            UiEvent::Idle => UiView::Idle,
            UiEvent::TurnUsage { usage, pricing, model } => UiView::TurnUsage {
                usage,
                pricing,
                model: model@,
            },
        }
    }
}

/// The views of a list of events.
pub open spec fn ui_views(v: Seq<UiEvent>) -> Seq<UiView> {
    v.map_values(|e: UiEvent| e@)
}

/// The views of a list of events with one event added at the end.
pub broadcast proof fn ui_views_push(v: Seq<UiEvent>, e: UiEvent)
    ensures
        #[trigger] ui_views(v.push(e)) == ui_views(v).push(e@),
{
    assert(ui_views(v.push(e)) =~= ui_views(v).push(e@));
}

/// The view of an optional event.
pub open spec fn opt_ui(e: Option<UiEvent>) -> Option<UiView> {
    match e {
        Some(e) => Some(e@),
        None => None,
    }
}

// ---------------------------------------------------------------------------------------------
// One-line forms
// ---------------------------------------------------------------------------------------------

/// The first `max` characters of `s`, with an ellipsis where something is left out.
pub open spec fn shortened(s: Seq<char>, max: nat) -> Seq<char> {
    if s.len() <= max {
        s
    } else {
        s.take(max as int) + "…"@
    }
}

/// Shortens a text to `max` characters.
pub fn truncate_inline(s: &str, max: usize) -> (r: String)
    ensures
        r@ == shortened(s@, max as nat),
{
    let a = chars_of(s);
    if a.len() <= max {
        return s.to_owned();
    }
    let mut out = string_of(slice_subrange(a.as_slice(), 0, max));
    assert(out@ =~= s@.take(max as int));
    out.append("…");
    out
}

/// An argument's value in a preview: a string is shortened, anything else is shown as JSON.
pub open spec fn value_preview(v: JsonView) -> Seq<char> {
    match v {
        JsonView::Str(s) => shortened(s, 40),
        _ => json_text(v),
    }
}

/// Arguments on one line: `name=value` for each, or the shortened JSON of what is not an object.
pub open spec fn preview(args: JsonView) -> Seq<char> {
    match args {
        JsonView::Obj(e) => join(
            e.map_values(|x: (Seq<char>, JsonView)| x.0 + "="@ + value_preview(x.1)),
            ", "@,
        ),
        _ => shortened(json_text(args), 80),
    }
}

/// Arguments on one line.
pub fn args_preview(args: &Json) -> (r: String)
    ensures
        r@ == preview(args@),
{
    match args {
        Json::Obj(v) => {
            proof {
                json_view_obj(*v);
            }
            let ghost e = entry_views(v@);
            let ghost f = |x: (Seq<char>, JsonView)| x.0 + "="@ + value_preview(x.1);
            let mut parts: Vec<String> = Vec::new();
            assert(texts(parts@) =~= e.take(0).map_values(f));
            let mut i: usize = 0;
            while i < v.len()
                invariant
                    i <= v@.len(),
                    e == entry_views(v@),
                    f == (|x: (Seq<char>, JsonView)| x.0 + "="@ + value_preview(x.1)),
                    texts(parts@) == e.take(i as int).map_values(f),
                decreases v@.len() - i,
            {
                broadcast use texts_push;

                let shown = match &v[i].1 {
                    Json::Str(s) => truncate_inline(s.as_str(), 40),
                    other => {
                        assert(!(other@ is Str));
                        other.to_text()
                    },
                };
                assert(shown@ == value_preview(v@[i as int].1@));
                let mut s = v[i].0.clone();
                s.append("=");
                s.append(shown.as_str());
                assert(s@ == f(e[i as int]));
                parts.push(s);
                assert(e.take(i + 1).map_values(f) =~= e.take(i as int).map_values(f).push(
                    f(e[i as int]),
                ));
                i += 1;
            }
            assert(e.take(i as int) =~= e);
            assert(args@ == JsonView::Obj(e));
            join_strings(&parts, ", ")
        },
        _ => {
            assert(!(args@ is Obj));
            truncate_inline(args.to_text().as_str(), 80)
        },
    }
}

/// A tool call that begins.
pub open spec fn started_event(c: CallView) -> UiView {
    UiView::ToolCallStarted { name: c.name, args_preview: preview(c.args) }
}

/// A tool call that begins.
pub fn tool_call_started(tc: &ToolCall) -> (r: UiEvent)
    ensures
        r@ == started_event(tc@),
{
    UiEvent::ToolCallStarted { name: tc.name.clone(), args_preview: args_preview(&tc.args) }
}

/// The first line of a text.
pub open spec fn first_line(s: Seq<char>) -> Seq<char> {
    if lines(s).len() == 0 {
        Seq::empty()
    } else {
        lines(s)[0]
    }
}

/// The first line of a text.
pub fn first_line_of(s: &str) -> (r: String)
    ensures
        r@ == first_line(s@),
{
    let ls = split_lines(s);
    assert(texts(ls@).len() == ls@.len());
    if ls.len() == 0 {
        String::new()
    } else {
        assert(texts(ls@)[0] == ls@[0]@);
        ls[0].clone()
    }
}

// ---------------------------------------------------------------------------------------------
// Replaying a conversation
// ---------------------------------------------------------------------------------------------

/// A tool call as it is shown again.
pub open spec fn replay_call(c: CallView) -> ReplayView {
    ReplayView {
        role: ReplayRole::ToolCall,
        text: "⚙ "@ + c.name + "("@ + preview(c.args) + ")"@,
    }
}

/// A message as it is shown again: a tool's output as its shortened first line, a system message
/// not at all.
pub open spec fn replay_message(m: MessageView) -> Seq<ReplayView> {
    match m {
        MessageView::User(s) => seq![ReplayView { role: ReplayRole::User, text: s }],
        MessageView::Assistant(s) => seq![ReplayView { role: ReplayRole::Assistant, text: s }],
        MessageView::ToolCalls(calls) => calls.map_values(|c: CallView| replay_call(c)),
        MessageView::Tool { call_id, content } => seq![
            ReplayView { role: ReplayRole::ToolResult, text: shortened(first_line(content), 120) },
        ],
        MessageView::System(_) => Seq::empty(),
    }
}

/// A conversation as it is shown again.
pub open spec fn replayed(ms: Seq<MessageView>) -> Seq<ReplayView>
    decreases ms.len(),
{
    if ms.len() == 0 {
        Seq::empty()
    } else {
        replayed(ms.drop_last()) + replay_message(ms.last())
    }
}

fn push_replay_calls(out: &mut Vec<ReplayMsg>, calls: &Vec<ToolCall>)
    ensures
        replay_views(final(out)@) == replay_views(old(out)@) + call_views(calls@).map_values(
            |c: CallView| replay_call(c),
        ),
{
    let ghost base = replay_views(out@);
    let ghost cv = call_views(calls@);
    let ghost f = |c: CallView| replay_call(c);
    let mut i: usize = 0;
    assert(base + cv.take(0).map_values(f) =~= base);
    while i < calls.len()
        invariant
            i <= calls@.len(),
            cv == call_views(calls@),
            f == (|c: CallView| replay_call(c)),
            replay_views(out@) == base + cv.take(i as int).map_values(f),
        decreases calls@.len() - i,
    {
        let mut s = "⚙ ".to_owned();
        s.append(calls[i].name.as_str());
        s.append("(");
        s.append(args_preview(&calls[i].args).as_str());
        s.append(")");
        let m = ReplayMsg { role: ReplayRole::ToolCall, text: s };
        assert(m@ == f(cv[i as int]));
        let ghost before = replay_views(out@);
        out.push(m);
        assert(replay_views(out@) =~= before.push(m@));
        assert(base + cv.take(i + 1).map_values(f) =~= (base + cv.take(i as int).map_values(
            f,
        )).push(f(cv[i as int])));
        i += 1;
    }
    assert(cv.take(i as int) =~= cv);
}

/// The conversation as it is shown again.
pub fn replay_from_messages(msgs: &Vec<Message>) -> (r: Vec<ReplayMsg>)
    ensures
        replay_views(r@) == replayed(message_views(msgs@)),
{
    let ghost mv = message_views(msgs@);
    let mut out: Vec<ReplayMsg> = Vec::new();
    assert(replay_views(out@) =~= Seq::<ReplayView>::empty());
    assert(mv.take(0) =~= Seq::<MessageView>::empty());
    let mut i: usize = 0;
    while i < msgs.len()
        invariant
            i <= msgs@.len(),
            mv == message_views(msgs@),
            replay_views(out@) == replayed(mv.take(i as int)),
        decreases msgs@.len() - i,
    {
        assert(mv.take(i + 1).drop_last() =~= mv.take(i as int));
        assert(mv.take(i + 1).last() == msgs@[i as int]@);
        let ghost before = replay_views(out@);
        match &msgs[i] {
            Message::User(s) => {
                let m = ReplayMsg { role: ReplayRole::User, text: s.clone() };
                out.push(m);
                assert(replay_views(out@) =~= before + seq![m@]);
            },
            Message::Assistant(s) => {
                let m = ReplayMsg { role: ReplayRole::Assistant, text: s.clone() };
                out.push(m);
                assert(replay_views(out@) =~= before + seq![m@]);
            },
            Message::ToolCalls(calls) => {
                push_replay_calls(&mut out, calls);
            },
            Message::Tool { call_id: _, content } => {
                let first = first_line_of(content.as_str());
                let m = ReplayMsg {
                    role: ReplayRole::ToolResult,
                    text: truncate_inline(first.as_str(), 120),
                };
                out.push(m);
                assert(replay_views(out@) =~= before + seq![m@]);
            },
            Message::System(_) => {
                assert(before + Seq::<ReplayView>::empty() =~= before);
            },
        }
        i += 1;
    }
    assert(mv.take(i as int) =~= mv);
    out
}

// ---------------------------------------------------------------------------------------------
// The plain terminal
// ---------------------------------------------------------------------------------------------

/// The renderer for a plain terminal or a pipe. It remembers whether reasoning is being shown.
#[derive(Debug)]
pub struct StdoutSink {
    pub in_thinking: bool,
}

/// One task on the terminal.
pub open spec fn todo_line(t: TodoView) -> Seq<char> {
    match t.status {
        TodoStatus::Completed => "\x1b[32m"@ + "  "@ + "[x]"@ + " "@ + t.content + "\x1b[0m\n"@,
        TodoStatus::InProgress => "\x1b[33m"@ + "  "@ + "[~]"@ + " "@ + t.active_form
            + "\x1b[0m\n"@,
        TodoStatus::Pending => "\x1b[90m"@ + "  "@ + "[ ]"@ + " "@ + t.content + "\x1b[0m\n"@,
    }
}

/// The task list on the terminal.
pub open spec fn todo_lines(ts: Seq<TodoView>) -> Seq<char>
    decreases ts.len(),
{
    if ts.len() == 0 {
        Seq::empty()
    } else {
        todo_lines(ts.drop_last()) + todo_line(ts.last())
    }
}

/// The usage line; `cost` is the cost in dollars, already printed.
pub open spec fn usage_line(u: Usage, cost: Seq<char>, model: Seq<char>) -> Seq<char> {
    "\n[tokens] in="@ + dec(u.input as nat) + " out="@ + dec(u.output as nat) + " cache_read="@
        + dec(u.cache_read as nat) + " cache_write="@ + dec(u.cache_write as nat) + " reasoning="@
        + dec(u.reasoning as nat) + " | cost=$"@ + cost + " ("@ + model + ")\n"@
}

/// What an event writes to the terminal, and whether reasoning is being shown after it.
pub open spec fn terminal_text(thinking: bool, ev: UiView, cost: Seq<char>) -> (Seq<char>, bool) {
    match ev {
        UiView::ThinkingDelta(t) => (
            if thinking {
                t
            } else {
                "\x1b[90m[thinking] "@ + t
            },
            true,
        ),
        UiView::AssistantTextDelta(t) => (
            if thinking {
                "\x1b[0m\n"@ + t
            } else {
                t
            },
            false,
        ),
        UiView::AssistantTextEnd => (
            if thinking {
                "\x1b[0m"@ + "\n"@
            } else {
                "\n"@
            },
            false,
        ),
        UiView::ToolCallStarted { name, args_preview } => (
            "\x1b[36m⚙ "@ + name + "("@ + args_preview + ")\x1b[0m\n"@,
            thinking,
        ),
        UiView::ToolResult { ok, summary } => (
            if ok {
                "\x1b[32m"@ + "  "@ + "✓"@ + " "@ + summary + "\x1b[0m\n"@
            } else {
                "\x1b[31m"@ + "  "@ + "✗"@ + " "@ + summary + "\x1b[0m\n"@
            },
            thinking,
        ),
        UiView::TodoUpdated(ts) => (todo_lines(ts), thinking),
        UiView::Notice(m) => ("\x1b[90m"@ + m + "\x1b[0m\n"@, thinking),
        UiView::Divider(l) => ("\x1b[90m──── "@ + l + " ────\x1b[0m\n"@, thinking),
        UiView::AskUser { id, question, options } => (
            "\x1b[33m[ask] "@ + question + "\x1b[0m\n"@ + if options.len() == 0 {
                Seq::empty()
            } else {
                "\x1b[33m  options: "@ + join(options, " | "@) + "\x1b[0m\n"@
            },
            thinking,
        ),
        UiView::TurnUsage { usage, pricing, model } => (
            usage_line(usage, cost, model),
            thinking,
        ),
        UiView::Title(_) => (Seq::empty(), thinking),
        UiView::ModelChanged(_) => (Seq::empty(), thinking),
        UiView::ReplayHistory(_) => (Seq::empty(), thinking),
        UiView::Idle => (Seq::empty(), thinking),
    }
}

fn todo_text(todos: &Vec<TodoItem>) -> (r: String)
    ensures
        r@ == todo_lines(todo_views(todos@)),
{
    let ghost tv = todo_views(todos@);
    let mut out = String::new();
    let mut i: usize = 0;
    assert(tv.take(0) =~= Seq::<TodoView>::empty());
    while i < todos.len()
        invariant
            i <= todos@.len(),
            tv == todo_views(todos@),
            out@ == todo_lines(tv.take(i as int)),
        decreases todos@.len() - i,
    {
        assert(tv.take(i + 1).drop_last() =~= tv.take(i as int));
        assert(tv.take(i + 1).last() == todos@[i as int]@);
        let t = &todos[i];
        let mut line: String;
        match t.status {
            TodoStatus::Completed => {
                line = "\x1b[32m".to_owned();
                line.append("  ");
                line.append("[x]");
                line.append(" ");
                line.append(t.content.as_str());
            },
            TodoStatus::InProgress => {
                line = "\x1b[33m".to_owned();
                line.append("  ");
                line.append("[~]");
                line.append(" ");
                line.append(t.active_form.as_str());
            },
            TodoStatus::Pending => {
                line = "\x1b[90m".to_owned();
                line.append("  ");
                line.append("[ ]");
                line.append(" ");
                line.append(t.content.as_str());
            },
        }
        line.append("\x1b[0m\n");
        assert(line@ == todo_line(t@));
        out.append(line.as_str());
        i += 1;
    }
    assert(tv.take(i as int) =~= tv);
    out
}

impl StdoutSink {
    /// A renderer that is showing nothing yet.
    pub fn new() -> (r: StdoutSink)
        ensures
            !r.in_thinking,
    {
        StdoutSink { in_thinking: false }
    }

    /// What an event writes to the terminal; `cost` is the cost in dollars, already printed, for the
    /// event that tells of a turn's usage.
    pub fn emit(&mut self, ev: &UiEvent, cost: &str) -> (r: String)
        ensures
            (r@, final(self).in_thinking) == terminal_text(old(self).in_thinking, ev@, cost@),
    {
        match ev {
            UiEvent::ThinkingDelta(t) => {
                if self.in_thinking {
                    t.clone()
                } else {
                    self.in_thinking = true;
                    "\x1b[90m[thinking] ".to_owned().concat(t.as_str())
                }
            },
            UiEvent::AssistantTextDelta(t) => {
                if self.in_thinking {
                    self.in_thinking = false;
                    "\x1b[0m\n".to_owned().concat(t.as_str())
                } else {
                    t.clone()
                }
            },
            UiEvent::AssistantTextEnd => {
                if self.in_thinking {
                    self.in_thinking = false;
                    "\x1b[0m".to_owned().concat("\n")
                } else {
                    "\n".to_owned()
                }
            },
            UiEvent::ToolCallStarted { name, args_preview } => {
                let mut s = "\x1b[36m⚙ ".to_owned();
                s.append(name.as_str());
                s.append("(");
                s.append(args_preview.as_str());
                s.append(")\x1b[0m\n");
                s
            },
            UiEvent::ToolResult { ok, summary } => {
                let mut s: String;
                if *ok {
                    s = "\x1b[32m".to_owned();
                    s.append("  ");
                    s.append("✓");
                } else {
                    s = "\x1b[31m".to_owned();
                    s.append("  ");
                    s.append("✗");
                }
                s.append(" ");
                s.append(summary.as_str());
                s.append("\x1b[0m\n");
                s
            },
            UiEvent::TodoUpdated(todos) => todo_text(todos),
            UiEvent::Notice(msg) => {
                let mut s = "\x1b[90m".to_owned();
                s.append(msg.as_str());
                s.append("\x1b[0m\n");
                s
            },
            UiEvent::Title(_) => String::new(),
            UiEvent::ModelChanged(_) => String::new(),
            UiEvent::Divider(label) => {
                let mut s = "\x1b[90m──── ".to_owned();
                s.append(label.as_str());
                s.append(" ────\x1b[0m\n");
                s
            },
            UiEvent::ReplayHistory(_) => String::new(),
            UiEvent::Idle => String::new(),
            UiEvent::AskUser { id: _, question, options } => {
                let mut s = "\x1b[33m[ask] ".to_owned();
                s.append(question.as_str());
                s.append("\x1b[0m\n");
                let mut o = String::new();
                if options.len() > 0 {
                    o = "\x1b[33m  options: ".to_owned();
                    o.append(join_strings(options, " | ").as_str());
                    o.append("\x1b[0m\n");
                }
                assert(texts(options@).len() == options@.len());
                s.append(o.as_str());
                s
            },
            UiEvent::TurnUsage { usage, pricing: _, model } => {
                let mut s = "\n[tokens] in=".to_owned();
                push_dec(&mut s, usage.input);
                s.append(" out=");
                push_dec(&mut s, usage.output);
                s.append(" cache_read=");
                push_dec(&mut s, usage.cache_read);
                s.append(" cache_write=");
                push_dec(&mut s, usage.cache_write);
                s.append(" reasoning=");
                push_dec(&mut s, usage.reasoning);
                s.append(" | cost=$");
                s.append(cost);
                s.append(" (");
                s.append(model.as_str());
                s.append(")\n");
                s
            },
        }
    }
}

/// The answer to a question when nobody can be asked: the first option.
pub open spec fn first_option(options: Seq<Seq<char>>) -> Seq<char> {
    if options.len() == 0 {
        Seq::empty()
    } else {
        options[0]
    }
}

/// The answer to a question when nobody can be asked.
pub fn auto_answer(options: &Vec<String>) -> (r: String)
    ensures
        r@ == first_option(texts(options@)),
{
    assert(texts(options@).len() == options@.len());
    if options.len() == 0 {
        String::new()
    } else {
        assert(texts(options@)[0] == options@[0]@);
        options[0].clone()
    }
}

/// Reasoning is closed before text follows it: after any text or the end of a block, the terminal is
/// not in the colour of reasoning.
pub proof fn law_text_ends_thinking(thinking: bool, t: Seq<char>, cost: Seq<char>)
    ensures
        !terminal_text(thinking, UiView::AssistantTextDelta(t), cost).1,
        !terminal_text(thinking, UiView::AssistantTextEnd, cost).1,
        terminal_text(thinking, UiView::ThinkingDelta(t), cost).1,
{
}

/// A text is shown whole where it is short enough, and otherwise its first characters with an ellipsis.
pub proof fn law_shortened(s: Seq<char>, rest: Seq<char>, max: nat)
    ensures
        s.len() <= max ==> shortened(s, max) == s,
        s.len() == max && rest.len() > 0 ==> shortened(s + rest, max) == s + "…"@,
{
    if s.len() == max {
        assert((s + rest).take(max as int) =~= s);
    }
}

/// The arguments of a call are shown one by one in their order, each with its name; a text without quotation marks
/// and at most forty characters of it, anything else as JSON.
pub proof fn law_arguments_shown(
    e: Seq<(Seq<char>, JsonView)>,
    name: Seq<char>,
    t: Seq<char>,
    v: JsonView,
)
    ensures
        preview(JsonView::Obj(Seq::empty())).len() == 0,
        preview(JsonView::Obj(seq![(name, JsonView::Str(t))])) == name + "="@ + shortened(t, 40),
        !(v is Str) ==> preview(JsonView::Obj(seq![(name, v)])) == name + "="@ + json_text(v),
        e.len() > 0 ==> preview(JsonView::Obj(e.push((name, v)))) == preview(JsonView::Obj(e)) + ", "@
            + preview(JsonView::Obj(seq![(name, v)])),
        !(v is Obj) ==> preview(v) == shortened(json_text(v), 80),
{
    let f = |x: (Seq<char>, JsonView)| x.0 + "="@ + value_preview(x.1);
    let one = seq![(name, v)].map_values(f);
    assert(one =~= seq![name + "="@ + value_preview(v)]);
    law_joined(Seq::empty(), name + "="@ + value_preview(v), ", "@);
    let txt = JsonView::Str(t);
    let two = seq![(name, txt)].map_values(f);
    assert(two =~= seq![name + "="@ + value_preview(txt)]);
    law_joined(Seq::empty(), name + "="@ + value_preview(txt), ", "@);
    assert(e.push((name, v)).map_values(f) =~= e.map_values(f).push(name + "="@ + value_preview(v)));
    law_joined(e.map_values(f), name + "="@ + value_preview(v), ", "@);
    assert(Seq::<(Seq<char>, JsonView)>::empty().map_values(f) =~= Seq::empty());
}

/// A call is announced with its name and its arguments.
pub proof fn law_call_announced(c: CallView)
    ensures
        started_event(c) == (UiView::ToolCallStarted { name: c.name, args_preview: preview(c.args) }),
{
}

/// A thread is replayed message by message, in its order: what the user and the assistant said as it was said, each
/// call with its arguments, of each answer the first line; what the system says is not shown.
pub proof fn law_thread_replayed(
    ms: Seq<MessageView>,
    s: Seq<char>,
    id: Seq<char>,
    calls: Seq<CallView>,
    c: CallView,
)
    ensures
        replayed(ms.push(MessageView::User(s))) == replayed(ms) + seq![
            ReplayView { role: ReplayRole::User, text: s },
        ],
        replayed(ms.push(MessageView::Assistant(s))) == replayed(ms) + seq![
            ReplayView { role: ReplayRole::Assistant, text: s },
        ],
        replayed(ms.push(MessageView::System(s))) == replayed(ms),
        replayed(ms.push(MessageView::Tool { call_id: id, content: s })) == replayed(ms) + seq![
            ReplayView { role: ReplayRole::ToolResult, text: shortened(first_line(s), 120) },
        ],
        replayed(ms.push(MessageView::ToolCalls(calls.push(c)))) == replayed(
            ms.push(MessageView::ToolCalls(calls)),
        ) + seq![
            ReplayView {
                role: ReplayRole::ToolCall,
                text: "⚙ "@ + c.name + "("@ + preview(c.args) + ")"@,
            },
        ],
        replayed(ms.push(MessageView::ToolCalls(Seq::empty()))) == replayed(ms),
        replayed(Seq::empty()).len() == 0,
{
    assert(ms.push(MessageView::User(s)).drop_last() =~= ms);
    assert(ms.push(MessageView::Assistant(s)).drop_last() =~= ms);
    assert(ms.push(MessageView::System(s)).drop_last() =~= ms);
    assert(ms.push(MessageView::Tool { call_id: id, content: s }).drop_last() =~= ms);
    assert(ms.push(MessageView::ToolCalls(calls.push(c))).drop_last() =~= ms);
    assert(ms.push(MessageView::ToolCalls(calls)).drop_last() =~= ms);
    assert(ms.push(MessageView::ToolCalls(Seq::empty())).drop_last() =~= ms);
    let f = |c: CallView| replay_call(c);
    assert(calls.push(c).map_values(f) =~= calls.map_values(f).push(replay_call(c)));
    assert(Seq::<CallView>::empty().map_values(f) =~= Seq::empty());
    assert(replayed(ms) + calls.map_values(f).push(replay_call(c)) =~= replayed(ms) + calls.map_values(f)
        + seq![replay_call(c)]);
    assert(replayed(ms) + Seq::<ReplayView>::empty() =~= replayed(ms));
}

/// The first line of a text is what stands before its first line feed, without a carriage return at its end.
pub proof fn law_first_line(l: Seq<char>, rest: Seq<char>)
    requires
        !l.contains('\n'),
        l.len() == 0 || l.last() != '\r',
    ensures
        first_line(l + seq!['\n'] + rest) == l,
        l.len() > 0 ==> first_line(l) == l,
        first_line(Seq::empty()).len() == 0,
{
    let s = l + seq!['\n'] + rest;
    law_split_at(l, '\n', rest);
    law_split_and_joined(rest, '\n');
    law_lines_of_text(s);
    assert(split_on(s, '\n')[0] == l);
    assert(split_on(s, '\n').len() >= 2);
    law_lines_of_text(l);
}

/// Each task of the list stands on a line of its own, in its order, with the mark and the colour of its state; one
/// that is being worked on is told in its active form.
pub proof fn law_tasks_shown(ts: Seq<TodoView>, t: TodoView)
    ensures
        t.status is Completed ==> todo_lines(ts.push(t)) == todo_lines(ts) + ("\x1b[32m"@ + "  "@ + "[x]"@
            + " "@ + t.content + "\x1b[0m\n"@),
        t.status is InProgress ==> todo_lines(ts.push(t)) == todo_lines(ts) + ("\x1b[33m"@ + "  "@ + "[~]"@
            + " "@ + t.active_form + "\x1b[0m\n"@),
        t.status is Pending ==> todo_lines(ts.push(t)) == todo_lines(ts) + ("\x1b[90m"@ + "  "@ + "[ ]"@
            + " "@ + t.content + "\x1b[0m\n"@),
        todo_lines(Seq::empty()).len() == 0,
{
    assert(ts.push(t).drop_last() =~= ts);
}

/// What is written to the terminal for the texts: thought stands in grey behind a mark that is written once, and
/// what is said after it begins on a line of its own.
pub proof fn law_texts_on_terminal(t: Seq<char>, cost: Seq<char>)
    ensures
        terminal_text(false, UiView::ThinkingDelta(t), cost) == ("\x1b[90m[thinking] "@ + t, true),
        terminal_text(true, UiView::ThinkingDelta(t), cost) == (t, true),
        terminal_text(false, UiView::AssistantTextDelta(t), cost) == (t, false),
        terminal_text(true, UiView::AssistantTextDelta(t), cost) == ("\x1b[0m\n"@ + t, false),
        terminal_text(false, UiView::AssistantTextEnd, cost) == ("\n"@, false),
        terminal_text(true, UiView::AssistantTextEnd, cost) == ("\x1b[0m"@ + "\n"@, false),
{
}

/// What is written to the terminal for the other events; none of them ends a thought.
pub proof fn law_events_on_terminal(
    thinking: bool,
    a: Seq<char>,
    b: Seq<char>,
    ts: Seq<TodoView>,
    cost: Seq<char>,
    msgs: Seq<ReplayView>,
)
    ensures
        terminal_text(thinking, UiView::ToolCallStarted { name: a, args_preview: b }, cost) == (
            "\x1b[36m⚙ "@ + a + "("@ + b + ")\x1b[0m\n"@,
            thinking,
        ),
        terminal_text(thinking, UiView::ToolResult { ok: true, summary: a }, cost) == (
            "\x1b[32m"@ + "  "@ + "✓"@ + " "@ + a + "\x1b[0m\n"@,
            thinking,
        ),
        terminal_text(thinking, UiView::ToolResult { ok: false, summary: a }, cost) == (
            "\x1b[31m"@ + "  "@ + "✗"@ + " "@ + a + "\x1b[0m\n"@,
            thinking,
        ),
        terminal_text(thinking, UiView::TodoUpdated(ts), cost) == (todo_lines(ts), thinking),
        terminal_text(thinking, UiView::Notice(a), cost) == ("\x1b[90m"@ + a + "\x1b[0m\n"@, thinking),
        terminal_text(thinking, UiView::Divider(a), cost) == (
            "\x1b[90m──── "@ + a + " ────\x1b[0m\n"@,
            thinking,
        ),
        terminal_text(thinking, UiView::Title(a), cost) == (Seq::<char>::empty(), thinking),
        terminal_text(thinking, UiView::ModelChanged(a), cost) == (Seq::<char>::empty(), thinking),
        terminal_text(thinking, UiView::ReplayHistory(msgs), cost) == (Seq::<char>::empty(), thinking),
        terminal_text(thinking, UiView::Idle, cost) == (Seq::<char>::empty(), thinking),
{
}

/// A question is shown with its options between bars, where there are any; the first of them is the answer that is
/// given where nobody is there to give one.
pub proof fn law_question_shown(
    thinking: bool,
    id: u64,
    q: Seq<char>,
    o: Seq<char>,
    options: Seq<Seq<char>>,
    cost: Seq<char>,
)
    ensures
        terminal_text(thinking, UiView::AskUser { id, question: q, options: Seq::empty() }, cost) == (
            "\x1b[33m[ask] "@ + q + "\x1b[0m\n"@,
            thinking,
        ),
        options.len() > 0 ==> terminal_text(thinking, UiView::AskUser { id, question: q, options }, cost)
            == (
            "\x1b[33m[ask] "@ + q + "\x1b[0m\n"@ + ("\x1b[33m  options: "@ + join(options, " | "@)
                + "\x1b[0m\n"@),
            thinking,
        ),
        first_option(seq![o] + options) == o,
        first_option(Seq::empty()).len() == 0,
{
    let head = "\x1b[33m[ask] "@ + q + "\x1b[0m\n"@;
    assert(head + Seq::<char>::empty() =~= head);
}

/// The tokens of a turn are told each under its name.
pub proof fn law_usage_shown(
    thinking: bool,
    usage: Usage,
    pricing: Pricing,
    cost: Seq<char>,
    model: Seq<char>,
)
    ensures
        terminal_text(thinking, UiView::TurnUsage { usage, pricing, model }, cost) == (
            "\n[tokens] in="@ + dec(usage.input as nat) + " out="@ + dec(usage.output as nat)
                + " cache_read="@ + dec(usage.cache_read as nat) + " cache_write="@ + dec(
                usage.cache_write as nat,
            ) + " reasoning="@ + dec(usage.reasoning as nat) + " | cost=$"@ + cost + " ("@ + model
                + ")\n"@,
            thinking,
        ),
{
}

} // verus!
