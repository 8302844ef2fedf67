//! What the agent shows, as events on the wire, and the questions that wait for an answer.

use super::protocol::{event_json, wire_todo, wire_todo_views, Event, WireTodo, WireUsage};
use crate::agent::ui::{ReplayMsg, UiEvent};
use crate::json::{Json, JsonView, NumberView};
use crate::number::{dec, push_dec};
use crate::provider::event::Usage;
use crate::provider::llm_log::usage_json;
use crate::registry::model::Pricing;
use crate::text::{copy_strings, texts};
use crate::tools::todo_write::{todo_views, TodoItem, TodoView};
use std::collections::HashMap;
use vstd::prelude::*;

verus! {

/// The questions that wait for an answer: whom to hand it to, by the number of the question.
pub struct PendingAsks<T> {
    pub waiting: HashMap<u64, T>,
}

impl<T> View for PendingAsks<T> {
    type V = Map<u64, T>;

    open spec fn view(&self) -> Map<u64, T> {
        self.waiting@
    }
}

impl<T> PendingAsks<T> {
    /// No questions.
    pub fn new() -> (r: PendingAsks<T>)
        ensures
            r@ == Map::<u64, T>::empty(),
    {
        PendingAsks { waiting: HashMap::new() }
    }

    /// One question more.
    pub fn add(&mut self, id: u64, to: T)
        ensures
            final(self)@ == old(self)@.insert(id, to),
    {
        broadcast use vstd::std_specs::hash::group_hash_axioms;

        self.waiting.insert(id, to);
    }

    /// Takes the one who waits for the answer to a question.
    pub fn take(&mut self, id: u64) -> (r: Option<T>)
        ensures
            final(self)@ == old(self)@.remove(id),
            match r {
                Some(t) => old(self)@.contains_key(id) && old(self)@[id] == t,
                None => !old(self)@.contains_key(id),
            },
    {
        broadcast use vstd::std_specs::hash::group_hash_axioms;

        self.waiting.remove(&id)
    }

    /// Whether somebody waits for the answer to a question.
    pub fn contains(&self, id: u64) -> (r: bool)
        ensures
            r == self@.contains_key(id),
    {
        broadcast use vstd::std_specs::hash::group_hash_axioms;

        self.waiting.contains_key(&id)
    }

    /// How many questions wait.
    pub fn len(&self) -> (r: usize)
        ensures
            r == self@.len(),
    {
        broadcast use vstd::std_specs::hash::group_hash_axioms;

        self.waiting.len()
    }
}

fn wire_todos(todos: &Vec<TodoItem>) -> (r: Vec<WireTodo>)
    ensures
        wire_todo_views(r@) == todo_views(todos@).map_values(|t: TodoView| wire_todo(t)),
{
    let ghost want = todo_views(todos@).map_values(|t: TodoView| wire_todo(t));
    let mut out: Vec<WireTodo> = Vec::new();
    let mut i: usize = 0;
    assert(wire_todo_views(out@) =~= want.take(0));
    while i < todos.len()
        invariant
            i <= todos@.len(),
            want == todo_views(todos@).map_values(|t: TodoView| wire_todo(t)),
            wire_todo_views(out@) == want.take(i as int),
        decreases todos@.len() - i,
    {
        let t = WireTodo::from_item(&todos[i]);
        let ghost tv = t@;
        let ghost before = wire_todo_views(out@);
        assert(want[i as int] == tv);
        out.push(t);
        assert(wire_todo_views(out@) =~= before.push(tv));
        assert(want.take(i + 1) =~= want.take(i as int).push(tv));
        i += 1;
    }
    assert(want.take(i as int) =~= want);
    out
}

/// The event `w` on the wire tells the event `e` of the agent, at the given cost.
pub open spec fn tells(w: Event, e: UiEvent, cost: Json) -> bool {
    match e {
        UiEvent::AssistantTextDelta(t) => w matches Event::TextDelta { text } && text@ == t@,
        UiEvent::ThinkingDelta(t) => w matches Event::ThinkingDelta { text } && text@ == t@,
        UiEvent::AssistantTextEnd => w is TextEnd,
        UiEvent::ToolCallStarted { name, args_preview } => w matches Event::ToolCallStarted {
            name: n,
            args_preview: a,
        } && n@ == name@ && a@ == args_preview@,
        UiEvent::ToolResult { ok, summary } => w matches Event::ToolResult { ok: o, summary: s } && o
            == ok && s@ == summary@,
        UiEvent::TodoUpdated(items) => w matches Event::TodoUpdated { todos } && wire_todo_views(
            todos@,
        ) == todo_views(items@).map_values(|t: TodoView| wire_todo(t)),
        UiEvent::Notice(s) => w matches Event::Notice { message } && message@ == s@,
        UiEvent::Title(s) => w matches Event::Title { title } && title@ == s@,
        UiEvent::ModelChanged(s) => w matches Event::ModelChanged { model } && model@ == s@,
        UiEvent::Divider(s) => w matches Event::Divider { label } && label@ == s@,
        UiEvent::Idle => w is Idle,
        UiEvent::TurnUsage { usage, pricing, model } => w matches Event::TurnUsage {
            usage: u,
            cost: c,
            model: m,
        } && u.usage() == usage && c@ == cost@ && m@ == model@,
        UiEvent::ReplayHistory(items) => w matches Event::Notice { message } && message@
            == "[replay] "@ + dec(items@.len()) + " entries"@,
        UiEvent::AskUser { id, question, options } => w matches Event::AskUser {
            id: i,
            question: q,
            options: o,
        } && i == id && q@ == question@ && texts(o@) == texts(options@),
    }
}

/// The event on the wire for an event of the agent; `cost` is that of the turn.
pub fn wire_event(e: &UiEvent, cost: &Json) -> (r: Event)
    ensures
        tells(r, *e, *cost),
{
    match e {
        UiEvent::AssistantTextDelta(t) => Event::TextDelta { text: t.clone() },
        UiEvent::ThinkingDelta(t) => Event::ThinkingDelta { text: t.clone() },
        UiEvent::AssistantTextEnd => Event::TextEnd,
        UiEvent::ToolCallStarted { name, args_preview } => Event::ToolCallStarted {
            name: name.clone(),
            args_preview: args_preview.clone(),
        },
        UiEvent::ToolResult { ok, summary } => Event::ToolResult { ok: *ok, summary: summary.clone() },
        UiEvent::TodoUpdated(items) => Event::TodoUpdated { todos: wire_todos(items) },
        UiEvent::Notice(s) => Event::Notice { message: s.clone() },
        UiEvent::Title(s) => Event::Title { title: s.clone() },
        UiEvent::ModelChanged(s) => Event::ModelChanged { model: s.clone() },
        UiEvent::Divider(s) => Event::Divider { label: s.clone() },
        UiEvent::Idle => Event::Idle,
        UiEvent::TurnUsage { usage, pricing, model } => Event::TurnUsage {
            usage: WireUsage::from_usage(usage),
            cost: cost.dup(),
            model: model.clone(),
        },
        UiEvent::ReplayHistory(items) => {
            let mut s = "[replay] ".to_owned();
            push_dec(&mut s, items.len() as u64);
            s.append(" entries");
            Event::Notice { message: s }
        },
        UiEvent::AskUser { id, question, options } => Event::AskUser {
            id: *id,
            question: question.clone(),
            options: copy_strings(options),
        },
    }
}

/// What is shown is sent as it is, each kind of event as its own kind.
pub proof fn law_texts_sent(w: Event, s: String, cost: Json)
    ensures
        tells(w, UiEvent::AssistantTextDelta(s), cost) ==> event_json(w) == JsonView::Obj(
            seq![("type"@, JsonView::Str("text_delta"@)), ("text"@, JsonView::Str(s@))],
        ),
        tells(w, UiEvent::ThinkingDelta(s), cost) ==> event_json(w) == JsonView::Obj(
            seq![("type"@, JsonView::Str("thinking_delta"@)), ("text"@, JsonView::Str(s@))],
        ),
        tells(w, UiEvent::AssistantTextEnd, cost) ==> event_json(w) == JsonView::Obj(
            seq![("type"@, JsonView::Str("text_end"@))],
        ),
        tells(w, UiEvent::Idle, cost) ==> event_json(w) == JsonView::Obj(
            seq![("type"@, JsonView::Str("idle"@))],
        ),
        tells(w, UiEvent::Notice(s), cost) ==> event_json(w) == JsonView::Obj(
            seq![("type"@, JsonView::Str("notice"@)), ("message"@, JsonView::Str(s@))],
        ),
        tells(w, UiEvent::Title(s), cost) ==> event_json(w) == JsonView::Obj(
            seq![("type"@, JsonView::Str("title"@)), ("title"@, JsonView::Str(s@))],
        ),
        tells(w, UiEvent::ModelChanged(s), cost) ==> event_json(w) == JsonView::Obj(
            seq![("type"@, JsonView::Str("model_changed"@)), ("model"@, JsonView::Str(s@))],
        ),
        tells(w, UiEvent::Divider(s), cost) ==> event_json(w) == JsonView::Obj(
            seq![("type"@, JsonView::Str("divider"@)), ("label"@, JsonView::Str(s@))],
        ),
{
}

/// A call, its result, a question and the tokens of a turn are sent with all that is shown of them; of a thread
/// that is shown again only the number of its messages is sent.
pub proof fn law_events_sent(
    w: Event,
    a: String,
    b: String,
    ok: bool,
    id: u64,
    options: Vec<String>,
    usage: Usage,
    pricing: Pricing,
    items: Vec<ReplayMsg>,
    cost: Json,
)
    ensures
        tells(w, UiEvent::ToolCallStarted { name: a, args_preview: b }, cost) ==> event_json(w)
            == JsonView::Obj(
            seq![
                ("type"@, JsonView::Str("tool_call_started"@)),
                ("name"@, JsonView::Str(a@)),
                ("args_preview"@, JsonView::Str(b@)),
            ],
        ),
        tells(w, UiEvent::ToolResult { ok, summary: a }, cost) ==> event_json(w) == JsonView::Obj(
            seq![
                ("type"@, JsonView::Str("tool_result"@)),
                ("ok"@, JsonView::Bool(ok)),
                ("summary"@, JsonView::Str(a@)),
            ],
        ),
        tells(w, UiEvent::AskUser { id, question: a, options }, cost) ==> event_json(w) == JsonView::Obj(
            seq![
                ("type"@, JsonView::Str("ask_user"@)),
                ("id"@, JsonView::Num(NumberView::Uint(id))),
                ("question"@, JsonView::Str(a@)),
                (
                    "options"@,
                    JsonView::Arr(Seq::new(options@.len(), |i: int| JsonView::Str(options@[i]@))),
                ),
            ],
        ),
        tells(w, UiEvent::TurnUsage { usage, pricing, model: a }, cost) ==> event_json(w) == JsonView::Obj(
            seq![
                ("type"@, JsonView::Str("turn_usage"@)),
                ("usage"@, usage_json(usage)),
                ("cost"@, cost@),
                ("model"@, JsonView::Str(a@)),
            ],
        ),
        tells(w, UiEvent::ReplayHistory(items), cost) ==> event_json(w) == JsonView::Obj(
            seq![
                ("type"@, JsonView::Str("notice"@)),
                ("message"@, JsonView::Str("[replay] "@ + dec(items@.len()) + " entries"@)),
            ],
        ),
{
    assert(texts(options@).map_values(|s: Seq<char>| JsonView::Str(s)) =~= Seq::new(
        options@.len(),
        |i: int| JsonView::Str(options@[i]@),
    ));
}

} // verus!
