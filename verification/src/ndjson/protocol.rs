//! The commands that the agent takes, and the events that it tells.

use crate::json::{
    has_fields, jobj1, jobj2, jobj3, jobj4, jobj5, json_parse, json_text, json_view_arr, json_views, jstr,
    juint, parse_json, text_field, uint_field, Json, JsonView, NumberView,
};
use crate::provider::event::Usage;
use crate::provider::llm_log::{usage_json, usage_to_json};
use crate::split::{lemma_one_line, lines, trim, trim_str};
use crate::text::{str_eq, texts};
use crate::tools::todo_write::{TodoItem, TodoStatus, TodoView};
use crate::written::{gives_once, is_written_once, mark_strings, marked, once, written_once};
use vstd::prelude::*;

verus! {

/// A command to the agent.
#[derive(Debug)]
pub enum Command {
    /// Put this to the model.
    UserPrompt { text: String },
    /// Break off what is going on.
    Cancel,
    /// Use another model.
    SetModel { model: String },
    /// The answer to a question.
    AskResponse { id: u64, answer: String },
    /// End.
    Stop,
}

/// What a command holds.
pub enum CommandView {
    UserPrompt { text: Seq<char> },
    Cancel,
    SetModel { model: Seq<char> },
    AskResponse { id: u64, answer: Seq<char> },
    Stop,
}

impl View for Command {
    type V = CommandView;

    open spec fn view(&self) -> CommandView {
        match *self {
            Command::UserPrompt { text } => CommandView::UserPrompt { text: text@ },
            Command::Cancel => CommandView::Cancel,
            Command::SetModel { model } => CommandView::SetModel { model: model@ },
            Command::AskResponse { id, answer } => CommandView::AskResponse { id, answer: answer@ },
            Command::Stop => CommandView::Stop,
        }
    }
}

/// What is said of a command that lacks a field.
pub open spec fn missing_field(name: Seq<char>) -> Seq<char> {
    "missing or invalid field `"@ + name + "`"@
}

/// What is said of a command that is not known.
pub open spec fn unknown_command(kind: Seq<char>) -> Seq<char> {
    "unknown variant `"@ + kind
        + "`, expected one of `user_prompt`, `cancel`, `set_model`, `ask_response`, `stop`"@
}

/// What is said of an array that does not list a command and its fields.
pub open spec fn wrong_length() -> Seq<char> {
    "wrong number of fields"@
}

/// The command that a document is: its `type` names it, and its fields stand beside that; or an array begins
/// with the name and goes on with the fields in their order.
pub open spec fn command_of(j: JsonView) -> Result<CommandView, Seq<char>> {
    match text_field(j, "type"@, 0) {
        None => Err(missing_field("type"@)),
        Some(kind) => if kind == "user_prompt"@ {
            match text_field(j, "text"@, 1) {
                Some(text) => if has_fields(j, 2) {
                    Ok(CommandView::UserPrompt { text })
                } else {
                    Err(wrong_length())
                },
                None => Err(missing_field("text"@)),
            }
        } else if kind == "cancel"@ {
            if has_fields(j, 1) {
                Ok(CommandView::Cancel)
            } else {
                Err(wrong_length())
            }
        } else if kind == "set_model"@ {
            match text_field(j, "model"@, 1) {
                Some(model) => if has_fields(j, 2) {
                    Ok(CommandView::SetModel { model })
                } else {
                    Err(wrong_length())
                },
                None => Err(missing_field("model"@)),
            }
        } else if kind == "ask_response"@ {
            match uint_field(j, "id"@, 1) {
                None => Err(missing_field("id"@)),
                Some(id) => match text_field(j, "answer"@, 2) {
                    Some(answer) => if has_fields(j, 3) {
                        Ok(CommandView::AskResponse { id, answer })
                    } else {
                        Err(wrong_length())
                    },
                    None => Err(missing_field("answer"@)),
                },
            }
        } else if kind == "stop"@ {
            if has_fields(j, 1) {
                Ok(CommandView::Stop)
            } else {
                Err(wrong_length())
            }
        } else {
            Err(unknown_command(kind))
        },
    }
}

/// The view of a command that was read.
pub open spec fn command_view(r: Result<Command, String>) -> Result<CommandView, Seq<char>> {
    match r {
        Ok(c) => Ok(c@),
        Err(e) => Err(e@),
    }
}

fn lacks(name: &str) -> (r: String)
    ensures
        r@ == missing_field(name@),
{
    let mut s = "missing or invalid field `".to_owned();
    s.append(name);
    s.append("`");
    s
}

/// The command that a document is.
pub fn read_command(j: &Json) -> (r: Result<Command, String>)
    ensures
        command_view(r) == command_of(j@),
{
    let kind = match j.text_field("type", 0) {
        Some(k) => k,
        None => {
            return Err(lacks("type"));
        },
    };
    let k = kind.as_str();
    let long = "wrong number of fields";
    if str_eq(k, "user_prompt") {
        match j.text_field("text", 1) {
            Some(text) => if j.is_record(2) {
                Ok(Command::UserPrompt { text })
            } else {
                Err(long.to_owned())
            },
            None => Err(lacks("text")),
        }
    } else if str_eq(k, "cancel") {
        if j.is_record(1) {
            Ok(Command::Cancel)
        } else {
            Err(long.to_owned())
        }
    } else if str_eq(k, "set_model") {
        match j.text_field("model", 1) {
            Some(model) => if j.is_record(2) {
                Ok(Command::SetModel { model })
            } else {
                Err(long.to_owned())
            },
            None => Err(lacks("model")),
        }
    } else if str_eq(k, "ask_response") {
        match j.uint_field("id", 1) {
            None => Err(lacks("id")),
            Some(id) => match j.text_field("answer", 2) {
                Some(answer) => if j.is_record(3) {
                    Ok(Command::AskResponse { id, answer })
                } else {
                    Err(long.to_owned())
                },
                None => Err(lacks("answer")),
            },
        }
    } else if str_eq(k, "stop") {
        if j.is_record(1) {
            Ok(Command::Stop)
        } else {
            Err(long.to_owned())
        }
    } else {
        let mut s = "unknown variant `".to_owned();
        s.append(k);
        s.append("`, expected one of `user_prompt`, `cancel`, `set_model`, `ask_response`, `stop`");
        Err(s)
    }
}

/// What is said of a command that gives a field twice.
pub open spec fn duplicate_field(name: Seq<char>) -> Seq<char> {
    "duplicate field `"@ + name + "`"@
}

/// The field that a marked command of the kind gives twice.
pub open spec fn field_twice(kind: Option<Seq<char>>, m: JsonView) -> Option<Seq<char>> {
    if !once(m, "type"@) {
        Some("type"@)
    } else if kind == Some("user_prompt"@) && !once(m, "text"@) {
        Some("text"@)
    } else if kind == Some("set_model"@) && !once(m, "model"@) {
        Some("model"@)
    } else if kind == Some("ask_response"@) && !once(m, "id"@) {
        Some("id"@)
    } else if kind == Some("ask_response"@) && !once(m, "answer"@) {
        Some("answer"@)
    } else {
        None
    }
}

/// The command on a line.
pub open spec fn line_command(line: Seq<char>) -> Result<CommandView, Seq<char>> {
    match (json_parse(line), json_parse(marked(line))) {
        (None, _) => Err("not a JSON document"@),
        (Some(j), Some(m)) => if written_once(line) {
            command_of(j)
        } else {
            match field_twice(text_field(j, "type"@, 0), m) {
                Some(name) => Err(duplicate_field(name)),
                None => command_of(j),
            }
        },
        (Some(j), None) => command_of(j),
    }
}

fn which_twice(j: &Json, m: &Json) -> (r: Option<&'static str>)
    ensures
        match r {
            Some(name) => field_twice(text_field(j@, "type"@, 0), m@) == Some(name@),
            None => field_twice(text_field(j@, "type"@, 0), m@) is None,
        },
{
    if !gives_once(m, "type") {
        return Some("type");
    }
    let kind = match j.text_field("type", 0) {
        Some(k) => k,
        None => {
            return None;
        },
    };
    let k = kind.as_str();
    if str_eq(k, "user_prompt") && !gives_once(m, "text") {
        Some("text")
    } else if str_eq(k, "set_model") && !gives_once(m, "model") {
        Some("model")
    } else if str_eq(k, "ask_response") && !gives_once(m, "id") {
        Some("id")
    } else if str_eq(k, "ask_response") && !gives_once(m, "answer") {
        Some("answer")
    } else {
        None
    }
}

/// The command on a line, without the white space around it.
pub fn parse_line(line: &str) -> (r: Result<Command, String>)
    ensures
        command_view(r) == line_command(trim(line@)),
{
    let t = trim_str(line);
    let j = match parse_json(t.as_str()) {
        Some(j) => j,
        None => {
            return Err("not a JSON document".to_owned());
        },
    };
    if !is_written_once(t.as_str(), &j) {
        if let Some(m) = parse_json(mark_strings(t.as_str()).as_str()) {
            if let Some(name) = which_twice(&j, &m) {
                let mut s = "duplicate field `".to_owned();
                s.append(name);
                s.append("`");
                return Err(s);
            }
        }
    }
    read_command(&j)
}

/// How far a task is, on the wire.
#[derive(Clone, Copy, Debug, PartialEq, Eq, Structural)]
pub enum WireTodoStatus {
    Pending,
    InProgress,
    Completed,
}

/// A task on the wire.
#[derive(Debug)]
pub struct WireTodo {
    pub status: WireTodoStatus,
    pub content: String,
    pub active_form: String,
}

/// What a task on the wire holds.
pub struct WireTodoView {
    pub status: WireTodoStatus,
    pub content: Seq<char>,
    pub active_form: Seq<char>,
}

impl View for WireTodo {
    type V = WireTodoView;

    open spec fn view(&self) -> WireTodoView {
        WireTodoView {
            status: self.status,
            content: self.content@,
            active_form: self.active_form@,
        }
    }
}

/// What tasks on the wire hold.
pub open spec fn wire_todo_views(v: Seq<WireTodo>) -> Seq<WireTodoView> {
    v.map_values(|t: WireTodo| t@)
}

/// How far a task is, on the wire.
pub open spec fn wire_status(s: TodoStatus) -> WireTodoStatus {
    match s {
        TodoStatus::Pending => WireTodoStatus::Pending,
        TodoStatus::InProgress => WireTodoStatus::InProgress,
        TodoStatus::Completed => WireTodoStatus::Completed,
    }
}

/// A task on the wire.
pub open spec fn wire_todo(t: TodoView) -> WireTodoView {
    WireTodoView {
        status: wire_status(t.status),
        content: t.content,
        active_form: t.active_form,
    }
}

impl WireTodo {
    /// A task on the wire.
    pub fn from_item(t: &TodoItem) -> (r: WireTodo)
        ensures
            r@ == wire_todo(t@),
    {
        WireTodo {
            status: match t.status {
                TodoStatus::Pending => WireTodoStatus::Pending,
                TodoStatus::InProgress => WireTodoStatus::InProgress,
                TodoStatus::Completed => WireTodoStatus::Completed,
            },
            content: t.content.clone(),
            active_form: t.active_form.clone(),
        }
    }
}

/// Token counts on the wire.
#[derive(Clone, Copy, Debug, PartialEq, Eq, Structural)]
pub struct WireUsage {
    pub input: u64,
    pub output: u64,
    pub cache_read: u64,
    pub cache_write: u64,
    pub reasoning: u64,
}

impl WireUsage {
    /// Token counts on the wire.
    pub fn from_usage(u: &Usage) -> (r: WireUsage)
        ensures
            r.usage() == *u,
    {
        WireUsage {
            input: u.input,
            output: u.output,
            cache_read: u.cache_read,
            cache_write: u.cache_write,
            reasoning: u.reasoning,
        }
    }

    /// The token counts.
    pub open spec fn usage(self) -> Usage {
        Usage {
            input: self.input,
            output: self.output,
            cache_read: self.cache_read,
            cache_write: self.cache_write,
            reasoning: self.reasoning,
        }
    }
}

/// What the agent tells.
#[derive(Debug)]
pub enum Event {
    /// The session is ready for commands.
    Ready { session_id: String, model: String, cwd: String, resumed: bool },
    TextDelta { text: String },
    ThinkingDelta { text: String },
    TextEnd,
    ToolCallStarted { name: String, args_preview: String },
    ToolResult { ok: bool, summary: String },
    TodoUpdated { todos: Vec<WireTodo> },
    Notice { message: String },
    Title { title: String },
    ModelChanged { model: String },
    Divider { label: String },
    /// The agent waits for commands.
    Idle,
    /// A question, which an `ask_response` with the same `id` answers.
    AskUser { id: u64, question: String, options: Vec<String> },
    /// What a turn has used, and what it cost.
    TurnUsage { usage: WireUsage, cost: Json, model: String },
    Error { message: String },
}

/// A status as it is written.
pub open spec fn status_word(s: WireTodoStatus) -> Seq<char> {
    match s {
        WireTodoStatus::Pending => "pending"@,
        WireTodoStatus::InProgress => "in_progress"@,
        WireTodoStatus::Completed => "completed"@,
    }
}

/// A task as it is written.
pub open spec fn todo_json(t: WireTodoView) -> JsonView {
    JsonView::Obj(
        seq![
            ("status"@, JsonView::Str(status_word(t.status))),
            ("content"@, JsonView::Str(t.content)),
            ("active_form"@, JsonView::Str(t.active_form)),
        ],
    )
}

/// Texts as they are written.
pub open spec fn strings_json(v: Seq<Seq<char>>) -> JsonView {
    JsonView::Arr(v.map_values(|s: Seq<char>| JsonView::Str(s)))
}

/// An event without fields.
pub open spec fn bare(kind: Seq<char>) -> JsonView {
    JsonView::Obj(seq![("type"@, JsonView::Str(kind))])
}

/// An event with one text.
pub open spec fn with_text(kind: Seq<char>, field: Seq<char>, text: Seq<char>) -> JsonView {
    JsonView::Obj(seq![("type"@, JsonView::Str(kind)), (field, JsonView::Str(text))])
}

/// An event as it is written: its kind under `type`, then its fields.
pub open spec fn event_json(e: Event) -> JsonView {
    match e {
        Event::Ready { session_id, model, cwd, resumed } => JsonView::Obj(
            seq![
                ("type"@, JsonView::Str("ready"@)),
                ("session_id"@, JsonView::Str(session_id@)),
                ("model"@, JsonView::Str(model@)),
                ("cwd"@, JsonView::Str(cwd@)),
                ("resumed"@, JsonView::Bool(resumed)),
            ],
        ),
        Event::TextDelta { text } => with_text("text_delta"@, "text"@, text@),
        Event::ThinkingDelta { text } => with_text("thinking_delta"@, "text"@, text@),
        Event::TextEnd => bare("text_end"@),
        Event::ToolCallStarted { name, args_preview } => JsonView::Obj(
            seq![
                ("type"@, JsonView::Str("tool_call_started"@)),
                ("name"@, JsonView::Str(name@)),
                ("args_preview"@, JsonView::Str(args_preview@)),
            ],
        ),
        Event::ToolResult { ok, summary } => JsonView::Obj(
            seq![
                ("type"@, JsonView::Str("tool_result"@)),
                ("ok"@, JsonView::Bool(ok)),
                ("summary"@, JsonView::Str(summary@)),
            ],
        ),
        Event::TodoUpdated { todos } => JsonView::Obj(
            seq![
                ("type"@, JsonView::Str("todo_updated"@)),
                (
                    "todos"@,
                    JsonView::Arr(
                        wire_todo_views(todos@).map_values(|t: WireTodoView| todo_json(t)),
                    ),
                ),
            ],
        ),
        Event::Notice { message } => with_text("notice"@, "message"@, message@),
        Event::Title { title } => with_text("title"@, "title"@, title@),
        Event::ModelChanged { model } => with_text("model_changed"@, "model"@, model@),
        Event::Divider { label } => with_text("divider"@, "label"@, label@),
        Event::Idle => bare("idle"@),
        Event::AskUser { id, question, options } => JsonView::Obj(
            seq![
                ("type"@, JsonView::Str("ask_user"@)),
                ("id"@, JsonView::Num(NumberView::Uint(id))),
                ("question"@, JsonView::Str(question@)),
                ("options"@, strings_json(texts(options@))),
            ],
        ),
        Event::TurnUsage { usage, cost, model } => JsonView::Obj(
            seq![
                ("type"@, JsonView::Str("turn_usage"@)),
                ("usage"@, usage_json(usage.usage())),
                ("cost"@, cost@),
                ("model"@, JsonView::Str(model@)),
            ],
        ),
        Event::Error { message } => with_text("error"@, "message"@, message@),
    }
}

fn jbare(kind: &str) -> (r: Json)
    ensures
        r@ == bare(kind@),
{
    jobj1("type", jstr(kind))
}

fn jtext(kind: &str, field: &str, text: &str) -> (r: Json)
    ensures
        r@ == with_text(kind@, field@, text@),
{
    jobj2("type", jstr(kind), field, jstr(text))
}

fn jtodos(todos: &Vec<WireTodo>) -> (r: Json)
    ensures
        r@ == JsonView::Arr(wire_todo_views(todos@).map_values(|t: WireTodoView| todo_json(t))),
{
    let ghost want = wire_todo_views(todos@).map_values(|t: WireTodoView| todo_json(t));
    let mut out: Vec<Json> = Vec::new();
    let mut i: usize = 0;
    assert(json_views(out@) =~= want.take(0));
    while i < todos.len()
        invariant
            i <= todos@.len(),
            want == wire_todo_views(todos@).map_values(|t: WireTodoView| todo_json(t)),
            json_views(out@) == want.take(i as int),
        decreases todos@.len() - i,
    {
        let t = &todos[i];
        let word: &'static str = match t.status {
            WireTodoStatus::Pending => "pending",
            WireTodoStatus::InProgress => "in_progress",
            WireTodoStatus::Completed => "completed",
        };
        let j = jobj3(
            "status",
            jstr(word),
            "content",
            jstr(t.content.as_str()),
            "active_form",
            jstr(t.active_form.as_str()),
        );
        let ghost jv = j@;
        let ghost before = json_views(out@);
        assert(want[i as int] == jv);
        out.push(j);
        assert(json_views(out@) =~= before.push(jv));
        assert(want.take(i + 1) =~= want.take(i as int).push(jv));
        i += 1;
    }
    assert(want.take(i as int) =~= want);
    proof {
        json_view_arr(out);
    }
    Json::Arr(out)
}

fn jstrings(v: &Vec<String>) -> (r: Json)
    ensures
        r@ == strings_json(texts(v@)),
{
    let ghost want = strings_json(texts(v@))->Arr_0;
    let mut out: Vec<Json> = Vec::new();
    let mut i: usize = 0;
    assert(json_views(out@) =~= want.take(0));
    while i < v.len()
        invariant
            i <= v@.len(),
            want == strings_json(texts(v@))->Arr_0,
            json_views(out@) == want.take(i as int),
        decreases v@.len() - i,
    {
        let j = jstr(v[i].as_str());
        let ghost jv = j@;
        let ghost before = json_views(out@);
        assert(want[i as int] == jv);
        out.push(j);
        assert(json_views(out@) =~= before.push(jv));
        assert(want.take(i + 1) =~= want.take(i as int).push(jv));
        i += 1;
    }
    assert(want.take(i as int) =~= want);
    proof {
        json_view_arr(out);
    }
    Json::Arr(out)
}

/// An event as it is written.
pub fn event_to_json(e: &Event) -> (r: Json)
    ensures
        r@ == event_json(*e),
{
    match e {
        Event::Ready { session_id, model, cwd, resumed } => jobj5(
            "type",
            jstr("ready"),
            "session_id",
            jstr(session_id.as_str()),
            "model",
            jstr(model.as_str()),
            "cwd",
            jstr(cwd.as_str()),
            "resumed",
            Json::Bool(*resumed),
        ),
        Event::TextDelta { text } => jtext("text_delta", "text", text.as_str()),
        Event::ThinkingDelta { text } => jtext("thinking_delta", "text", text.as_str()),
        Event::TextEnd => jbare("text_end"),
        Event::ToolCallStarted { name, args_preview } => jobj3(
            "type",
            jstr("tool_call_started"),
            "name",
            jstr(name.as_str()),
            "args_preview",
            jstr(args_preview.as_str()),
        ),
        Event::ToolResult { ok, summary } => jobj3(
            "type",
            jstr("tool_result"),
            "ok",
            Json::Bool(*ok),
            "summary",
            jstr(summary.as_str()),
        ),
        Event::TodoUpdated { todos } => jobj2("type", jstr("todo_updated"), "todos", jtodos(todos)),
        Event::Notice { message } => jtext("notice", "message", message.as_str()),
        Event::Title { title } => jtext("title", "title", title.as_str()),
        Event::ModelChanged { model } => jtext("model_changed", "model", model.as_str()),
        Event::Divider { label } => jtext("divider", "label", label.as_str()),
        Event::Idle => jbare("idle"),
        Event::AskUser { id, question, options } => jobj4(
            "type",
            jstr("ask_user"),
            "id",
            juint(*id),
            "question",
            jstr(question.as_str()),
            "options",
            jstrings(options),
        ),
        Event::TurnUsage { usage, cost, model } => {
            let u = Usage {
                input: usage.input,
                output: usage.output,
                cache_read: usage.cache_read,
                cache_write: usage.cache_write,
                reasoning: usage.reasoning,
            };
            jobj4(
                "type",
                jstr("turn_usage"),
                "usage",
                usage_to_json(&u),
                "cost",
                cost.dup(),
                "model",
                jstr(model.as_str()),
            )
        },
        Event::Error { message } => jtext("error", "message", message.as_str()),
    }
}

/// The line that tells an event: one event stands on one line.
pub fn to_line(e: &Event) -> (r: String)
    ensures
        r@ == json_text(event_json(*e)) + "\n"@,
        lines(r@) == seq![json_text(event_json(*e))],
{
    let mut s = event_to_json(e).to_text();
    proof {
        lemma_one_line(s@);
        reveal_strlit("\n");
        assert(s@ + "\n"@ =~= s@.push('\n'));
    }
    s.append("\n");
    s
}

/// What a command is read from: its kind and its fields, by name or by place, and nothing is made up where a field
/// is missing or of another kind.
pub proof fn law_commands_read(j: JsonView, c: CommandView)
    requires
        command_of(j) == Ok::<CommandView, Seq<char>>(c),
    ensures
        match c {
            CommandView::UserPrompt { text } => text_field(j, "type"@, 0) == Some("user_prompt"@)
                && text_field(j, "text"@, 1) == Some(text) && has_fields(j, 2),
            CommandView::Cancel => text_field(j, "type"@, 0) == Some("cancel"@) && has_fields(j, 1),
            CommandView::SetModel { model } => text_field(j, "type"@, 0) == Some("set_model"@) && text_field(
                j,
                "model"@,
                1,
            ) == Some(model) && has_fields(j, 2),
            CommandView::AskResponse { id, answer } => text_field(j, "type"@, 0) == Some("ask_response"@)
                && uint_field(j, "id"@, 1) == Some(id) && text_field(j, "answer"@, 2) == Some(answer)
                && has_fields(j, 3),
            CommandView::Stop => text_field(j, "type"@, 0) == Some("stop"@) && has_fields(j, 1),
        },
{
}

/// Every command that is there is read, and one of no known kind, or without a kind, is refused by name.
pub proof fn law_commands_taken(j: JsonView, s: Seq<char>, n: u64)
    ensures
        text_field(j, "type"@, 0) == Some("user_prompt"@) && text_field(j, "text"@, 1) == Some(s) && has_fields(
            j,
            2,
        ) ==> command_of(j) == Ok::<CommandView, Seq<char>>(CommandView::UserPrompt { text: s }),
        text_field(j, "type"@, 0) == Some("cancel"@) && has_fields(j, 1) ==> command_of(j) == Ok::<
            CommandView,
            Seq<char>,
        >(CommandView::Cancel),
        text_field(j, "type"@, 0) == Some("set_model"@) && text_field(j, "model"@, 1) == Some(s) && has_fields(
            j,
            2,
        ) ==> command_of(j) == Ok::<CommandView, Seq<char>>(CommandView::SetModel { model: s }),
        text_field(j, "type"@, 0) == Some("ask_response"@) && uint_field(j, "id"@, 1) == Some(n) && text_field(
            j,
            "answer"@,
            2,
        ) == Some(s) && has_fields(j, 3) ==> command_of(j) == Ok::<CommandView, Seq<char>>(
            CommandView::AskResponse { id: n, answer: s },
        ),
        text_field(j, "type"@, 0) == Some("stop"@) && has_fields(j, 1) ==> command_of(j) == Ok::<
            CommandView,
            Seq<char>,
        >(CommandView::Stop),
        text_field(j, "type"@, 0) is None ==> command_of(j) == Err::<CommandView, Seq<char>>(
            "missing or invalid field `"@ + "type"@ + "`"@,
        ),
        text_field(j, "type"@, 0) == Some(s) && s != "user_prompt"@ && s != "cancel"@ && s != "set_model"@ && s
            != "ask_response"@ && s != "stop"@ ==> command_of(j) == Err::<CommandView, Seq<char>>(
            "unknown variant `"@ + s
                + "`, expected one of `user_prompt`, `cancel`, `set_model`, `ask_response`, `stop`"@,
        ),
{
    reveal_strlit("user_prompt");
    reveal_strlit("cancel");
    reveal_strlit("set_model");
    reveal_strlit("ask_response");
    reveal_strlit("stop");
    assert("user_prompt"@.len() == 11 && "cancel"@.len() == 6 && "set_model"@.len() == 9 && "ask_response"@.len()
        == 12 && "stop"@.len() == 4);
}

/// A command without one of its fields, or with a field too many in the form without names, is refused.
pub proof fn law_commands_refused(j: JsonView)
    ensures
        text_field(j, "type"@, 0) == Some("user_prompt"@) && text_field(j, "text"@, 1) is None ==> command_of(j)
            == Err::<CommandView, Seq<char>>("missing or invalid field `"@ + "text"@ + "`"@),
        text_field(j, "type"@, 0) == Some("set_model"@) && text_field(j, "model"@, 1) is None ==> command_of(j)
            == Err::<CommandView, Seq<char>>("missing or invalid field `"@ + "model"@ + "`"@),
        text_field(j, "type"@, 0) == Some("ask_response"@) && uint_field(j, "id"@, 1) is None ==> command_of(j)
            == Err::<CommandView, Seq<char>>("missing or invalid field `"@ + "id"@ + "`"@),
        text_field(j, "type"@, 0) == Some("ask_response"@) && uint_field(j, "id"@, 1) is Some && text_field(
            j,
            "answer"@,
            2,
        ) is None ==> command_of(j) == Err::<CommandView, Seq<char>>(
            "missing or invalid field `"@ + "answer"@ + "`"@,
        ),
        (text_field(j, "type"@, 0) == Some("cancel"@) || text_field(j, "type"@, 0) == Some("stop"@))
            && !has_fields(j, 1) ==> command_of(j) == Err::<CommandView, Seq<char>>("wrong number of fields"@),
{
    reveal_strlit("user_prompt");
    reveal_strlit("cancel");
    reveal_strlit("set_model");
    reveal_strlit("ask_response");
    reveal_strlit("stop");
    assert("user_prompt"@.len() == 11 && "cancel"@.len() == 6 && "set_model"@.len() == 9 && "ask_response"@.len()
        == 12 && "stop"@.len() == 4);
}

/// A line is refused where it is no JSON, or gives a field of its command twice; otherwise it says what its JSON
/// says.
pub proof fn law_lines_read(line: Seq<char>, j: JsonView, m: JsonView)
    ensures
        json_parse(line) is None ==> line_command(line) == Err::<CommandView, Seq<char>>("not a JSON document"@),
        json_parse(line) == Some(j) && written_once(line) ==> line_command(line) == command_of(j),
        json_parse(line) == Some(j) && json_parse(marked(line)) == Some(m) && !written_once(line) ==> {
            &&& !once(m, "type"@) ==> line_command(line) == Err::<CommandView, Seq<char>>(
                "duplicate field `"@ + "type"@ + "`"@,
            )
            &&& once(m, "type"@) && text_field(j, "type"@, 0) == Some("user_prompt"@) && !once(m, "text"@)
                ==> line_command(line) == Err::<CommandView, Seq<char>>(
                "duplicate field `"@ + "text"@ + "`"@,
            )
            &&& once(m, "type"@) && text_field(j, "type"@, 0) == Some("set_model"@) && !once(m, "model"@)
                ==> line_command(line) == Err::<CommandView, Seq<char>>(
                "duplicate field `"@ + "model"@ + "`"@,
            )
            &&& once(m, "type"@) && text_field(j, "type"@, 0) == Some("ask_response"@) && !once(m, "id"@)
                ==> line_command(line) == Err::<CommandView, Seq<char>>("duplicate field `"@ + "id"@ + "`"@)
            &&& once(m, "type"@) && text_field(j, "type"@, 0) == Some("ask_response"@) && once(m, "id"@)
                && !once(m, "answer"@) ==> line_command(line) == Err::<CommandView, Seq<char>>(
                "duplicate field `"@ + "answer"@ + "`"@,
            )
            &&& once(m, "type"@) && once(m, "text"@) && once(m, "model"@) && once(m, "id"@) && once(
                m,
                "answer"@,
            ) ==> line_command(line) == command_of(j)
        },
{
    reveal_strlit("user_prompt");
    reveal_strlit("set_model");
    reveal_strlit("ask_response");
    assert("user_prompt"@.len() == 11 && "set_model"@.len() == 9 && "ask_response"@.len() == 12);
}

/// The events of a text, of a thought and of a note are written with their kind and what they say.
pub proof fn law_texts_written(text: String)
    ensures
        event_json(Event::TextDelta { text }) == JsonView::Obj(
            seq![("type"@, JsonView::Str("text_delta"@)), ("text"@, JsonView::Str(text@))],
        ),
        event_json(Event::ThinkingDelta { text }) == JsonView::Obj(
            seq![("type"@, JsonView::Str("thinking_delta"@)), ("text"@, JsonView::Str(text@))],
        ),
        event_json(Event::Notice { message: text }) == JsonView::Obj(
            seq![("type"@, JsonView::Str("notice"@)), ("message"@, JsonView::Str(text@))],
        ),
        event_json(Event::Title { title: text }) == JsonView::Obj(
            seq![("type"@, JsonView::Str("title"@)), ("title"@, JsonView::Str(text@))],
        ),
        event_json(Event::ModelChanged { model: text }) == JsonView::Obj(
            seq![("type"@, JsonView::Str("model_changed"@)), ("model"@, JsonView::Str(text@))],
        ),
        event_json(Event::Divider { label: text }) == JsonView::Obj(
            seq![("type"@, JsonView::Str("divider"@)), ("label"@, JsonView::Str(text@))],
        ),
        event_json(Event::Error { message: text }) == JsonView::Obj(
            seq![("type"@, JsonView::Str("error"@)), ("message"@, JsonView::Str(text@))],
        ),
        event_json(Event::TextEnd) == JsonView::Obj(seq![("type"@, JsonView::Str("text_end"@))]),
        event_json(Event::Idle) == JsonView::Obj(seq![("type"@, JsonView::Str("idle"@))]),
{
}

/// The events of the session, the calls, the questions and the tokens are written with their kind and all their
/// fields.
pub proof fn law_events_written(
    a: String,
    b: String,
    c: String,
    yes: bool,
    id: u64,
    options: Vec<String>,
    usage: WireUsage,
    cost: Json,
)
    ensures
        event_json(Event::Ready { session_id: a, model: b, cwd: c, resumed: yes }) == JsonView::Obj(
            seq![
                ("type"@, JsonView::Str("ready"@)),
                ("session_id"@, JsonView::Str(a@)),
                ("model"@, JsonView::Str(b@)),
                ("cwd"@, JsonView::Str(c@)),
                ("resumed"@, JsonView::Bool(yes)),
            ],
        ),
        event_json(Event::ToolCallStarted { name: a, args_preview: b }) == JsonView::Obj(
            seq![
                ("type"@, JsonView::Str("tool_call_started"@)),
                ("name"@, JsonView::Str(a@)),
                ("args_preview"@, JsonView::Str(b@)),
            ],
        ),
        event_json(Event::ToolResult { ok: yes, summary: a }) == JsonView::Obj(
            seq![
                ("type"@, JsonView::Str("tool_result"@)),
                ("ok"@, JsonView::Bool(yes)),
                ("summary"@, JsonView::Str(a@)),
            ],
        ),
        event_json(Event::AskUser { id, question: a, options }) == JsonView::Obj(
            seq![
                ("type"@, JsonView::Str("ask_user"@)),
                ("id"@, JsonView::Num(NumberView::Uint(id))),
                ("question"@, JsonView::Str(a@)),
                (
                    "options"@,
                    JsonView::Arr(Seq::new(options@.len(), |i: int| JsonView::Str(options@[i]@))),
                ),
            ],
        ),
        event_json(Event::TurnUsage { usage, cost, model: a }) == JsonView::Obj(
            seq![
                ("type"@, JsonView::Str("turn_usage"@)),
                (
                    "usage"@,
                    usage_json(
                        Usage {
                            input: usage.input,
                            output: usage.output,
                            cache_read: usage.cache_read,
                            cache_write: usage.cache_write,
                            reasoning: usage.reasoning,
                        },
                    ),
                ),
                ("cost"@, cost@),
                ("model"@, JsonView::Str(a@)),
            ],
        ),
{
    assert(texts(options@).map_values(|s: Seq<char>| JsonView::Str(s)) =~= Seq::new(
        options@.len(),
        |i: int| JsonView::Str(options@[i]@),
    ));
}

/// Each task is written with its state, its text and its active form, in the order of the list.
pub proof fn law_tasks_written(t: TodoView, todos: Vec<WireTodo>, i: int)
    ensures
        t.status is Pending ==> todo_json(wire_todo(t)) == JsonView::Obj(
            seq![
                ("status"@, JsonView::Str("pending"@)),
                ("content"@, JsonView::Str(t.content)),
                ("active_form"@, JsonView::Str(t.active_form)),
            ],
        ),
        t.status is InProgress ==> todo_json(wire_todo(t)) == JsonView::Obj(
            seq![
                ("status"@, JsonView::Str("in_progress"@)),
                ("content"@, JsonView::Str(t.content)),
                ("active_form"@, JsonView::Str(t.active_form)),
            ],
        ),
        t.status is Completed ==> todo_json(wire_todo(t)) == JsonView::Obj(
            seq![
                ("status"@, JsonView::Str("completed"@)),
                ("content"@, JsonView::Str(t.content)),
                ("active_form"@, JsonView::Str(t.active_form)),
            ],
        ),
        event_json(Event::TodoUpdated { todos }) matches JsonView::Obj(e) && e.len() == 2 && e[0] == (
            "type"@,
            JsonView::Str("todo_updated"@),
        ) && e[1].0 == "todos"@ && e[1].1 is Arr && e[1].1->Arr_0.len() == todos@.len() && (0 <= i < todos@.len()
            ==> e[1].1->Arr_0[i] == todo_json(todos@[i]@)),
{
}

} // verus!
