//! The log of exchanges with models: a line of JSON for each, a file for each day.

use super::event::{
    call_views, CallView, StopReason, StopView, ToolCall, Usage,
};
use super::request::{
    message_views, spec_views, ChatRequest, Message, MessageView, ToolSpec, ToolSpecView,
};
use crate::config::paths::{join_path, joined};
use crate::json::{
    entry_views, jobj, jobj1, jobj2, jobj3, jobj5, json_text, json_view_arr, json_views, jstr, juint,
    with_entry, Json, JsonView, NumberView,
};
use crate::number::{dec, push_dec};
use crate::registry::model::ReasoningEffort;
use crate::session::dates::{date_of, date_utc, iso_of};
use crate::split::{lemma_one_line, lines};
use crate::text::{debug_string, debug_text, opt_text, texts};
use vstd::prelude::*;

pub use crate::session::dates::iso_utc;

verus! {

/// The file to which an exchange of this moment goes.
pub fn log_file(dir: &str, now_ms: u64) -> (r: String)
    ensures
        r@ == joined(dir@, date_of(now_ms as int / 86_400_000) + ".jsonl"@),
{
    let mut name = date_utc(now_ms);
    name.append(".jsonl");
    join_path(dir, name.as_str())
}

/// A text that may be missing.
pub open spec fn opt_str(s: Option<Seq<char>>) -> JsonView {
    match s {
        Some(t) => JsonView::Str(t),
        None => JsonView::Null,
    }
}

fn jopt(s: &Option<String>) -> (r: Json)
    ensures
        r@ == opt_str(opt_text(*s)),
{
    match s {
        Some(t) => jstr(t.as_str()),
        None => Json::Null,
    }
}

/// A tool call in the log.
pub open spec fn call_json(c: CallView) -> JsonView {
    JsonView::Obj(
        seq![("id"@, JsonView::Str(c.id)), ("name"@, JsonView::Str(c.name)), ("args"@, c.args)],
    )
}

/// Tool calls in the log.
pub open spec fn calls_json(cs: Seq<CallView>) -> JsonView {
    JsonView::Arr(cs.map_values(|c: CallView| call_json(c)))
}

fn jcalls(calls: &Vec<ToolCall>) -> (r: Json)
    ensures
        r@ == calls_json(call_views(calls@)),
{
    let ghost want = calls_json(call_views(calls@))->Arr_0;
    let mut out: Vec<Json> = Vec::new();
    let mut i: usize = 0;
    assert(json_views(out@) =~= want.take(0));
    while i < calls.len()
        invariant
            i <= calls@.len(),
            want == calls_json(call_views(calls@))->Arr_0,
            json_views(out@) == want.take(i as int),
        decreases calls@.len() - i,
    {
        let c = &calls[i];
        let j = jobj3(
            "id",
            jstr(c.id.as_str()),
            "name",
            jstr(c.name.as_str()),
            "args",
            c.args.dup(),
        );
        let ghost jv = j@;
        let ghost before = json_views(out@);
        assert(want[i as int] == jv);
        out.push(j);
        assert(json_views(out@) =~= before.push(jv));
        assert(want.take(i + 1) =~= want.take(i as int).push(jv));
        i += 1;
    }
    assert(want.take(i as int) =~= want);
    proof {
        json_view_arr(out);
    }
    Json::Arr(out)
}

/// A message in the log.
pub open spec fn message_json(m: MessageView) -> JsonView {
    match m {
        MessageView::System(s) => JsonView::Obj(seq![("System"@, JsonView::Str(s))]),
        MessageView::User(s) => JsonView::Obj(seq![("User"@, JsonView::Str(s))]),
        MessageView::Assistant(s) => JsonView::Obj(seq![("Assistant"@, JsonView::Str(s))]),
        MessageView::ToolCalls(cs) => JsonView::Obj(seq![("ToolCalls"@, calls_json(cs))]),
        MessageView::Tool { call_id, content } => JsonView::Obj(
            seq![
                (
                    "Tool"@,
                    JsonView::Obj(
                        seq![
                            ("call_id"@, JsonView::Str(call_id)),
                            ("content"@, JsonView::Str(content)),
                        ],
                    ),
                ),
            ],
        ),
    }
}

pub(crate) fn jmessage(m: &Message) -> (r: Json)
    ensures
        r@ == message_json(m@),
{
    match m {
        Message::System(s) => jobj1("System", jstr(s.as_str())),
        Message::User(s) => jobj1("User", jstr(s.as_str())),
        Message::Assistant(s) => jobj1("Assistant", jstr(s.as_str())),
        Message::ToolCalls(cs) => jobj1("ToolCalls", jcalls(cs)),
        Message::Tool { call_id, content } => jobj1(
            "Tool",
            jobj2("call_id", jstr(call_id.as_str()), "content", jstr(content.as_str())),
        ),
    }
}

/// Messages in the log.
pub open spec fn messages_json(ms: Seq<MessageView>) -> JsonView {
    JsonView::Arr(ms.map_values(|m: MessageView| message_json(m)))
}

pub(crate) fn jmessages(ms: &Vec<Message>) -> (r: Json)
    ensures
        r@ == messages_json(message_views(ms@)),
{
    let ghost want = messages_json(message_views(ms@))->Arr_0;
    let mut out: Vec<Json> = Vec::new();
    let mut i: usize = 0;
    assert(json_views(out@) =~= want.take(0));
    while i < ms.len()
        invariant
            i <= ms@.len(),
            want == messages_json(message_views(ms@))->Arr_0,
            json_views(out@) == want.take(i as int),
        decreases ms@.len() - i,
    {
        let j = jmessage(&ms[i]);
        let ghost jv = j@;
        let ghost before = json_views(out@);
        assert(want[i as int] == jv);
        out.push(j);
        assert(json_views(out@) =~= before.push(jv));
        assert(want.take(i + 1) =~= want.take(i as int).push(jv));
        i += 1;
    }
    assert(want.take(i as int) =~= want);
    proof {
        json_view_arr(out);
    }
    Json::Arr(out)
}

/// A tool in the log.
pub open spec fn tool_json(t: ToolSpecView) -> JsonView {
    JsonView::Obj(
        seq![
            ("name"@, JsonView::Str(t.name)),
            ("description"@, JsonView::Str(t.description)),
            ("parameters"@, t.parameters),
        ],
    )
}

/// Tools in the log.
pub open spec fn tools_json(ts: Seq<ToolSpecView>) -> JsonView {
    JsonView::Arr(ts.map_values(|t: ToolSpecView| tool_json(t)))
}

fn jtools(ts: &Vec<ToolSpec>) -> (r: Json)
    ensures
        r@ == tools_json(spec_views(ts@)),
{
    let ghost want = tools_json(spec_views(ts@))->Arr_0;
    let mut out: Vec<Json> = Vec::new();
    let mut i: usize = 0;
    assert(json_views(out@) =~= want.take(0));
    while i < ts.len()
        invariant
            i <= ts@.len(),
            want == tools_json(spec_views(ts@))->Arr_0,
            json_views(out@) == want.take(i as int),
        decreases ts@.len() - i,
    {
        let t = &ts[i];
        let j = jobj3(
            "name",
            jstr(t.name.as_str()),
            "description",
            jstr(t.description.as_str()),
            "parameters",
            t.parameters.dup(),
        );
        let ghost jv = j@;
        let ghost before = json_views(out@);
        assert(want[i as int] == jv);
        out.push(j);
        assert(json_views(out@) =~= before.push(jv));
        assert(want.take(i + 1) =~= want.take(i as int).push(jv));
        i += 1;
    }
    assert(want.take(i as int) =~= want);
    proof {
        json_view_arr(out);
    }
    Json::Arr(out)
}

/// Texts in the log.
pub open spec fn texts_json(v: Seq<Seq<char>>) -> JsonView {
    JsonView::Arr(v.map_values(|s: Seq<char>| JsonView::Str(s)))
}

fn jtexts(v: &Vec<String>) -> (r: Json)
    ensures
        r@ == texts_json(texts(v@)),
{
    let ghost want = texts_json(texts(v@))->Arr_0;
    let mut out: Vec<Json> = Vec::new();
    let mut i: usize = 0;
    assert(json_views(out@) =~= want.take(0));
    while i < v.len()
        invariant
            i <= v@.len(),
            want == texts_json(texts(v@))->Arr_0,
            json_views(out@) == want.take(i as int),
        decreases v@.len() - i,
    {
        let j = jstr(v[i].as_str());
        let ghost jv = j@;
        let ghost before = json_views(out@);
        assert(want[i as int] == jv);
        out.push(j);
        assert(json_views(out@) =~= before.push(jv));
        assert(want.take(i + 1) =~= want.take(i as int).push(jv));
        i += 1;
    }
    assert(want.take(i as int) =~= want);
    proof {
        json_view_arr(out);
    }
    Json::Arr(out)
}

/// A reasoning effort in the log.
pub open spec fn effort_name(e: ReasoningEffort) -> Seq<char> {
    match e {
        ReasoningEffort::Off => "None"@,
        ReasoningEffort::Low => "Low"@,
        ReasoningEffort::Medium => "Medium"@,
        ReasoningEffort::High => "High"@,
        ReasoningEffort::XHigh => "XHigh"@,
        ReasoningEffort::Max => "Max"@,
        ReasoningEffort::Budget(n) => "Budget("@ + dec(n as nat) + ")"@,
    }
}

fn effort_text(e: ReasoningEffort) -> (r: String)
    ensures
        r@ == effort_name(e),
{
    match e {
        ReasoningEffort::Off => "None".to_owned(),
        ReasoningEffort::Low => "Low".to_owned(),
        ReasoningEffort::Medium => "Medium".to_owned(),
        ReasoningEffort::High => "High".to_owned(),
        ReasoningEffort::XHigh => "XHigh".to_owned(),
        ReasoningEffort::Max => "Max".to_owned(),
        ReasoningEffort::Budget(n) => {
            let mut s = "Budget(".to_owned();
            push_dec(&mut s, n as u64);
            s.append(")");
            s
        },
    }
}

/// A request in the log.
pub open spec fn request_json(
    endpoint: Option<Seq<char>>,
    adapter: Seq<char>,
    req: ChatRequest,
) -> JsonView {
    JsonView::Obj(
        seq![
            ("endpoint"@, opt_str(endpoint)),
            ("method"@, JsonView::Str("POST"@)),
            ("adapter"@, JsonView::Str(adapter)),
            ("model"@, JsonView::Str(req.model_api_name@)),
            (
                "max_output_tokens"@,
                match req.max_output_tokens {
                    Some(n) => JsonView::Num(NumberView::Uint(n as u64)),
                    None => JsonView::Null,
                },
            ),
            (
                "reasoning"@,
                match req.reasoning {
                    Some(e) => JsonView::Str(effort_name(e)),
                    None => JsonView::Null,
                },
            ),
            ("system"@, texts_json(texts(req.system@))),
            ("messages"@, messages_json(message_views(req.messages@))),
            ("tools"@, tools_json(spec_views(req.tools@))),
        ],
    )
}

/// A request as the log shows it.
pub fn build_request_json(endpoint: &Option<String>, adapter: &str, req: &ChatRequest) -> (r: Json)
    ensures
        r@ == request_json(opt_text(*endpoint), adapter@, *req),
{
    let max = match req.max_output_tokens {
        Some(n) => juint(n as u64),
        None => Json::Null,
    };
    let reasoning = match req.reasoning {
        Some(e) => jstr(effort_text(e).as_str()),
        None => Json::Null,
    };
    let v: Vec<(String, Json)> = Vec::new();
    let v = with_entry(v, "endpoint", jopt(endpoint));
    let v = with_entry(v, "method", jstr("POST"));
    let v = with_entry(v, "adapter", jstr(adapter));
    let v = with_entry(v, "model", jstr(req.model_api_name.as_str()));
    let v = with_entry(v, "max_output_tokens", max);
    let v = with_entry(v, "reasoning", reasoning);
    let v = with_entry(v, "system", jtexts(&req.system));
    let v = with_entry(v, "messages", jmessages(&req.messages));
    let v = with_entry(v, "tools", jtools(&req.tools));
    assert(entry_views(v@) =~= request_json(opt_text(*endpoint), adapter@, *req)->Obj_0);
    jobj(v)
}

/// The end of a stream in the log.
pub open spec fn stop_name(r: StopView) -> Seq<char> {
    match r {
        StopView::EndTurn => "EndTurn"@,
        StopView::ToolUse => "ToolUse"@,
        StopView::MaxTokens => "MaxTokens"@,
        StopView::Stop => "Stop"@,
        StopView::Other(s) => "Other("@ + debug_text(s) + ")"@,
    }
}

fn stop_text(r: &StopReason) -> (out: String)
    ensures
        out@ == stop_name(r@),
{
    match r {
        StopReason::EndTurn => "EndTurn".to_owned(),
        StopReason::ToolUse => "ToolUse".to_owned(),
        StopReason::MaxTokens => "MaxTokens".to_owned(),
        StopReason::Stop => "Stop".to_owned(),
        StopReason::Other(s) => {
            let mut t = "Other(".to_owned();
            t.append(debug_string(s.as_str()).as_str());
            t.append(")");
            t
        },
    }
}

/// Token counts in the log.
pub open spec fn usage_json(u: Usage) -> JsonView {
    JsonView::Obj(
        seq![
            ("input"@, JsonView::Num(NumberView::Uint(u.input))),
            ("output"@, JsonView::Num(NumberView::Uint(u.output))),
            ("cache_read"@, JsonView::Num(NumberView::Uint(u.cache_read))),
            ("cache_write"@, JsonView::Num(NumberView::Uint(u.cache_write))),
            ("reasoning"@, JsonView::Num(NumberView::Uint(u.reasoning))),
        ],
    )
}

/// Token counts as the log shows them.
pub fn usage_to_json(u: &Usage) -> (r: Json)
    ensures
        r@ == usage_json(*u),
{
    jobj5(
        "input",
        juint(u.input),
        "output",
        juint(u.output),
        "cache_read",
        juint(u.cache_read),
        "cache_write",
        juint(u.cache_write),
        "reasoning",
        juint(u.reasoning),
    )
}

/// What the log keeps of a reply.
pub struct ExchangeParts {
    pub stop: StopReason,
    pub text: String,
    pub thinking: String,
    pub calls: Vec<ToolCall>,
    pub usage: Option<Usage>,
}

/// What the parts of a reply hold.
pub struct PartsView {
    pub stop: StopView,
    pub text: Seq<char>,
    pub thinking: Seq<char>,
    pub calls: Seq<CallView>,
    pub usage: Option<Usage>,
}

impl View for ExchangeParts {
    type V = PartsView;

    open spec fn view(&self) -> PartsView {
        PartsView {
            stop: self.stop@,
            text: self.text@,
            thinking: self.thinking@,
            calls: call_views(self.calls@),
            usage: self.usage,
        }
    }
}

/// A reply in the log.
pub open spec fn response_json(p: PartsView) -> JsonView {
    JsonView::Obj(
        seq![
            ("stop"@, JsonView::Str(stop_name(p.stop))),
            ("text"@, JsonView::Str(p.text)),
            (
                "thinking"@,
                if p.thinking.len() == 0 {
                    JsonView::Null
                } else {
                    JsonView::Str(p.thinking)
                },
            ),
            ("tool_calls"@, calls_json(p.calls)),
            (
                "usage"@,
                match p.usage {
                    Some(u) => usage_json(u),
                    None => JsonView::Null,
                },
            ),
        ],
    )
}

/// An exchange in the log.
pub open spec fn exchange_json(
    now_ms: u64,
    id: Seq<char>,
    provider: Seq<char>,
    request: JsonView,
    p: PartsView,
) -> JsonView {
    JsonView::Obj(
        seq![
            ("ts"@, JsonView::Str(iso_of(now_ms))),
            ("id"@, JsonView::Str(id)),
            ("provider"@, JsonView::Str(provider)),
            ("request"@, request),
            ("response"@, response_json(p)),
        ],
    )
}

/// An exchange as the log shows it, under an id of its own.
pub fn exchange_entry(
    now_ms: u64,
    id: &str,
    provider: &str,
    request: Json,
    p: &ExchangeParts,
) -> (r: Json)
    ensures
        r@ == exchange_json(now_ms, id@, provider@, request@, p@),
{
    let thinking = if p.thinking.as_str().is_empty() {
        Json::Null
    } else {
        jstr(p.thinking.as_str())
    };
    let usage = match &p.usage {
        Some(u) => usage_to_json(u),
        None => Json::Null,
    };
    let response = jobj5(
        "stop",
        jstr(stop_text(&p.stop).as_str()),
        "text",
        jstr(p.text.as_str()),
        "thinking",
        thinking,
        "tool_calls",
        jcalls(&p.calls),
        "usage",
        usage,
    );
    assert(response@->Obj_0 =~= response_json(p@)->Obj_0);
    jobj5(
        "ts",
        jstr(iso_utc(now_ms).as_str()),
        "id",
        jstr(id),
        "provider",
        jstr(provider),
        "request",
        request,
        "response",
        response,
    )
}

/// The line that an exchange adds to the log: one exchange stands on one line.
pub fn write_exchange(entry: &Json) -> (r: String)
    ensures
        r@ == json_text(entry@) + "\n"@,
        lines(r@) == seq![json_text(entry@)],
{
    let mut s = entry.to_text();
    proof {
        lemma_one_line(s@);
        reveal_strlit("\n");
        assert(s@ + "\n"@ =~= s@.push('\n'));
    }
    s.append("\n");
    s
}

/// The messages are logged in their order, each under its kind with all that it says.
pub proof fn law_messages_logged(ms: Seq<MessageView>, s: Seq<char>, id: Seq<char>, cs: Seq<CallView>, i: int)
    ensures
        messages_json(ms) matches JsonView::Arr(v) && v.len() == ms.len() && (0 <= i < ms.len() ==> v[i]
            == message_json(ms[i])),
        message_json(MessageView::System(s)) == JsonView::Obj(seq![("System"@, JsonView::Str(s))]),
        message_json(MessageView::User(s)) == JsonView::Obj(seq![("User"@, JsonView::Str(s))]),
        message_json(MessageView::Assistant(s)) == JsonView::Obj(seq![("Assistant"@, JsonView::Str(s))]),
        message_json(MessageView::Tool { call_id: id, content: s }) == JsonView::Obj(
            seq![
                (
                    "Tool"@,
                    JsonView::Obj(
                        seq![("call_id"@, JsonView::Str(id)), ("content"@, JsonView::Str(s))],
                    ),
                ),
            ],
        ),
        message_json(MessageView::ToolCalls(cs)) matches JsonView::Obj(e) && e.len() == 1 && e[0].0
            == "ToolCalls"@ && e[0].1 is Arr && e[0].1->Arr_0.len() == cs.len() && (0 <= i < cs.len() ==> e[0].1->Arr_0[i]
            == JsonView::Obj(
            seq![
                ("id"@, JsonView::Str(cs[i].id)),
                ("name"@, JsonView::Str(cs[i].name)),
                ("args"@, cs[i].args),
            ],
        )),
{
}

/// The tools are logged in their order with their names, descriptions and parameters.
pub proof fn law_tools_logged(ts: Seq<ToolSpecView>, v: Seq<Seq<char>>, i: int)
    ensures
        tools_json(ts) matches JsonView::Arr(a) && a.len() == ts.len() && (0 <= i < ts.len() ==> a[i]
            == JsonView::Obj(
            seq![
                ("name"@, JsonView::Str(ts[i].name)),
                ("description"@, JsonView::Str(ts[i].description)),
                ("parameters"@, ts[i].parameters),
            ],
        )),
        texts_json(v) matches JsonView::Arr(a) && a.len() == v.len() && (0 <= i < v.len() ==> a[i]
            == JsonView::Str(v[i])),
{
}

/// How much thought is asked for and why a model stopped, by their names.
pub proof fn law_names_logged(n: u32, s: Seq<char>)
    ensures
        effort_name(ReasoningEffort::Off) == "None"@,
        effort_name(ReasoningEffort::Low) == "Low"@,
        effort_name(ReasoningEffort::Medium) == "Medium"@,
        effort_name(ReasoningEffort::High) == "High"@,
        effort_name(ReasoningEffort::XHigh) == "XHigh"@,
        effort_name(ReasoningEffort::Max) == "Max"@,
        effort_name(ReasoningEffort::Budget(n)) == "Budget("@ + dec(n as nat) + ")"@,
        stop_name(StopView::EndTurn) == "EndTurn"@,
        stop_name(StopView::ToolUse) == "ToolUse"@,
        stop_name(StopView::MaxTokens) == "MaxTokens"@,
        stop_name(StopView::Stop) == "Stop"@,
        stop_name(StopView::Other(s)) == "Other("@ + debug_text(s) + ")"@,
{
}

/// A request is logged with where it goes and with all that is asked.
pub proof fn law_request_logged(endpoint: Option<Seq<char>>, adapter: Seq<char>, req: ChatRequest)
    ensures
        request_json(endpoint, adapter, req) matches JsonView::Obj(e) && {
            &&& e.len() == 9
            &&& e[0] == ("endpoint"@, if endpoint is Some {
                JsonView::Str(endpoint->0)
            } else {
                JsonView::Null
            })
            &&& e[1] == ("method"@, JsonView::Str("POST"@))
            &&& e[2] == ("adapter"@, JsonView::Str(adapter))
            &&& e[3] == ("model"@, JsonView::Str(req.model_api_name@))
            &&& e[4].0 == "max_output_tokens"@
            &&& req.max_output_tokens matches Some(n) ==> e[4].1 == JsonView::Num(NumberView::Uint(n as u64))
            &&& req.max_output_tokens is None ==> e[4].1 is Null
            &&& e[5].0 == "reasoning"@
            &&& req.reasoning matches Some(r) ==> e[5].1 == JsonView::Str(effort_name(r))
            &&& req.reasoning is None ==> e[5].1 is Null
            &&& e[6] == ("system"@, texts_json(texts(req.system@)))
            &&& e[7] == ("messages"@, messages_json(message_views(req.messages@)))
            &&& e[8] == ("tools"@, tools_json(spec_views(req.tools@)))
        },
{
}

/// An exchange is logged with its moment, its number, its provider, what was asked and what came back: why the model
/// stopped, its text, its thoughts where there are any, its calls, and its tokens, each kind under its name.
pub proof fn law_exchange_logged(
    now_ms: u64,
    id: Seq<char>,
    provider: Seq<char>,
    request: JsonView,
    p: PartsView,
)
    ensures
        exchange_json(now_ms, id, provider, request, p) == JsonView::Obj(
            seq![
                ("ts"@, JsonView::Str(iso_of(now_ms))),
                ("id"@, JsonView::Str(id)),
                ("provider"@, JsonView::Str(provider)),
                ("request"@, request),
                ("response"@, response_json(p)),
            ],
        ),
        response_json(p) matches JsonView::Obj(e) && {
            &&& e.len() == 5
            &&& e[0] == ("stop"@, JsonView::Str(stop_name(p.stop)))
            &&& e[1] == ("text"@, JsonView::Str(p.text))
            &&& e[2].0 == "thinking"@
            &&& p.thinking.len() > 0 ==> e[2].1 == JsonView::Str(p.thinking)
            &&& p.thinking.len() == 0 ==> e[2].1 is Null
            &&& e[3] == ("tool_calls"@, calls_json(p.calls))
            &&& e[4].0 == "usage"@
            &&& p.usage is None ==> e[4].1 is Null
            &&& p.usage matches Some(u) ==> e[4].1 == JsonView::Obj(
                seq![
                    ("input"@, JsonView::Num(NumberView::Uint(u.input))),
                    ("output"@, JsonView::Num(NumberView::Uint(u.output))),
                    ("cache_read"@, JsonView::Num(NumberView::Uint(u.cache_read))),
                    ("cache_write"@, JsonView::Num(NumberView::Uint(u.cache_write))),
                    ("reasoning"@, JsonView::Num(NumberView::Uint(u.reasoning))),
                ],
            )
        },
{
}

} // verus!
