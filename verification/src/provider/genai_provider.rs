//! The provider: how requests are put together for the client library, and how its stream becomes events.

use super::event::{
    call_views, dup_calls, event_views, CallView, Event, EventView, StopReason, StopView, ToolCall, Usage,
};
use super::llm_log::{exchange_entry, exchange_json, ExchangeParts, PartsView};
use super::request::{message_views, ChatRequest, Message, MessageView};
use crate::config::settings::ProviderConfig;
use crate::error::{CarterError, ErrorView};
use crate::json::Json;
use crate::session::record::dup_opt;
use crate::text::{opt_text, str_eq, texts};
use vstd::prelude::*;

verus! {

/// The protocols that providers speak.
#[derive(Clone, Copy, Debug, PartialEq, Eq, Structural)]
pub enum Adapter {
    Anthropic,
    OpenAi,
    OpenAiResponses,
    Gemini,
    Ollama,
    Groq,
    DeepSeek,
    Xai,
    OpenRouter,
}

/// The protocol of a provider kind.
pub open spec fn adapter_of(kind: Seq<char>) -> Option<Adapter> {
    if kind == "anthropic"@ {
        Some(Adapter::Anthropic)
    } else if kind == "openai"@ || kind == "openai_compat"@ || kind == "custom"@ {
        Some(Adapter::OpenAi)
    } else if kind == "openai_responses"@ {
        Some(Adapter::OpenAiResponses)
    } else if kind == "gemini"@ {
        Some(Adapter::Gemini)
    } else if kind == "ollama"@ {
        Some(Adapter::Ollama)
    } else if kind == "groq"@ {
        Some(Adapter::Groq)
    } else if kind == "deepseek"@ {
        Some(Adapter::DeepSeek)
    } else if kind == "xai"@ {
        Some(Adapter::Xai)
    } else if kind == "openrouter"@ {
        Some(Adapter::OpenRouter)
    } else {
        None
    }
}

/// The protocol of a provider kind.
pub fn adapter_kind_from_str(kind: &str) -> (r: Option<Adapter>)
    ensures
        r == adapter_of(kind@),
{
    if str_eq(kind, "anthropic") {
        Some(Adapter::Anthropic)
    } else if str_eq(kind, "openai") || str_eq(kind, "openai_compat") || str_eq(kind, "custom") {
        Some(Adapter::OpenAi)
    } else if str_eq(kind, "openai_responses") {
        Some(Adapter::OpenAiResponses)
    } else if str_eq(kind, "gemini") {
        Some(Adapter::Gemini)
    } else if str_eq(kind, "ollama") {
        Some(Adapter::Ollama)
    } else if str_eq(kind, "groq") {
        Some(Adapter::Groq)
    } else if str_eq(kind, "deepseek") {
        Some(Adapter::DeepSeek)
    } else if str_eq(kind, "xai") {
        Some(Adapter::Xai)
    } else if str_eq(kind, "openrouter") {
        Some(Adapter::OpenRouter)
    } else {
        None
    }
}

/// A provider: where its requests go, and how.
#[derive(Debug)]
pub struct GenaiProvider {
    /// The protocol; the client library tells it by the model's name where this is missing.
    pub protocol: Option<Adapter>,
    /// The endpoint; the usual one where this is missing.
    pub endpoint: Option<String>,
    /// The key; that of the environment where this is missing.
    pub api_key: Option<String>,
    /// The kind of the provider, for the log.
    pub adapter: String,
    /// What the log calls the provider.
    pub label: String,
    /// Whether exchanges are logged.
    pub debug: bool,
    /// Where they are logged.
    pub log_dir: String,
}

/// What the log calls a provider.
pub open spec fn label_of(cfg: ProviderConfig) -> Seq<char> {
    cfg.kind@ + " @ "@ + match cfg.base_url {
        Some(u) => u@,
        None => "<default endpoint>"@,
    }
}

impl GenaiProvider {
    /// The provider that the client library finds by itself.
    pub fn new(debug: bool, log_dir: String) -> (r: GenaiProvider)
        ensures
            r.protocol is None,
            r.endpoint is None,
            r.api_key is None,
            r.adapter@ == "auto"@,
            r.label@ == "genai-default"@,
            r.debug == debug,
            r.log_dir == log_dir,
    {
        GenaiProvider {
            protocol: None,
            endpoint: None,
            api_key: None,
            adapter: "auto".to_owned(),
            label: "genai-default".to_owned(),
            debug,
            log_dir,
        }
    }

    /// The provider that a section of the configuration describes; an error where its kind is not known.
    pub fn from_provider_config(cfg: &ProviderConfig, debug: bool, log_dir: String) -> (r: Result<
        GenaiProvider,
        CarterError,
    >)
        ensures
            match r {
                Ok(p) => {
                    &&& adapter_of(cfg.kind@) is Some
                    &&& p.protocol == adapter_of(cfg.kind@)
                    &&& opt_text(p.endpoint) == opt_text(cfg.base_url)
                    &&& opt_text(p.api_key) == opt_text(cfg.api_key)
                    &&& p.adapter@ == cfg.kind@
                    &&& p.label@ == label_of(*cfg)
                    &&& p.debug == debug
                    &&& p.log_dir == log_dir
                },
                Err(e) => adapter_of(cfg.kind@) is None && e@ == ErrorView::Config(
                    "unknown provider kind: "@ + cfg.kind@,
                ),
            },
    {
        match adapter_kind_from_str(cfg.kind.as_str()) {
            None => Err(
                CarterError::Config("unknown provider kind: ".to_owned().concat(cfg.kind.as_str())),
            ),
            Some(a) => {
                let mut label = cfg.kind.clone();
                label.append(" @ ");
                match &cfg.base_url {
                    Some(u) => label.append(u.as_str()),
                    None => label.append("<default endpoint>"),
                }
                Ok(
                    GenaiProvider {
                        protocol: Some(a),
                        endpoint: dup_opt(&cfg.base_url),
                        api_key: dup_opt(&cfg.api_key),
                        adapter: cfg.kind.clone(),
                        label,
                        debug,
                        log_dir,
                    },
                )
            },
        }
    }
}

// ---------------------------------------------------------------------------------------------
// The request
// ---------------------------------------------------------------------------------------------

/// A message of a request, and whether the provider is to cache what precedes it.
#[derive(Debug)]
pub struct WireMessage {
    pub message: Message,
    pub cached: bool,
}

/// What a message of a request holds.
pub struct WireView {
    pub message: MessageView,
    pub cached: bool,
}

impl View for WireMessage {
    type V = WireView;

    open spec fn view(&self) -> WireView {
        WireView { message: self.message@, cached: self.cached }
    }
}

/// What the messages of a request hold.
pub open spec fn wire_views(v: Seq<WireMessage>) -> Seq<WireView> {
    v.map_values(|m: WireMessage| m@)
}

/// The messages of a request: the system segments in order, the last of them marked for the cache, then
/// the history.
pub open spec fn wire_list(system: Seq<Seq<char>>, messages: Seq<MessageView>) -> Seq<WireView> {
    Seq::new(
        system.len(),
        |i: int|
            WireView { message: MessageView::System(system[i]), cached: i == system.len() - 1 },
    ) + messages.map_values(|m: MessageView| WireView { message: m, cached: false })
}

/// The messages of a request.
pub fn wire_messages(req: &ChatRequest) -> (r: Vec<WireMessage>)
    ensures
        wire_views(r@) == wire_list(texts(req.system@), message_views(req.messages@)),
{
    let ghost sv = texts(req.system@);
    let ghost mv = message_views(req.messages@);
    let ghost want = wire_list(sv, mv);
    let mut out: Vec<WireMessage> = Vec::new();
    let n: usize = req.system.len();
    let mut i: usize = 0;
    assert(wire_views(out@) =~= want.take(0));
    while i < n
        invariant
            i <= n,
            n == req.system@.len(),
            sv == texts(req.system@),
            sv.len() == n,
            want == wire_list(sv, mv),
            want.len() == n + mv.len(),
            wire_views(out@) == want.take(i as int),
        decreases n - i,
    {
        let w = WireMessage {
            message: Message::System(req.system[i].clone()),
            cached: i == n - 1,
        };
        let ghost wv = w@;
        let ghost before = wire_views(out@);
        assert(wv == want[i as int]);
        out.push(w);
        assert(wire_views(out@) =~= before.push(wv));
        assert(want.take(i + 1) =~= want.take(i as int).push(wv));
        i += 1;
    }
    let mut k: usize = 0;
    let m: usize = req.messages.len();
    while k < m
        invariant
            k <= m,
            m == req.messages@.len(),
            mv == message_views(req.messages@),
            mv.len() == m,
            sv.len() == n,
            want == wire_list(sv, mv),
            wire_views(out@) == want.take(n + k),
        decreases m - k,
    {
        let w = WireMessage { message: req.messages[k].dup(), cached: false };
        let ghost wv = w@;
        let ghost before = wire_views(out@);
        assert(wv == want[n + k]);
        out.push(w);
        assert(wire_views(out@) =~= before.push(wv));
        assert(want.take(n + k + 1) =~= want.take(n + k).push(wv));
        k += 1;
    }
    assert(want.take(n + m) =~= want);
    out
}

// ---------------------------------------------------------------------------------------------
// The stream
// ---------------------------------------------------------------------------------------------

/// Token counts as the client library reports them.
#[derive(Clone, Copy, Debug, PartialEq, Eq, Structural)]
pub struct RawUsage {
    pub prompt: Option<i32>,
    pub completion: Option<i32>,
    pub cached: Option<i32>,
    pub cache_creation: Option<i32>,
    pub reasoning: Option<i32>,
}

/// A count that may be missing or negative.
pub open spec fn count_of_raw(v: Option<i32>) -> u64 {
    match v {
        Some(n) => if n > 0 {
            n as u64
        } else {
            0
        },
        None => 0,
    }
}

/// Token counts as the agent keeps them.
pub open spec fn usage_of_raw(u: RawUsage) -> Usage {
    Usage {
        input: count_of_raw(u.prompt),
        output: count_of_raw(u.completion),
        cache_read: count_of_raw(u.cached),
        cache_write: count_of_raw(u.cache_creation),
        reasoning: count_of_raw(u.reasoning),
    }
}

fn raw_count(v: Option<i32>) -> (r: u64)
    ensures
        r == count_of_raw(v),
{
    match v {
        Some(n) => if n > 0 {
            n as u64
        } else {
            0
        },
        None => 0,
    }
}

/// Token counts as the agent keeps them.
pub fn usage_from_raw(u: RawUsage) -> (r: Usage)
    ensures
        r == usage_of_raw(u),
{
    Usage {
        input: raw_count(u.prompt),
        output: raw_count(u.completion),
        cache_read: raw_count(u.cached),
        cache_write: raw_count(u.cache_creation),
        reasoning: raw_count(u.reasoning),
    }
}

/// Why the client library says that a stream ended.
#[derive(Debug)]
pub enum RawStop {
    ToolCall,
    MaxTokens,
    Completed,
    StopSequence,
    ContentFilter(String),
    Other(String),
}

/// Why a stream ended; where nothing is said, it came to its end.
pub open spec fn stop_of_raw(r: Option<RawStop>) -> StopView {
    match r {
        None => StopView::EndTurn,
        Some(RawStop::ToolCall) => StopView::ToolUse,
        Some(RawStop::MaxTokens) => StopView::MaxTokens,
        Some(RawStop::Completed) => StopView::EndTurn,
        Some(RawStop::StopSequence) => StopView::Stop,
        Some(RawStop::ContentFilter(s)) => StopView::Other(s@),
        Some(RawStop::Other(s)) => StopView::Other(s@),
    }
}

/// Why a stream ended.
pub fn stop_from_raw(r: &Option<RawStop>) -> (out: StopReason)
    ensures
        out@ == stop_of_raw(*r),
{
    match r {
        None => StopReason::EndTurn,
        Some(RawStop::ToolCall) => StopReason::ToolUse,
        Some(RawStop::MaxTokens) => StopReason::MaxTokens,
        Some(RawStop::Completed) => StopReason::EndTurn,
        Some(RawStop::StopSequence) => StopReason::Stop,
        Some(RawStop::ContentFilter(s)) => StopReason::Other(s.clone()),
        Some(RawStop::Other(s)) => StopReason::Other(s.clone()),
    }
}

/// An event of the client library's stream.
#[derive(Debug)]
pub enum RawEvent {
    Text(String),
    Thinking(String),
    /// The end, with what was captured on the way.
    End { calls: Vec<ToolCall>, usage: Option<RawUsage>, stop: Option<RawStop> },
    /// Nothing that the agent takes up: the start, or a part of a tool call.
    Ignored,
}

/// The events that the end of a stream becomes: the tool calls, the usage, and why it ended.
pub open spec fn end_events(
    calls: Seq<CallView>,
    usage: Option<RawUsage>,
    stop: Option<RawStop>,
) -> Seq<EventView> {
    calls.map_values(|c: CallView| EventView::ToolCall(c)) + (match usage {
        Some(u) => seq![EventView::Usage(usage_of_raw(u))],
        None => Seq::empty(),
    }) + seq![EventView::Done(stop_of_raw(stop))]
}

/// The events that an event of the stream becomes.
pub open spec fn mapped(e: RawEvent) -> Seq<EventView> {
    match e {
        RawEvent::Text(t) => seq![EventView::TextDelta(t@)],
        RawEvent::Thinking(t) => seq![EventView::ThinkingDelta(t@)],
        RawEvent::End { calls, usage, stop } => end_events(call_views(calls@), usage, stop),
        RawEvent::Ignored => Seq::empty(),
    }
}

/// What was streamed so far, for the log.
#[derive(Debug)]
pub struct StreamMapper {
    pub debug: bool,
    pub text: String,
    pub thinking: String,
}

impl StreamMapper {
    /// At the beginning of a stream.
    pub fn new(debug: bool) -> (r: StreamMapper)
        ensures
            r.debug == debug,
            r.text@ == Seq::<char>::empty(),
            r.thinking@ == Seq::<char>::empty(),
    {
        let r = StreamMapper { debug, text: String::new(), thinking: String::new() };
        assert(r.text@ =~= Seq::<char>::empty());
        assert(r.thinking@ =~= Seq::<char>::empty());
        r
    }

    /// Takes up an event of the stream and gives the events that it becomes.
    pub fn on_event(&mut self, e: &RawEvent) -> (r: Vec<Event>)
        ensures
            event_views(r@) == mapped(*e),
            final(self).debug == old(self).debug,
            final(self).text@ == match *e {
                RawEvent::Text(t) => if old(self).debug {
                    old(self).text@ + t@
                } else {
                    old(self).text@
                },
                _ => old(self).text@,
            },
            final(self).thinking@ == match *e {
                RawEvent::Thinking(t) => if old(self).debug {
                    old(self).thinking@ + t@
                } else {
                    old(self).thinking@
                },
                _ => old(self).thinking@,
            },
    {
        let mut out: Vec<Event> = Vec::new();
        match e {
            RawEvent::Text(t) => {
                if self.debug {
                    self.text.append(t.as_str());
                }
                out.push(Event::TextDelta(t.clone()));
                assert(event_views(out@) =~= mapped(*e));
            },
            RawEvent::Thinking(t) => {
                if self.debug {
                    self.thinking.append(t.as_str());
                }
                out.push(Event::ThinkingDelta(t.clone()));
                assert(event_views(out@) =~= mapped(*e));
            },
            RawEvent::End { calls, usage, stop } => {
                let ghost cv = call_views(calls@);
                let ghost calls_out = cv.map_values(|c: CallView| EventView::ToolCall(c));
                let mut i: usize = 0;
                assert(event_views(out@) =~= calls_out.take(0));
                while i < calls.len()
                    invariant
                        i <= calls@.len(),
                        cv == call_views(calls@),
                        calls_out == cv.map_values(|c: CallView| EventView::ToolCall(c)),
                        event_views(out@) == calls_out.take(i as int),
                    decreases calls@.len() - i,
                {
                    let c = calls[i].dup();
                    let ghost before = event_views(out@);
                    let ghost x = EventView::ToolCall(c@);
                    assert(calls_out[i as int] == x);
                    out.push(Event::ToolCall(c));
                    assert(event_views(out@) =~= before.push(x));
                    assert(calls_out.take(i + 1) =~= calls_out.take(i as int).push(x));
                    i += 1;
                }
                assert(calls_out.take(i as int) =~= calls_out);
                match usage {
                    Some(u) => {
                        out.push(Event::Usage(usage_from_raw(*u)));
                        assert(event_views(out@) =~= calls_out + seq![
                            EventView::Usage(usage_of_raw(*u)),
                        ]);
                    },
                    None => {
                        assert(calls_out + Seq::<EventView>::empty() =~= calls_out);
                    },
                }
                let ghost before = event_views(out@);
                let why = stop_from_raw(stop);
                let ghost wv = why@;
                out.push(Event::Done(why));
                assert(event_views(out@) =~= before + seq![EventView::Done(wv)]);
            },
            RawEvent::Ignored => {
                assert(event_views(out@) =~= mapped(*e));
            },
        }
        out
    }
}

/// What the log keeps of a reply whose stream ends with `e`.
pub open spec fn parts_at_end(text: Seq<char>, thinking: Seq<char>, e: RawEvent) -> PartsView {
    PartsView {
        stop: stop_of_raw(e->stop),
        text,
        thinking,
        calls: call_views(e->calls@),
        usage: match e->usage {
            Some(u) => Some(usage_of_raw(u)),
            None => None,
        },
    }
}

impl GenaiProvider {
    /// What goes to the log at an event of the stream: the whole exchange at its end, where exchanges are
    /// logged.
    pub fn log_entry(
        &self,
        m: &StreamMapper,
        request: &Json,
        e: &RawEvent,
        now_ms: u64,
        id: &str,
    ) -> (r: Option<Json>)
        ensures
            match r {
                Some(j) => {
                    &&& self.debug
                    &&& e is End
                    &&& j@ == exchange_json(
                        now_ms,
                        id@,
                        self.label@,
                        request@,
                        parts_at_end(m.text@, m.thinking@, *e),
                    )
                },
                None => !self.debug || !(e is End),
            },
    {
        if !self.debug {
            return None;
        }
        match e {
            RawEvent::End { calls, usage, stop } => {
                let p = ExchangeParts {
                    stop: stop_from_raw(stop),
                    text: m.text.clone(),
                    thinking: m.thinking.clone(),
                    calls: dup_calls(calls),
                    usage: match usage {
                        Some(u) => Some(usage_from_raw(*u)),
                        None => None,
                    },
                };
                assert(p@ == parts_at_end(m.text@, m.thinking@, *e));
                Some(exchange_entry(now_ms, id, self.label.as_str(), request.dup(), &p))
            },
            _ => None,
        }
    }
}

/// The events of the whole stream.
pub open spec fn mapped_all(es: Seq<RawEvent>) -> Seq<EventView>
    decreases es.len(),
{
    if es.len() == 0 {
        Seq::empty()
    } else {
        mapped_all(es.drop_last()) + mapped(es.last())
    }
}

/// A stream that ends says so once, at its very end, whatever came before.
pub proof fn law_stream_ends_once(es: Seq<RawEvent>, end: RawEvent)
    requires
        end is End,
        forall|i: int| 0 <= i < es.len() ==> !((#[trigger] es[i]) is End),
    ensures
        ({
            let all = mapped_all(es.push(end));
            &&& all.len() > 0
            &&& all.last() is Done
            &&& forall|i: int| 0 <= i < all.len() - 1 ==> !((#[trigger] all[i]) is Done)
        }),
{
    assert(es.push(end).drop_last() =~= es);
    lemma_no_done(es);
    let a = mapped_all(es);
    let b = mapped(end);
    let all = mapped_all(es.push(end));
    assert(all == a + b);
    assert(b.len() > 0 && b.last() is Done);
    assert forall|i: int| 0 <= i < all.len() - 1 implies !((#[trigger] all[i]) is Done) by {
        if i < a.len() {
            assert(all[i] == a[i]);
        } else {
            assert(all[i] == b[i - a.len()]);
        }
    }
}

proof fn lemma_no_done(es: Seq<RawEvent>)
    requires
        forall|i: int| 0 <= i < es.len() ==> !((#[trigger] es[i]) is End),
    ensures
        forall|i: int| 0 <= i < mapped_all(es).len() ==> !((#[trigger] mapped_all(es)[i]) is Done),
    decreases es.len(),
{
    if es.len() > 0 {
        let a = es.drop_last();
        assert forall|i: int| 0 <= i < a.len() implies !((#[trigger] a[i]) is End) by {
            assert(a[i] == es[i]);
        }
        lemma_no_done(a);
        assert(!(es[es.len() - 1] is End));
    }
}

/// The provider is asked to cache the system segments, up to the last of them, and nothing else.
pub proof fn law_cache_mark(system: Seq<Seq<char>>, messages: Seq<MessageView>, i: int)
    requires
        0 <= i < wire_list(system, messages).len(),
    ensures
        wire_list(system, messages)[i].cached == (i == system.len() - 1),
{
}

/// The protocols that a provider can speak, by the kind that is configured; a kind that is not known has none.
pub proof fn law_protocols(kind: Seq<char>)
    ensures
        adapter_of("anthropic"@) == Some(Adapter::Anthropic),
        adapter_of("openai"@) == Some(Adapter::OpenAi),
        adapter_of("openai_compat"@) == Some(Adapter::OpenAi),
        adapter_of("custom"@) == Some(Adapter::OpenAi),
        adapter_of("openai_responses"@) == Some(Adapter::OpenAiResponses),
        adapter_of("gemini"@) == Some(Adapter::Gemini),
        adapter_of("ollama"@) == Some(Adapter::Ollama),
        adapter_of("groq"@) == Some(Adapter::Groq),
        adapter_of("deepseek"@) == Some(Adapter::DeepSeek),
        adapter_of("xai"@) == Some(Adapter::Xai),
        adapter_of("openrouter"@) == Some(Adapter::OpenRouter),
        adapter_of(kind) is Some ==> kind == "anthropic"@ || kind == "openai"@ || kind == "openai_compat"@ || kind
            == "custom"@ || kind == "openai_responses"@ || kind == "gemini"@ || kind == "ollama"@ || kind
            == "groq"@ || kind == "deepseek"@ || kind == "xai"@ || kind == "openrouter"@,
{
    reveal_strlit("anthropic");
    reveal_strlit("openai");
    reveal_strlit("openai_compat");
    reveal_strlit("custom");
    reveal_strlit("openai_responses");
    reveal_strlit("gemini");
    reveal_strlit("ollama");
    reveal_strlit("groq");
    reveal_strlit("deepseek");
    reveal_strlit("xai");
    reveal_strlit("openrouter");
    assert("anthropic"@.len() == 9 && "openai"@.len() == 6 && "openai_compat"@.len() == 13 && "custom"@.len() == 6
        && "openai_responses"@.len() == 16 && "gemini"@.len() == 6 && "ollama"@.len() == 6 && "groq"@.len() == 4
        && "deepseek"@.len() == 8 && "xai"@.len() == 3 && "openrouter"@.len() == 10);
    assert("openai"@[1] == 'p' && "custom"@[1] == 'u' && "gemini"@[1] == 'e' && "ollama"@[1] == 'l');
}

/// A provider is called by its kind and its address.
pub proof fn law_provider_called(cfg: ProviderConfig)
    ensures
        cfg.base_url matches Some(u) ==> label_of(cfg) == cfg.kind@ + " @ "@ + u@,
        cfg.base_url is None ==> label_of(cfg) == cfg.kind@ + " @ "@ + "<default endpoint>"@,
{
}

/// What is sent is every part of the system prompt and then every message, in their order.
pub proof fn law_everything_sent(system: Seq<Seq<char>>, messages: Seq<MessageView>, i: int)
    ensures
        wire_list(system, messages).len() == system.len() + messages.len(),
        0 <= i < system.len() ==> wire_list(system, messages)[i].message == MessageView::System(system[i]),
        0 <= i < messages.len() ==> wire_list(system, messages)[system.len() + i].message == messages[i],
{
}

/// The tokens that a provider counts are taken over kind by kind; a count that is missing or below zero is none.
pub proof fn law_tokens_taken(u: RawUsage, n: i32)
    ensures
        count_of_raw(None) == 0,
        n > 0 ==> count_of_raw(Some(n)) == n,
        n <= 0 ==> count_of_raw(Some(n)) == 0,
        usage_of_raw(u).input == count_of_raw(u.prompt),
        usage_of_raw(u).output == count_of_raw(u.completion),
        usage_of_raw(u).cache_read == count_of_raw(u.cached),
        usage_of_raw(u).cache_write == count_of_raw(u.cache_creation),
        usage_of_raw(u).reasoning == count_of_raw(u.reasoning),
{
}

/// Why a provider stopped: a reason that is not told is the end of the turn, and one that is not known is kept.
pub proof fn law_stops_told(s: String)
    ensures
        stop_of_raw(None) == StopView::EndTurn,
        stop_of_raw(Some(RawStop::Completed)) == StopView::EndTurn,
        stop_of_raw(Some(RawStop::ToolCall)) == StopView::ToolUse,
        stop_of_raw(Some(RawStop::MaxTokens)) == StopView::MaxTokens,
        stop_of_raw(Some(RawStop::StopSequence)) == StopView::Stop,
        stop_of_raw(Some(RawStop::ContentFilter(s))) == StopView::Other(s@),
        stop_of_raw(Some(RawStop::Other(s))) == StopView::Other(s@),
{
}

/// What a provider streams is handed on piece by piece: texts and thoughts as they come, and at the end all calls in
/// their order, then the tokens where they are told, then the reason.
pub proof fn law_stream_handed_on(
    es: Seq<RawEvent>,
    t: String,
    calls: Vec<ToolCall>,
    usage: Option<RawUsage>,
    stop: Option<RawStop>,
    i: int,
)
    ensures
        mapped_all(Seq::empty()).len() == 0,
        mapped_all(es.push(RawEvent::Text(t))) == mapped_all(es) + seq![EventView::TextDelta(t@)],
        mapped_all(es.push(RawEvent::Thinking(t))) == mapped_all(es) + seq![EventView::ThinkingDelta(t@)],
        mapped_all(es.push(RawEvent::Ignored)) == mapped_all(es),
        ({
            let e = mapped(RawEvent::End { calls, usage, stop });
            let n = calls@.len();
            &&& 0 <= i < n ==> e[i] == EventView::ToolCall(calls@[i]@)
            &&& usage matches Some(u) ==> e.len() == n + 2 && e[n as int] == EventView::Usage(usage_of_raw(u))
            &&& usage is None ==> e.len() == n + 1
            &&& e.last() == EventView::Done(stop_of_raw(stop))
            &&& mapped_all(es.push(RawEvent::End { calls, usage, stop })) == mapped_all(es) + e
        }),
{
    assert(es.push(RawEvent::Text(t)).drop_last() =~= es);
    assert(es.push(RawEvent::Thinking(t)).drop_last() =~= es);
    assert(es.push(RawEvent::Ignored).drop_last() =~= es);
    assert(es.push(RawEvent::End { calls, usage, stop }).drop_last() =~= es);
    assert(mapped_all(es) + Seq::<EventView>::empty() =~= mapped_all(es));
}

/// What is logged of an answer is all its text, all its thoughts, its calls, its tokens and why it stopped.
pub proof fn law_answer_logged(
    text: Seq<char>,
    thinking: Seq<char>,
    calls: Vec<ToolCall>,
    usage: Option<RawUsage>,
    stop: Option<RawStop>,
)
    ensures
        ({
            let p = parts_at_end(text, thinking, RawEvent::End { calls, usage, stop });
            &&& p.text == text
            &&& p.thinking == thinking
            &&& p.calls == call_views(calls@)
            &&& p.stop == stop_of_raw(stop)
            &&& usage matches Some(u) ==> p.usage == Some(usage_of_raw(u))
            &&& usage is None ==> p.usage is None
        }),
{
}

} // verus!
