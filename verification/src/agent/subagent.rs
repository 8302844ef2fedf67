//! The tool with which the model hands tasks to agents of their own.

use super::ask_user::{get_string_list, string_list};
use super::thread::{empty_thread, Thread, ThreadView};
use super::turn::{OutcomeView, RunOptions, TurnOutcome};
use super::ui::{UiEvent, UiView};
use crate::error::{error_text, CarterError};
use crate::hooks::registry::HookRegistry;
use crate::json::{json_view_arr, json_views, member, text_member, uint_member, Json, JsonView};
use crate::number::{dec, push_dec};
use crate::provider::request::{message_views, message_views_push, Message, MessageView};
use crate::split::{blank, is_blank};
use crate::text::{str_eq, texts, texts_push};
use crate::tools::args::ToolResult;
use vstd::prelude::*;

verus! {

/// How many rounds an agent of a task may take.
pub const SUBAGENT_MAX_TURNS: u32 = 20;

/// How deep tasks may be nested where the configuration does not say.
pub const DEFAULT_MAX_DEPTH: u32 = 3;

/// The tool that runs tasks.
#[derive(Debug)]
pub struct TaskTool {
    /// How deep tasks may be nested.
    pub max_depth: Option<u32>,
    /// The system prompt of a task's agent.
    pub base_system: String,
    /// How deep the agent with this tool is itself.
    pub depth: u32,
}

/// The tasks of a call.
#[derive(Debug)]
pub struct TaskPlan {
    pub prompts: Vec<String>,
    /// The tools that the tasks' agents may use; all where this is missing.
    pub whitelist: Option<Vec<String>>,
    /// How many of the last messages each task is given.
    pub fork: u64,
}

/// The prompts that are strings and not empty.
pub open spec fn good_prompts(v: Seq<JsonView>) -> bool {
    forall|i: int|
        0 <= i < v.len() ==> (#[trigger] v[i] matches JsonView::Str(s) && s.len() > 0)
}

/// The prompts of a call, or what is wrong with them.
pub open spec fn prompts_of(args: JsonView) -> Result<Seq<Seq<char>>, Seq<char>> {
    match member(args, "prompts"@) {
        Some(JsonView::Arr(v)) => if !good_prompts(v) {
            Err("prompts array contains non-string or empty entry"@)
        } else if v.len() == 0 {
            Err("prompts array is empty"@)
        } else {
            Ok(v.map_values(|j: JsonView| j->Str_0))
        },
        _ => match text_member(args, "prompt"@) {
            Some(p) => if p.len() > 0 {
                Ok(seq![p])
            } else {
                Err("missing argument: pass `prompt` (string) or `prompts` (array)"@)
            },
            None => Err("missing argument: pass `prompt` (string) or `prompts` (array)"@),
        },
    }
}

/// How deep tasks may be nested.
pub open spec fn depth_limit(max_depth: Option<u32>) -> u32 {
    match max_depth {
        Some(d) => d,
        None => DEFAULT_MAX_DEPTH,
    }
}

/// What is said where tasks would be nested too deep.
pub open spec fn too_deep(depth: nat, max: nat) -> Seq<char> {
    "subagent depth limit reached (depth="@ + dec(depth) + ", max="@ + dec(max)
        + "); refusing to spawn"@
}

fn read_prompts(args: &Json) -> (r: Result<Vec<String>, String>)
    ensures
        match r {
            Ok(v) => prompts_of(args@) == Ok::<Seq<Seq<char>>, Seq<char>>(texts(v@)),
            Err(e) => prompts_of(args@) == Err::<Seq<Seq<char>>, Seq<char>>(e@),
        },
{
    let ghost m = member(args@, "prompts"@);
    match args.get("prompts") {
        Some(Json::Arr(v)) => {
            proof {
                json_view_arr(*v);
            }
            let ghost js = json_views(v@);
            assert(m == Some(JsonView::Arr(js)));
            let mut out: Vec<String> = Vec::new();
            assert(texts(out@) =~= js.take(0).map_values(|j: JsonView| j->Str_0));
            let mut i: usize = 0;
            while i < v.len()
                invariant
                    i <= v@.len(),
                    js == json_views(v@),
                    m == Some(JsonView::Arr(js)),
                    m == member(args@, "prompts"@),
                    forall|k: int|
                        0 <= k < i ==> (#[trigger] js[k] matches JsonView::Str(s) && s.len() > 0),
                    texts(out@) == js.take(i as int).map_values(|j: JsonView| j->Str_0),
                decreases v@.len() - i,
            {
                broadcast use texts_push;

                assert(js[i as int] == v@[i as int]@);
                let text = match &v[i] {
                    Json::Str(s) => s.clone(),
                    _ => {
                        assert(!(js[i as int] is Str));
                        assert(!good_prompts(js));
                        return Err("prompts array contains non-string or empty entry".to_owned());
                    },
                };
                if text.as_str().is_empty() {
                    assert(js[i as int] == JsonView::Str(text@));
                    assert(!good_prompts(js));
                    return Err("prompts array contains non-string or empty entry".to_owned());
                }
                assert(js.take(i + 1).map_values(|j: JsonView| j->Str_0) =~= js.take(
                    i as int,
                ).map_values(|j: JsonView| j->Str_0).push(text@));
                out.push(text);
                i += 1;
            }
            assert(js.take(i as int) =~= js);
            assert(good_prompts(js));
            if out.len() == 0 {
                assert(texts(out@).len() == 0);
                return Err("prompts array is empty".to_owned());
            }
            assert(texts(out@).len() == out@.len());
            Ok(out)
        },
        other => {
            assert(!(m matches Some(JsonView::Arr(_)))) by {
                match other {
                    Some(j) => {
                        assert(!(j@ is Arr));
                    },
                    None => {},
                }
            }
            let p = match args.get_str("prompt") {
                Some(p) => p,
                None => String::new(),
            };
            if p.as_str().is_empty() {
                return Err(
                    "missing argument: pass `prompt` (string) or `prompts` (array)".to_owned(),
                );
            }
            let mut out: Vec<String> = Vec::new();
            let ghost pv = p@;
            out.push(p);
            assert(texts(out@) =~= seq![pv]);
            Ok(out)
        },
    }
}

/// The strings of an optional list.
pub open spec fn opt_texts(v: Option<Vec<String>>) -> Option<Seq<Seq<char>>> {
    match v {
        Some(v) => Some(texts(v@)),
        None => None,
    }
}

impl TaskTool {
    /// The tool of an agent at the depth.
    pub fn new(max_depth: Option<u32>, base_system: String, depth: u32) -> (r: TaskTool)
        ensures
            r == (TaskTool { max_depth, base_system, depth }),
    {
        TaskTool { max_depth, base_system, depth }
    }

    /// The tasks of a call, or the answer where none is run: tasks are not nested beyond the limit,
    /// and each needs a prompt.
    pub fn plan(&self, args: &Json) -> (r: Result<TaskPlan, ToolResult>)
        requires
            self.depth < u32::MAX,
        ensures
            match r {
                Ok(p) => {
                    &&& self.depth + 1 <= depth_limit(self.max_depth)
                    &&& prompts_of(args@) == Ok::<Seq<Seq<char>>, Seq<char>>(texts(p.prompts@))
                    &&& opt_texts(p.whitelist) == string_list(args@, "tools"@)
                    &&& p.fork == match uint_member(args@, "fork_messages"@) {
                        Some(n) => n,
                        None => 0,
                    }
                },
                Err(e) => {
                    &&& !e.ok
                    &&& if self.depth + 1 > depth_limit(self.max_depth) {
                        e.content@ == too_deep(
                            (self.depth + 1) as nat,
                            depth_limit(self.max_depth) as nat,
                        )
                    } else {
                        prompts_of(args@) == Err::<Seq<Seq<char>>, Seq<char>>(e.content@)
                    }
                },
            },
    {
        let max: u32 = match self.max_depth {
            Some(d) => d,
            None => DEFAULT_MAX_DEPTH,
        };
        if self.depth + 1 > max {
            let mut s = "subagent depth limit reached (depth=".to_owned();
            push_dec(&mut s, (self.depth + 1) as u64);
            s.append(", max=");
            push_dec(&mut s, max as u64);
            s.append("); refusing to spawn");
            return Err(ToolResult::err(s));
        }
        match read_prompts(args) {
            Ok(prompts) => {
                let fork: u64 = match args.get_u64("fork_messages") {
                    Some(n) => n,
                    None => 0,
                };
                Ok(TaskPlan { prompts, whitelist: get_string_list(args, "tools"), fork })
            },
            Err(e) => Err(ToolResult::err(e)),
        }
    }

    /// How a task's agent is run: it shows no reasoning, compacts with its own model, and has no
    /// hooks.
    pub fn child_options(&self) -> (r: RunOptions)
        ensures
            !r.show_thinking,
            texts(r.system@) == seq![self.base_system@],
            r.compact_model is None,
            r.hooks.hooks@.len() == 0,
    {
        let mut system: Vec<String> = Vec::new();
        system.push(self.base_system.clone());
        assert(texts(system@) =~= seq![self.base_system@]);
        RunOptions {
            show_thinking: false,
            system,
            compact_model: None,
            hooks: HookRegistry::from_configs(Vec::new()),
        }
    }
}

/// The messages without the calls that are just being run: these have no answers yet.
pub open spec fn settled(messages: Seq<MessageView>) -> Seq<MessageView> {
    if messages.len() > 0 && messages.last() is ToolCalls {
        messages.drop_last()
    } else {
        messages
    }
}

/// The last `n` messages of a conversation, all where there are fewer.
pub open spec fn forked(messages: Seq<MessageView>, n: nat) -> Seq<MessageView> {
    let all = settled(messages);
    if n >= all.len() {
        all
    } else {
        all.skip(all.len() - n)
    }
}

/// What a task is given of the conversation that starts it.
pub fn fork_messages(messages: &Vec<Message>, n: u64) -> (r: Vec<Message>)
    ensures
        message_views(r@) == forked(message_views(messages@), n as nat),
{
    broadcast use message_views_push;

    let ghost mv = message_views(messages@);
    assert(mv.len() == messages@.len());
    let mut end: usize = messages.len();
    if end > 0 {
        assert(mv.last() == messages@[end - 1]@);
        if let Message::ToolCalls(_) = &messages[end - 1] {
            end -= 1;
        }
    }
    assert(settled(mv) =~= mv.take(end as int));
    let start: usize = if n >= end as u64 {
        0
    } else {
        end - n as usize
    };
    let mut out: Vec<Message> = Vec::new();
    let mut i: usize = start;
    assert(message_views(out@) =~= mv.subrange(start as int, start as int));
    while i < end
        invariant
            start <= i <= end <= messages@.len(),
            mv == message_views(messages@),
            mv.len() == messages@.len(),
            message_views(out@) == mv.subrange(start as int, i as int),
        decreases end - i,
    {
        broadcast use message_views_push;

        out.push(messages[i].dup());
        assert(mv.subrange(start as int, i + 1) =~= mv.subrange(start as int, i as int).push(
            messages@[i as int]@,
        ));
        i += 1;
    }
    assert(mv.subrange(start as int, end as int) =~= forked(mv, n as nat));
    out
}

/// A task without messages of the conversation that starts it begins with its prompt alone, and one that
/// is given as many as there are begins with all that are settled; in between it is the end of them.
pub proof fn law_fork_is_the_end(messages: Seq<MessageView>, n: nat)
    ensures
        forked(messages, 0).len() == 0,
        n >= messages.len() ==> forked(messages, n) == settled(messages),
        forked(messages, n).len() <= n,
        forked(messages, n).is_suffix_of(settled(messages)),
{
    let all = settled(messages);
    let f = forked(messages, n);
    assert(all.subrange(all.len() - f.len(), all.len() as int) =~= f);
}

/// The conversation of a task: what it is given of the history, and its prompt. It is not recorded.
pub fn task_thread(initial: Vec<Message>, prompt: String) -> (r: Thread)
    ensures
        r@ == (ThreadView {
            messages: message_views(initial@).push(MessageView::User(prompt@)),
            ..empty_thread()
        }),
{
    broadcast use message_views_push;

    let mut t = Thread::new_empty();
    let mut messages = initial;
    messages.push(Message::User(prompt));
    t.messages = messages;
    t
}

/// A task's agent may use the tool.
pub open spec fn tool_allowed(whitelist: Option<Seq<Seq<char>>>, name: Seq<char>) -> bool {
    match whitelist {
        Some(w) => w.contains(name),
        None => true,
    }
}

/// Whether a task's agent may use the tool.
pub fn allows(whitelist: &Option<Vec<String>>, name: &str) -> (r: bool)
    ensures
        r == tool_allowed(opt_texts(*whitelist), name@),
{
    match whitelist {
        None => true,
        Some(w) => {
            let ghost ws = texts(w@);
            let mut i: usize = 0;
            while i < w.len()
                invariant
                    i <= w@.len(),
                    ws == texts(w@),
                    opt_texts(*whitelist) == Some(ws),
                    forall|j: int| 0 <= j < i ==> ws[j] != name@,
                decreases w@.len() - i,
            {
                assert(ws[i as int] == w@[i as int]@);
                if str_eq(w[i].as_str(), name) {
                    assert(ws.contains(ws[i as int]));
                    return true;
                }
                i += 1;
            }
            assert(ws.len() == w@.len());
            false
        },
    }
}

/// What a task came to.
pub open spec fn task_end(end: Result<OutcomeView, Seq<char>>, text: Seq<char>) -> Result<
    Seq<char>,
    Seq<char>,
> {
    match end {
        Ok(OutcomeView::Cancelled) => Err("sub-agent cancelled"@),
        Ok(_) => if is_blank(text) {
            Err("sub-agent produced no output"@)
        } else {
            Ok(text)
        },
        Err(e) => Err("sub-agent error: "@ + e),
    }
}

/// The view of a turn's end.
pub open spec fn end_view(r: Result<TurnOutcome, CarterError>) -> Result<OutcomeView, Seq<char>> {
    match r {
        Ok(o) => Ok(o@),
        Err(e) => Err(error_text(e@)),
    }
}

/// The view of what a task came to.
pub open spec fn task_view(r: Result<String, String>) -> Result<Seq<char>, Seq<char>> {
    match r {
        Ok(s) => Ok(s@),
        Err(s) => Err(s@),
    }
}

/// What a task came to: the text of its agent, or why there is none.
pub fn task_outcome(end: Result<TurnOutcome, CarterError>, text: String) -> (r: Result<
    String,
    String,
>)
    ensures
        task_view(r) == task_end(end_view(end), text@),
{
    match end {
        Ok(TurnOutcome::Cancelled) => Err("sub-agent cancelled".to_owned()),
        Ok(_) => if blank(text.as_str()) {
            Err("sub-agent produced no output".to_owned())
        } else {
            Ok(text)
        },
        Err(e) => Err("sub-agent error: ".to_owned().concat(e.message().as_str())),
    }
}

// ---------------------------------------------------------------------------------------------
// The answer to a call
// ---------------------------------------------------------------------------------------------

/// The views of what tasks came to, each with the place of its prompt.
pub open spec fn result_views(v: Seq<(usize, Result<String, String>)>) -> Seq<
    (usize, Result<Seq<char>, Seq<char>>),
> {
    v.map_values(|x: (usize, Result<String, String>)| (x.0, task_view(x.1)))
}

/// The first position at or after `i` whose place is beyond `n`.
pub open spec fn place_slot(
    s: Seq<(usize, Result<Seq<char>, Seq<char>>)>,
    n: usize,
    i: int,
) -> int
    decreases s.len() - i,
{
    if i < 0 || i >= s.len() {
        s.len() as int
    } else if s[i].0 > n {
        i
    } else {
        place_slot(s, n, i + 1)
    }
}

/// The results in the order of their places.
pub open spec fn by_place(s: Seq<(usize, Result<Seq<char>, Seq<char>>)>) -> Seq<
    (usize, Result<Seq<char>, Seq<char>>),
>
    decreases s.len(),
{
    if s.len() == 0 {
        Seq::empty()
    } else {
        let done = by_place(s.drop_last());
        done.insert(place_slot(done, s.last().0, 0), s.last())
    }
}

/// The text of one task's result.
pub open spec fn result_text(x: (usize, Result<Seq<char>, Seq<char>>)) -> Seq<char> {
    "--- subagent "@ + dec((x.0 + 1) as nat) + " ---\n"@ + match x.1 {
        Ok(t) => t,
        Err(m) => "ERROR: "@ + m,
    }
}

/// The texts of the results, with blank lines between them.
pub open spec fn combined(s: Seq<(usize, Result<Seq<char>, Seq<char>>)>) -> Seq<char>
    decreases s.len(),
{
    if s.len() == 0 {
        Seq::empty()
    } else if s.len() == 1 {
        result_text(s[0])
    } else {
        combined(s.drop_last()) + "\n\n"@ + result_text(s.last())
    }
}

/// A task failed.
pub open spec fn any_failed(s: Seq<(usize, Result<Seq<char>, Seq<char>>)>) -> bool {
    exists|i: int| 0 <= i < s.len() && (#[trigger] s[i]).1 is Err
}

/// What a call answers: the result of its one task, or the results of all of them in the order of the
/// prompts, which are a failure where one of them is.
pub open spec fn call_answer(s: Seq<(usize, Result<Seq<char>, Seq<char>>)>) -> (bool, Seq<char>) {
    if s.len() == 1 {
        match s[0].1 {
            Ok(t) => (true, t),
            Err(m) => (false, m),
        }
    } else {
        (!any_failed(s), combined(by_place(s)))
    }
}

fn sort_results(v: Vec<(usize, Result<String, String>)>) -> (r: Vec<
    (usize, Result<String, String>),
>)
    ensures
        result_views(r@) == by_place(result_views(v@)),
        r@.len() == v@.len(),
        forall|x: (usize, Result<String, String>)| #[trigger]
            r@.contains(x) <==> v@.contains(x),
{
    let ghost all = result_views(v@);
    let ghost src = v@;
    let mut out: Vec<(usize, Result<String, String>)> = Vec::new();
    assert(result_views(out@) =~= Seq::<(usize, Result<Seq<char>, Seq<char>>)>::empty());
    assert(all.take(0) =~= Seq::<(usize, Result<Seq<char>, Seq<char>>)>::empty());
    for x in it: v
        invariant
            src == it.seq(),
            all == result_views(src),
            out@.len() == it.index(),
            result_views(out@) == by_place(all.take(it.index())),
            forall|y: (usize, Result<String, String>)| #[trigger]
                out@.contains(y) <==> src.take(it.index()).contains(y),
    {
        let ghost i = it.index();
        let ghost done = result_views(out@);
        let ghost before = out@;
        let ghost xv = (x.0, task_view(x.1));
        let ghost x0 = x;
        let mut k: usize = 0;
        let n: usize = x.0;
        while k < out.len() && out[k].0 <= n
            invariant
                k <= out@.len(),
                done == result_views(out@),
                place_slot(done, n, 0) == place_slot(done, n, k as int),
            decreases out@.len() - k,
        {
            assert(done[k as int].0 == out@[k as int].0);
            k += 1;
        }
        assert(k < out@.len() ==> done[k as int].0 == out@[k as int].0);
        out.insert(k, x);
        assert(result_views(out@) =~= done.insert(k as int, xv));
        assert(all.take(i + 1).drop_last() =~= all.take(i));
        assert(all.take(i + 1).last() == xv);
        assert forall|y: (usize, Result<String, String>)| #[trigger]
            out@.contains(y) <==> src.take(i + 1).contains(y) by {
            lemma_insert_contains(before, k as int, x0, y);
            assert(src.take(i + 1) =~= src.take(i).push(x0));
            lemma_push_contains(src.take(i), x0, y);
        }
    }
    assert(src.take(src.len() as int) =~= src);
    assert(all.take(all.len() as int) =~= all);
    out
}

proof fn lemma_insert_contains<T>(s: Seq<T>, k: int, x: T, y: T)
    requires
        0 <= k <= s.len(),
    ensures
        s.insert(k, x).contains(y) <==> s.contains(y) || y == x,
{
    let r = s.insert(k, x);
    if r.contains(y) {
        let j = choose|j: int| 0 <= j < r.len() && r[j] == y;
        if j < k {
            assert(s[j] == y);
        } else if j > k {
            assert(s[j - 1] == y);
        }
    }
    if s.contains(y) {
        let j = choose|j: int| 0 <= j < s.len() && s[j] == y;
        if j < k {
            assert(r[j] == y);
        } else {
            assert(r[j + 1] == y);
        }
    }
    if y == x {
        assert(r[k] == y);
    }
}

proof fn lemma_push_contains<T>(s: Seq<T>, x: T, y: T)
    ensures
        s.push(x).contains(y) <==> s.contains(y) || y == x,
{
    let r = s.push(x);
    if r.contains(y) {
        let j = choose|j: int| 0 <= j < r.len() && r[j] == y;
        if j < s.len() {
            assert(s[j] == y);
        }
    }
    if s.contains(y) {
        let j = choose|j: int| 0 <= j < s.len() && s[j] == y;
        assert(r[j] == y);
    }
    if y == x {
        assert(r[s.len() as int] == y);
    }
}

/// What a call answers, from what its tasks came to. Where a call has several tasks, each result has
/// the place of its prompt.
pub fn answer_call(results: Vec<(usize, Result<String, String>)>) -> (r: ToolResult)
    requires
        results@.len() != 1 ==> forall|i: int|
            0 <= i < results@.len() ==> (#[trigger] results@[i]).0 < usize::MAX,
    ensures
        (r.ok, r.content@) == call_answer(result_views(results@)),
{
    let ghost rv = result_views(results@);
    let ghost src = results@;
    assert(rv.len() == results@.len());
    if results.len() == 1 {
        assert(rv[0].1 == task_view(results@[0].1));
        let mut results = results;
        let (_, one) = results.swap_remove(0);
        return match one {
            Ok(t) => ToolResult::ok(t),
            Err(m) => ToolResult::err(m),
        };
    }
    let sorted = sort_results(results);
    let ghost sv = result_views(sorted@);
    let mut out = String::new();
    let mut failed = false;
    let mut i: usize = 0;
    assert(sv.take(0) =~= Seq::<(usize, Result<Seq<char>, Seq<char>>)>::empty());
    while i < sorted.len()
        invariant
            i <= sorted@.len(),
            sv == result_views(sorted@),
            sorted@.len() == src.len(),
            src.len() != 1,
            forall|j: int| 0 <= j < src.len() ==> (#[trigger] src[j]).0 < usize::MAX,
            forall|x: (usize, Result<String, String>)| #[trigger]
                sorted@.contains(x) <==> src.contains(x),
            out@ == combined(sv.take(i as int)),
            failed == exists|j: int| 0 <= j < i && (#[trigger] sorted@[j]).1 is Err,
        decreases sorted@.len() - i,
    {
        assert(sorted@.contains(sorted@[i as int]));
        assert(sorted@[i as int].0 < usize::MAX) by {
            let j = choose|j: int| 0 <= j < src.len() && src[j] == sorted@[i as int];
            assert(src[j].0 < usize::MAX);
        }
        let ghost seen = sv.take(i + 1);
        assert(seen.drop_last() =~= sv.take(i as int));
        assert(seen.last() == (sorted@[i as int].0, task_view(sorted@[i as int].1)));
        if i > 0 {
            out.append("\n\n");
        }
        let mut s = "--- subagent ".to_owned();
        push_dec(&mut s, (sorted[i].0 + 1) as u64);
        s.append(" ---\n");
        let mut t = String::new();
        match &sorted[i].1 {
            Ok(text) => {
                t = text.clone();
            },
            Err(msg) => {
                failed = true;
                t = "ERROR: ".to_owned().concat(msg.as_str());
            },
        }
        s.append(t.as_str());
        assert(s@ == result_text(seen.last()));
        out.append(s.as_str());
        if i == 0 {
            assert(out@ =~= result_text(seen[0]));
        }
        i += 1;
    }
    assert(sv.take(i as int) =~= sv);
    proof {
        if failed {
            let j = choose|j: int| 0 <= j < sorted@.len() && (#[trigger] sorted@[j]).1 is Err;
            assert(sorted@.contains(sorted@[j]));
            let k = choose|k: int| 0 <= k < src.len() && src[k] == sorted@[j];
            assert(rv[k].1 is Err);
        }
        if any_failed(rv) {
            let k = choose|k: int| 0 <= k < rv.len() && (#[trigger] rv[k]).1 is Err;
            assert(src[k].1 is Err);
            assert(src.contains(src[k]));
            assert(sorted@.contains(src[k]));
            let j = choose|j: int| 0 <= j < sorted@.len() && sorted@[j] == src[k];
            assert(sorted@[j].1 is Err);
        }
    }
    if failed {
        ToolResult::err(out)
    } else {
        ToolResult::ok(out)
    }
}

/// Results that come in the order of their prompts are answered in that order.
pub proof fn law_results_in_prompt_order(s: Seq<(usize, Result<Seq<char>, Seq<char>>)>)
    requires
        forall|i: int, j: int| 0 <= i < j < s.len() ==> (#[trigger] s[i]).0 <= (#[trigger] s[j]).0,
    ensures
        by_place(s) == s,
    decreases s.len(),
{
    if s.len() > 0 {
        let front = s.drop_last();
        assert forall|i: int, j: int| 0 <= i < j < front.len() implies (#[trigger] front[i]).0 <= (
        #[trigger] front[j]).0 by {
            assert(s[i].0 <= s[j].0);
        }
        law_results_in_prompt_order(front);
        assert forall|i: int| 0 <= i < front.len() implies (#[trigger] front[i]).0 <= s.last().0 by {
            assert(s[i].0 <= s[s.len() - 1].0);
        }
        lemma_place_at_end(front, s.last().0, 0);
        assert(front.insert(front.len() as int, s.last()) =~= s);
    } else {
        assert(by_place(s) =~= s);
    }
}

proof fn lemma_place_at_end(s: Seq<(usize, Result<Seq<char>, Seq<char>>)>, n: usize, i: int)
    requires
        0 <= i <= s.len(),
        forall|j: int| 0 <= j < s.len() ==> (#[trigger] s[j]).0 <= n,
    ensures
        place_slot(s, n, i) == s.len(),
    decreases s.len() - i,
{
    if i < s.len() {
        assert(s[i].0 <= n);
        lemma_place_at_end(s, n, i + 1);
    }
}

// ---------------------------------------------------------------------------------------------
// What a task's agent says
// ---------------------------------------------------------------------------------------------

/// Keeps the last block of text that a task's agent said.
#[derive(Debug)]
pub struct CollectSink {
    /// The block under way.
    pub buf: String,
    /// The last finished block.
    pub last: String,
}

/// What a `CollectSink` holds.
pub struct SinkView {
    pub buf: Seq<char>,
    pub last: Seq<char>,
}

impl View for CollectSink {
    type V = SinkView;

    open spec fn view(&self) -> SinkView {
        SinkView { buf: self.buf@, last: self.last@ }
    }
}

/// The sink after one event: text goes to the block under way, and the end of a block that is not
/// empty makes it the last one.
pub open spec fn collected(s: SinkView, ev: UiView) -> SinkView {
    match ev {
        UiView::AssistantTextDelta(t) => SinkView { buf: s.buf + t, ..s },
        UiView::AssistantTextEnd => if s.buf.len() == 0 {
            s
        } else {
            SinkView { buf: Seq::empty(), last: s.buf }
        },
        _ => s,
    }
}

impl CollectSink {
    /// A sink that has heard nothing.
    pub fn new() -> (r: CollectSink)
        ensures
            r@ == (SinkView { buf: Seq::empty(), last: Seq::empty() }),
    {
        CollectSink { buf: String::new(), last: String::new() }
    }

    /// Hears an event.
    pub fn emit(&mut self, ev: &UiEvent)
        ensures
            final(self)@ == collected(old(self)@, ev@),
    {
        match ev {
            UiEvent::AssistantTextDelta(t) => {
                self.buf.append(t.as_str());
            },
            UiEvent::AssistantTextEnd => {
                if !self.buf.as_str().is_empty() {
                    let mut b = String::new();
                    std::mem::swap(&mut b, &mut self.buf);
                    self.last = b;
                }
            },
            _ => {},
        }
    }

    /// What the agent said last: its last finished block, or the one under way.
    pub fn final_text(&self) -> (r: String)
        ensures
            r@ == if self@.last.len() > 0 {
                self@.last
            } else {
                self@.buf
            },
    {
        if !self.last.as_str().is_empty() {
            self.last.clone()
        } else {
            self.buf.clone()
        }
    }
}

/// The prompts are those of the list, each of them and in its order, or else the single one; an entry that is no
/// text or an empty one, an empty list, and a call without any prompt are refused.
pub proof fn law_prompts_taken(args: JsonView, v: Seq<JsonView>, p: Seq<char>, i: int)
    ensures
        member(args, "prompts"@) == Some(JsonView::Arr(v)) ==> {
            &&& prompts_of(args) is Ok <==> v.len() > 0 && forall|k: int|
                0 <= k < v.len() ==> (#[trigger] v[k]) is Str && v[k] != JsonView::Str(Seq::empty())
            &&& prompts_of(args) matches Ok(ps) ==> ps.len() == v.len() && (0 <= i < v.len() ==> v[i]
                == JsonView::Str(ps[i]))
            &&& v.len() == 0 ==> prompts_of(args) == Err::<Seq<Seq<char>>, Seq<char>>(
                "prompts array is empty"@,
            )
            &&& v.len() > 0 && prompts_of(args) is Err ==> prompts_of(args) == Err::<
                Seq<Seq<char>>,
                Seq<char>,
            >("prompts array contains non-string or empty entry"@)
        },
        !(member(args, "prompts"@) is Some && member(args, "prompts"@)->0 is Arr) ==> {
            &&& text_member(args, "prompt"@) == Some(p) && p.len() > 0 ==> prompts_of(args) == Ok::<
                Seq<Seq<char>>,
                Seq<char>,
            >(seq![p])
            &&& text_member(args, "prompt"@) == None::<Seq<char>> || text_member(args, "prompt"@) == Some(
                Seq::<char>::empty(),
            ) ==> prompts_of(args) == Err::<Seq<Seq<char>>, Seq<char>>(
                "missing argument: pass `prompt` (string) or `prompts` (array)"@,
            )
        },
{
    if member(args, "prompts"@) == Some(JsonView::Arr(v)) {
        if good_prompts(v) {
            assert forall|k: int| 0 <= k < v.len() implies (#[trigger] v[k]) is Str && v[k]
                != JsonView::Str(Seq::empty()) by {
                assert(v[k]->Str_0.len() > 0);
            }
        }
        if forall|k: int|
            0 <= k < v.len() ==> (#[trigger] v[k]) is Str && v[k] != JsonView::Str(Seq::empty()) {
            assert forall|k: int| 0 <= k < v.len() implies (#[trigger] v[k] matches JsonView::Str(s)
                && s.len() > 0) by {
                if v[k]->Str_0.len() == 0 {
                    assert(v[k]->Str_0 =~= Seq::empty());
                }
            }
        }
    }
}

/// Agents are at most three deep where no limit is given, and the refusal says how deep the asker is.
pub proof fn law_depth(d: u32, depth: nat, max: nat)
    ensures
        depth_limit(None) == 3,
        depth_limit(Some(d)) == d,
        too_deep(depth, max) == "subagent depth limit reached (depth="@ + dec(depth) + ", max="@ + dec(max)
            + "); refusing to spawn"@,
{
}

/// A forked agent is handed the last messages of the thread but for calls that have no answer yet, as many as were
/// asked for.
pub proof fn law_fork_hands_over(messages: Seq<MessageView>, m: MessageView, n: nat)
    ensures
        m is ToolCalls ==> forked(messages.push(m), messages.len()) == messages,
        !(m is ToolCalls) ==> forked(messages.push(m), messages.len() + 1) == messages.push(m),
        !(m is ToolCalls) && n <= messages.len() ==> forked(messages.push(m), n + 1) == messages.skip(
            messages.len() - n,
        ).push(m),
        m is ToolCalls && n <= messages.len() ==> forked(messages.push(m), n) == messages.skip(
            messages.len() - n,
        ),
        forked(Seq::empty(), n).len() == 0,
{
    let all = messages.push(m);
    assert(all.drop_last() =~= messages);
    if n <= messages.len() {
        assert(all.skip(all.len() - (n + 1)) =~= messages.skip(messages.len() - n).push(m));
        assert(messages.skip(0) =~= messages);
    }
}

/// An agent has every tool where none are named, and otherwise exactly those that are.
pub proof fn law_tools_allowed(w: Seq<Seq<char>>, name: Seq<char>, i: int)
    ensures
        tool_allowed(None, name),
        0 <= i < w.len() ==> tool_allowed(Some(w), w[i]),
        tool_allowed(Some(w), name) ==> exists|k: int| 0 <= k < w.len() && #[trigger] w[k] == name,
{
}

/// What an agent wrote is its answer unless it is blank, it was cancelled or it failed; then the answer is an error
/// that says which.
pub proof fn law_agent_ends(o: OutcomeView, text: Seq<char>, e: Seq<char>)
    ensures
        !(o is Cancelled) && !is_blank(text) ==> task_end(Ok(o), text) == Ok::<Seq<char>, Seq<char>>(text),
        !(o is Cancelled) && is_blank(text) ==> task_end(Ok(o), text) == Err::<Seq<char>, Seq<char>>(
            "sub-agent produced no output"@,
        ),
        o is Cancelled ==> task_end(Ok(o), text) == Err::<Seq<char>, Seq<char>>("sub-agent cancelled"@),
        task_end(Err(e), text) == Err::<Seq<char>, Seq<char>>("sub-agent error: "@ + e),
{
}

/// One agent's answer is handed on as it is. The answers of several are put together in the order of their prompts,
/// whatever the order in which they came, each under a line with its number, and fail together where one failed.
pub proof fn law_answers_combined(
    s: Seq<(usize, Result<Seq<char>, Seq<char>>)>,
    x: (usize, Result<Seq<char>, Seq<char>>),
    t: Seq<char>,
    n: usize,
)
    ensures
        call_answer(seq![(n, Ok(t))]) == (true, t),
        call_answer(seq![(n, Err(t))]) == (false, t),
        s.len() != 1 ==> call_answer(s).1 == combined(by_place(s)),
        s.len() != 1 ==> (call_answer(s).0 <==> forall|i: int| 0 <= i < s.len() ==> (#[trigger] s[i]).1 is Ok),
        s.len() > 0 ==> combined(s.push(x)) == combined(s) + "\n\n"@ + combined(seq![x]),
        combined(Seq::empty()).len() == 0,
        combined(seq![(n, Ok(t))]) == "--- subagent "@ + dec((n + 1) as nat) + " ---\n"@ + t,
        combined(seq![(n, Err(t))]) == "--- subagent "@ + dec((n + 1) as nat) + " ---\n"@ + ("ERROR: "@ + t),
{
    assert(s.push(x).drop_last() =~= s);
    let a = seq![(n, Ok::<Seq<char>, Seq<char>>(t))];
    assert(a[0].1 == Ok::<Seq<char>, Seq<char>>(t));
    let b = seq![(n, Err::<Seq<char>, Seq<char>>(t))];
    assert(b[0].1 == Err::<Seq<char>, Seq<char>>(t));
    assert(seq![x][0] == x);
    if s.len() != 1 {
        assert(any_failed(s) <==> exists|i: int| 0 <= i < s.len() && (#[trigger] s[i]).1 is Err);
    }
}

/// The answers are put in the order of their prompts: none is lost or made up, and none stands before one of an
/// earlier prompt.
pub proof fn law_answers_sorted(s: Seq<(usize, Result<Seq<char>, Seq<char>>)>)
    ensures
        by_place(s).to_multiset() == s.to_multiset(),
        forall|i: int, j: int|
            0 <= i < j < by_place(s).len() ==> (#[trigger] by_place(s)[i]).0 <= (#[trigger] by_place(s)[j]).0,
    decreases s.len(),
{
    broadcast use vstd::seq_lib::group_to_multiset_ensures;

    if s.len() == 0 {
        assert(s =~= Seq::empty());
    } else {
        let done = by_place(s.drop_last());
        law_answers_sorted(s.drop_last());
        lemma_slot(done, s.last().0, 0);
        let k = place_slot(done, s.last().0, 0);
        let r = done.insert(k, s.last());
        assert(s =~= s.drop_last().push(s.last()));
        vstd::seq_lib::to_multiset_insert(done, k, s.last());
        assert forall|i: int, j: int| 0 <= i < j < r.len() implies (#[trigger] r[i]).0 <= (
        #[trigger] r[j]).0 by {
            let a = if i < k { i } else { i - 1 };
            let b = if j < k { j } else { j - 1 };
            if i != k {
                assert(r[i] == done[a]);
            }
            if j != k {
                assert(r[j] == done[b]);
            }
            if i == k && k < done.len() {
                assert(done[k].0 <= done[b].0);
            }
        }
    }
}

proof fn lemma_slot(s: Seq<(usize, Result<Seq<char>, Seq<char>>)>, n: usize, i: int)
    requires
        0 <= i <= s.len(),
        forall|a: int, b: int| 0 <= a < b < s.len() ==> (#[trigger] s[a]).0 <= (#[trigger] s[b]).0,
    ensures
        i <= place_slot(s, n, i) <= s.len(),
        forall|k: int| i <= k < place_slot(s, n, i) ==> (#[trigger] s[k]).0 <= n,
        place_slot(s, n, i) < s.len() ==> s[place_slot(s, n, i)].0 > n,
    decreases s.len() - i,
{
    if i < s.len() && s[i].0 <= n {
        lemma_slot(s, n, i + 1);
    }
}

/// What the agent writes is gathered until it ends, and the last text that ended is kept.
pub proof fn law_text_gathered(s: SinkView, t: Seq<char>, ev: UiView)
    ensures
        collected(s, UiView::AssistantTextDelta(t)).buf == s.buf + t,
        collected(s, UiView::AssistantTextDelta(t)).last == s.last,
        s.buf.len() > 0 ==> collected(s, UiView::AssistantTextEnd).last == s.buf && collected(
            s,
            UiView::AssistantTextEnd,
        ).buf.len() == 0,
        s.buf.len() == 0 ==> collected(s, UiView::AssistantTextEnd) == s,
        !(ev is AssistantTextDelta) && !(ev is AssistantTextEnd) ==> collected(s, ev) == s,
{
}

} // verus!
