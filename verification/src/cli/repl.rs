//! The interactive mode: what a line that the user enters asks for, and what the built-in commands do.

use super::report::{label_of, session_label};
use super::select::{find_session, selected};
use crate::agent::checkpoint::{Checkpoint, CheckpointView};
use crate::agent::thread::{recorded, Thread, ThreadView};
use crate::agent::ui::{replay_from_messages, replay_views, replayed, ui_views, ui_views_push, UiEvent, UiView};
use crate::commands::registry::{
    builtin_descriptions, builtin_names, builtins, command_views, is_builtin, Builtin, CommandView,
    SlashCommand,
};
use crate::config::settings::{Config, McpServerConfig, ModelEntry, ProviderConfig};
use crate::error::{error_text, CarterError};
use crate::mcp::manager::{in_order, server_names, sorted_names, start_order};
use crate::number::{dec, parse_dec, parse_u64_upto, push_dec};
use crate::provider::event::Usage;
use crate::provider::request::{message_views, Message, MessageView};
use crate::session::record::{KindView, MetaView, RecordKind, SessionMeta};
use crate::session::store::{entry_list, EntryView, SessionEntry};
use crate::skills::skill::{skill_views, SkillMeta, SkillMetaView};
use crate::split::{
    is_space, join, join_strings, space, space_from, trim, trim_start, trim_start_chars, trim_str,
};
use crate::table::{entry, find_entry};
use crate::text::{chars_of, str_eq, string_of, texts, texts_push};
use vstd::prelude::*;
use vstd::slice::slice_subrange;

verus! {

// ---------------------------------------------------------------------------------------------
// Lines
// ---------------------------------------------------------------------------------------------

/// The name and the arguments of a command; none of a line that does not begin with a slash.
pub open spec fn slash_parts(line: Seq<char>) -> Option<(Seq<char>, Seq<char>)> {
    let t = trim_start(line);
    if t.len() == 0 || t[0] != '/' {
        None
    } else {
        let rest = t.skip(1);
        let k = space_from(rest, 0);
        if k >= rest.len() {
            Some((rest, Seq::empty()))
        } else {
            Some((rest.take(k), rest.skip(k + 1)))
        }
    }
}

/// The name and the arguments of a command.
pub fn split_slash(line: &str) -> (r: Option<(String, String)>)
    ensures
        match r {
            Some((n, a)) => slash_parts(line@) == Some((n@, a@)),
            None => slash_parts(line@) is None,
        },
{
    let all = chars_of(line);
    let t = trim_start_chars(all.as_slice());
    let n: usize = t.len();
    if n == 0 || t[0] != '/' {
        return None;
    }
    let rest = slice_subrange(t, 1, n);
    assert(rest@ =~= t@.skip(1));
    let m: usize = rest.len();
    let mut k: usize = 0;
    while k < m && !space(rest[k])
        invariant
            k <= m,
            m == rest@.len(),
            space_from(rest@, 0) == space_from(rest@, k as int),
        decreases m - k,
    {
        k += 1;
    }
    if k >= m {
        let none = String::new();
        assert(none@ =~= Seq::<char>::empty());
        return Some((string_of(rest), none));
    }
    let name = slice_subrange(rest, 0, k);
    let args = slice_subrange(rest, k + 1, m);
    assert(name@ =~= rest@.take(k as int));
    assert(args@ =~= rest@.skip(k + 1));
    Some((string_of(name), string_of(args)))
}

/// The first command at or after `i` with that name, or the number of commands.
pub open spec fn command_from(cs: Seq<CommandView>, name: Seq<char>, i: int) -> int
    decreases cs.len() - i,
{
    if i < 0 || i >= cs.len() {
        cs.len() as int
    } else if cs[i].name == name {
        i
    } else {
        command_from(cs, name, i + 1)
    }
}

/// What a line asks for.
#[derive(Debug)]
pub enum LineAction {
    /// Put the line to the model.
    Prompt,
    /// Put to the model what this command of the user's expands to.
    Custom { index: usize, args: String },
    /// Do what this built-in command says.
    Builtin { name: String, args: String },
    /// Say that the command is not known, and put the line to the model.
    Unknown { notice: UiEvent },
}

/// `a` is what a line asks for, where these commands are defined. A command of the user's comes before a
/// built-in one.
pub open spec fn asked_by(a: LineAction, line: Seq<char>, custom: Seq<CommandView>) -> bool {
    match slash_parts(line) {
        None => a is Prompt,
        Some((name, args)) => {
            let k = command_from(custom, name, 0);
            if k < custom.len() {
                a matches LineAction::Custom { index, args: x } && index == k && x@ == args
            } else if builtin_names().contains(name) {
                a matches LineAction::Builtin { name: n, args: x } && n@ == name && x@ == args
            } else {
                a matches LineAction::Unknown { notice } && notice@ == UiView::Notice(
                    "未知命令 /"@ + name + "，按普通输入处理"@,
                )
            }
        },
    }
}

/// What a line asks for.
pub fn line_action(line: &str, custom: &Vec<SlashCommand>) -> (r: LineAction)
    ensures
        asked_by(r, line@, command_views(custom@)),
{
    let (name, args) = match split_slash(line) {
        Some(x) => x,
        None => {
            return LineAction::Prompt;
        },
    };
    let ghost cv = command_views(custom@);
    assert(cv.len() == custom@.len());
    let mut i: usize = 0;
    while i < custom.len()
        invariant
            i <= custom@.len(),
            cv == command_views(custom@),
            cv.len() == custom@.len(),
            slash_parts(line@) == Some((name@, args@)),
            command_from(cv, name@, 0) == command_from(cv, name@, i as int),
        decreases custom@.len() - i,
    {
        assert(cv[i as int] == custom@[i as int]@);
        if str_eq(custom[i].name.as_str(), name.as_str()) {
            return LineAction::Custom { index: i, args };
        }
        i += 1;
    }
    if is_builtin(name.as_str()) {
        return LineAction::Builtin { name, args };
    }
    let mut s = "未知命令 /".to_owned();
    s.append(name.as_str());
    s.append("，按普通输入处理");
    LineAction::Unknown { notice: UiEvent::Notice(s) }
}

// ---------------------------------------------------------------------------------------------
// The beginning of a session, and changing to another
// ---------------------------------------------------------------------------------------------

/// What is shown of the history of a session that is taken up: nothing where it has none.
pub open spec fn history_events(verb: Seq<char>, m: MetaView, history: Seq<MessageView>) -> Seq<UiView> {
    seq![
        UiView::Divider(verb + label_of(m)),
        UiView::ReplayHistory(replayed(history)),
        UiView::Divider("以上为历史上下文"@),
    ]
}

/// What is shown when the interactive mode begins: the model, the title of a session that has one, and
/// the history of one that is taken up.
pub open spec fn opening(model_key: Seq<char>, m: MetaView, history: Seq<MessageView>) -> Seq<UiView> {
    let a = seq![UiView::ModelChanged(model_key)];
    let b = match m.title {
        Some(t) => a.push(UiView::Title(t)),
        None => a,
    };
    if history.len() > 0 {
        b + history_events("恢复会话 "@, m, history)
    } else {
        b
    }
}

fn divider_for(verb: &str, m: &SessionMeta) -> (r: UiEvent)
    ensures
        r@ == UiView::Divider(verb@ + label_of(m@)),
{
    UiEvent::Divider(verb.to_owned().concat(session_label(m).as_str()))
}

/// What is shown when the interactive mode begins.
pub fn opening_events(model_key: &str, meta: &SessionMeta, messages: &Vec<Message>) -> (r: Vec<UiEvent>)
    ensures
        ui_views(r@) == opening(model_key@, meta@, message_views(messages@)),
{
    broadcast use ui_views_push;

    let mut out: Vec<UiEvent> = Vec::new();
    out.push(UiEvent::ModelChanged(model_key.to_owned()));
    assert(ui_views(out@) =~= seq![UiView::ModelChanged(model_key@)]);
    match &meta.title {
        Some(t) => {
            out.push(UiEvent::Title(t.clone()));
        },
        None => {},
    }
    assert(message_views(messages@).len() == messages@.len());
    if messages.len() > 0 {
        let ghost before = ui_views(out@);
        out.push(divider_for("恢复会话 ", meta));
        out.push(UiEvent::ReplayHistory(replay_from_messages(messages)));
        out.push(UiEvent::Divider("以上为历史上下文".to_owned()));
        assert(ui_views(out@) =~= before + history_events(
            "恢复会话 "@,
            meta@,
            message_views(messages@),
        ));
    }
    out
}

/// What is shown when another session is taken up.
pub open spec fn swapped(verb: Seq<char>, m: MetaView, history: Seq<MessageView>) -> Seq<UiView> {
    let head = match m.title {
        Some(t) => seq![UiView::Title(t)],
        None => Seq::empty(),
    };
    let shown = head.push(UiView::Divider(verb + " "@ + label_of(m)));
    if replayed(history).len() > 0 {
        shown.push(UiView::ReplayHistory(replayed(history))).push(
            UiView::Divider("以上为历史上下文"@),
        )
    } else {
        shown
    }
}

/// Changes to another session: the conversation is the new one, and it needs a title unless it has one.
pub fn swap_thread(
    thread: &mut Thread,
    needs_title: &mut bool,
    new_thread: Thread,
    meta: &SessionMeta,
    verb: &str,
) -> (r: Vec<UiEvent>)
    ensures
        *final(thread) == new_thread,
        *final(needs_title) == (meta.title is None),
        ui_views(r@) == swapped(verb@, meta@, new_thread@.messages),
{
    broadcast use ui_views_push;

    let history = replay_from_messages(&new_thread.messages);
    let ghost hv = replay_views(history@);
    assert(hv.len() == history@.len());
    *thread = new_thread;
    let mut out: Vec<UiEvent> = Vec::new();
    assert(ui_views(out@) =~= Seq::<UiView>::empty());
    match &meta.title {
        Some(t) => {
            out.push(UiEvent::Title(t.clone()));
            assert(ui_views(out@) =~= seq![UiView::Title(t@)]);
            *needs_title = false;
        },
        None => {
            *needs_title = true;
        },
    }
    let mut label = verb.to_owned();
    label.append(" ");
    label.append(session_label(meta).as_str());
    out.push(UiEvent::Divider(label));
    if history.len() > 0 {
        out.push(UiEvent::ReplayHistory(history));
        out.push(UiEvent::Divider("以上为历史上下文".to_owned()));
    }
    out
}

/// Takes up the title of a session: a title that says something is recorded and shown.
pub fn take_title(thread: &mut Thread, title: Option<String>, ts: u64) -> (r: Vec<UiEvent>)
    ensures
        match title {
            Some(t) => if t@.len() > 0 {
                &&& ui_views(r@) == seq![UiView::Title(t@)]
                &&& final(thread)@ == (ThreadView {
                    recorder: recorded(old(thread)@.recorder, ts, KindView::Title(t@)),
                    ..old(thread)@
                })
            } else {
                r@.len() == 0 && final(thread)@ == old(thread)@
            },
            None => r@.len() == 0 && final(thread)@ == old(thread)@,
        },
{
    broadcast use ui_views_push;

    let mut out: Vec<UiEvent> = Vec::new();
    match title {
        Some(t) => {
            if !t.as_str().is_empty() {
                thread.note(RecordKind::Title { title: t.clone() }, ts);
                out.push(UiEvent::Title(t));
                assert(ui_views(out@) =~= seq![UiView::Title(t@)]);
            }
        },
        None => {},
    }
    out
}

// ---------------------------------------------------------------------------------------------
// The built-in commands
// ---------------------------------------------------------------------------------------------

/// What a built-in command asks for.
#[derive(Debug)]
pub enum BuiltinStep {
    /// Show this; there is nothing else to do.
    Show(UiEvent),
    /// Forget the conversation.
    Clear,
    /// Begin a session.
    StartNew,
    /// Take up the session at this place of the list.
    Load(usize),
    /// Branch off the session at this place of the list.
    Fork(usize),
    /// Branch off the session in this file.
    ForkCurrent(String),
    /// Use another model.
    SwitchModel(String),
    /// Compact the conversation.
    Compact,
    /// Show how full the context is.
    Context,
    /// Show what the session has cost.
    Cost,
    /// Go back to before this checkpoint.
    Rewind(usize),
}

/// What a step holds.
pub enum StepView {
    Show(UiView),
    Clear,
    StartNew,
    Load(int),
    Fork(int),
    ForkCurrent(Seq<char>),
    SwitchModel(Seq<char>),
    Compact,
    Context,
    Cost,
    Rewind(nat),
}

impl View for BuiltinStep {
    type V = StepView;

    open spec fn view(&self) -> StepView {
        match *self {
            BuiltinStep::Show(e) => StepView::Show(e@),
            BuiltinStep::Clear => StepView::Clear,
            BuiltinStep::StartNew => StepView::StartNew,
            BuiltinStep::Load(i) => StepView::Load(i as int),
            BuiltinStep::Fork(i) => StepView::Fork(i as int),
            BuiltinStep::ForkCurrent(p) => StepView::ForkCurrent(p@),
            BuiltinStep::SwitchModel(m) => StepView::SwitchModel(m@),
            BuiltinStep::Compact => StepView::Compact,
            BuiltinStep::Context => StepView::Context,
            BuiltinStep::Cost => StepView::Cost,
            BuiltinStep::Rewind(i) => StepView::Rewind(i as nat),
        }
    }
}

/// A command in the list of commands.
pub open spec fn help_line(name: Seq<char>, description: Seq<char>) -> Seq<char> {
    "\n  /"@ + name + " — "@ + description
}

/// The built-in commands in the list of commands.
pub open spec fn builtin_lines(names: Seq<Seq<char>>, descriptions: Seq<Seq<char>>) -> Seq<char>
    decreases names.len(),
{
    if names.len() == 0 {
        Seq::empty()
    } else {
        builtin_lines(names.drop_last(), descriptions.drop_last()) + help_line(
            names.last(),
            descriptions.last(),
        )
    }
}

/// The commands of the user's in the list of commands.
pub open spec fn custom_lines(cs: Seq<CommandView>) -> Seq<char>
    decreases cs.len(),
{
    if cs.len() == 0 {
        Seq::empty()
    } else {
        custom_lines(cs.drop_last()) + help_line(
            cs.last().name,
            match cs.last().description {
                Some(d) => d,
                None => "自定义命令"@,
            },
        )
    }
}

/// The list of commands.
pub open spec fn help_of(cs: Seq<CommandView>) -> Seq<char> {
    "可用命令："@ + builtin_lines(builtin_names(), builtin_descriptions()) + custom_lines(cs)
}

fn builtin_help() -> (r: String)
    ensures
        r@ == builtin_lines(builtin_names(), builtin_descriptions()),
{
    let all = builtins();
    let ghost ns = all@.map_values(|b: Builtin| b.name@);
    let ghost ds = all@.map_values(|b: Builtin| b.description@);
    let mut out = String::new();
    let mut i: usize = 0;
    assert(ns.take(0) =~= Seq::<Seq<char>>::empty());
    assert(out@ =~= Seq::<char>::empty());
    while i < all.len()
        invariant
            i <= all@.len(),
            ns == all@.map_values(|b: Builtin| b.name@),
            ds == all@.map_values(|b: Builtin| b.description@),
            out@ == builtin_lines(ns.take(i as int), ds.take(i as int)),
        decreases all@.len() - i,
    {
        assert(ns.take(i + 1).drop_last() =~= ns.take(i as int));
        assert(ds.take(i + 1).drop_last() =~= ds.take(i as int));
        assert(ns.take(i + 1).last() == all@[i as int].name@);
        assert(ds.take(i + 1).last() == all@[i as int].description@);
        let mut line = "\n  /".to_owned();
        line.append(all[i].name);
        line.append(" — ");
        line.append(all[i].description);
        out.append(line.as_str());
        i += 1;
    }
    assert(ns.take(i as int) =~= ns);
    assert(ds.take(i as int) =~= ds);
    out
}

/// The list of commands.
pub fn help_text(custom: &Vec<SlashCommand>) -> (r: String)
    ensures
        r@ == help_of(command_views(custom@)),
{
    let ghost cv = command_views(custom@);
    let mut tail = String::new();
    let mut i: usize = 0;
    assert(cv.take(0) =~= Seq::<CommandView>::empty());
    assert(tail@ =~= Seq::<char>::empty());
    while i < custom.len()
        invariant
            i <= custom@.len(),
            cv == command_views(custom@),
            tail@ == custom_lines(cv.take(i as int)),
        decreases custom@.len() - i,
    {
        let c = &custom[i];
        assert(cv.take(i + 1).drop_last() =~= cv.take(i as int));
        assert(cv.take(i + 1).last() == c@);
        let mut line = "\n  /".to_owned();
        line.append(c.name.as_str());
        line.append(" — ");
        match &c.description {
            Some(d) => line.append(d.as_str()),
            None => line.append("自定义命令"),
        }
        tail.append(line.as_str());
        i += 1;
    }
    assert(cv.take(i as int) =~= cv);
    let mut out = "可用命令：".to_owned();
    out.append(builtin_help().as_str());
    out.append(tail.as_str());
    out
}

/// The names of providers.
pub open spec fn provider_names(v: Seq<(String, ProviderConfig)>) -> Seq<Seq<char>> {
    v.map_values(|p: (String, ProviderConfig)| p.0@)
}

/// The names of models.
pub open spec fn model_names(v: Seq<(String, ModelEntry)>) -> Seq<Seq<char>> {
    v.map_values(|m: (String, ModelEntry)| m.0@)
}

/// The names of providers in order.
pub fn sorted_providers(v: &Vec<(String, ProviderConfig)>) -> (r: Vec<String>)
    ensures
        texts(r@) == in_order(provider_names(v@)),
{
    let ghost pv = provider_names(v@);
    let mut names: Vec<String> = Vec::new();
    let mut i: usize = 0;
    assert(texts(names@) =~= pv.take(0));
    while i < v.len()
        invariant
            i <= v@.len(),
            pv == provider_names(v@),
            texts(names@) == pv.take(i as int),
        decreases v@.len() - i,
    {
        broadcast use texts_push;

        assert(pv.take(i + 1) =~= pv.take(i as int).push(v@[i as int].0@));
        names.push(v[i].0.clone());
        i += 1;
    }
    assert(pv.take(i as int) =~= pv);
    sorted_names(&names)
}

/// The names of models in order.
pub fn sorted_models(v: &Vec<(String, ModelEntry)>) -> (r: Vec<String>)
    ensures
        texts(r@) == in_order(model_names(v@)),
{
    let ghost mv = model_names(v@);
    let mut names: Vec<String> = Vec::new();
    let mut i: usize = 0;
    assert(texts(names@) =~= mv.take(0));
    while i < v.len()
        invariant
            i <= v@.len(),
            mv == model_names(v@),
            texts(names@) == mv.take(i as int),
        decreases v@.len() - i,
    {
        broadcast use texts_push;

        assert(mv.take(i + 1) =~= mv.take(i as int).push(v@[i as int].0@));
        names.push(v[i].0.clone());
        i += 1;
    }
    assert(mv.take(i as int) =~= mv);
    sorted_names(&names)
}

/// A provider in the list of models.
pub open spec fn provider_line(name: Seq<char>, p: ProviderConfig) -> Seq<char> {
    "\n  "@ + name + " ["@ + p.kind@ + "]: "@ + join(in_order(model_names(p.models@)), ", "@)
}

/// Providers in the list of models.
pub open spec fn provider_lines(names: Seq<Seq<char>>, v: Seq<(String, ProviderConfig)>) -> Seq<char>
    decreases names.len(),
{
    if names.len() == 0 {
        Seq::empty()
    } else {
        provider_lines(names.drop_last(), v) + match entry(v, names.last()) {
            Some(p) => provider_line(names.last(), p),
            None => Seq::empty(),
        }
    }
}

/// The list of models: the one in use, and those of each provider.
pub open spec fn models_of(model_key: Seq<char>, v: Seq<(String, ProviderConfig)>) -> Seq<char> {
    "当前模型："@ + model_key + "\n用法：/model <provider/model>\n可用："@ + if v.len() == 0 {
        "\n  （未配置 provider，见 [providers.*]）"@
    } else {
        provider_lines(in_order(provider_names(v)), v)
    }
}

/// The list of models.
pub fn models_text(model_key: &str, v: &Vec<(String, ProviderConfig)>) -> (r: String)
    ensures
        r@ == models_of(model_key@, v@),
{
    let mut out = "当前模型：".to_owned();
    out.append(model_key);
    out.append("\n用法：/model <provider/model>\n可用：");
    if v.len() == 0 {
        out.append("\n  （未配置 provider，见 [providers.*]）");
        return out;
    }
    let names = sorted_providers(v);
    let ghost nv = texts(names@);
    let mut tail = String::new();
    let mut i: usize = 0;
    assert(nv.take(0) =~= Seq::<Seq<char>>::empty());
    assert(tail@ =~= Seq::<char>::empty());
    while i < names.len()
        invariant
            i <= names@.len(),
            nv == texts(names@),
            tail@ == provider_lines(nv.take(i as int), v@),
        decreases names@.len() - i,
    {
        let name = &names[i];
        assert(nv.take(i + 1).drop_last() =~= nv.take(i as int));
        assert(nv.take(i + 1).last() == name@);
        let ghost before = tail@;
        match find_entry(v, name.as_str()) {
            Some(p) => {
                let ms = sorted_models(&p.models);
                let mut line = "\n  ".to_owned();
                line.append(name.as_str());
                line.append(" [");
                line.append(p.kind.as_str());
                line.append("]: ");
                line.append(join_strings(&ms, ", ").as_str());
                tail.append(line.as_str());
            },
            None => {
                assert(before + Seq::<char>::empty() =~= before);
            },
        }
        i += 1;
    }
    assert(nv.take(i as int) =~= nv);
    out.append(tail.as_str());
    out
}

/// The labels of checkpoints, numbered from 1.
pub open spec fn checkpoint_lines(cps: Seq<CheckpointView>) -> Seq<char>
    decreases cps.len(),
{
    if cps.len() == 0 {
        Seq::empty()
    } else {
        checkpoint_lines(cps.drop_last()) + "\n  "@ + dec(cps.len()) + ". "@ + cps.last().label
    }
}

/// The list of checkpoints.
pub open spec fn checkpoints_of(cps: Seq<CheckpointView>) -> Seq<char> {
    "文件检查点（"@ + dec(cps.len()) + "）· /rewind <序号> 回滚到该点之前："@ + checkpoint_lines(cps)
}

/// The list of checkpoints.
pub fn checkpoints_text(thread: &Thread) -> (r: String)
    ensures
        r@ == checkpoints_of(thread@.checkpoints),
{
    let list = thread.checkpoints.list();
    let ghost cv = thread@.checkpoints;
    assert(cv.len() == list@.len());
    let mut tail = String::new();
    let mut i: usize = 0;
    assert(cv.take(0) =~= Seq::<CheckpointView>::empty());
    assert(tail@ =~= Seq::<char>::empty());
    while i < list.len()
        invariant
            i <= list@.len(),
            cv == list@.map_values(|c: Checkpoint| c@),
            cv.len() == list@.len(),
            tail@ == checkpoint_lines(cv.take(i as int)),
        decreases list@.len() - i,
    {
        assert(cv.take(i + 1).drop_last() =~= cv.take(i as int));
        assert(cv.take(i + 1).last() == list@[i as int]@);
        tail.append("\n  ");
        push_dec(&mut tail, i as u64 + 1);
        tail.append(". ");
        tail.append(list[i].label.as_str());
        i += 1;
    }
    assert(cv.take(i as int) =~= cv);
    let mut out = "文件检查点（".to_owned();
    push_dec(&mut out, list.len() as u64);
    out.append("）· /rewind <序号> 回滚到该点之前：");
    out.append(tail.as_str());
    out
}

/// Skills, each with what it is for.
pub open spec fn skill_lines(ms: Seq<SkillMetaView>) -> Seq<char>
    decreases ms.len(),
{
    if ms.len() == 0 {
        Seq::empty()
    } else {
        skill_lines(ms.drop_last()) + "\n  "@ + ms.last().name + " — "@ + ms.last().description
    }
}

/// The list of skills.
pub open spec fn skills_of(ms: Seq<SkillMetaView>) -> Seq<char> {
    if ms.len() == 0 {
        "无可用 skills（放在 ~/.carter/skills/<name>/SKILL.md）"@
    } else {
        "可用 skills（"@ + dec(ms.len()) + "）："@ + skill_lines(ms)
    }
}

/// The list of skills.
pub fn skills_text(skills: &Vec<SkillMeta>) -> (r: String)
    ensures
        r@ == skills_of(skill_views(skills@)),
{
    let ghost sv = skill_views(skills@);
    assert(sv.len() == skills@.len());
    if skills.len() == 0 {
        return "无可用 skills（放在 ~/.carter/skills/<name>/SKILL.md）".to_owned();
    }
    let mut tail = String::new();
    let mut i: usize = 0;
    assert(sv.take(0) =~= Seq::<SkillMetaView>::empty());
    assert(tail@ =~= Seq::<char>::empty());
    while i < skills.len()
        invariant
            i <= skills@.len(),
            sv == skill_views(skills@),
            tail@ == skill_lines(sv.take(i as int)),
        decreases skills@.len() - i,
    {
        assert(sv.take(i + 1).drop_last() =~= sv.take(i as int));
        assert(sv.take(i + 1).last() == skills@[i as int]@);
        tail.append("\n  ");
        tail.append(skills[i].name.as_str());
        tail.append(" — ");
        tail.append(skills[i].description.as_str());
        i += 1;
    }
    assert(sv.take(i as int) =~= sv);
    let mut out = "可用 skills（".to_owned();
    push_dec(&mut out, skills.len() as u64);
    out.append("）：");
    out.append(tail.as_str());
    out
}

/// Where a server is reached: its command, or its address.
pub open spec fn endpoint_of(s: McpServerConfig) -> Seq<char> {
    match s.command {
        Some(c) => c@,
        None => match s.url {
            Some(u) => u@,
            None => Seq::empty(),
        },
    }
}

/// Servers, each with how it is reached.
pub open spec fn server_lines(names: Seq<Seq<char>>, v: Seq<(String, McpServerConfig)>) -> Seq<char>
    decreases names.len(),
{
    if names.len() == 0 {
        Seq::empty()
    } else {
        server_lines(names.drop_last(), v) + match entry(v, names.last()) {
            Some(s) => "\n  "@ + names.last() + " ["@ + s.transport@ + "] "@ + endpoint_of(s),
            None => Seq::empty(),
        }
    }
}

/// The list of servers.
pub open spec fn servers_of(v: Seq<(String, McpServerConfig)>, tools: nat) -> Seq<char> {
    if v.len() == 0 {
        "未配置 MCP server（[mcp.servers.*]）"@
    } else {
        "MCP servers（"@ + dec(v.len()) + "）· 已加载 "@ + dec(tools) + " 个工具："@ + server_lines(
            in_order(server_names(v)),
            v,
        )
    }
}

/// The list of servers.
pub fn servers_text(v: &Vec<(String, McpServerConfig)>, tools: usize) -> (r: String)
    ensures
        r@ == servers_of(v@, tools as nat),
{
    if v.len() == 0 {
        return "未配置 MCP server（[mcp.servers.*]）".to_owned();
    }
    let names = start_order(v);
    let ghost nv = texts(names@);
    let mut tail = String::new();
    let mut i: usize = 0;
    assert(nv.take(0) =~= Seq::<Seq<char>>::empty());
    assert(tail@ =~= Seq::<char>::empty());
    while i < names.len()
        invariant
            i <= names@.len(),
            nv == texts(names@),
            tail@ == server_lines(nv.take(i as int), v@),
        decreases names@.len() - i,
    {
        let name = &names[i];
        assert(nv.take(i + 1).drop_last() =~= nv.take(i as int));
        assert(nv.take(i + 1).last() == name@);
        let ghost before = tail@;
        match find_entry(v, name.as_str()) {
            Some(s) => {
                let mut line = "\n  ".to_owned();
                line.append(name.as_str());
                line.append(" [");
                line.append(s.transport.as_str());
                line.append("] ");
                let ghost so_far = line@;
                match &s.command {
                    Some(c) => line.append(c.as_str()),
                    None => match &s.url {
                        Some(u) => line.append(u.as_str()),
                        None => {
                            assert(so_far + Seq::<char>::empty() =~= so_far);
                        },
                    },
                }
                tail.append(line.as_str());
            },
            None => {
                assert(before + Seq::<char>::empty() =~= before);
            },
        }
        i += 1;
    }
    assert(nv.take(i as int) =~= nv);
    let mut out = "MCP servers（".to_owned();
    push_dec(&mut out, v.len() as u64);
    out.append("）· 已加载 ");
    push_dec(&mut out, tools as u64);
    out.append(" 个工具：");
    out.append(tail.as_str());
    out
}

/// The file in which a conversation is recorded.
pub open spec fn recorded_in(t: ThreadView) -> Option<Seq<char>> {
    match t.recorder {
        Some(r) => Some(r.path),
        None => None,
    }
}

/// A note.
pub open spec fn note(s: Seq<char>) -> StepView {
    StepView::Show(UiView::Notice(s))
}

/// What a built-in command asks for.
pub open spec fn builtin_step(
    name: Seq<char>,
    raw_args: Seq<char>,
    thread: ThreadView,
    sessions: Seq<EntryView>,
    model_key: Seq<char>,
    config: Config,
    custom: Seq<CommandView>,
    skills: Seq<SkillMetaView>,
    mcp_tools: nat,
) -> StepView {
    let args = trim(raw_args);
    if name == "help"@ {
        note(help_of(custom))
    } else if name == "clear"@ {
        StepView::Clear
    } else if name == "new"@ {
        StepView::StartNew
    } else if name == "resume"@ {
        if args.len() == 0 {
            note("用法：/resume <id|序号>（`/help` 外可先 `carter sessions` 查看）"@)
        } else {
            match selected(sessions, args) {
                Ok(i) => StepView::Load(i),
                Err(e) => note("恢复失败："@ + error_text(e)),
            }
        }
    } else if name == "fork"@ {
        if args.len() == 0 {
            match recorded_in(thread) {
                Some(p) => StepView::ForkCurrent(p),
                None => note("当前无可派生的会话"@),
            }
        } else {
            match selected(sessions, args) {
                Ok(i) => StepView::Fork(i),
                Err(_) => note("当前无可派生的会话"@),
            }
        }
    } else if name == "model"@ {
        if args.len() == 0 {
            note(models_of(model_key, config.providers@))
        } else {
            StepView::SwitchModel(args)
        }
    } else if name == "compact"@ {
        StepView::Compact
    } else if name == "context"@ {
        StepView::Context
    } else if name == "cost"@ {
        StepView::Cost
    } else if name == "rewind"@ {
        if thread.checkpoints.len() == 0 {
            note("无可回滚的文件检查点（本会话尚未改动文件）"@)
        } else if args.len() == 0 {
            note(checkpoints_of(thread.checkpoints))
        } else {
            match parse_dec(args, usize::MAX as nat) {
                Some(n) => StepView::Rewind(n),
                None => note("用法：/rewind 或 /rewind <序号>"@),
            }
        }
    } else if name == "skills"@ {
        note(skills_of(skills))
    } else if name == "mcp"@ {
        note(servers_of(config.mcp.servers@, mcp_tools))
    } else {
        note("/"@ + name + "：暂未实现"@)
    }
}

fn notice(s: String) -> (r: BuiltinStep)
    ensures
        r@ == note(s@),
{
    BuiltinStep::Show(UiEvent::Notice(s))
}

/// What a built-in command asks for.
pub fn dispatch_builtin(
    name: &str,
    raw_args: &str,
    thread: &Thread,
    sessions: &Vec<SessionEntry>,
    model_key: &str,
    config: &Config,
    custom: &Vec<SlashCommand>,
    skills: &Vec<SkillMeta>,
    mcp_tools: usize,
) -> (r: BuiltinStep)
    ensures
        r@ == builtin_step(
            name@,
            raw_args@,
            thread@,
            entry_list(sessions@),
            model_key@,
            *config,
            command_views(custom@),
            skill_views(skills@),
            mcp_tools as nat,
        ),
{
    let trimmed = trim_str(raw_args);
    let args = trimmed.as_str();
    if str_eq(name, "help") {
        notice(help_text(custom))
    } else if str_eq(name, "clear") {
        BuiltinStep::Clear
    } else if str_eq(name, "new") {
        BuiltinStep::StartNew
    } else if str_eq(name, "resume") {
        if args.is_empty() {
            return notice(
                "用法：/resume <id|序号>（`/help` 外可先 `carter sessions` 查看）".to_owned(),
            );
        }
        match find_session(sessions, args) {
            Ok(i) => BuiltinStep::Load(i),
            Err(e) => notice("恢复失败：".to_owned().concat(e.message().as_str())),
        }
    } else if str_eq(name, "fork") {
        if args.is_empty() {
            return match &thread.recorder {
                Some(rec) => BuiltinStep::ForkCurrent(rec.path().clone()),
                None => notice("当前无可派生的会话".to_owned()),
            };
        }
        match find_session(sessions, args) {
            Ok(i) => BuiltinStep::Fork(i),
            Err(_) => notice("当前无可派生的会话".to_owned()),
        }
    } else if str_eq(name, "model") {
        if args.is_empty() {
            return notice(models_text(model_key, &config.providers));
        }
        BuiltinStep::SwitchModel(args.to_owned())
    } else if str_eq(name, "compact") {
        BuiltinStep::Compact
    } else if str_eq(name, "context") {
        BuiltinStep::Context
    } else if str_eq(name, "cost") {
        BuiltinStep::Cost
    } else if str_eq(name, "rewind") {
        if thread.checkpoints.is_empty() {
            return notice("无可回滚的文件检查点（本会话尚未改动文件）".to_owned());
        }
        if args.is_empty() {
            return notice(checkpoints_text(thread));
        }
        match parse_u64_upto(args, usize::MAX as u64) {
            Some(n) => BuiltinStep::Rewind(n as usize),
            None => notice("用法：/rewind 或 /rewind <序号>".to_owned()),
        }
    } else if str_eq(name, "skills") {
        notice(skills_text(skills))
    } else if str_eq(name, "mcp") {
        notice(servers_text(&config.mcp.servers, mcp_tools))
    } else {
        let mut s = "/".to_owned();
        s.append(name);
        s.append("：暂未实现");
        notice(s)
    }
}

/// The conversation after it was forgotten: nothing of it is sent any more, and that is recorded.
pub open spec fn cleared(t: ThreadView, ts: u64) -> ThreadView {
    ThreadView {
        messages: Seq::empty(),
        todos: Seq::empty(),
        recorder: recorded(
            t.recorder,
            ts,
            KindView::Compacted { tier: "clear"@, messages: Seq::empty() },
        ),
        ..t
    }
}

/// Forgets the conversation. What was recorded stays.
pub fn clear_thread(thread: &mut Thread, ts: u64) -> (r: Vec<UiEvent>)
    ensures
        final(thread)@ == cleared(old(thread)@, ts),
        ui_views(r@) == seq![
            UiView::Notice("已清空上下文（磁盘原文保留，可 resume 审计）"@),
            UiView::Divider("上下文已清空 · 以下为新对话（之前内容不再发送给模型）"@),
        ],
{
    broadcast use ui_views_push;

    thread.messages = Vec::new();
    thread.todos = Vec::new();
    assert(message_views(thread.messages@) =~= Seq::<MessageView>::empty());
    assert(thread@.todos =~= Seq::empty());
    let none: Vec<Message> = Vec::new();
    assert(message_views(none@) =~= Seq::<MessageView>::empty());
    thread.note(RecordKind::Compacted { tier: "clear".to_owned(), messages: none }, ts);
    let mut out: Vec<UiEvent> = Vec::new();
    out.push(UiEvent::Notice("已清空上下文（磁盘原文保留，可 resume 审计）".to_owned()));
    out.push(
        UiEvent::Divider("上下文已清空 · 以下为新对话（之前内容不再发送给模型）".to_owned()),
    );
    assert(ui_views(out@) =~= seq![
        UiView::Notice("已清空上下文（磁盘原文保留，可 resume 审计）"@),
        UiView::Divider("上下文已清空 · 以下为新对话（之前内容不再发送给模型）"@),
    ]);
    out
}

/// Begins a session, or says why that was not possible.
pub fn start_new_done(
    thread: &mut Thread,
    needs_title: &mut bool,
    started: Result<Thread, CarterError>,
) -> (r: UiEvent)
    ensures
        match started {
            Ok(t) => *final(thread) == t && *final(needs_title) && r@ == UiView::Divider("新会话"@),
            Err(e) => *final(thread) == *old(thread) && *final(needs_title) == *old(needs_title) && r@
                == UiView::Notice("新建会话失败："@ + error_text(e@)),
        },
{
    match started {
        Ok(t) => {
            *thread = t;
            *needs_title = true;
            UiEvent::Divider("新会话".to_owned())
        },
        Err(e) => UiEvent::Notice("新建会话失败：".to_owned().concat(e.message().as_str())),
    }
}

/// What is shown when a session could not be taken up, or branched off.
pub fn load_failed(fork: bool, e: &CarterError) -> (r: UiEvent)
    ensures
        r@ == UiView::Notice(
            (if fork {
                "派生失败："@
            } else {
                "恢复失败："@
            }) + error_text(e@),
        ),
{
    let mut s = if fork {
        "派生失败：".to_owned()
    } else {
        "恢复失败：".to_owned()
    };
    s.append(e.message().as_str());
    UiEvent::Notice(s)
}

/// What is shown when another model is in use.
pub fn model_switched(key: &str) -> (r: Vec<UiEvent>)
    ensures
        ui_views(r@) == seq![
            UiView::ModelChanged(key@),
            UiView::Divider("已切换模型 "@ + key@ + "（子 agent 仍用旧模型）"@),
        ],
{
    broadcast use ui_views_push;

    let mut label = "已切换模型 ".to_owned();
    label.append(key);
    label.append("（子 agent 仍用旧模型）");
    let ghost lv = label@;
    let mut out: Vec<UiEvent> = Vec::new();
    out.push(UiEvent::ModelChanged(key.to_owned()));
    out.push(UiEvent::Divider(label));
    assert(ui_views(out@) =~= seq![UiView::ModelChanged(key@), UiView::Divider(lv)]);
    out
}

/// What is shown when another model cannot be used.
pub fn switch_failed(e: &CarterError) -> (r: UiEvent)
    ensures
        r@ == UiView::Notice("切换模型失败："@ + error_text(e@)),
{
    UiEvent::Notice("切换模型失败：".to_owned().concat(e.message().as_str()))
}

/// What is shown when the conversation was compacted, or could not be.
pub fn compact_done(failed: Option<CarterError>) -> (r: UiEvent)
    ensures
        r@ == match failed {
            None => UiView::Divider("上下文已压缩"@),
            Some(e) => UiView::Notice("压缩失败："@ + error_text(e@)),
        },
{
    match failed {
        None => UiEvent::Divider("上下文已压缩".to_owned()),
        Some(e) => UiEvent::Notice("压缩失败：".to_owned().concat(e.message().as_str())),
    }
}

/// How full the context is; `percent` is the share of the window, with one decimal.
pub fn context_notice(estimate: u64, window: u32, percent: &str, messages: usize) -> (r: UiEvent)
    ensures
        r@ == UiView::Notice(
            "上下文估算 ~"@ + dec(estimate as nat) + " tokens / "@ + dec(window as nat) + " 窗口（约 "@
                + percent@ + "%）· "@ + dec(messages as nat) + " 条消息"@,
        ),
{
    let mut s = "上下文估算 ~".to_owned();
    push_dec(&mut s, estimate);
    s.append(" tokens / ");
    push_dec(&mut s, window as u64);
    s.append(" 窗口（约 ");
    s.append(percent);
    s.append("%）· ");
    push_dec(&mut s, messages as u64);
    s.append(" 条消息");
    UiEvent::Notice(s)
}

/// What the session has used; `cost` is in dollars, with four decimals.
pub fn cost_notice(usage: &Usage, cost: &str) -> (r: UiEvent)
    ensures
        r@ == UiView::Notice(
            "本会话累计 in="@ + dec(usage.input as nat) + " out="@ + dec(usage.output as nat)
                + " | 约 $"@ + cost@,
        ),
{
    let mut s = "本会话累计 in=".to_owned();
    push_dec(&mut s, usage.input);
    s.append(" out=");
    push_dec(&mut s, usage.output);
    s.append(" | 约 $");
    s.append(cost);
    UiEvent::Notice(s)
}

/// What is shown after going back to before a checkpoint: how many files were restored, or why none.
pub fn rewound_event(index: usize, restored: Result<usize, String>) -> (r: UiEvent)
    ensures
        r@ == match restored {
            Ok(n) => UiView::Divider(
                "已回滚到检查点 "@ + dec(index as nat) + " 之前（恢复 "@ + dec(n as nat) + " 个文件）"@,
            ),
            Err(e) => UiView::Notice("回滚失败："@ + e@),
        },
{
    match restored {
        Ok(n) => {
            let mut s = "已回滚到检查点 ".to_owned();
            push_dec(&mut s, index as u64);
            s.append(" 之前（恢复 ");
            push_dec(&mut s, n as u64);
            s.append(" 个文件）");
            UiEvent::Divider(s)
        },
        Err(e) => UiEvent::Notice("回滚失败：".to_owned().concat(e.as_str())),
    }
}

// ---------------------------------------------------------------------------------------------
// Laws
// ---------------------------------------------------------------------------------------------

/// A line that is no command is put to the model as it is, whatever commands there are.
pub proof fn law_plain_lines_are_prompts(a: LineAction, line: Seq<char>, custom: Seq<CommandView>)
    requires
        asked_by(a, line, custom),
        trim_start(line).len() == 0 || trim_start(line)[0] != '/',
    ensures
        a is Prompt,
{
}

/// A command of the user's comes before the built-in one of the same name.
pub proof fn law_custom_shadows_builtin(
    a: LineAction,
    line: Seq<char>,
    custom: Seq<CommandView>,
    i: int,
)
    requires
        asked_by(a, line, custom),
        slash_parts(line) is Some,
        0 <= i < custom.len(),
        custom[i].name == (slash_parts(line)->0).0,
    ensures
        a is Custom,
{
    lemma_command_from(custom, custom[i].name, 0, i);
}

proof fn lemma_command_from(cs: Seq<CommandView>, name: Seq<char>, from: int, i: int)
    requires
        0 <= from <= i < cs.len(),
        cs[i].name == name,
    ensures
        from <= command_from(cs, name, from) <= i,
    decreases i - from,
{
    if cs[from].name != name {
        lemma_command_from(cs, name, from + 1, i);
    }
}

/// After the conversation was forgotten, reading the record back gives a conversation without messages:
/// the record that is written replaces everything before it.
pub proof fn law_clear_is_recorded(before: Seq<KindView>)
    ensures
        crate::session::store::folded(
            before.push(KindView::Compacted { tier: "clear"@, messages: Seq::empty() }),
        ).messages.len() == 0,
{
    let k = KindView::Compacted { tier: "clear"@, messages: Seq::<MessageView>::empty() };
    assert(before.push(k).drop_last() =~= before);
    assert(before.push(k).last() == k);
}

/// A line that begins with a slash names a command up to the first white space; what follows that is its
/// arguments.
pub proof fn law_line_taken_apart(name: Seq<char>, sp: char, args: Seq<char>)
    requires
        forall|i: int| 0 <= i < name.len() ==> !is_space(#[trigger] name[i]),
        is_space(sp),
    ensures
        slash_parts(seq!['/'] + name) == Some((name, Seq::<char>::empty())),
        slash_parts(seq!['/'] + name + seq![sp] + args) == Some((name, args)),
{
    let a = seq!['/'] + name;
    assert(a[0] == '/');
    assert(!is_space('/'));
    assert(trim_start(a) == a);
    assert(a.skip(1) =~= name);
    lemma_word_end(name, 0);
    let b = a + seq![sp] + args;
    assert(b[0] == '/');
    assert(trim_start(b) == b);
    let rest = b.skip(1);
    assert(rest =~= name + seq![sp] + args);
    assert(rest[name.len() as int] == sp);
    lemma_word_end_in(name, sp, args, 0);
    assert(rest.take(name.len() as int) =~= name);
    assert(rest.skip((name.len() + 1) as int) =~= args);
}

proof fn lemma_word_end(name: Seq<char>, i: int)
    requires
        0 <= i <= name.len(),
        forall|j: int| 0 <= j < name.len() ==> !is_space(#[trigger] name[j]),
    ensures
        space_from(name, i) == name.len(),
    decreases name.len() - i,
{
    if i < name.len() {
        lemma_word_end(name, i + 1);
    }
}

proof fn lemma_word_end_in(name: Seq<char>, sp: char, args: Seq<char>, i: int)
    requires
        0 <= i <= name.len(),
        is_space(sp),
        forall|j: int| 0 <= j < name.len() ==> !is_space(#[trigger] name[j]),
    ensures
        space_from(name + seq![sp] + args, i) == name.len(),
    decreases name.len() - i,
{
    let s = name + seq![sp] + args;
    if i < name.len() {
        assert(s[i] == name[i]);
        lemma_word_end_in(name, sp, args, i + 1);
    } else {
        assert(s[i] == sp);
    }
}

/// Of the user's commands with a name the first is meant, with the arguments that were typed; a name that no
/// command has, the user's or built in, is told to be unknown.
pub proof fn law_line_asks_for(a: LineAction, line: Seq<char>, custom: Seq<CommandView>, i: int)
    requires
        asked_by(a, line, custom),
        slash_parts(line) is Some,
    ensures
        ({
            let name = (slash_parts(line)->0).0;
            let args = (slash_parts(line)->0).1;
            &&& 0 <= i < custom.len() && custom[i].name == name && (forall|j: int|
                0 <= j < i ==> (#[trigger] custom[j]).name != name) ==> (a matches LineAction::Custom {
                index,
                args: x,
            } && index == i && x@ == args)
            &&& (forall|j: int| 0 <= j < custom.len() ==> (#[trigger] custom[j]).name != name) ==> {
                &&& builtin_names().contains(name) ==> (a matches LineAction::Builtin { name: n, args: x } && n@
                    == name && x@ == args)
                &&& !builtin_names().contains(name) ==> (a matches LineAction::Unknown { notice } && notice@
                    == UiView::Notice("未知命令 /"@ + name + "，按普通输入处理"@))
            }
        }),
{
    let name = (slash_parts(line)->0).0;
    lemma_first_command(custom, name, 0);
}

proof fn lemma_first_command(cs: Seq<CommandView>, name: Seq<char>, i: int)
    requires
        0 <= i <= cs.len(),
    ensures
        i <= command_from(cs, name, i) <= cs.len(),
        command_from(cs, name, i) < cs.len() ==> cs[command_from(cs, name, i)].name == name,
        forall|j: int| i <= j < command_from(cs, name, i) ==> (#[trigger] cs[j]).name != name,
    decreases cs.len() - i,
{
    if i < cs.len() && cs[i].name != name {
        lemma_first_command(cs, name, i + 1);
    }
}

/// What is shown when a session begins: the model, the title where there is one, and then the thread that is taken
/// up again, between two lines.
pub proof fn law_session_opens(key: Seq<char>, m: MetaView, t: Seq<char>, history: Seq<MessageView>)
    ensures
        m.title is None ==> opening(key, m, Seq::empty()) == seq![UiView::ModelChanged(key)],
        m.title == Some(t) ==> opening(key, m, Seq::empty()) == seq![
            UiView::ModelChanged(key),
            UiView::Title(t),
        ],
        m.title is None && history.len() > 0 ==> opening(key, m, history) == seq![
            UiView::ModelChanged(key),
            UiView::Divider("恢复会话 "@ + label_of(m)),
            UiView::ReplayHistory(replayed(history)),
            UiView::Divider("以上为历史上下文"@),
        ],
        m.title == Some(t) && history.len() > 0 ==> opening(key, m, history) == seq![
            UiView::ModelChanged(key),
            UiView::Title(t),
            UiView::Divider("恢复会话 "@ + label_of(m)),
            UiView::ReplayHistory(replayed(history)),
            UiView::Divider("以上为历史上下文"@),
        ],
{
}

/// What is shown when another session takes the place of the one before.
pub proof fn law_session_swapped(verb: Seq<char>, m: MetaView, t: Seq<char>, history: Seq<MessageView>)
    ensures
        m.title is None && replayed(history).len() == 0 ==> swapped(verb, m, history) == seq![
            UiView::Divider(verb + " "@ + label_of(m)),
        ],
        m.title == Some(t) && replayed(history).len() == 0 ==> swapped(verb, m, history) == seq![
            UiView::Title(t),
            UiView::Divider(verb + " "@ + label_of(m)),
        ],
        m.title is None && replayed(history).len() > 0 ==> swapped(verb, m, history) == seq![
            UiView::Divider(verb + " "@ + label_of(m)),
            UiView::ReplayHistory(replayed(history)),
            UiView::Divider("以上为历史上下文"@),
        ],
        m.title == Some(t) && replayed(history).len() > 0 ==> swapped(verb, m, history) == seq![
            UiView::Title(t),
            UiView::Divider(verb + " "@ + label_of(m)),
            UiView::ReplayHistory(replayed(history)),
            UiView::Divider("以上为历史上下文"@),
        ],
{
}

/// The help lists every command that is built in and every one of the user's, each on a line of its own with what it
/// does, in their order.
pub proof fn law_help_lists(
    names: Seq<Seq<char>>,
    ds: Seq<Seq<char>>,
    n: Seq<char>,
    d: Seq<char>,
    cs: Seq<CommandView>,
    c: CommandView,
)
    requires
        names.len() == ds.len(),
    ensures
        help_of(cs) == "可用命令："@ + builtin_lines(builtin_names(), builtin_descriptions()) + custom_lines(cs),
        builtin_lines(names.push(n), ds.push(d)) == builtin_lines(names, ds) + ("\n  /"@ + n + " — "@ + d),
        builtin_lines(Seq::empty(), ds).len() == 0,
        c.description == Some(d) ==> custom_lines(cs.push(c)) == custom_lines(cs) + ("\n  /"@ + c.name + " — "@
            + d),
        c.description is None ==> custom_lines(cs.push(c)) == custom_lines(cs) + ("\n  /"@ + c.name + " — "@
            + "自定义命令"@),
        custom_lines(Seq::empty()).len() == 0,
{
    assert(names.push(n).drop_last() =~= names);
    assert(ds.push(d).drop_last() =~= ds);
    assert(cs.push(c).drop_last() =~= cs);
}

/// The models are listed provider by provider in the order of their names, each provider with its models in the
/// order of theirs.
pub proof fn law_models_listed(
    key: Seq<char>,
    names: Seq<Seq<char>>,
    n: Seq<char>,
    v: Seq<(String, ProviderConfig)>,
    p: ProviderConfig,
)
    ensures
        models_of(key, Seq::empty()) == "当前模型："@ + key + "\n用法：/model <provider/model>\n可用："@
            + "\n  （未配置 provider，见 [providers.*]）"@,
        v.len() > 0 ==> models_of(key, v) == "当前模型："@ + key + "\n用法：/model <provider/model>\n可用："@
            + provider_lines(in_order(provider_names(v)), v),
        entry(v, n) == Some(p) ==> provider_lines(names.push(n), v) == provider_lines(names, v) + ("\n  "@ + n
            + " ["@ + p.kind@ + "]: "@ + join(in_order(model_names(p.models@)), ", "@)),
        entry(v, n) is None ==> provider_lines(names.push(n), v) == provider_lines(names, v),
        provider_lines(Seq::empty(), v).len() == 0,
{
    assert(names.push(n).drop_last() =~= names);
}

/// The checkpoints are listed with their places, counted from one, and their labels.
pub proof fn law_checkpoints_listed(cps: Seq<CheckpointView>, c: CheckpointView)
    ensures
        checkpoints_of(cps) == "文件检查点（"@ + dec(cps.len()) + "）· /rewind <序号> 回滚到该点之前："@
            + checkpoint_lines(cps),
        checkpoint_lines(cps.push(c)) == checkpoint_lines(cps) + "\n  "@ + dec(cps.len() + 1) + ". "@ + c.label,
        checkpoint_lines(Seq::empty()).len() == 0,
{
    assert(cps.push(c).drop_last() =~= cps);
}

/// The skills are listed with their names and what they are for.
pub proof fn law_skills_listed(ms: Seq<SkillMetaView>, m: SkillMetaView)
    ensures
        skills_of(Seq::empty()) == "无可用 skills（放在 ~/.carter/skills/<name>/SKILL.md）"@,
        ms.len() > 0 ==> skills_of(ms) == "可用 skills（"@ + dec(ms.len()) + "）："@ + skill_lines(ms),
        skill_lines(ms.push(m)) == skill_lines(ms) + "\n  "@ + m.name + " — "@ + m.description,
        skill_lines(Seq::empty()).len() == 0,
{
    assert(ms.push(m).drop_last() =~= ms);
}

/// The servers are listed in the order of their names, each with how it is reached and where.
pub proof fn law_servers_listed(
    names: Seq<Seq<char>>,
    n: Seq<char>,
    v: Seq<(String, McpServerConfig)>,
    s: McpServerConfig,
    tools: nat,
)
    ensures
        servers_of(Seq::empty(), tools) == "未配置 MCP server（[mcp.servers.*]）"@,
        v.len() > 0 ==> servers_of(v, tools) == "MCP servers（"@ + dec(v.len()) + "）· 已加载 "@ + dec(tools)
            + " 个工具："@ + server_lines(in_order(server_names(v)), v),
        entry(v, n) == Some(s) ==> server_lines(names.push(n), v) == server_lines(names, v) + ("\n  "@ + n
            + " ["@ + s.transport@ + "] "@ + endpoint_of(s)),
        entry(v, n) is None ==> server_lines(names.push(n), v) == server_lines(names, v),
        server_lines(Seq::empty(), v).len() == 0,
        s.command matches Some(c) ==> endpoint_of(s) == c@,
        s.command is None ==> (s.url matches Some(u) ==> endpoint_of(s) == u@),
        s.command is None && s.url is None ==> endpoint_of(s).len() == 0,
{
    assert(names.push(n).drop_last() =~= names);
}

/// What each command that is built in does; white space around its arguments makes no difference.
pub proof fn law_builtins_done(
    raw: Seq<char>,
    thread: ThreadView,
    sessions: Seq<EntryView>,
    key: Seq<char>,
    config: Config,
    custom: Seq<CommandView>,
    skills: Seq<SkillMetaView>,
    tools: nat,
)
    ensures
        builtin_step("help"@, raw, thread, sessions, key, config, custom, skills, tools) == StepView::Show(
            UiView::Notice(help_of(custom)),
        ),
        builtin_step("clear"@, raw, thread, sessions, key, config, custom, skills, tools) == StepView::Clear,
        builtin_step("new"@, raw, thread, sessions, key, config, custom, skills, tools) == StepView::StartNew,
        builtin_step("compact"@, raw, thread, sessions, key, config, custom, skills, tools)
            == StepView::Compact,
        builtin_step("context"@, raw, thread, sessions, key, config, custom, skills, tools)
            == StepView::Context,
        builtin_step("cost"@, raw, thread, sessions, key, config, custom, skills, tools) == StepView::Cost,
        builtin_step("skills"@, raw, thread, sessions, key, config, custom, skills, tools) == StepView::Show(
            UiView::Notice(skills_of(skills)),
        ),
        builtin_step("mcp"@, raw, thread, sessions, key, config, custom, skills, tools) == StepView::Show(
            UiView::Notice(servers_of(config.mcp.servers@, tools)),
        ),
        trim(raw).len() == 0 ==> builtin_step(
            "model"@,
            raw,
            thread,
            sessions,
            key,
            config,
            custom,
            skills,
            tools,
        ) == StepView::Show(UiView::Notice(models_of(key, config.providers@))),
        trim(raw).len() > 0 ==> builtin_step(
            "model"@,
            raw,
            thread,
            sessions,
            key,
            config,
            custom,
            skills,
            tools,
        ) == StepView::SwitchModel(trim(raw)),
{
    lemma_names_apart();
}

/// The commands that need a session or a checkpoint: which one is meant, and what is said where there is none.
pub proof fn law_builtins_choose(
    raw: Seq<char>,
    thread: ThreadView,
    sessions: Seq<EntryView>,
    key: Seq<char>,
    config: Config,
    custom: Seq<CommandView>,
    skills: Seq<SkillMetaView>,
    tools: nat,
)
    ensures
        ({
            let args = trim(raw);
            let resume = builtin_step("resume"@, raw, thread, sessions, key, config, custom, skills, tools);
            let fork = builtin_step("fork"@, raw, thread, sessions, key, config, custom, skills, tools);
            let rewind = builtin_step("rewind"@, raw, thread, sessions, key, config, custom, skills, tools);
            &&& args.len() == 0 ==> resume == StepView::Show(
                UiView::Notice("用法：/resume <id|序号>（`/help` 外可先 `carter sessions` 查看）"@),
            )
            &&& args.len() > 0 ==> (selected(sessions, args) matches Ok(i) ==> resume == StepView::Load(i) && fork
                == StepView::Fork(i))
            &&& args.len() > 0 ==> (selected(sessions, args) matches Err(e) ==> resume == StepView::Show(
                UiView::Notice("恢复失败："@ + error_text(e)),
            ) && fork == StepView::Show(UiView::Notice("当前无可派生的会话"@)))
            &&& args.len() == 0 ==> (thread.recorder matches Some(r) ==> fork == StepView::ForkCurrent(r.path))
            &&& args.len() == 0 && thread.recorder is None ==> fork == StepView::Show(
                UiView::Notice("当前无可派生的会话"@),
            )
            &&& thread.checkpoints.len() == 0 ==> rewind == StepView::Show(
                UiView::Notice("无可回滚的文件检查点（本会话尚未改动文件）"@),
            )
            &&& thread.checkpoints.len() > 0 && args.len() == 0 ==> rewind == StepView::Show(
                UiView::Notice(checkpoints_of(thread.checkpoints)),
            )
            &&& thread.checkpoints.len() > 0 && args.len() > 0 ==> (parse_dec(args, usize::MAX as nat)
                matches Some(n) ==> rewind == StepView::Rewind(n))
            &&& thread.checkpoints.len() > 0 && args.len() > 0 && parse_dec(args, usize::MAX as nat) is None
                ==> rewind == StepView::Show(UiView::Notice("用法：/rewind 或 /rewind <序号>"@))
        }),
{
    lemma_names_apart();
}

proof fn lemma_names_apart()
    ensures
        "help"@ != "clear"@ && "help"@ != "new"@ && "help"@ != "resume"@ && "help"@ != "fork"@ && "help"@
            != "model"@ && "help"@ != "compact"@ && "help"@ != "context"@ && "help"@ != "cost"@ && "help"@
            != "rewind"@ && "help"@ != "skills"@ && "help"@ != "mcp"@,
        "clear"@ != "new"@ && "clear"@ != "resume"@ && "clear"@ != "fork"@ && "clear"@ != "model"@ && "clear"@
            != "compact"@ && "clear"@ != "context"@ && "clear"@ != "cost"@ && "clear"@ != "rewind"@ && "clear"@
            != "skills"@ && "clear"@ != "mcp"@,
        "new"@ != "resume"@ && "new"@ != "fork"@ && "new"@ != "model"@ && "new"@ != "compact"@ && "new"@
            != "context"@ && "new"@ != "cost"@ && "new"@ != "rewind"@ && "new"@ != "skills"@ && "new"@
            != "mcp"@,
        "resume"@ != "fork"@ && "resume"@ != "model"@ && "resume"@ != "compact"@ && "resume"@ != "context"@
            && "resume"@ != "cost"@ && "resume"@ != "rewind"@ && "resume"@ != "skills"@ && "resume"@ != "mcp"@,
        "fork"@ != "model"@ && "fork"@ != "compact"@ && "fork"@ != "context"@ && "fork"@ != "cost"@ && "fork"@
            != "rewind"@ && "fork"@ != "skills"@ && "fork"@ != "mcp"@,
        "model"@ != "compact"@ && "model"@ != "context"@ && "model"@ != "cost"@ && "model"@ != "rewind"@
            && "model"@ != "skills"@ && "model"@ != "mcp"@,
        "compact"@ != "context"@ && "compact"@ != "cost"@ && "compact"@ != "rewind"@ && "compact"@ != "skills"@
            && "compact"@ != "mcp"@,
        "context"@ != "cost"@ && "context"@ != "rewind"@ && "context"@ != "skills"@ && "context"@ != "mcp"@,
        "cost"@ != "rewind"@ && "cost"@ != "skills"@ && "cost"@ != "mcp"@,
        "rewind"@ != "skills"@ && "rewind"@ != "mcp"@,
        "skills"@ != "mcp"@,
{
    reveal_strlit("help");
    reveal_strlit("clear");
    reveal_strlit("new");
    reveal_strlit("resume");
    reveal_strlit("fork");
    reveal_strlit("model");
    reveal_strlit("compact");
    reveal_strlit("context");
    reveal_strlit("cost");
    reveal_strlit("rewind");
    reveal_strlit("skills");
    reveal_strlit("mcp");
    assert("help"@[0] == 'h' && "clear"@[0] == 'c' && "new"@[0] == 'n' && "resume"@[0] == 'r' && "fork"@[0] == 'f'
        && "model"@[0] == 'm' && "compact"@[0] == 'c' && "context"@[0] == 'c' && "cost"@[0] == 'c' && "rewind"@[0]
        == 'r' && "skills"@[0] == 's' && "mcp"@[0] == 'm');
    assert("clear"@[1] == 'l' && "compact"@[2] == 'm' && "context"@[2] == 'n' && "cost"@[2] == 's' && "compact"@[1]
        == 'o' && "context"@[1] == 'o' && "cost"@[1] == 'o');
    assert("resume"@[2] == 's' && "rewind"@[2] == 'w' && "model"@.len() == 5 && "mcp"@.len() == 3);
}

/// After a thread is cleared it has no messages and no list; its files can still be restored, and what is recorded
/// says that it was cleared.
pub proof fn law_cleared(t: ThreadView, ts: u64)
    ensures
        cleared(t, ts).messages.len() == 0,
        cleared(t, ts).todos.len() == 0,
        cleared(t, ts).checkpoints == t.checkpoints,
        cleared(t, ts).recorder == recorded(
            t.recorder,
            ts,
            KindView::Compacted { tier: "clear"@, messages: Seq::empty() },
        ),
{
}

} // verus!
