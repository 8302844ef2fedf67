//! What the interactive mode offers while the user types.

use super::repl::{provider_names, model_names, sorted_models, sorted_providers};
use crate::commands::registry::{
    builtin_descriptions, builtin_names, builtins, command_views, Builtin, CommandView, SlashCommand,
};
use crate::config::settings::ProviderConfig;
use crate::mcp::manager::in_order;
use crate::session::record::{dup_opt, first_chars, take_chars};
use crate::session::store::{entry_list, EntryView, SessionEntry};
use crate::table::{entry, find_entry};
use crate::text::{opt_text, texts};
use vstd::prelude::*;

verus! {

/// Something on offer.
#[derive(Debug)]
pub struct CompletionItem {
    pub name: String,
    pub description: String,
    pub hint: Option<String>,
}

/// What an item holds.
pub struct ItemView {
    pub name: Seq<char>,
    pub description: Seq<char>,
    pub hint: Option<Seq<char>>,
}

impl View for CompletionItem {
    type V = ItemView;

    open spec fn view(&self) -> ItemView {
        ItemView {
            name: self.name@,
            description: self.description@,
            hint: opt_text(self.hint),
        }
    }
}

/// What a list of items holds.
pub open spec fn item_views(v: Seq<CompletionItem>) -> Seq<ItemView> {
    v.map_values(|i: CompletionItem| i@)
}

/// A command of the user's on offer.
pub open spec fn command_item(c: CommandView) -> ItemView {
    ItemView {
        name: c.name,
        description: match c.description {
            Some(d) => d,
            None => "自定义命令"@,
        },
        hint: c.argument_hint,
    }
}

/// The commands on offer: the built-in ones, then those of the user's.
pub open spec fn offered_commands(cs: Seq<CommandView>) -> Seq<ItemView> {
    Seq::new(
        builtin_names().len(),
        |i: int|
            ItemView {
                name: builtin_names()[i],
                description: builtin_descriptions()[i],
                hint: None,
            },
    ) + cs.map_values(|c: CommandView| command_item(c))
}

/// The commands on offer.
pub fn command_items(custom: &Vec<SlashCommand>) -> (r: Vec<CompletionItem>)
    ensures
        item_views(r@) == offered_commands(command_views(custom@)),
{
    let all = builtins();
    let ghost cv = command_views(custom@);
    let ghost want = offered_commands(cv);
    let n: usize = all.len();
    let m: usize = custom.len();
    let mut out: Vec<CompletionItem> = Vec::new();
    let mut i: usize = 0;
    let ghost ns = all@.map_values(|b: Builtin| b.name@);
    let ghost ds = all@.map_values(|b: Builtin| b.description@);
    assert(ns.len() == n && builtin_names().len() == n);
    assert(item_views(out@) =~= want.take(0));
    while i < n
        invariant
            i <= n,
            n == all@.len(),
            n == builtin_names().len(),
            ns == all@.map_values(|b: Builtin| b.name@),
            ds == all@.map_values(|b: Builtin| b.description@),
            ns == builtin_names(),
            ds == builtin_descriptions(),
            want == offered_commands(cv),
            item_views(out@) == want.take(i as int),
        decreases n - i,
    {
        let x = CompletionItem {
            name: all[i].name.to_owned(),
            description: all[i].description.to_owned(),
            hint: None,
        };
        let ghost xv = x@;
        let ghost before = item_views(out@);
        assert(ns[i as int] == all@[i as int].name@);
        assert(ds[i as int] == all@[i as int].description@);
        assert(want[i as int] == xv);
        out.push(x);
        assert(item_views(out@) =~= before.push(xv));
        assert(want.take(i + 1) =~= want.take(i as int).push(xv));
        i += 1;
    }
    let mut k: usize = 0;
    while k < m
        invariant
            k <= m,
            m == custom@.len(),
            n == builtin_names().len(),
            cv == command_views(custom@),
            want == offered_commands(cv),
            item_views(out@) == want.take(n + k),
        decreases m - k,
    {
        let c = &custom[k];
        let x = CompletionItem {
            name: c.name.clone(),
            description: match &c.description {
                Some(d) => d.clone(),
                None => "自定义命令".to_owned(),
            },
            hint: dup_opt(&c.argument_hint),
        };
        let ghost xv = x@;
        let ghost before = item_views(out@);
        assert(cv[k as int] == c@);
        assert(want[n + k] == xv);
        out.push(x);
        assert(item_views(out@) =~= before.push(xv));
        assert(want.take(n + k + 1) =~= want.take(n + k).push(xv));
        k += 1;
    }
    assert(want.take(n + m) =~= want);
    out
}

/// The models of a provider on offer.
pub open spec fn provider_items(p: Seq<char>, kind: Seq<char>, models: Seq<Seq<char>>) -> Seq<ItemView> {
    models.map_values(
        |m: Seq<char>|
            ItemView { name: p + "/"@ + m, description: "["@ + kind + "]"@, hint: None },
    )
}

/// The models on offer: those of each provider, both in the order of their names.
pub open spec fn offered_models(names: Seq<Seq<char>>, v: Seq<(String, ProviderConfig)>) -> Seq<ItemView>
    decreases names.len(),
{
    if names.len() == 0 {
        Seq::empty()
    } else {
        offered_models(names.drop_last(), v) + match entry(v, names.last()) {
            Some(p) => provider_items(
                names.last(),
                p.kind@,
                in_order(model_names(p.models@)),
            ),
            None => Seq::empty(),
        }
    }
}

/// The models on offer.
pub fn model_items(providers: &Vec<(String, ProviderConfig)>) -> (r: Vec<CompletionItem>)
    ensures
        item_views(r@) == offered_models(in_order(provider_names(providers@)), providers@),
{
    let names = sorted_providers(providers);
    let ghost nv = texts(names@);
    let mut out: Vec<CompletionItem> = Vec::new();
    let mut i: usize = 0;
    assert(nv.take(0) =~= Seq::<Seq<char>>::empty());
    assert(item_views(out@) =~= Seq::<ItemView>::empty());
    while i < names.len()
        invariant
            i <= names@.len(),
            nv == texts(names@),
            item_views(out@) == offered_models(nv.take(i as int), providers@),
        decreases names@.len() - i,
    {
        let p = &names[i];
        assert(nv.take(i + 1).drop_last() =~= nv.take(i as int));
        assert(nv.take(i + 1).last() == p@);
        let ghost head = item_views(out@);
        match find_entry(providers, p.as_str()) {
            Some(cfg) => {
                let ms = sorted_models(&cfg.models);
                let ghost mv = texts(ms@);
                let ghost want = provider_items(p@, cfg.kind@, mv);
                let mut k: usize = 0;
                assert(head + want.take(0) =~= head);
                while k < ms.len()
                    invariant
                        k <= ms@.len(),
                        mv == texts(ms@),
                        want == provider_items(p@, cfg.kind@, mv),
                        item_views(out@) == head + want.take(k as int),
                    decreases ms@.len() - k,
                {
                    let mut name = p.clone();
                    name.append("/");
                    name.append(ms[k].as_str());
                    let mut description = "[".to_owned();
                    description.append(cfg.kind.as_str());
                    description.append("]");
                    let x = CompletionItem { name, description, hint: None };
                    let ghost xv = x@;
                    let ghost before = item_views(out@);
                    assert(want[k as int] == xv);
                    out.push(x);
                    assert(item_views(out@) =~= before.push(xv));
                    assert(head + want.take(k + 1) =~= (head + want.take(k as int)).push(xv));
                    k += 1;
                }
                assert(want.take(k as int) =~= want);
            },
            None => {
                assert(head + Seq::<ItemView>::empty() =~= head);
            },
        }
        i += 1;
    }
    assert(nv.take(i as int) =~= nv);
    out
}

/// A session on offer.
pub open spec fn session_item(e: EntryView) -> ItemView {
    ItemView {
        name: first_chars(e.meta.id, 8),
        description: match e.meta.title {
            Some(t) => t,
            None => "（无标题）"@,
        },
        hint: None,
    }
}

/// The sessions on offer.
pub fn session_items(entries: &Vec<SessionEntry>) -> (r: Vec<CompletionItem>)
    ensures
        item_views(r@) == entry_list(entries@).map_values(|e: EntryView| session_item(e)),
{
    let ghost ev = entry_list(entries@);
    let ghost want = ev.map_values(|e: EntryView| session_item(e));
    let mut out: Vec<CompletionItem> = Vec::new();
    let mut i: usize = 0;
    assert(item_views(out@) =~= want.take(0));
    while i < entries.len()
        invariant
            i <= entries@.len(),
            ev == entry_list(entries@),
            want == ev.map_values(|e: EntryView| session_item(e)),
            item_views(out@) == want.take(i as int),
        decreases entries@.len() - i,
    {
        let m = &entries[i].meta;
        let x = CompletionItem {
            name: take_chars(m.id.as_str(), 8),
            description: match &m.title {
                Some(t) => t.clone(),
                None => "（无标题）".to_owned(),
            },
            hint: None,
        };
        let ghost xv = x@;
        let ghost before = item_views(out@);
        assert(ev[i as int] == entries@[i as int]@);
        assert(want[i as int] == xv);
        out.push(x);
        assert(item_views(out@) =~= before.push(xv));
        assert(want.take(i + 1) =~= want.take(i as int).push(xv));
        i += 1;
    }
    assert(want.take(i as int) =~= want);
    out
}

/// A command is offered with its own description, or called one of the user's own where it has none.
pub proof fn law_command_offered(c: CommandView, d: Seq<char>)
    ensures
        command_item(c).name == c.name,
        command_item(c).hint == c.argument_hint,
        c.description == Some(d) ==> command_item(c).description == d,
        c.description is None ==> command_item(c).description == "自定义命令"@,
{
}

/// All commands that are built in are offered, and then all of the user's, in their order.
pub proof fn law_commands_offered(cs: Seq<CommandView>, i: int)
    ensures
        offered_commands(cs).len() == 14 + cs.len(),
        0 <= i < 14 ==> offered_commands(cs)[i].name == builtin_names()[i] && offered_commands(cs)[i].description
            == builtin_descriptions()[i] && offered_commands(cs)[i].hint is None,
        0 <= i < cs.len() ==> offered_commands(cs)[14 + i] == command_item(cs[i]),
{
}

/// The models are offered provider by provider, each under the provider's name and its own.
pub proof fn law_models_offered(
    names: Seq<Seq<char>>,
    p: Seq<char>,
    v: Seq<(String, ProviderConfig)>,
    cfg: ProviderConfig,
    kind: Seq<char>,
    models: Seq<Seq<char>>,
    i: int,
)
    ensures
        offered_models(Seq::empty(), v).len() == 0,
        entry(v, p) == Some(cfg) ==> offered_models(names.push(p), v) == offered_models(names, v)
            + provider_items(p, cfg.kind@, in_order(model_names(cfg.models@))),
        entry(v, p) is None ==> offered_models(names.push(p), v) == offered_models(names, v),
        provider_items(p, kind, models).len() == models.len(),
        0 <= i < models.len() ==> provider_items(p, kind, models)[i].name == p + "/"@ + models[i]
            && provider_items(p, kind, models)[i].description == "["@ + kind + "]"@ && provider_items(
            p,
            kind,
            models,
        )[i].hint is None,
{
    assert(names.push(p).drop_last() =~= names);
}

/// A session is offered by the first eight characters of its name and told by its title.
pub proof fn law_session_offered(e: EntryView, t: Seq<char>)
    ensures
        session_item(e).name == first_chars(e.meta.id, 8),
        session_item(e).hint is None,
        e.meta.title == Some(t) ==> session_item(e).description == t,
        e.meta.title is None ==> session_item(e).description == "（无标题）"@,
{
}

} // verus!
