//! The cache of model metadata: what is said of it, and what it holds.

use crate::agent::context::held;
use crate::error::{CarterError, ErrorView};
use crate::json::{entry_views, json_parse, json_view_obj, member, opt_json, parse_json, Json, JsonView};
use crate::number::{dec, push_dec};
use vstd::prelude::*;

verus! {

/// Where the metadata comes from.
pub const MODELS_DEV_URL: &'static str = "https://models.dev/api.json";

/// The text of the cache, or the error where there is none.
pub fn read_cache(raw: Option<String>, path: &str) -> (r: Result<String, CarterError>)
    ensures
        match r {
            Ok(t) => raw == Some(t),
            Err(e) => raw is None && e@ == ErrorView::Config(
                "模型元数据缓存缺失（"@ + path@ + "）；请先运行 `carter update` 拉取 models.dev。"@,
            ),
        },
{
    match raw {
        Some(t) => Ok(t),
        None => {
            let mut s = "模型元数据缓存缺失（".to_owned();
            s.append(path);
            s.append("）；请先运行 `carter update` 拉取 models.dev。");
            Err(CarterError::Config(s))
        },
    }
}

/// The number of models of a provider.
pub open spec fn provider_models(p: JsonView) -> nat {
    match member(p, "models"@) {
        Some(JsonView::Obj(e)) => e.len(),
        _ => 0,
    }
}

/// The number of models of providers.
pub open spec fn models_in(e: Seq<(Seq<char>, JsonView)>) -> nat
    decreases e.len(),
{
    if e.len() == 0 {
        0
    } else {
        models_in(e.drop_last()) + provider_models(e.last().1)
    }
}

/// The numbers of providers and models that a document lists.
pub open spec fn listed(j: Option<JsonView>) -> (nat, nat) {
    match j {
        Some(JsonView::Obj(e)) => (e.len(), models_in(e)),
        _ => (0, 0),
    }
}

fn provider_count(p: &Json) -> (r: usize)
    ensures
        r == provider_models(p@),
{
    match p.get("models") {
        Some(m) => match m {
            Json::Obj(e) => {
                proof {
                    json_view_obj(*e);
                }
                assert(entry_views(e@).len() == e@.len());
                e.len()
            },
            _ => 0,
        },
        None => 0,
    }
}

/// The numbers of providers and models that a document lists, as far as 64 bits hold the second.
pub fn count_listed(j: &Option<Json>) -> (r: (usize, u64))
    ensures
        r.0 == listed(opt_json(*j)).0,
        r.1 == held(listed(opt_json(*j)).1),
{
    match j {
        Some(Json::Obj(e)) => {
            proof {
                json_view_obj(*e);
            }
            let ghost ev = entry_views(e@);
            assert(ev.len() == e@.len());
            let mut n: u64 = 0;
            let mut i: usize = 0;
            assert(ev.take(0) =~= Seq::<(Seq<char>, JsonView)>::empty());
            while i < e.len()
                invariant
                    i <= e@.len(),
                    ev == entry_views(e@),
                    n == held(models_in(ev.take(i as int))),
                decreases e@.len() - i,
            {
                assert(ev.take(i + 1).drop_last() =~= ev.take(i as int));
                assert(ev.take(i + 1).last() == (e@[i as int].0@, e@[i as int].1@));
                let k: u64 = provider_count(&e[i].1) as u64;
                n = if n > u64::MAX - k {
                    u64::MAX
                } else {
                    n + k
                };
                i += 1;
            }
            assert(ev.take(i as int) =~= ev);
            (e.len(), n)
        },
        _ => (0, 0),
    }
}

/// The numbers of providers and models in the text of the metadata; none of a text that is no JSON.
pub fn count_models(text: &str) -> (r: (usize, u64))
    ensures
        r.0 == listed(json_parse(text@)).0,
        r.1 == held(listed(json_parse(text@)).1),
{
    let j = parse_json(text);
    count_listed(&j)
}

/// What is said when the metadata was brought up to date.
pub fn update_report(providers: usize, models: u64, path: &str) -> (r: String)
    ensures
        r@ == "已更新 "@ + dec(providers as nat) + " providers / "@ + dec(models as nat) + " models 到 "@
            + path@,
{
    let mut s = "已更新 ".to_owned();
    push_dec(&mut s, providers as u64);
    s.append(" providers / ");
    push_dec(&mut s, models);
    s.append(" models 到 ");
    s.append(path);
    s
}

/// All the models of all the providers are counted, and a provider that lists none counts for none.
pub proof fn law_models_counted(e: Seq<(Seq<char>, JsonView)>, p: (Seq<char>, JsonView), j: Option<JsonView>)
    ensures
        models_in(e.push(p)) == models_in(e) + (match member(p.1, "models"@) {
            Some(JsonView::Obj(ms)) => ms.len(),
            _ => 0,
        }),
        models_in(Seq::empty()) == 0,
        j matches Some(JsonView::Obj(o)) ==> listed(j) == (o.len(), models_in(o)),
        !(j matches Some(JsonView::Obj(_))) ==> listed(j) == (0nat, 0nat),
{
    assert(e.push(p).drop_last() =~= e);
}

} // verus!
