//! From a model reference to a model.

use super::model::{ModelInfo, ModelView};
use super::models_dev::{lookup, lookup_text, model_in};
use crate::config::settings::{Config, ModelEntry, ProviderConfig};
use crate::error::{CarterError, ErrorView};
use crate::json::{json_parse, JsonView};
use crate::split::{lemma_pos_from, pos, pos_at};
use crate::table::{entry, find_entry};
use crate::text::{chars_of, string_of};
use vstd::prelude::*;
use vstd::slice::slice_subrange;

verus! {

/// The parts of `s` before and after the first `c`.
pub open spec fn split_once(s: Seq<char>, c: char) -> Option<(Seq<char>, Seq<char>)> {
    if pos(s, c) < s.len() {
        Some((s.take(pos(s, c)), s.skip(pos(s, c) + 1)))
    } else {
        None
    }
}

/// The parts of `s` before and after the first `c`.
pub fn split_once_at(s: &str, c: char) -> (r: Option<(String, String)>)
    ensures
        match r {
            Some((a, b)) => split_once(s@, c) == Some((a@, b@)),
            None => split_once(s@, c) is None,
        },
{
    let v = chars_of(s);
    let k = pos_at(v.as_slice(), c, 0);
    if k == v.len() {
        return None;
    }
    let a = string_of(slice_subrange(v.as_slice(), 0, k));
    let b = string_of(slice_subrange(v.as_slice(), k + 1, v.len()));
    assert(a@ =~= s@.take(k as int));
    assert(b@ =~= s@.skip(k + 1));
    Some((a, b))
}

/// What is said of a reference that is not `provider/model`.
pub open spec fn bad_reference(reference: Seq<char>) -> Seq<char> {
    "模型引用 `"@ + reference + "` 格式应为 `provider/model`（如 `ws/sonnet`）。"@
}

/// What is said of a provider that the configuration lacks.
pub open spec fn no_provider(p: Seq<char>) -> Seq<char> {
    "config 中未定义 provider `"@ + p + "`；请添加 [providers."@ + p + "]。"@
}

/// What is said of a model that its provider lacks.
pub open spec fn no_model(p: Seq<char>, m: Seq<char>) -> Seq<char> {
    "provider `"@ + p + "` 下未定义模型 `"@ + m + "`；请添加 [providers."@ + p + ".models."@ + m + "]。"@
}

/// What is said of a `meta` that is not `provider_id/model_id`.
pub open spec fn bad_meta(reference: Seq<char>, meta: Seq<char>) -> Seq<char> {
    "模型 `"@ + reference + "` 的 meta `"@ + meta + "` 格式应为 `provider_id/model_id`。"@
}

/// What is said of a `meta` that the catalogue lacks.
pub open spec fn no_meta(meta: Seq<char>) -> Seq<char> {
    "models.dev 缓存中找不到 `"@ + meta + "`；请 `carter update` 或检查 meta。"@
}

/// The catalogue's model under the user's binding: the provider is the configured one, and the
/// binding's name and reasoning effort come before the catalogue's.
pub open spec fn bound_model(
    m: ModelView,
    provider_name: Seq<char>,
    e: ModelEntry,
    model_id: Seq<char>,
) -> ModelView {
    ModelView {
        provider: provider_name,
        api_name: match e.api_name {
            Some(n) => n@,
            None => model_id,
        },
        default_reasoning: if e.default_reasoning is Some {
            e.default_reasoning
        } else {
            m.default_reasoning
        },
        ..m
    }
}

/// The model that a reference stands for, or why it stands for none. `found` is what the
/// catalogue holds under a provider id and a model id.
pub open spec fn resolved_with(
    config: Config,
    reference: Seq<char>,
    found: spec_fn(Seq<char>, Seq<char>) -> Option<ModelView>,
) -> Result<ModelView, ErrorView> {
    match split_once(reference, '/') {
        None => Err(ErrorView::Config(bad_reference(reference))),
        Some((p, m)) => match entry(config.providers@, p) {
            None => Err(ErrorView::Config(no_provider(p))),
            Some(provider) => match entry(provider.models@, m) {
                None => Err(ErrorView::Config(no_model(p, m))),
                Some(e) => match split_once(e.meta@, '/') {
                    None => Err(ErrorView::Config(bad_meta(reference, e.meta@))),
                    Some((mp, id)) => match found(mp, id) {
                        None => Err(ErrorView::Config(no_meta(e.meta@))),
                        Some(info) => Ok(bound_model(info, p, e, id)),
                    },
                },
            },
        },
    }
}

/// The model that a reference stands for in a configuration and the text of a catalogue.
pub open spec fn resolved(config: Config, cache_json: Seq<char>, reference: Seq<char>) -> Result<
    ModelView,
    ErrorView,
> {
    resolved_with(
        config,
        reference,
        |p: Seq<char>, m: Seq<char>| lookup_text(cache_json, p, m),
    )
}

/// The view of a resolution.
pub open spec fn resolution_view(r: Result<ModelInfo, CarterError>) -> Result<
    ModelView,
    ErrorView,
> {
    match r {
        Ok(m) => Ok(m@),
        Err(e) => Err(e@),
    }
}

/// Resolves `provider/model` to a model.
pub fn resolve_model(config: &Config, cache_json: &str, reference: &str) -> (r: Result<
    ModelInfo,
    CarterError,
>)
    ensures
        resolution_view(r) == resolved(*config, cache_json@, reference@),
{
    let (p, m) = match split_once_at(reference, '/') {
        Some(x) => x,
        None => {
            let mut s = "模型引用 `".to_owned();
            s.append(reference);
            s.append("` 格式应为 `provider/model`（如 `ws/sonnet`）。");
            return Err(CarterError::Config(s));
        },
    };
    let provider = match find_entry(&config.providers, p.as_str()) {
        Some(x) => x,
        None => {
            let mut s = "config 中未定义 provider `".to_owned();
            s.append(p.as_str());
            s.append("`；请添加 [providers.");
            s.append(p.as_str());
            s.append("]。");
            return Err(CarterError::Config(s));
        },
    };
    let e = match find_entry(&provider.models, m.as_str()) {
        Some(x) => x,
        None => {
            let mut s = "provider `".to_owned();
            s.append(p.as_str());
            s.append("` 下未定义模型 `");
            s.append(m.as_str());
            s.append("`；请添加 [providers.");
            s.append(p.as_str());
            s.append(".models.");
            s.append(m.as_str());
            s.append("]。");
            return Err(CarterError::Config(s));
        },
    };
    let (mp, id) = match split_once_at(e.meta.as_str(), '/') {
        Some(x) => x,
        None => {
            let mut s = "模型 `".to_owned();
            s.append(reference);
            s.append("` 的 meta `");
            s.append(e.meta.as_str());
            s.append("` 格式应为 `provider_id/model_id`。");
            return Err(CarterError::Config(s));
        },
    };
    let mut info = match lookup(cache_json, mp.as_str(), id.as_str()) {
        Some(x) => x,
        None => {
            let mut s = "models.dev 缓存中找不到 `".to_owned();
            s.append(e.meta.as_str());
            s.append("`；请 `carter update` 或检查 meta。");
            return Err(CarterError::Config(s));
        },
    };
    info.provider = p;
    info.api_name = match &e.api_name {
        Some(n) => n.clone(),
        None => id,
    };
    if e.default_reasoning.is_some() {
        info.default_reasoning = e.default_reasoning;
    }
    Ok(info)
}

/// A text is split once, at the first occurrence of the character, which is in neither part.
pub proof fn law_split_once(a: Seq<char>, c: char, b: Seq<char>)
    requires
        !a.contains(c),
    ensures
        split_once(a + seq![c] + b, c) == Some((a, b)),
        split_once(a, c) is None,
{
    let s = a + seq![c] + b;
    lemma_pos_from(s, c, 0);
    lemma_pos_from(a, c, 0);
    assert(s[a.len() as int] == c);
    let k = pos(s, c);
    if k < a.len() {
        assert(a[k] == s[k]);
    }
    assert(s.take(k) =~= a);
    assert(s.skip(k + 1) =~= b);
    if pos(a, c) < a.len() {
        assert(a.contains(a[pos(a, c)]));
    }
}

/// A model is found where its reference names a provider and a model of the configuration, and what the
/// configuration says of its data is known; what is missing is named, the first thing first.
pub proof fn law_model_resolved(
    config: Config,
    p: Seq<char>,
    m: Seq<char>,
    found: spec_fn(Seq<char>, Seq<char>) -> Option<ModelView>,
)
    requires
        !p.contains('/'),
    ensures
        ({
            let reference = p + seq!['/'] + m;
            let r = resolved_with(config, reference, found);
            &&& resolved_with(config, p, found) == Err::<ModelView, ErrorView>(
                ErrorView::Config("模型引用 `"@ + p + "` 格式应为 `provider/model`（如 `ws/sonnet`）。"@),
            )
            &&& entry(config.providers@, p) is None ==> r == Err::<ModelView, ErrorView>(
                ErrorView::Config("config 中未定义 provider `"@ + p + "`；请添加 [providers."@ + p + "]。"@),
            )
            &&& entry(config.providers@, p) matches Some(prov) ==> (entry(prov.models@, m) is None ==> r == Err::<
                ModelView,
                ErrorView,
            >(
                ErrorView::Config(
                    "provider `"@ + p + "` 下未定义模型 `"@ + m + "`；请添加 [providers."@ + p + ".models."@ + m
                        + "]。"@,
                ),
            ))
            &&& entry(config.providers@, p) matches Some(prov) ==> (entry(prov.models@, m) matches Some(e) ==> (
            match split_once(e.meta@, '/') {
                None => r is Err,
                Some((mp, id)) => match found(mp, id) {
                    None => r is Err,
                    Some(info) => r matches Ok(b) && b.provider == p && b.api_name == (match e.api_name {
                        Some(n) => n@,
                        None => id,
                    }) && b.key == info.key && b.context_window == info.context_window
                        && b.max_output_tokens == info.max_output_tokens && b.tokenizer == info.tokenizer
                        && b.capabilities == info.capabilities && b.pricing == info.pricing
                        && b.default_reasoning == (if e.default_reasoning is Some {
                        e.default_reasoning
                    } else {
                        info.default_reasoning
                    }),
                },
            }))
        }),
{
    law_split_once(p, '/', m);
}

/// A model whose entry names no place in the catalogue, or one that is not there, is refused with what it names.
pub proof fn law_meta_refused(
    config: Config,
    p: Seq<char>,
    m: Seq<char>,
    prov: ProviderConfig,
    e: ModelEntry,
    found: spec_fn(Seq<char>, Seq<char>) -> Option<ModelView>,
)
    requires
        !p.contains('/'),
        entry(config.providers@, p) == Some(prov),
        entry(prov.models@, m) == Some(e),
    ensures
        ({
            let reference = p + seq!['/'] + m;
            let r = resolved_with(config, reference, found);
            &&& split_once(e.meta@, '/') is None ==> r == Err::<ModelView, ErrorView>(
                ErrorView::Config(
                    "模型 `"@ + reference + "` 的 meta `"@ + e.meta@
                        + "` 格式应为 `provider_id/model_id`。"@,
                ),
            )
            &&& split_once(e.meta@, '/') matches Some((mp, id)) ==> (found(mp, id) is None ==> r == Err::<
                ModelView,
                ErrorView,
            >(
                ErrorView::Config(
                    "models.dev 缓存中找不到 `"@ + e.meta@ + "`；请 `carter update` 或检查 meta。"@,
                ),
            ))
        }),
{
    law_split_once(p, '/', m);
}

/// The catalogue in which a model is looked up is the one that the text holds; a text that holds none has no models.
pub proof fn law_catalogue_looked_up(
    config: Config,
    cache_json: Seq<char>,
    reference: Seq<char>,
    root: JsonView,
    p: Seq<char>,
    m: Seq<char>,
)
    ensures
        json_parse(cache_json) == Some(root) ==> lookup_text(cache_json, p, m) == model_in(root, p, m),
        json_parse(cache_json) is None ==> lookup_text(cache_json, p, m) is None,
        resolved(config, cache_json, reference) == resolved_with(
            config,
            reference,
            |a: Seq<char>, b: Seq<char>| lookup_text(cache_json, a, b),
        ),
{
}

} // verus!
