//! What a run begins and ends with.

use crate::agent::turn::TurnOutcome;
use crate::agent::ui::{ui_views, ui_views_push, UiEvent, UiView};
use crate::config::paths::{joined, llm_log_dir};
use crate::config::settings::{Config, ProviderConfig};
use crate::error::{CarterError, ErrorView};
use crate::hooks::types::{DecisionView, HookDecision};
use crate::json::{jobj1, jobj4, jobj5, jstr, juint, text_member, Json, JsonView, NumberView};
use crate::provider::event::Usage;
use crate::provider::genai_provider::{adapter_of, label_of, GenaiProvider};
use crate::registry::model::{ModelInfo, ModelView};
use crate::registry::resolve::{resolve_model, resolved};
use crate::skills::skill::{catalog, render_catalog, skill_views, SkillMeta};
use crate::table::{entry, find_entry};
use crate::text::{opt_text, texts, texts_push};
use vstd::prelude::*;

verus! {

/// The system prompt: who the agent is, the skills, the memory, and where it runs. A part that has
/// nothing to say is left out.
pub open spec fn system_parts(
    base: Seq<char>,
    skills: Seq<char>,
    has_skills: bool,
    memory: Option<Seq<char>>,
    info: Seq<char>,
) -> Seq<Seq<char>> {
    let a = seq![base];
    let b = if has_skills {
        a.push(skills)
    } else {
        a
    };
    let c = match memory {
        Some(m) => if m.len() > 0 {
            b.push(m)
        } else {
            b
        },
        None => b,
    };
    c.push(info)
}

/// The system prompt. `memory` is missing where it is switched off.
pub fn assemble_system(
    base: String,
    skills: &Vec<SkillMeta>,
    memory: Option<String>,
    info: String,
) -> (r: Vec<String>)
    ensures
        texts(r@) == system_parts(
            base@,
            catalog(skill_views(skills@)),
            skills@.len() > 0,
            opt_text(memory),
            info@,
        ),
{
    broadcast use texts_push;

    let mut out: Vec<String> = Vec::new();
    out.push(base);
    assert(texts(out@) =~= seq![base@]);
    if skills.len() > 0 {
        out.push(render_catalog(skills));
    }
    match memory {
        Some(m) => {
            if !m.as_str().is_empty() {
                out.push(m);
            }
        },
        None => {},
    }
    out.push(info);
    out
}

/// Where exchanges are logged: where the configuration says, or in the usual place.
pub open spec fn log_dir_of(root: Seq<char>, config: Config) -> Seq<char> {
    match config.debug.llm_log_dir {
        Some(d) => d@,
        None => joined(joined(root, "debug"@), "llm_log"@),
    }
}

/// `p` is the provider of a model: the one that the configuration describes under the model's provider,
/// or the usual one.
pub open spec fn is_provider_of(p: GenaiProvider, root: Seq<char>, config: Config, m: ModelView) -> bool {
    &&& p.debug == config.debug.log_requests
    &&& p.log_dir@ == log_dir_of(root, config)
    &&& match entry(config.providers@, m.provider) {
        Some(cfg) => {
            &&& p.protocol == adapter_of(cfg.kind@)
            &&& p.protocol is Some
            &&& opt_text(p.endpoint) == opt_text(cfg.base_url)
            &&& opt_text(p.api_key) == opt_text(cfg.api_key)
            &&& p.adapter@ == cfg.kind@
            &&& p.label@ == label_of(cfg)
        },
        None => {
            &&& p.protocol is None
            &&& p.endpoint is None
            &&& p.api_key is None
            &&& p.adapter@ == "auto"@
            &&& p.label@ == "genai-default"@
        },
    }
}

/// The provider of a model; an error where its kind is not known.
pub fn provider_for(root: &str, config: &Config, m: &ModelInfo) -> (r: Result<
    GenaiProvider,
    CarterError,
>)
    ensures
        match r {
            Ok(p) => is_provider_of(p, root@, *config, m@),
            Err(e) => entry(config.providers@, m.provider@) matches Some(cfg) && adapter_of(
                cfg.kind@,
            ) is None && e@ == ErrorView::Config("unknown provider kind: "@ + cfg.kind@),
        },
{
    let log_dir = match &config.debug.llm_log_dir {
        Some(d) => d.clone(),
        None => llm_log_dir(root),
    };
    let debug = config.debug.log_requests;
    match find_entry(&config.providers, m.provider.as_str()) {
        Some(cfg) => GenaiProvider::from_provider_config(cfg, debug, log_dir),
        None => Ok(GenaiProvider::new(debug, log_dir)),
    }
}

/// The model that a reference stands for, with its provider.
pub fn resolve_provider(root: &str, config: &Config, cache_json: &str, model_ref: &str) -> (r: Result<
    (ModelInfo, GenaiProvider),
    CarterError,
>)
    ensures
        match r {
            Ok((m, p)) => resolved(*config, cache_json@, model_ref@) == Ok::<ModelView, ErrorView>(m@)
                && is_provider_of(p, root@, *config, m@),
            Err(e) => match resolved(*config, cache_json@, model_ref@) {
                Err(x) => e@ == x,
                Ok(m) => entry(config.providers@, m.provider) matches Some(cfg) && adapter_of(
                    cfg.kind@,
                ) is None && e@ == ErrorView::Config("unknown provider kind: "@ + cfg.kind@),
            },
        },
{
    match resolve_model(config, cache_json, model_ref) {
        Ok(m) => match provider_for(root, config, &m) {
            Ok(p) => Ok((m, p)),
            Err(e) => Err(e),
        },
        Err(e) => Err(e),
    }
}

/// How a run takes its input.
#[derive(Clone, Copy, Debug, PartialEq, Eq, Structural)]
pub enum RunMode {
    /// Line by line, from a user.
    Interactive,
    /// From the command line, once.
    Oneshot,
}

/// How a run takes its input: once where a prompt is given or the interactive mode is switched off.
pub fn run_mode(has_prompt: bool, no_tui: bool) -> (r: RunMode)
    ensures
        r == if has_prompt || no_tui {
            RunMode::Oneshot
        } else {
            RunMode::Interactive
        },
{
    if has_prompt || no_tui {
        RunMode::Oneshot
    } else {
        RunMode::Interactive
    }
}

/// What hooks are told when a session begins.
pub fn session_start_data(
    mode: &str,
    session_id: &str,
    cwd: &str,
    model: &str,
    resumed: bool,
) -> (r: Json)
    ensures
        r@ == JsonView::Obj(
            seq![
                ("mode"@, JsonView::Str(mode@)),
                ("session_id"@, JsonView::Str(session_id@)),
                ("cwd"@, JsonView::Str(cwd@)),
                ("model"@, JsonView::Str(model@)),
                ("resumed"@, JsonView::Bool(resumed)),
            ],
        ),
{
    jobj5(
        "mode",
        jstr(mode),
        "session_id",
        jstr(session_id),
        "cwd",
        jstr(cwd),
        "model",
        jstr(model),
        "resumed",
        Json::Bool(resumed),
    )
}

/// What hooks are told when a run of one prompt begins.
pub fn oneshot_start_data(session_id: &str, cwd: &str, model: &str) -> (r: Json)
    ensures
        r@ == JsonView::Obj(
            seq![
                ("mode"@, JsonView::Str("oneshot"@)),
                ("session_id"@, JsonView::Str(session_id@)),
                ("cwd"@, JsonView::Str(cwd@)),
                ("model"@, JsonView::Str(model@)),
            ],
        ),
{
    jobj4(
        "mode",
        jstr("oneshot"),
        "session_id",
        jstr(session_id),
        "cwd",
        jstr(cwd),
        "model",
        jstr(model),
    )
}

/// What hooks are told when a session ends, with the tokens that it used.
pub fn session_end_data(mode: &str, session_id: &str, usage: &Usage) -> (r: Json)
    ensures
        r@ == JsonView::Obj(
            seq![
                ("mode"@, JsonView::Str(mode@)),
                ("session_id"@, JsonView::Str(session_id@)),
                ("total_in"@, JsonView::Num(NumberView::Uint(usage.input))),
                ("total_out"@, JsonView::Num(NumberView::Uint(usage.output))),
            ],
        ),
{
    jobj4(
        "mode",
        jstr(mode),
        "session_id",
        jstr(session_id),
        "total_in",
        juint(usage.input),
        "total_out",
        juint(usage.output),
    )
}

/// What hooks are told of a prompt.
pub fn prompt_data(text: &str) -> (r: Json)
    ensures
        r@ == JsonView::Obj(seq![("prompt"@, JsonView::Str(text@))]),
{
    jobj1("prompt", jstr(text))
}

/// The prompt after the hooks have seen it: none where one blocks it, another where one rewrites it.
pub open spec fn prompt_after(d: DecisionView, text: Seq<char>) -> Option<Seq<char>> {
    match d {
        DecisionView::Continue => Some(text),
        DecisionView::Rewrite(j) => match text_member(j, "prompt"@) {
            Some(t) => Some(t),
            None => Some(text),
        },
        DecisionView::Block(_) => None,
    }
}

/// The prompt after the hooks have seen it.
pub fn prompt_after_hooks(d: &HookDecision, text: String) -> (r: Option<String>)
    ensures
        opt_text(r) == prompt_after(d@, text@),
{
    match d {
        HookDecision::Continue => Some(text),
        HookDecision::Rewrite(j) => match j.get_str("prompt") {
            Some(t) => Some(t),
            None => Some(text),
        },
        HookDecision::Block { reason } => None,
    }
}

/// What is shown when hooks block a prompt.
pub fn blocked_prompt_events() -> (r: Vec<UiEvent>)
    ensures
        ui_views(r@) == seq![
            UiView::Notice("[hook] prompt blocked by user_prompt_submit hook"@),
            UiView::Idle,
        ],
{
    broadcast use ui_views_push;

    let mut v: Vec<UiEvent> = Vec::new();
    v.push(UiEvent::Notice("[hook] prompt blocked by user_prompt_submit hook".to_owned()));
    v.push(UiEvent::Idle);
    assert(ui_views(v@) =~= seq![
        UiView::Notice("[hook] prompt blocked by user_prompt_submit hook"@),
        UiView::Idle,
    ]);
    v
}

/// The exit code of a run that ended so.
pub fn outcome_to_code(outcome: &TurnOutcome) -> (r: u8)
    ensures
        r == match *outcome {
            TurnOutcome::Assistant => 0u8,
            TurnOutcome::Limit => 0u8,
            TurnOutcome::Cancelled => 130u8,
            TurnOutcome::Error(_) => 1u8,
        },
{
    match outcome {
        TurnOutcome::Assistant => 0,
        TurnOutcome::Limit => 0,
        TurnOutcome::Cancelled => 130,
        TurnOutcome::Error(_) => 1,
    }
}

/// A prompt that no hook changes or blocks is put to the model as it is, and one that a hook blocks is
/// not put at all.
pub proof fn law_prompt_hooks(text: Seq<char>, reason: Seq<char>)
    ensures
        prompt_after(DecisionView::Continue, text) == Some(text),
        prompt_after(DecisionView::Block(reason), text) is None,
{
}

/// The system prompt is the base, then the skills where there are any, then what is remembered where there is
/// anything, then the environment.
pub proof fn law_system_prompt(
    base: Seq<char>,
    skills: Seq<char>,
    m: Seq<char>,
    info: Seq<char>,
)
    ensures
        m.len() > 0 ==> system_parts(base, skills, true, Some(m), info) == seq![base, skills, m, info],
        m.len() > 0 ==> system_parts(base, skills, false, Some(m), info) == seq![base, m, info],
        system_parts(base, skills, true, None, info) == seq![base, skills, info],
        system_parts(base, skills, false, None, info) == seq![base, info],
        system_parts(base, skills, true, Some(Seq::empty()), info) == seq![base, skills, info],
        system_parts(base, skills, false, Some(Seq::empty()), info) == seq![base, info],
{
}

/// The requests are logged where the configuration says, and otherwise in a directory of their own.
pub proof fn law_log_kept(root: Seq<char>, config: Config)
    ensures
        config.debug.llm_log_dir matches Some(d) ==> log_dir_of(root, config) == d@,
        config.debug.llm_log_dir is None ==> log_dir_of(root, config) == joined(
            joined(root, "debug"@),
            "llm_log"@,
        ),
{
}

/// A hook may put another prompt in the place of the user's; one that says nothing of the prompt leaves it.
pub proof fn law_prompt_rewritten(j: JsonView, text: Seq<char>, t: Seq<char>)
    ensures
        text_member(j, "prompt"@) == Some(t) ==> prompt_after(DecisionView::Rewrite(j), text) == Some(t),
        text_member(j, "prompt"@) is None ==> prompt_after(DecisionView::Rewrite(j), text) == Some(text),
{
}

/// A model is reached through the provider that is configured for it, with its protocol, its address and its key;
/// one without a provider is reached by its name alone.
pub proof fn law_provider_used(
    p: GenaiProvider,
    root: Seq<char>,
    config: Config,
    m: ModelView,
    cfg: ProviderConfig,
)
    requires
        is_provider_of(p, root, config, m),
    ensures
        p.debug == config.debug.log_requests,
        p.log_dir@ == log_dir_of(root, config),
        entry(config.providers@, m.provider) == Some(cfg) ==> p.protocol == adapter_of(cfg.kind@) && p.protocol
            is Some && opt_text(p.endpoint) == opt_text(cfg.base_url) && opt_text(p.api_key) == opt_text(
            cfg.api_key,
        ) && p.adapter@ == cfg.kind@ && p.label@ == label_of(cfg),
        entry(config.providers@, m.provider) is None ==> p.protocol is None && p.endpoint is None && p.api_key
            is None && p.adapter@ == "auto"@ && p.label@ == "genai-default"@,
{
}

} // verus!
