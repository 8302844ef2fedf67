//! Configuration, paths and the model registry.

use carter::config::interpolate::interpolate;
use carter::config::paths::{
    carter_home, config_path, file_name_of, join_path, models_cache_path, skill_memory_path, skills_dir,
};
use carter::config::settings::{
    AgentConfig, Config, DebugConfig, McpConfig, ModelEntry, ProviderConfig, ReasoningConfig, SkillsConfig,
    RATIO_THREE_QUARTERS,
};
use carter::error::CarterError;
use carter::registry::fetch::{count_models, read_cache, update_report, MODELS_DEV_URL};
use carter::registry::model::{Capability, Rate, ReasoningEffort};
use carter::registry::models_dev::lookup;
use carter::registry::resolve::resolve_model;

fn config(provider: &str, model: &str, meta: &str, api_name: Option<&str>) -> Config {
    Config {
        agent: AgentConfig {
            model: String::new(),
            fast_model: None,
            system_prompt_file: None,
            max_turns: 50,
            max_output_tokens: None,
            compact_enabled: true,
            compact_threshold_ratio: Rate::Bits(RATIO_THREE_QUARTERS),
            subagent_max_depth: None,
        },
        reasoning: ReasoningConfig { effort: None, show_thinking: true },
        skills: SkillsConfig { enabled: true },
        mcp: McpConfig { servers: vec![] },
        providers: vec![(
            provider.to_string(),
            ProviderConfig {
                kind: "anthropic".into(),
                api_key: None,
                base_url: None,
                models: vec![(
                    model.to_string(),
                    ModelEntry {
                        meta: meta.to_string(),
                        api_name: api_name.map(|s| s.to_string()),
                        default_reasoning: None,
                    },
                )],
            },
        )],
        env: vec![],
        debug: DebugConfig { log_requests: false, llm_log_dir: None },
    }
}

#[test]
fn three_quarters_is_the_double() {
    assert_eq!(f64::from_bits(RATIO_THREE_QUARTERS), 0.75);
}

#[test]
fn replaces_defined_var() {
    let env = vec![("CARTER_TEST_KEY".to_string(), "secret123".to_string())];
    assert_eq!(interpolate("${CARTER_TEST_KEY}", &env), "secret123");
    assert_eq!(interpolate("prefix-${CARTER_TEST_KEY}-suffix", &env), "prefix-secret123-suffix");
}

#[test]
fn keeps_undefined_var() {
    assert_eq!(interpolate("${CARTER_UNDEFINED_XYZ}", &vec![]), "${CARTER_UNDEFINED_XYZ}");
}

#[test]
fn no_placeholder_passthrough() {
    assert_eq!(interpolate("plain 文本 text", &vec![]), "plain 文本 text");
}

#[test]
fn carter_home_respects_env_override() {
    let root = carter_home(Some("/tmp/custom-carter".to_string()), Some("/home/u".to_string()));
    assert_eq!(root, "/tmp/custom-carter");
    assert_eq!(config_path(&root), "/tmp/custom-carter/config.toml");
    assert_eq!(models_cache_path(&root), "/tmp/custom-carter/models.json");
    assert_eq!(skills_dir(&root), "/tmp/custom-carter/skills");
}

#[test]
fn carter_home_stands_in_the_home_directory() {
    assert_eq!(carter_home(None, Some("/home/u".to_string())), "/home/u/.carter");
}

#[test]
fn paths_are_joined() {
    assert_eq!(join_path("/a", "b"), "/a/b");
    assert_eq!(join_path("/a/", "b"), "/a/b");
    assert_eq!(join_path("/a", "/b"), "/b");
    assert_eq!(file_name_of("/a/b.txt").as_deref(), Some("b.txt"));
    assert_eq!(file_name_of("/"), None);
    assert!(skill_memory_path("/r", "s").ends_with("s.md"));
}

const CACHE: &str = r#"{
  "anthropic": { "models": { "sonnet-4-5": {
    "id": "sonnet-4-5", "tool_call": true, "reasoning": true,
    "reasoning_options": [{"type":"budget_tokens"}],
    "modalities": {"input":["text","image"]},
    "limit": {"context": 200000, "output": 64000},
    "cost": {"input": 3, "output": 15, "cache_read": 0.3}
  }}}
}"#;

fn config_with_model() -> Config {
    config("ws", "sonnet", "anthropic/sonnet-4-5", Some("sonnet-4-6"))
}

fn resolved(cfg: &Config, reference: &str) -> carter::registry::model::ModelInfo {
    match resolve_model(cfg, CACHE, reference) {
        Ok(m) => m,
        Err(e) => panic!("{}", e.message()),
    }
}

#[test]
fn resolves_with_overrides() {
    let cfg = config_with_model();
    let info = resolved(&cfg, "ws/sonnet");
    assert_eq!(info.provider, "ws");
    assert_eq!(info.api_name, "sonnet-4-6");
    assert_eq!(info.context_window, 200000);
    assert!(info.supports(&Capability::Thinking));
}

#[test]
fn api_name_defaults_to_model_id() {
    let cfg = config("p", "s", "anthropic/sonnet-4-5", None);
    let info = resolved(&cfg, "p/s");
    assert_eq!(info.api_name, "sonnet-4-5");
}

#[test]
fn bad_reference_format_errors() {
    let cfg = config_with_model();
    assert!(resolve_model(&cfg, CACHE, "sonnet").is_err());
}

#[test]
fn unknown_provider_errors() {
    let cfg = config_with_model();
    assert!(resolve_model(&cfg, CACHE, "nope/sonnet").is_err());
}

#[test]
fn unknown_model_errors() {
    let cfg = config_with_model();
    assert!(resolve_model(&cfg, CACHE, "ws/nope").is_err());
}

#[test]
fn meta_not_in_cache_errors() {
    let cfg = config("p", "x", "anthropic/does-not-exist", None);
    assert!(resolve_model(&cfg, CACHE, "p/x").is_err());
}

const SAMPLE: &str = r#"{
  "anthropic": {
    "id": "anthropic",
    "models": {
      "sonnet-4-5": {
        "id": "sonnet-4-5",
        "attachment": true,
        "reasoning": true,
        "reasoning_options": [{"type":"budget_tokens","min":1024}],
        "tool_call": true,
        "modalities": { "input": ["text","image","pdf"], "output": ["text"] },
        "limit": { "context": 200000, "output": 64000 },
        "cost": { "input": 3, "output": 15, "cache_read": 0.3, "cache_write": 3.75 }
      }
    }
  },
  "local": {
    "models": {
      "free-model": {
        "id": "free-model",
        "tool_call": true,
        "modalities": { "input": ["text"], "output": ["text"] },
        "limit": { "context": 8192, "output": 2048 }
      }
    }
  }
}"#;

fn price(r: Rate) -> f64 {
    match r {
        Rate::Uint(n) => n as f64,
        Rate::Int(n) => n as f64,
        Rate::Bits(b) => f64::from_bits(b),
    }
}

#[test]
fn maps_full_model() {
    let m = lookup(SAMPLE, "anthropic", "sonnet-4-5").unwrap();
    assert_eq!(m.context_window, 200000);
    assert_eq!(m.max_output_tokens, 64000);
    assert_eq!(price(m.pricing.input), 3.0);
    assert_eq!(price(m.pricing.output), 15.0);
    assert_eq!(m.pricing.cache_read.map(price), Some(0.3));
    assert!(m.supports(&Capability::Tools));
    assert!(m.supports(&Capability::Vision));
    assert!(m.supports(&Capability::Thinking));
    assert!(m.supports(&Capability::Pdf));
    assert!(m.supports(&Capability::Streaming));
    assert!(m.supports(&Capability::PromptCache));
    assert_eq!(m.default_reasoning, Some(ReasoningEffort::Medium));
}

#[test]
fn missing_cost_degrades_to_zero() {
    let m = lookup(SAMPLE, "local", "free-model").unwrap();
    assert_eq!(price(m.pricing.input), 0.0);
    assert_eq!(price(m.pricing.output), 0.0);
    assert!(m.pricing.cache_read.is_none());
    assert!(!m.supports(&Capability::PromptCache));
    assert!(!m.supports(&Capability::Vision));
    assert!(!m.supports(&Capability::Thinking));
    assert_eq!(m.default_reasoning, None);
}

#[test]
fn unknown_returns_none() {
    assert!(lookup(SAMPLE, "anthropic", "nope").is_none());
    assert!(lookup(SAMPLE, "nope", "x").is_none());
}

#[test]
fn cache_is_counted_and_asked_for() {
    assert_eq!(count_models(SAMPLE), (2, 2));
    assert_eq!(count_models("not json"), (0, 0));
    assert!(matches!(read_cache(Some("{}".into()), "/m.json"), Ok(s) if s == "{}"));
    assert!(matches!(read_cache(None, "/m.json"), Err(e) if e.message().contains("/m.json")));
    assert!(update_report(2, 5, "/m.json").contains("5"));
    assert!(MODELS_DEV_URL.starts_with("https://"));
}

#[test]
fn errors_say_what_they_are() {
    assert!(CarterError::ModelNotFound("x/y".into()).message().contains("x/y"));
    assert!(CarterError::Config("bad".into()).message().contains("bad"));
    assert!(CarterError::Provider("down".into()).message().contains("down"));
    assert!(CarterError::Io("gone".into()).message().contains("gone"));
    assert!(CarterError::TomlParse("line 1".into()).message().contains("line 1"));
    assert!(CarterError::Other("else".into()).message().contains("else"));
}
