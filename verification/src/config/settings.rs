//! The configuration's sections and their defaults.

use crate::registry::model::{Rate, ReasoningEffort};
use vstd::prelude::*;

verus! {

/// The whole configuration.
#[derive(Debug)]
pub struct Config {
    pub agent: AgentConfig,
    pub reasoning: ReasoningConfig,
    pub skills: SkillsConfig,
    pub mcp: McpConfig,
    /// The providers, by name.
    pub providers: Vec<(String, ProviderConfig)>,
    /// Environment variables to set before any client is built, by name.
    pub env: Vec<(String, String)>,
    pub debug: DebugConfig,
}

/// Debugging switches.
#[derive(Debug)]
pub struct DebugConfig {
    /// Whether every model request is logged.
    pub log_requests: bool,
    /// Where the log goes; the default directory where this is missing.
    pub llm_log_dir: Option<String>,
}

/// How the agent runs.
#[derive(Debug)]
pub struct AgentConfig {
    pub model: String,
    /// The model for compaction and titles; the main model where this is missing.
    pub fast_model: Option<String>,
    /// A file that replaces the built-in persona.
    pub system_prompt_file: Option<String>,
    pub max_turns: u32,
    pub max_output_tokens: Option<u32>,
    pub compact_enabled: bool,
    /// The share of the context window above which the history is compacted.
    pub compact_threshold_ratio: Rate,
    /// How deep tasks may be nested; the built-in limit where this is missing.
    pub subagent_max_depth: Option<u32>,
}

/// How reasoning is asked for and shown.
#[derive(Debug)]
pub struct ReasoningConfig {
    pub effort: Option<ReasoningEffort>,
    pub show_thinking: bool,
}

/// Whether skills are offered.
#[derive(Debug)]
pub struct SkillsConfig {
    pub enabled: bool,
}

/// The MCP servers, by name.
#[derive(Debug)]
pub struct McpConfig {
    pub servers: Vec<(String, McpServerConfig)>,
}

/// One MCP server: a child process (`stdio`) or an endpoint (`http`).
#[derive(Debug)]
pub struct McpServerConfig {
    pub transport: String,
    pub command: Option<String>,
    pub args: Vec<String>,
    pub env: Vec<(String, String)>,
    pub url: Option<String>,
    pub headers: Vec<(String, String)>,
}

/// One model of a provider.
#[derive(Debug)]
pub struct ModelEntry {
    /// Where the catalogue describes the model: `provider_id/model_id`.
    pub meta: String,
    /// The model's name at its provider; the catalogue's model id where this is missing.
    pub api_name: Option<String>,
    /// The reasoning effort that replaces the catalogue's default.
    pub default_reasoning: Option<ReasoningEffort>,
}

/// One provider.
#[derive(Debug)]
pub struct ProviderConfig {
    pub kind: String,
    pub api_key: Option<String>,
    pub base_url: Option<String>,
    /// The provider's models, by name.
    pub models: Vec<(String, ModelEntry)>,
}

impl Default for DebugConfig {
    fn default() -> (r: DebugConfig)
        ensures
            r == (DebugConfig { log_requests: false, llm_log_dir: None }),
    {
        DebugConfig { log_requests: false, llm_log_dir: None }
    }
}

/// The bits of the double 0.75.
pub const RATIO_THREE_QUARTERS: u64 = 0x3FE8_0000_0000_0000;

impl Default for AgentConfig {
    fn default() -> (r: AgentConfig)
        ensures
            r.model@ == "sonnet"@,
            r.fast_model is None,
            r.system_prompt_file is None,
            r.max_turns == 50,
            r.max_output_tokens == Some(16000u32),
            r.compact_enabled,
            r.compact_threshold_ratio == Rate::Bits(RATIO_THREE_QUARTERS),
            r.subagent_max_depth is None,
    {
        AgentConfig {
            model: "sonnet".to_owned(),
            fast_model: None,
            system_prompt_file: None,
            max_turns: 50,
            max_output_tokens: Some(16000),
            compact_enabled: true,
            compact_threshold_ratio: Rate::Bits(RATIO_THREE_QUARTERS),
            subagent_max_depth: None,
        }
    }
}

impl Default for ReasoningConfig {
    fn default() -> (r: ReasoningConfig)
        ensures
            r == (ReasoningConfig { effort: Some(ReasoningEffort::Medium), show_thinking: true }),
    {
        ReasoningConfig { effort: Some(ReasoningEffort::Medium), show_thinking: true }
    }
}

impl Default for SkillsConfig {
    fn default() -> (r: SkillsConfig)
        ensures
            r == (SkillsConfig { enabled: true }),
    {
        SkillsConfig { enabled: true }
    }
}

impl Default for McpConfig {
    fn default() -> (r: McpConfig)
        ensures
            r.servers@.len() == 0,
    {
        McpConfig { servers: Vec::new() }
    }
}

impl Default for Config {
    fn default() -> (r: Config)
        ensures
            r.agent.model@ == "sonnet"@,
            r.agent.fast_model is None,
            r.agent.system_prompt_file is None,
            r.agent.max_turns == 50,
            r.agent.max_output_tokens == Some(16000u32),
            r.agent.compact_enabled,
            r.agent.compact_threshold_ratio == Rate::Bits(RATIO_THREE_QUARTERS),
            r.agent.subagent_max_depth is None,
            r.reasoning == (ReasoningConfig {
                effort: Some(ReasoningEffort::Medium),
                show_thinking: true,
            }),
            r.skills.enabled,
            r.mcp.servers@.len() == 0,
            r.providers@.len() == 0,
            r.env@.len() == 0,
            r.debug == (DebugConfig { log_requests: false, llm_log_dir: None }),
    {
        Config {
            agent: AgentConfig::default(),
            reasoning: ReasoningConfig::default(),
            skills: SkillsConfig::default(),
            mcp: McpConfig::default(),
            providers: Vec::new(),
            env: Vec::new(),
            debug: DebugConfig::default(),
        }
    }
}

} // verus!
