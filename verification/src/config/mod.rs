//! The configuration.

pub mod interpolate;
pub mod paths;
pub mod settings;

pub use interpolate::interpolate;
pub use settings::{
    AgentConfig, Config, DebugConfig, McpConfig, McpServerConfig, ModelEntry, ProviderConfig,
    ReasoningConfig, SkillsConfig,
};
