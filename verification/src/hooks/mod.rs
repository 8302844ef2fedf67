//! Hooks: commands of the user's that run at points of the agent's life, see what happens there, and
//! can rewrite or block it.

pub mod registry;
pub mod runner;
pub mod types;

pub use registry::{HookChain, HookRegistry};
pub use types::{HookConfig, HookDecision, HookEvent, HookMatcher, HookOutcome, HookPayload};
