//! Slash commands: the built-in ones and those that the user writes as Markdown files.

pub mod expand;
pub mod loader;
pub mod registry;

pub use expand::expand;
pub use registry::{builtins, is_builtin, Builtin, Scope, SlashCommand};
