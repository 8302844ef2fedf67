//! The logic of the carter command-line coding agent: what it decides, parses, renders and records.

pub mod agent;
pub mod bytes;
pub mod cli;
pub mod commands;
pub mod config;
pub mod error;
pub mod hooks;
pub mod json;
pub mod mcp;
pub mod media;
pub mod memory;
pub mod ndjson;
pub mod number;
pub mod order;
pub mod prompt;
pub mod provider;
pub mod registry;
pub mod session;
pub mod skills;
pub mod split;
pub mod table;
pub mod text;
pub mod tokens;
pub mod tools;
pub mod written;
