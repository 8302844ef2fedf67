//! The protocol by which another program drives the agent: a JSON document on each line, in both
//! directions.

pub mod protocol;
pub mod reader;
pub mod runner;
pub mod sink;
