//! The command line: what its options choose, what it prints, and the commands of the interactive mode.

pub mod complete;
pub mod repl;
pub mod report;
pub mod select;
pub mod startup;
