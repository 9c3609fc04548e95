//! A small command-line file manager: it parses a subcommand with its
//! arguments into a typed `Command`, and carries out the recursive delete
//! and directory listing operations that the command names against a
//! filesystem snapshot, reporting per-target success or failure.

pub mod command;
pub mod config;
pub mod errors;
pub mod filesystem;
pub mod terminal;
pub mod glob;
pub mod paths;

pub use command::Command;
pub use config::build_config;
pub use errors::Fallible;
pub use glob::GlobPattern;
