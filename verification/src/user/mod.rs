//! User programs.
pub mod demos;
pub mod exchanges;
pub mod script;
pub mod selftest;
pub mod session;
pub mod shell;
pub mod shell_path;
pub mod verdicts;
