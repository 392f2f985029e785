//! The core of a small interactive shell: the lexer that turns a command
//! line into a command, its arguments and its output redirections, and the
//! decisions the shell takes around running a command.

pub mod builtins;
pub mod laws;
pub mod lexer;
pub mod plan;
pub mod process;
pub mod text;
