//! Settings of a single Unix shell: the shell flags, the option parser of
//! `set` and of the command line, and the stack of positional parameters;
//! the lexer and parser of arithmetic expressions; and the decisions the shell
//! makes about signals and the wait statuses of processes.

pub mod args;
pub mod builtins;
pub mod io;
pub mod lexer;
pub mod parser;
pub mod precedence;
pub mod settings;
pub mod signals;
pub mod wait_status;
mod text;
