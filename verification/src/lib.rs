//! Verified core of a small interactive Unix-like shell: the command-line
//! tokenizer and parser, the test of balanced quotes, the planning of built-in
//! commands, the `ls` listing logic and the line editor of the prompt.

pub mod text;
pub mod tokenizer;
pub mod parser;
pub mod check_quotes;
pub mod pwd_state;
pub mod executor;
pub mod ls_args;
pub mod ls_order;
pub mod ls_format;
pub mod commands;
pub mod repl;

