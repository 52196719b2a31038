//! Trinity: a small language with a lexer, a recursive-descent parser and a
//! tree-walking interpreter, together with the helpers of its command line.
//!
//! - `lexer`: source text to tokens with byte spans, or the diagnostics.
//! - `parser`: tokens to a module of classes and their methods.
//! - `interpreter`: runs a module's `main`; input, output and HTTP calls
//!   go through the host as requests and replies.
//! - `run_laws`: what holds of every run.
//! - `semantic`, `codegen`: the registry of a module's declarations, and
//!   the C program that stands for a module.
//! - `cli`: the decisions of the command line and the package manager.
//! - `ast`, `value`, `error`, `text`: the syntax tree, run-time values,
//!   diagnostics and text helpers.

pub mod text;
pub mod ast;
pub mod error;
pub mod lexer;
pub mod parser;
pub mod value;
pub mod interpreter;
pub mod codegen;
pub mod semantic;
pub mod cli;
pub mod run_laws;
