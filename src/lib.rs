//! A small interactive command interpreter: a lexer that turns a line into
//! typed tokens, a resolver that turns tokens into commands, and the
//! decisions of the execution engine, each stated and proved with Verus.

pub mod command;
pub mod engine;
pub mod history;
pub mod laws;
pub mod parser;
pub mod round_trip;
pub mod session;
pub mod text;
pub mod tokenizer;
