//! A line-oriented command interpreter core: a lexer that turns a line of
//! shell syntax into positioned tokens, a recursive-descent parser that
//! builds a command tree, and an executor that evaluates the tree against
//! in-memory streams and an in-memory file table.
//!
//! Real process spawning and real file handles belong to the host program;
//! the library confines itself to the grammar and the execution semantics,
//! which are stated as contracts over sequence- and map-level models.

pub mod ast;
pub mod commands;
pub mod echo;
pub mod error;
pub mod executor;
pub mod fs;
pub mod laws;
pub mod lexer;
pub mod parser;
pub mod streams;
pub mod text;
pub mod tokens;
