//! Front end of a small expression-oriented scripting language: a lexer that
//! turns source text into tokens, an abstract syntax tree with a canonical
//! rendering, and a Pratt parser with recovery after errors.
//!
//! `grammar` states what parsing yields over the token sequence; the parser
//! is proved to build exactly that, and `reparse` proves that parsing the
//! canonical rendering of an expression is stable.
pub mod ast;
pub mod grammar;
pub mod lexer;
pub mod parser;
pub mod reparse;
pub mod text;
pub mod token;
