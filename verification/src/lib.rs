//! An indentation-sensitive parser for a declarative markup language.
//!
//! A stream of tokens becomes a tree of nodes and a table of lexical scopes. The block
//! structure comes from the indentation of the lines alone. A token that is out of place
//! in a list of values or attributes becomes an error node, and the parse goes on.
//!
//! - [`token`] and [`location`]: the tokens that a lexer hands over.
//! - [`tokens`]: the cursor over them.
//! - [`expression`]: the grammar of expressions, which is not this crate's.
//! - [`ast`]: the tree, and the mathematical value of each of its parts.
//! - [`span`]: how the range of a node is merged from the ranges of its parts.
//! - [`grammar`]: what the parser builds, as functions of the tokens.
//! - [`parser`]: the parser, which is proved to build exactly that.
//! - [`laws`]: what holds of every parse.
//! - [`error`]: why a parse stops.

pub mod ast;
pub mod error;
pub mod expression;
pub mod grammar;
pub mod laws;
pub mod location;
pub mod parser;
pub mod span;
pub mod token;
pub mod tokens;
