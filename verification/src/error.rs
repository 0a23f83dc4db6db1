//! Why a parse stops.

use vstd::prelude::*;
use crate::token::Token;

verus! {

/// The conditions that end a parse at once. A token that is merely out of place inside a
/// list is no such condition: it becomes an error node, and the parse goes on.
#[derive(Clone, Copy, Debug, PartialEq, Eq, Hash)]
pub enum ParseError {
    /// Blocks are nested more deeply than the parser's limit allows.
    RecursionLimit,
    /// A keyword whose construct the grammar does not define yet: `if`, `switch`, `with`.
    Unsupported(Token),
    /// A token that cannot begin a node.
    Unexpected(Token),
}

} // verus!
