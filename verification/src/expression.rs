//! Expressions, which another grammar reads.
//!
//! The parser does not know how an expression is written. It asks an
//! [`ExpressionParser`] to read one where the grammar wants one, and keeps what comes
//! back: where the expression stands, whether it is malformed, and how many tokens it
//! spans.

use vstd::prelude::*;
use crate::location::Location;
use crate::token::{Token, TokenKind};
use crate::tokens::{past_indents, token_at, Tokens};

verus! {

/// One expression, as far as the parser looks at it.
#[derive(Clone, Copy, Debug, PartialEq, Eq, Hash)]
pub struct Expression {
    /// The range of the expression's source.
    pub location: Location,
    /// Whether the expression is malformed.
    pub has_error: bool,
    /// The number of tokens that the expression spans.
    pub width: usize,
}

impl Expression {
    pub fn location(&self) -> (location: Location)
        ensures
            location == self.location,
    {
        self.location
    }

    pub fn has_error(&self) -> (yes: bool)
        ensures
            yes == self.has_error,
    {
        self.has_error
    }
}

/// A grammar of expressions.
pub trait ExpressionParser {
    /// The expression that this grammar reads in `tokens` from `pos` on. A grammar that
    /// is to be reasoned about says here what it reads; of any other, nothing is known.
    open spec fn expression(&self, tokens: Seq<Token>, pos: int) -> Expression {
        arbitrary()
    }

    /// Reads the expression that begins at the cursor. The cursor stays where it is: the
    /// caller moves it by the expression's width.
    fn parse_expression(&self, tokens: &Tokens) -> (expression: Expression)
        ensures
            expression == self.expression(tokens@, tokens.pos()),
    ;
}

/// The smallest grammar: an expression is one identifier, one string or one primitive
/// literal, with any indentation markers before it. Where another token comes first, the
/// expression is malformed and spans the markers only.
#[derive(Clone, Copy, Debug, PartialEq, Eq, Hash)]
pub struct Atoms;

impl Atoms {
    /// Whether a token of this kind is an expression by itself.
    pub open spec fn is_atom(kind: TokenKind) -> bool {
        kind is Identifier || kind is String || kind is Primitive
    }

    /// The expression that begins at `pos`.
    pub open spec fn atom(tokens: Seq<Token>, pos: int) -> Expression {
        let at = past_indents(tokens, pos);
        let token = token_at(tokens, at);
        if Self::is_atom(token.kind) {
            Expression { location: token.location, has_error: false, width: (at - pos + 1) as usize }
        } else {
            Expression { location: token.location, has_error: true, width: (at - pos) as usize }
        }
    }
}

impl ExpressionParser for Atoms {
    open spec fn expression(&self, tokens: Seq<Token>, pos: int) -> Expression {
        Self::atom(tokens, pos)
    }

    fn parse_expression(&self, tokens: &Tokens) -> (expression: Expression) {
        let start: usize = tokens.position();
        let len: usize = tokens.len();
        let mut at: usize = start;
        while at < len && tokens.get(at).kind.is_indent()
            invariant
                start <= at <= len,
                len == tokens@.len(),
                past_indents(tokens@, at as int) == past_indents(tokens@, start as int),
            decreases len - at,
        {
            at = at + 1;
        }
        let token = tokens.get(at);
        match token.kind {
            TokenKind::Identifier(_) | TokenKind::String(_) | TokenKind::Primitive(_) => Expression {
                location: token.location,
                has_error: false,
                width: at - start + 1,
            },
            _ => Expression { location: token.location, has_error: true, width: at - start },
        }
    }
}

} // verus!
