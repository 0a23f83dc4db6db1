//! The token cursor, and what each of its moves means on a sequence of tokens.

use vstd::prelude::*;
use crate::location::Location;
use crate::token::{Operator, Token, TokenKind};

verus! {

/// Where the input ends: the empty range behind the last token.
pub open spec fn end_of_input(tokens: Seq<Token>) -> Location {
    if tokens.len() == 0 {
        Location::point(0)
    } else {
        Location::point(tokens.last().location.end)
    }
}

/// The token at `pos`, and the end-of-input sentinel where there is none.
pub open spec fn token_at(tokens: Seq<Token>, pos: int) -> Token {
    if 0 <= pos < tokens.len() {
        tokens[pos]
    } else {
        Token { kind: TokenKind::Eof, location: end_of_input(tokens) }
    }
}

/// The position behind the token at `pos`; the end of the input is never passed.
pub open spec fn past_token(tokens: Seq<Token>, pos: int) -> int {
    if 0 <= pos < tokens.len() {
        pos + 1
    } else {
        pos
    }
}

/// The position `count` tokens behind `pos`, and the end of the input if that is nearer.
pub open spec fn past_tokens(tokens: Seq<Token>, pos: int, count: int) -> int {
    if pos + count <= tokens.len() {
        pos + count
    } else if pos <= tokens.len() {
        tokens.len() as int
    } else {
        pos
    }
}

/// The position behind the one indentation marker at `pos`, if there is one.
pub open spec fn past_indent(tokens: Seq<Token>, pos: int) -> int {
    if token_at(tokens, pos).kind is Indent {
        pos + 1
    } else {
        pos
    }
}

/// The position of the first token from `pos` on that is no blank-line marker.
pub open spec fn past_newlines(tokens: Seq<Token>, pos: int) -> int
    decreases tokens.len() - pos,
{
    if token_at(tokens, pos).kind is Newline {
        past_newlines(tokens, pos + 1)
    } else {
        pos
    }
}

/// The position of the first token from `pos` on that is no indentation marker.
pub open spec fn past_indents(tokens: Seq<Token>, pos: int) -> int
    decreases tokens.len() - pos,
{
    if token_at(tokens, pos).kind is Indent {
        past_indents(tokens, pos + 1)
    } else {
        pos
    }
}

/// The position of the first token from `pos` on that is neither an indentation marker
/// nor a blank-line marker.
pub open spec fn past_whitespace(tokens: Seq<Token>, pos: int) -> int
    decreases tokens.len() - pos,
{
    if token_at(tokens, pos).kind is Indent || token_at(tokens, pos).kind is Newline {
        past_whitespace(tokens, pos + 1)
    } else {
        pos
    }
}

/// The position of the first closing bracket or end-of-input token from `pos` on.
pub open spec fn past_bracket_content(tokens: Seq<Token>, pos: int) -> int
    decreases tokens.len() - pos,
{
    let kind = token_at(tokens, pos).kind;
    if kind.is_operator(Operator::RBracket) || kind is Eof {
        pos
    } else {
        past_bracket_content(tokens, pos + 1)
    }
}

/// `past_newlines` moves forward only, stays inside the input, and stops at a token that
/// is no blank-line marker.
pub proof fn lemma_past_newlines(tokens: Seq<Token>, pos: int)
    requires
        0 <= pos <= tokens.len(),
    ensures
        pos <= past_newlines(tokens, pos) <= tokens.len(),
        !(token_at(tokens, past_newlines(tokens, pos)).kind is Newline),
    decreases tokens.len() - pos,
{
    if token_at(tokens, pos).kind is Newline {
        lemma_past_newlines(tokens, pos + 1);
    }
}

/// `past_indents` moves forward only, stays inside the input, and stops at a token that
/// is no indentation marker.
pub proof fn lemma_past_indents(tokens: Seq<Token>, pos: int)
    requires
        0 <= pos <= tokens.len(),
    ensures
        pos <= past_indents(tokens, pos) <= tokens.len(),
        !(token_at(tokens, past_indents(tokens, pos)).kind is Indent),
    decreases tokens.len() - pos,
{
    if token_at(tokens, pos).kind is Indent {
        lemma_past_indents(tokens, pos + 1);
    }
}

/// `past_whitespace` moves forward only, stays inside the input, and stops at a token
/// that is neither kind of marker.
pub proof fn lemma_past_whitespace(tokens: Seq<Token>, pos: int)
    requires
        0 <= pos <= tokens.len(),
    ensures
        pos <= past_whitespace(tokens, pos) <= tokens.len(),
        !(token_at(tokens, past_whitespace(tokens, pos)).kind is Indent),
        !(token_at(tokens, past_whitespace(tokens, pos)).kind is Newline),
    decreases tokens.len() - pos,
{
    if token_at(tokens, pos).kind is Indent || token_at(tokens, pos).kind is Newline {
        lemma_past_whitespace(tokens, pos + 1);
    }
}

/// `past_bracket_content` moves forward only, stays inside the input, and stops at a
/// closing bracket or at the end of the input.
pub proof fn lemma_past_bracket_content(tokens: Seq<Token>, pos: int)
    requires
        0 <= pos <= tokens.len(),
    ensures
        pos <= past_bracket_content(tokens, pos) <= tokens.len(),
        ({
            let kind = token_at(tokens, past_bracket_content(tokens, pos)).kind;
            kind.is_operator(Operator::RBracket) || kind is Eof
        }),
    decreases tokens.len() - pos,
{
    let kind = token_at(tokens, pos).kind;
    if !(kind.is_operator(Operator::RBracket) || kind is Eof) {
        lemma_past_bracket_content(tokens, pos + 1);
    }
}

/// A cursor over a sequence of tokens. It moves forward only and never leaves the input.
#[derive(Debug)]
pub struct Tokens {
    items: Vec<Token>,
    index: usize,
}

impl View for Tokens {
    type V = Seq<Token>;

    /// All the tokens, read or not.
    closed spec fn view(&self) -> Seq<Token> {
        self.items@
    }
}

impl Tokens {
    #[verifier::type_invariant]
    spec fn inside(&self) -> bool {
        self.index <= self.items.len()
    }

    /// The number of tokens that have been read.
    pub closed spec fn pos(&self) -> int {
        if self.index <= self.items.len() {
            self.index as int
        } else {
            self.items.len() as int
        }
    }

    /// The cursor stands inside the input.
    pub proof fn lemma_inside(&self)
        ensures
            0 <= self.pos() <= self@.len(),
    {
    }

    /// A cursor at the first of `items`.
    pub fn new(items: Vec<Token>) -> (tokens: Tokens)
        ensures
            tokens@ == items@,
            tokens.pos() == 0,
    {
        Tokens { items, index: 0 }
    }

    /// The number of tokens that have been read.
    pub fn position(&self) -> (position: usize)
        ensures
            position == self.pos(),
            position <= self@.len(),
    {
        proof {
            use_type_invariant(self);
        }
        self.index
    }

    /// The number of tokens, read or not.
    pub fn len(&self) -> (len: usize)
        ensures
            len == self@.len(),
            self.pos() <= len,
    {
        proof {
            use_type_invariant(self);
        }
        self.items.len()
    }

    /// The token at `position`, and the end-of-input sentinel where there is none.
    pub fn get(&self, position: usize) -> (token: Token)
        ensures
            token == token_at(self@, position as int),
    {
        if position < self.items.len() {
            self.items[position]
        } else if self.items.len() == 0 {
            Token { kind: TokenKind::Eof, location: Location { start: 0, end: 0 } }
        } else {
            let end: usize = self.items[self.items.len() - 1].location.end;
            Token { kind: TokenKind::Eof, location: Location { start: end, end } }
        }
    }

    /// The next token, which stays unread.
    pub fn peek(&self) -> (token: Token)
        ensures
            token == token_at(self@, self.pos()),
            0 <= self.pos() <= self@.len(),
    {
        proof {
            use_type_invariant(self);
        }
        self.get(self.index)
    }

    /// Reads one token, whatever it is. At the end of the input nothing happens.
    pub fn consume(&mut self)
        ensures
            final(self)@ == old(self)@,
            final(self).pos() == past_token(old(self)@, old(self).pos()),
            0 <= old(self).pos() <= final(self).pos() <= old(self)@.len(),
    {
        proof {
            use_type_invariant(&*self);
        }
        if self.index < self.items.len() {
            self.index = self.index + 1;
        }
    }

    /// Reads one token and returns it.
    pub fn next_token(&mut self) -> (token: Token)
        ensures
            token == token_at(old(self)@, old(self).pos()),
            final(self)@ == old(self)@,
            final(self).pos() == past_token(old(self)@, old(self).pos()),
            0 <= old(self).pos() <= final(self).pos() <= old(self)@.len(),
    {
        let token = self.peek();
        self.consume();
        token
    }

    /// Reads `count` tokens, or all that are left if they are fewer.
    pub fn advance(&mut self, count: usize)
        ensures
            final(self)@ == old(self)@,
            final(self).pos() == past_tokens(old(self)@, old(self).pos(), count as int),
            0 <= old(self).pos() <= final(self).pos() <= old(self)@.len(),
    {
        proof {
            use_type_invariant(&*self);
        }
        if count <= self.items.len() - self.index {
            self.index = self.index + count;
        } else {
            self.index = self.items.len();
        }
    }

    /// Reads one indentation marker, if one is next.
    pub fn consume_indent(&mut self)
        ensures
            final(self)@ == old(self)@,
            final(self).pos() == past_indent(old(self)@, old(self).pos()),
            0 <= old(self).pos() <= final(self).pos() <= old(self)@.len(),
    {
        if self.peek().kind.is_indent() {
            self.consume();
        }
    }

    /// Reads all the blank-line markers that come next.
    pub fn consume_newlines(&mut self)
        ensures
            final(self)@ == old(self)@,
            final(self).pos() == past_newlines(old(self)@, old(self).pos()),
            0 <= old(self).pos() <= final(self).pos() <= old(self)@.len(),
            !(token_at(final(self)@, final(self).pos()).kind is Newline),
    {
        proof {
            use_type_invariant(&*self);
        }
        loop
            invariant
                self@ == old(self)@,
                0 <= old(self).pos() <= self.pos() <= self@.len(),
                past_newlines(self@, self.pos()) == past_newlines(old(self)@, old(self).pos()),
            ensures
                self.pos() == past_newlines(old(self)@, old(self).pos()),
                !(token_at(self@, self.pos()).kind is Newline),
            decreases self@.len() - self.pos(),
        {
            if !self.peek().kind.is_newline() {
                break;
            }
            self.consume();
        }
    }

    /// Reads all the indentation markers that come next and returns the token behind
    /// them, which stays unread.
    pub fn peek_skip_indent(&mut self) -> (token: Token)
        ensures
            final(self)@ == old(self)@,
            final(self).pos() == past_indents(old(self)@, old(self).pos()),
            0 <= old(self).pos() <= final(self).pos() <= old(self)@.len(),
            token == token_at(final(self)@, final(self).pos()),
            !(token.kind is Indent),
    {
        proof {
            use_type_invariant(&*self);
        }
        loop
            invariant
                self@ == old(self)@,
                0 <= old(self).pos() <= self.pos() <= self@.len(),
                past_indents(self@, self.pos()) == past_indents(old(self)@, old(self).pos()),
            ensures
                self.pos() == past_indents(old(self)@, old(self).pos()),
                !(token_at(self@, self.pos()).kind is Indent),
            decreases self@.len() - self.pos(),
        {
            if !self.peek().kind.is_indent() {
                break;
            }
            self.consume();
        }
        self.peek()
    }

    /// Reads all the indentation and blank-line markers that come next.
    pub fn consume_all_whitespace(&mut self)
        ensures
            final(self)@ == old(self)@,
            final(self).pos() == past_whitespace(old(self)@, old(self).pos()),
            0 <= old(self).pos() <= final(self).pos() <= old(self)@.len(),
    {
        proof {
            use_type_invariant(&*self);
        }
        loop
            invariant
                self@ == old(self)@,
                0 <= old(self).pos() <= self.pos() <= self@.len(),
                past_whitespace(self@, self.pos()) == past_whitespace(
                    old(self)@,
                    old(self).pos(),
                ),
            ensures
                self.pos() == past_whitespace(old(self)@, old(self).pos()),
            decreases self@.len() - self.pos(),
        {
            let kind = self.peek().kind;
            if !kind.is_indent() && !kind.is_newline() {
                break;
            }
            self.consume();
        }
    }
}

} // verus!
