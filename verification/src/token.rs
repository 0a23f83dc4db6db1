//! Tokens, as a lexer hands them over.

use vstd::prelude::*;
use crate::location::Location;

verus! {

/// The two element keywords.
#[derive(Clone, Copy, Debug, PartialEq, Eq, Hash)]
pub enum Element {
    Text,
    Span,
}

/// The tag that a container keyword carries.
#[derive(Clone, Copy, Debug, PartialEq, Eq, Hash)]
pub struct ContainerKind {
    pub tag: u32,
}

/// Punctuation.
#[derive(Clone, Copy, Debug, PartialEq, Eq, Hash)]
pub enum Operator {
    LBracket,
    RBracket,
    LParen,
    RParen,
    LCurly,
    RCurly,
    Colon,
    Comma,
    Dot,
    Not,
    Plus,
    Minus,
    Mul,
    Div,
    Mod,
    And,
    Or,
    EqualEqual,
    NotEqual,
    GreaterThan,
    GreaterThanOrEqual,
    LessThan,
    LessThanOrEqual,
}

/// The value of a primitive literal.
#[derive(Clone, Copy, Debug, PartialEq, Eq, Hash)]
pub enum Primitive {
    Bool(bool),
    Char(char),
    Int(i64),
    /// A floating-point literal, by the bits of its double-precision encoding.
    Float(u64),
    /// A colour, by its red, green and blue parts.
    Hex(u8, u8, u8),
}

/// What a token is.
#[derive(Clone, Copy, Debug, PartialEq, Eq, Hash)]
pub enum TokenKind {
    /// A run of blanks, with its width.
    Indent(usize),
    Newline,
    /// The end of the input.
    Eof,
    /// A name, with the range of its text.
    Identifier(Location),
    /// A string literal, with the range of its content.
    String(Location),
    Primitive(Primitive),
    Element(Element),
    Container(ContainerKind),
    Decl,
    Local,
    Global,
    Component,
    ComponentSlot,
    For,
    In,
    If,
    Else,
    Switch,
    Case,
    Default,
    With,
    As,
    Operator(Operator),
    Equal,
    /// Text that the lexer could not read, with the lexer's code for what is wrong.
    Error(u32),
}

impl TokenKind {
    pub fn is_newline(&self) -> (yes: bool)
        ensures
            yes == (self is Newline),
    {
        match self {
            TokenKind::Newline => true,
            _ => false,
        }
    }

    pub fn is_indent(&self) -> (yes: bool)
        ensures
            yes == (self is Indent),
    {
        match self {
            TokenKind::Indent(_) => true,
            _ => false,
        }
    }

    pub fn is_eof(&self) -> (yes: bool)
        ensures
            yes == (self is Eof),
    {
        match self {
            TokenKind::Eof => true,
            _ => false,
        }
    }

    /// Whether this is the given punctuation mark.
    pub open spec fn is_operator(self, operator: Operator) -> bool {
        self == TokenKind::Operator(operator)
    }

    /// The width of an indentation marker, and zero for any other token.
    pub open spec fn indent_width(self) -> usize {
        match self {
            TokenKind::Indent(width) => width,
            _ => 0,
        }
    }

    pub fn is_left_bracket(&self) -> (yes: bool)
        ensures
            yes == self.is_operator(Operator::LBracket),
    {
        match self {
            TokenKind::Operator(Operator::LBracket) => true,
            _ => false,
        }
    }

    pub fn is_right_bracket(&self) -> (yes: bool)
        ensures
            yes == self.is_operator(Operator::RBracket),
    {
        match self {
            TokenKind::Operator(Operator::RBracket) => true,
            _ => false,
        }
    }

    pub fn is_colon(&self) -> (yes: bool)
        ensures
            yes == self.is_operator(Operator::Colon),
    {
        match self {
            TokenKind::Operator(Operator::Colon) => true,
            _ => false,
        }
    }

    pub fn is_comma(&self) -> (yes: bool)
        ensures
            yes == self.is_operator(Operator::Comma),
    {
        match self {
            TokenKind::Operator(Operator::Comma) => true,
            _ => false,
        }
    }

    pub fn is_in(&self) -> (yes: bool)
        ensures
            yes == (self is In),
    {
        match self {
            TokenKind::In => true,
            _ => false,
        }
    }
}

/// A token: what it is and where it stands.
#[derive(Clone, Copy, Debug, PartialEq, Eq, Hash)]
pub struct Token {
    pub kind: TokenKind,
    pub location: Location,
}

impl Token {
    pub fn new(kind: TokenKind, location: Location) -> (token: Token)
        ensures
            token == (Token { kind, location }),
    {
        Token { kind, location }
    }

    pub fn kind(&self) -> (kind: TokenKind)
        ensures
            kind == self.kind,
    {
        self.kind
    }

    pub fn location(&self) -> (location: Location)
        ensures
            location == self.location,
    {
        self.location
    }
}

} // verus!
