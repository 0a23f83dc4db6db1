//! What the parser builds, as functions of the tokens.
//!
//! Each function of this file reads one construct at a position of the token sequence
//! and says which node it is and where the next construct begins. The functions that can
//! enter a block also carry the scopes made so far. None of them is executable: they are
//! the definition that [`crate::parser::Parser`] is proved against.

use vstd::prelude::*;
use crate::ast::{is_forest, last_location, AstView, AttributesView, NodeView, ScopeView};
use crate::ast::DeclarationKind;
use crate::error::ParseError;
use crate::expression::ExpressionParser;
use crate::location::Location;
use crate::span::{merged_with_values, merged_without_values};
use crate::token::{Element, Operator, Token, TokenKind};
use crate::tokens::{
    lemma_past_bracket_content, lemma_past_indents, lemma_past_newlines, lemma_past_whitespace,
    past_bracket_content, past_indent, past_indents, past_newlines, past_token, past_tokens,
    past_whitespace, token_at,
};

verus! {

/// Where a parse stands: the position in the tokens, the scopes made so far, the scopes of
/// the blocks that are open (outermost first), and the number of blocks entered so far.
pub struct State {
    pub pos: int,
    pub scopes: Seq<ScopeView>,
    pub open: Seq<usize>,
    pub entered: nat,
}

impl State {
    /// The state at the first token, before any block.
    pub open spec fn initial(pos: int) -> State {
        State { pos, scopes: Seq::empty(), open: Seq::empty(), entered: 0 }
    }

    /// The same state at another position.
    pub open spec fn at(self, pos: int) -> State {
        State { pos, ..self }
    }

    /// The scope of the innermost open block.
    pub open spec fn innermost(self) -> Option<usize> {
        if self.open.len() == 0 {
            None
        } else {
            Some(self.open.last())
        }
    }

    /// The state inside a block that is entered here: the block has a new, empty scope,
    /// whose parent is the scope of the block around it.
    pub open spec fn enter(self) -> State {
        State {
            pos: self.pos,
            scopes: self.scopes.push(
                ScopeView { variables: Seq::empty(), parent: self.innermost() },
            ),
            open: self.open.push(self.scopes.len() as usize),
            entered: self.entered + 1,
        }
    }

    /// The state behind the innermost open block.
    pub open spec fn leave(self) -> State {
        State {
            open: if self.open.len() == 0 {
                self.open
            } else {
                self.open.drop_last()
            },
            ..self
        }
    }

    /// The scopes are a forest in which every parent was made before its children, every
    /// open block has its scope, and every block that was entered has made one scope.
    pub open spec fn well_formed(self) -> bool {
        &&& self.scopes.len() == self.entered
        &&& is_forest(self.scopes)
        &&& forall|k: int| 0 <= k < self.open.len() ==> #[trigger] self.open[k] < self.scopes.len()
    }
}

/// What reading a construct gives: the construct and the state behind it, or the
/// condition that ended the parse.
pub type Outcome<T> = Result<(T, State), ParseError>;

/// The node for a name at `pos`, and the position behind it. A token that is no
/// identifier is read all the same and gives an error node.
pub open spec fn identifier(tokens: Seq<Token>, pos: int) -> (NodeView, int) {
    let token = token_at(tokens, pos);
    (
        match token.kind {
            TokenKind::Identifier(name) => NodeView::Identifier(name),
            kind => NodeView::Error { token: kind, location: token.location },
        },
        past_token(tokens, pos),
    )
}

/// The node for the string literal at `pos`, and the position behind it.
pub open spec fn string(tokens: Seq<Token>, pos: int) -> (NodeView, int) {
    (NodeView::String(token_at(tokens, pos).location), past_token(tokens, pos))
}

/// The node of one inline value: a name, a primitive or a string; an error node for any
/// other token.
pub open spec fn value(token: Token) -> NodeView {
    match token.kind {
        TokenKind::Identifier(name) => NodeView::Identifier(name),
        TokenKind::Primitive(value) => NodeView::Primitive { value, location: token.location },
        TokenKind::String(_) => NodeView::String(token.location),
        kind => NodeView::Error { token: kind, location: token.location },
    }
}

/// The inline values from `pos` to the end of the line, and the position of the token
/// that ends the line. Indentation markers between the values do not count.
pub open spec fn values(tokens: Seq<Token>, pos: int) -> (Seq<NodeView>, int)
    decreases tokens.len() - pos,
    when 0 <= pos <= tokens.len()
{
    let at = past_indents(tokens, pos);
    let token = token_at(tokens, at);
    if token.kind is Newline || token.kind is Eof {
        (Seq::empty(), at)
    } else {
        proof {
            lemma_past_indents(tokens, pos);
        }
        let rest = values(tokens, at + 1);
        (seq![value(token)] + rest.0, rest.1)
    }
}

/// The position behind the comma that may follow an attribute.
pub open spec fn past_comma(tokens: Seq<Token>, pos: int) -> int {
    let at = past_indents(tokens, pos);
    if token_at(tokens, at).kind.is_operator(Operator::Comma) {
        at + 1
    } else {
        at
    }
}

/// Where the value of the attribute begins whose name is the token at `pos`: behind the
/// name, a colon if there is one, and the markers around it.
pub open spec fn attribute_value_start(tokens: Seq<Token>, pos: int) -> int {
    let colon = past_whitespace(tokens, past_token(tokens, pos));
    if token_at(tokens, colon).kind.is_operator(Operator::Colon) {
        past_whitespace(tokens, colon + 1)
    } else {
        past_whitespace(tokens, colon)
    }
}

/// The attribute whose name is the token at `pos`, and the position behind it and the comma
/// that may follow. Behind a malformed value all tokens up to the closing bracket are
/// dropped.
pub open spec fn attribute<G: ExpressionParser>(g: &G, tokens: Seq<Token>, pos: int) -> (
    NodeView,
    int,
) {
    let name = identifier(tokens, pos).0;
    let start = attribute_value_start(tokens, pos);
    let value = g.expression(tokens, start);
    let end = past_tokens(tokens, start, value.width as int);
    (
        NodeView::Attribute {
            name: Box::new(name),
            value,
            location: name.location().merged(value.location),
        },
        past_comma(
            tokens,
            if value.has_error {
                past_bracket_content(tokens, end)
            } else {
                end
            },
        ),
    )
}

/// The attributes from `pos` to the closing bracket, the range of the token that ends the
/// list, and the position behind the list. The end of the input ends the list too.
pub open spec fn attribute_items<G: ExpressionParser>(g: &G, tokens: Seq<Token>, pos: int) -> (
    Seq<NodeView>,
    Location,
    int,
)
    decreases tokens.len() - pos,
    when 0 <= pos <= tokens.len()
{
    let at = past_indents(tokens, pos);
    let token = token_at(tokens, at);
    if token.kind.is_operator(Operator::RBracket) {
        (Seq::empty(), token.location, at + 1)
    } else if token.kind is Eof {
        (Seq::empty(), token.location, at)
    } else if token.kind is Newline {
        proof {
            lemma_past_indents(tokens, pos);
        }
        attribute_items(g, tokens, at + 1)
    } else {
        proof {
            lemma_past_indents(tokens, pos);
            lemma_attribute_advances(g, tokens, at);
        }
        let first = attribute(g, tokens, at);
        let rest = attribute_items(g, tokens, first.1);
        (seq![first.0] + rest.0, rest.1, rest.2)
    }
}

/// The attribute list whose opening bracket is the token at `pos`, and the position behind
/// the list.
pub open spec fn attributes<G: ExpressionParser>(g: &G, tokens: Seq<Token>, pos: int) -> (
    AttributesView,
    int,
) {
    let items = attribute_items(g, tokens, past_token(tokens, pos));
    (
        AttributesView {
            items: items.0,
            location: Some(token_at(tokens, pos).location.merged(items.1)),
        },
        items.2,
    )
}

/// The attribute list that may begin at `pos`, behind indentation markers, and the
/// position behind it and one more indentation marker.
pub open spec fn maybe_attributes<G: ExpressionParser>(g: &G, tokens: Seq<Token>, pos: int) -> (
    AttributesView,
    int,
) {
    let at = past_indents(tokens, pos);
    if token_at(tokens, at).kind.is_operator(Operator::LBracket) {
        let list = attributes(g, tokens, at);
        (list.0, past_indent(tokens, list.1))
    } else {
        (AttributesView::absent(), at)
    }
}

/// The kind that a declaration keyword stands for: local for two of the keywords, global
/// for the third.
pub open spec fn declaration_kind(keyword: TokenKind) -> DeclarationKind {
    match keyword {
        TokenKind::Local | TokenKind::Decl => DeclarationKind::Local,
        TokenKind::Global => DeclarationKind::Global,
        _ => arbitrary(),
    }
}

/// Where the value of the declaration begins whose keyword is the token at `pos`: behind
/// the keyword, the name, one more token (the equals sign), and one indentation marker
/// before each of the two.
pub open spec fn declaration_value_start(tokens: Seq<Token>, pos: int) -> int {
    let name = past_indent(tokens, past_token(tokens, pos));
    past_token(tokens, past_indent(tokens, past_token(tokens, name)))
}

/// The declaration whose keyword is the token at `pos`, and the position behind it.
pub open spec fn declaration<G: ExpressionParser>(g: &G, tokens: Seq<Token>, pos: int) -> (
    NodeView,
    int,
) {
    let keyword = token_at(tokens, pos);
    let name = identifier(tokens, past_indent(tokens, past_token(tokens, pos))).0;
    let start = declaration_value_start(tokens, pos);
    let value = g.expression(tokens, start);
    (
        NodeView::Declaration {
            kind: declaration_kind(keyword.kind),
            name: Box::new(name),
            value,
            location: keyword.location.merged(value.location),
        },
        past_tokens(tokens, start, value.width as int),
    )
}

/// The component whose keyword is the token at `pos`, and the position behind it.
pub open spec fn component<G: ExpressionParser>(g: &G, tokens: Seq<Token>, pos: int) -> (
    NodeView,
    int,
) {
    let keyword = token_at(tokens, pos);
    let name = identifier(tokens, past_token(tokens, pos));
    let list = maybe_attributes(g, tokens, name.1);
    (
        NodeView::Component {
            name: Box::new(name.0),
            attributes: list.0,
            location: match list.0.location {
                Some(location) => keyword.location.merged(location),
                None => keyword.location.merged(name.0.location()),
            },
        },
        list.1,
    )
}

/// The component slot whose keyword is the token at `pos`, and the position behind it.
pub open spec fn component_slot(tokens: Seq<Token>, pos: int) -> (NodeView, int) {
    let keyword = token_at(tokens, pos);
    let name = identifier(tokens, past_token(tokens, pos));
    (
        NodeView::ComponentSlot {
            name: Box::new(name.0),
            location: keyword.location.merged(name.0.location()),
        },
        name.1,
    )
}

/// The span element whose keyword is the token at `pos`, and the position behind it.
pub open spec fn span<G: ExpressionParser>(g: &G, tokens: Seq<Token>, pos: int) -> (
    NodeView,
    int,
) {
    let keyword = token_at(tokens, pos);
    let list = maybe_attributes(g, tokens, past_token(tokens, pos));
    let inline = values(tokens, list.1);
    (
        NodeView::Span {
            attributes: list.0,
            values: inline.0,
            location: merged_without_values(
                keyword.location,
                list.0.location,
                last_location(inline.0),
            ),
            keyword: keyword.location,
        },
        inline.1,
    )
}

/// Where the iterated expression of the loop begins whose keyword is the token at `pos`:
/// behind the keyword, the binding, the word `in` if it is there, and one indentation
/// marker before each of them and before the expression.
pub open spec fn for_value_start(tokens: Seq<Token>, pos: int) -> int {
    let binding = past_indent(tokens, past_token(tokens, pos));
    let word = past_indent(tokens, past_token(tokens, binding));
    if token_at(tokens, word).kind is In {
        past_indent(tokens, word + 1)
    } else {
        past_indent(tokens, word)
    }
}

/// The width of the line that begins at `pos`, behind blank lines: that of its indentation
/// marker, and zero where it has none.
pub open spec fn line_width(tokens: Seq<Token>, pos: int) -> usize {
    token_at(tokens, past_newlines(tokens, pos)).kind.indent_width()
}

/// Whether a token of this kind begins a node.
pub open spec fn begins_node(kind: TokenKind) -> bool {
    kind is Element || kind is Container || kind is String || kind is Identifier || kind is Decl
        || kind is Local || kind is Global || kind is Component || kind is ComponentSlot
        || kind is For
}

/// Why the parse ends at a token that begins no node: the keywords `if`, `switch` and
/// `with` are kept for constructs that the grammar does not define yet, and no other
/// token has a place at the beginning of a line.
pub open spec fn refusal(token: Token) -> ParseError {
    if token.kind is If || token.kind is Switch || token.kind is With {
        ParseError::Unsupported(token)
    } else {
        ParseError::Unexpected(token)
    }
}

/// The text element whose keyword is the token at `state.pos`, on a line of width
/// `indent`.
pub open spec fn text<G: ExpressionParser>(
    g: &G,
    tokens: Seq<Token>,
    limit: usize,
    state: State,
    indent: usize,
) -> Outcome<NodeView>
    decreases tokens.len() - state.pos, 0int,
    when 0 <= state.pos < tokens.len()
{
    let keyword = token_at(tokens, state.pos);
    let list = maybe_attributes(g, tokens, state.pos + 1);
    let inline = values(tokens, list.1);
    proof {
        lemma_maybe_attributes_advances(g, tokens, state.pos + 1);
        lemma_values_advances(tokens, list.1);
    }
    match maybe_block(g, tokens, limit, state.at(inline.1), indent) {
        Err(error) => Err(error),
        Ok((children, end)) => Ok(
            (
                NodeView::Text {
                    attributes: list.0,
                    values: inline.0,
                    children,
                    location: merged_with_values(
                        keyword.location,
                        list.0.location,
                        last_location(inline.0),
                        last_location(children),
                    ),
                    keyword: keyword.location,
                },
                end,
            ),
        ),
    }
}

/// The container whose keyword is the token at `state.pos`, on a line of width `indent`.
pub open spec fn container<G: ExpressionParser>(
    g: &G,
    tokens: Seq<Token>,
    limit: usize,
    state: State,
    indent: usize,
) -> Outcome<NodeView>
    decreases tokens.len() - state.pos, 0int,
    when 0 <= state.pos < tokens.len() && token_at(tokens, state.pos).kind is Container
{
    let keyword = token_at(tokens, state.pos);
    let list = maybe_attributes(g, tokens, state.pos + 1);
    proof {
        lemma_maybe_attributes_advances(g, tokens, state.pos + 1);
    }
    match maybe_block(g, tokens, limit, state.at(list.1), indent) {
        Err(error) => Err(error),
        Ok((children, end)) => Ok(
            (
                NodeView::Container {
                    kind: keyword.kind->Container_0,
                    children,
                    attributes: list.0,
                    location: merged_without_values(
                        keyword.location,
                        list.0.location,
                        last_location(children),
                    ),
                    keyword: keyword.location,
                },
                end,
            ),
        ),
    }
}

/// The loop whose keyword is the token at `state.pos`, on a line of width `indent`.
pub open spec fn for_loop<G: ExpressionParser>(
    g: &G,
    tokens: Seq<Token>,
    limit: usize,
    state: State,
    indent: usize,
) -> Outcome<NodeView>
    decreases tokens.len() - state.pos, 0int,
    when 0 <= state.pos < tokens.len()
{
    let keyword = token_at(tokens, state.pos);
    let binding = identifier(tokens, past_indent(tokens, state.pos + 1)).0;
    let start = for_value_start(tokens, state.pos);
    let value = g.expression(tokens, start);
    proof {
        lemma_for_value_start(tokens, state.pos);
    }
    match maybe_block(
        g,
        tokens,
        limit,
        state.at(past_tokens(tokens, start, value.width as int)),
        indent,
    ) {
        Err(error) => Err(error),
        Ok((children, end)) => Ok(
            (
                NodeView::For {
                    binding: Box::new(binding),
                    value,
                    children,
                    location: match last_location(children) {
                        Some(location) => keyword.location.merged(location),
                        None => keyword.location.merged(value.location),
                    },
                    keyword: keyword.location,
                },
                end,
            ),
        ),
    }
}

/// The node that begins at `state.pos`, behind indentation markers, on a line of width
/// `indent`. The first token decides which construct is read; it is a token that begins a
/// node.
pub open spec fn node<G: ExpressionParser>(
    g: &G,
    tokens: Seq<Token>,
    limit: usize,
    state: State,
    indent: usize,
) -> Outcome<NodeView>
    decreases tokens.len() - state.pos, 1int,
    when 0 <= state.pos <= tokens.len() && begins_node(
        token_at(tokens, past_indents(tokens, state.pos)).kind,
    )
{
    let at = past_indents(tokens, state.pos);
    let token = token_at(tokens, at);
    proof {
        lemma_past_indents(tokens, state.pos);
    }
    match token.kind {
        TokenKind::Element(Element::Text) => text(g, tokens, limit, state.at(at), indent),
        TokenKind::Element(Element::Span) => Ok(
            (span(g, tokens, at).0, state.at(span(g, tokens, at).1)),
        ),
        TokenKind::Container(_) => container(g, tokens, limit, state.at(at), indent),
        TokenKind::String(_) => Ok((string(tokens, at).0, state.at(string(tokens, at).1))),
        TokenKind::Identifier(_) => Ok(
            (identifier(tokens, at).0, state.at(identifier(tokens, at).1)),
        ),
        TokenKind::Decl | TokenKind::Local | TokenKind::Global => Ok(
            (declaration(g, tokens, at).0, state.at(declaration(g, tokens, at).1)),
        ),
        TokenKind::Component => Ok(
            (component(g, tokens, at).0, state.at(component(g, tokens, at).1)),
        ),
        TokenKind::ComponentSlot => Ok(
            (component_slot(tokens, at).0, state.at(component_slot(tokens, at).1)),
        ),
        TokenKind::For => for_loop(g, tokens, limit, state.at(at), indent),
        _ => arbitrary(),
    }
}

/// The nodes of the block of width `indent` from `state.pos` on, read line by line.
///
/// The block ends before the first line of another width, narrower or wider, and nothing
/// of that line is read: whoever reads on finds the line with its indentation. The block
/// ends at the end of the input too. A line of the block's own width gives a node, and
/// the parse ends where the line's first token begins none.
///
/// The list goes on behind each node. That a node ends behind its first token is asked
/// for here so that the definition is well founded; it holds of every node
/// (`laws::lemma_block_takes_line`).
pub open spec fn block_items<G: ExpressionParser>(
    g: &G,
    tokens: Seq<Token>,
    limit: usize,
    state: State,
    indent: usize,
) -> Outcome<Seq<NodeView>>
    decreases tokens.len() - state.pos, 2int,
    when 0 <= state.pos <= tokens.len()
{
    let line = past_newlines(tokens, state.pos);
    let body = past_indent(tokens, line);
    let first = token_at(tokens, past_indents(tokens, body));
    proof {
        lemma_past_newlines(tokens, state.pos);
    }
    if line_width(tokens, state.pos) != indent {
        Ok((Seq::empty(), state.at(line)))
    } else if token_at(tokens, body).kind is Eof {
        Ok((Seq::empty(), state.at(body)))
    } else if !begins_node(first.kind) {
        Err(refusal(first))
    } else {
        match node(g, tokens, limit, state.at(body), indent) {
            Err(error) => Err(error),
            Ok((first, next)) => if body < next.pos <= tokens.len() {
                match block_items(g, tokens, limit, next, indent) {
                    Err(error) => Err(error),
                    Ok((rest, end)) => Ok((seq![first] + rest, end)),
                }
            } else {
                Ok((seq![first], next))
            },
        }
    }
}

/// The block of width `indent` that begins at `state.pos`: its nodes, read in a scope of
/// its own. Where as many blocks are open as `limit` says, the parse ends.
pub open spec fn block<G: ExpressionParser>(
    g: &G,
    tokens: Seq<Token>,
    limit: usize,
    state: State,
    indent: usize,
) -> Outcome<Seq<NodeView>>
    decreases tokens.len() - state.pos, 3int,
    when 0 <= state.pos <= tokens.len()
{
    if state.open.len() >= limit {
        Err(ParseError::RecursionLimit)
    } else {
        match block_items(g, tokens, limit, state.enter(), indent) {
            Err(error) => Err(error),
            Ok((nodes, end)) => Ok((nodes, end.leave())),
        }
    }
}

/// The children of a construct on a line of width `indent`: the block that begins at
/// `state.pos`, behind blank lines, if its first line is wider than `indent`, and no
/// children otherwise.
pub open spec fn maybe_block<G: ExpressionParser>(
    g: &G,
    tokens: Seq<Token>,
    limit: usize,
    state: State,
    indent: usize,
) -> Outcome<Seq<NodeView>>
    decreases tokens.len() - state.pos, 4int,
    when 0 <= state.pos <= tokens.len()
{
    let at = past_newlines(tokens, state.pos);
    let width = line_width(tokens, state.pos);
    proof {
        lemma_past_newlines(tokens, state.pos);
    }
    if width > indent {
        block(g, tokens, limit, state.at(at), width)
    } else {
        Ok((Seq::empty(), state.at(at)))
    }
}

/// The whole tree: the block that begins at `state.pos`, of the width of its first line.
pub open spec fn document<G: ExpressionParser>(
    g: &G,
    tokens: Seq<Token>,
    limit: usize,
    state: State,
) -> Result<AstView, ParseError> {
    match block(g, tokens, limit, state, token_at(tokens, state.pos).kind.indent_width()) {
        Err(error) => Err(error),
        Ok((nodes, end)) => Ok(AstView { nodes, scopes: end.scopes }),
    }
}

/// The values of a line end inside the input, at or behind the position where they begin,
/// at a token that ends a line.
pub proof fn lemma_values_advances(tokens: Seq<Token>, pos: int)
    requires
        0 <= pos <= tokens.len(),
    ensures
        pos <= values(tokens, pos).1 <= tokens.len(),
        ({
            let kind = token_at(tokens, values(tokens, pos).1).kind;
            kind is Newline || kind is Eof
        }),
    decreases tokens.len() - pos,
{
    lemma_past_indents(tokens, pos);
    let at = past_indents(tokens, pos);
    let token = token_at(tokens, at);
    if !(token.kind is Newline || token.kind is Eof) {
        lemma_values_advances(tokens, at + 1);
    }
}

/// An attribute ends inside the input, behind the token that is read as its name.
pub proof fn lemma_attribute_advances<G: ExpressionParser>(g: &G, tokens: Seq<Token>, pos: int)
    requires
        0 <= pos < tokens.len(),
    ensures
        pos < attribute(g, tokens, pos).1 <= tokens.len(),
{
    lemma_past_whitespace(tokens, pos + 1);
    let colon = past_whitespace(tokens, pos + 1);
    if token_at(tokens, colon).kind.is_operator(Operator::Colon) {
        lemma_past_whitespace(tokens, colon + 1);
    }
    let start = attribute_value_start(tokens, pos);
    let value = g.expression(tokens, start);
    let end = past_tokens(tokens, start, value.width as int);
    lemma_past_bracket_content(tokens, end);
    let resumed = if value.has_error {
        past_bracket_content(tokens, end)
    } else {
        end
    };
    lemma_past_indents(tokens, resumed);
}

/// A list of attributes ends inside the input, at or behind the position where it begins.
pub proof fn lemma_attribute_items_advances<G: ExpressionParser>(
    g: &G,
    tokens: Seq<Token>,
    pos: int,
)
    requires
        0 <= pos <= tokens.len(),
    ensures
        pos <= attribute_items(g, tokens, pos).2 <= tokens.len(),
    decreases tokens.len() - pos,
{
    lemma_past_indents(tokens, pos);
    let at = past_indents(tokens, pos);
    let token = token_at(tokens, at);
    if token.kind.is_operator(Operator::RBracket) {
    } else if token.kind is Eof {
    } else if token.kind is Newline {
        lemma_attribute_items_advances(g, tokens, at + 1);
    } else {
        lemma_attribute_advances(g, tokens, at);
        lemma_attribute_items_advances(g, tokens, attribute(g, tokens, at).1);
    }
}

/// What may be an attribute list ends inside the input, at or behind the position where
/// it begins.
pub proof fn lemma_maybe_attributes_advances<G: ExpressionParser>(
    g: &G,
    tokens: Seq<Token>,
    pos: int,
)
    requires
        0 <= pos <= tokens.len(),
    ensures
        pos <= maybe_attributes(g, tokens, pos).1 <= tokens.len(),
{
    lemma_past_indents(tokens, pos);
    let at = past_indents(tokens, pos);
    if token_at(tokens, at).kind.is_operator(Operator::LBracket) {
        lemma_attribute_items_advances(g, tokens, at + 1);
    }
}

/// A span element ends inside the input, behind its keyword.
pub proof fn lemma_span_advances<G: ExpressionParser>(g: &G, tokens: Seq<Token>, pos: int)
    requires
        0 <= pos < tokens.len(),
    ensures
        pos < span(g, tokens, pos).1 <= tokens.len(),
{
    lemma_maybe_attributes_advances(g, tokens, pos + 1);
    lemma_values_advances(tokens, maybe_attributes(g, tokens, pos + 1).1);
}

/// A component ends inside the input, behind its keyword.
pub proof fn lemma_component_advances<G: ExpressionParser>(g: &G, tokens: Seq<Token>, pos: int)
    requires
        0 <= pos < tokens.len(),
    ensures
        pos < component(g, tokens, pos).1 <= tokens.len(),
{
    lemma_maybe_attributes_advances(g, tokens, past_token(tokens, pos + 1));
}

/// A declaration ends inside the input, behind its keyword.
pub proof fn lemma_declaration_advances<G: ExpressionParser>(g: &G, tokens: Seq<Token>, pos: int)
    requires
        0 <= pos < tokens.len(),
    ensures
        pos < declaration(g, tokens, pos).1 <= tokens.len(),
{
}

/// The iterated expression of a loop begins inside the input, behind the keyword.
pub proof fn lemma_for_value_start(tokens: Seq<Token>, pos: int)
    requires
        0 <= pos < tokens.len(),
    ensures
        pos < for_value_start(tokens, pos) <= tokens.len(),
{
}

} // verus!
