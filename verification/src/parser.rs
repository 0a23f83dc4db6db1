//! The parser.

use vstd::prelude::*;
use crate::ast::{
    is_forest, is_rooted, lemma_nodes_view_empty, lemma_nodes_view_push, nodes_view, scopes_view, Ast,
    AstNode, Attributes, DeclarationKind, NodeView, Scope, };
use crate::error::ParseError;
use crate::expression::ExpressionParser;
use crate::grammar;
use crate::grammar::State;
use crate::span::{all_well_spanned, LocationCalculator};
use crate::token::{Element, Token, TokenKind};
use crate::tokens::{past_bracket_content, past_indents, past_newlines, token_at, Tokens};

verus! {

/// How many blocks may be open at once, unless the parser is told otherwise.
pub const DEFAULT_DEPTH_LIMIT: usize = 256;

/// A parser over a token cursor. It is made by [`Parser::new`] and used up by
/// [`Parser::parse`].
pub struct Parser {
    scope_stack: Vec<usize>,
    tokens: Tokens,
    ast: Ast,
    depth_limit: usize,
}

impl Parser {
    /// All the tokens of the input.
    pub closed spec fn tokens(&self) -> Seq<Token> {
        self.tokens@
    }

    /// Where the parse stands.
    pub closed spec fn state(&self) -> State {
        State {
            pos: self.tokens.pos(),
            scopes: scopes_view(self.ast.scopes@),
            open: self.scope_stack@,
            entered: self.ast.scopes@.len(),
        }
    }

    /// How many blocks may be open at once.
    pub closed spec fn depth_limit(&self) -> usize {
        self.depth_limit
    }

    /// `self` is `before` with the parse moved on to `state`: the tokens and the limit are
    /// the same.
    spec fn follows(&self, before: Parser, state: State) -> bool {
        &&& self.tokens() == before.tokens()
        &&& self.depth_limit() == before.depth_limit()
        &&& self.state() == state
    }

    /// `self` is `before` with the cursor moved to `pos`.
    spec fn moved(&self, before: Parser, pos: int) -> bool {
        self.follows(before, before.state().at(pos))
    }

    /// `result` and `self` are what `outcome` says: the node and the state behind it, or
    /// the error.
    spec fn gives_node(
        &self,
        before: Parser,
        result: Result<AstNode, ParseError>,
        outcome: grammar::Outcome<NodeView>,
    ) -> bool {
        match outcome {
            Ok((node, state)) => {
                &&& result matches Ok(built)
                &&& built@ == node
                &&& self.follows(before, state)
            },
            Err(error) => result matches Err(raised) && raised == error,
        }
    }

    /// `result` and `self` are what `outcome` says: the nodes and the state behind them, or
    /// the error.
    spec fn gives_nodes(
        &self,
        before: Parser,
        result: Result<Vec<AstNode>, ParseError>,
        outcome: grammar::Outcome<Seq<NodeView>>,
    ) -> bool {
        match outcome {
            Ok((nodes, state)) => {
                &&& result matches Ok(built)
                &&& nodes_view(built@) == nodes
                &&& self.follows(before, state)
            },
            Err(error) => result matches Err(raised) && raised == error,
        }
    }

    /// The cursor stands inside the input.
    pub proof fn lemma_inside(&self)
        ensures
            0 <= self.state().pos <= self.tokens().len(),
    {
        self.tokens.lemma_inside();
    }

    /// The cursor of `self` stands inside the input, behind that of `before`.
    spec fn advanced(&self, before: Parser) -> bool {
        before.state().pos < self.state().pos <= self.tokens().len()
    }

    /// The cursor of `self` stands inside the input, not before that of `before`.
    spec fn not_behind(&self, before: Parser) -> bool {
        before.state().pos <= self.state().pos <= self.tokens().len()
    }

    /// A parser at the first token of `tokens` that is no blank-line marker, with no
    /// scope yet and the default limit.
    pub fn new(tokens: Tokens) -> (parser: Parser)
        ensures
            parser.tokens() == tokens@,
            parser.state() == State::initial(past_newlines(tokens@, tokens.pos())),
            parser.state().well_formed(),
            parser.depth_limit() == DEFAULT_DEPTH_LIMIT,
    {
        let mut tokens = tokens;
        tokens.consume_newlines();
        let ast = Ast::default();
        assert(scopes_view(ast.scopes@).len() == ast.scopes@.len());
        Parser {
            tokens,
            ast,
            scope_stack: Vec::new(),
            depth_limit: DEFAULT_DEPTH_LIMIT,
        }
    }

    /// The same parser with another limit on the number of blocks that may be open at
    /// once.
    pub fn with_depth_limit(self, depth_limit: usize) -> (parser: Parser)
        ensures
            parser.tokens() == self.tokens(),
            parser.state() == self.state(),
            parser.depth_limit() == depth_limit,
    {
        let mut parser = self;
        parser.depth_limit = depth_limit;
        parser
    }

    /// Reads the primitive literal at the cursor.
    fn parse_primitive(&mut self) -> (node: AstNode)
        requires
            token_at(old(self).tokens(), old(self).state().pos).kind is Primitive,
        ensures
            final(self).moved(*old(self), old(self).state().pos + 1),
            node@ == grammar::value(token_at(old(self).tokens(), old(self).state().pos)),
    {
        let primitive = self.tokens.next_token();
        match primitive.kind {
            TokenKind::Primitive(value) => AstNode::Primitive { location: primitive.location, value },
            _ => unreached(),
        }
    }

    /// Reads the token at the cursor as a string literal.
    fn parse_string(&mut self) -> (node: AstNode)
        ensures
            final(self).moved(
                *old(self),
                grammar::string(old(self).tokens(), old(self).state().pos).1,
            ),
            node@ == grammar::string(old(self).tokens(), old(self).state().pos).0,
    {
        let token = self.tokens.next_token();
        AstNode::String(token.location)
    }

    /// Reads the token at the cursor as a name. Any other token is read too, and gives an
    /// error node.
    fn parse_identifier(&mut self) -> (node: AstNode)
        ensures
            final(self).moved(
                *old(self),
                grammar::identifier(old(self).tokens(), old(self).state().pos).1,
            ),
            node@ == grammar::identifier(old(self).tokens(), old(self).state().pos).0,
    {
        let token = self.tokens.next_token();
        match token.kind {
            TokenKind::Identifier(location) => AstNode::Identifier(location),
            kind => AstNode::Error { location: token.location, token: kind },
        }
    }

    /// Reads the inline values up to the end of the line. A token that is no value is read
    /// as an error node.
    fn parse_values(&mut self) -> (values: Vec<AstNode>)
        ensures
            final(self).moved(
                *old(self),
                grammar::values(old(self).tokens(), old(self).state().pos).1,
            ),
            nodes_view(values@) == grammar::values(old(self).tokens(), old(self).state().pos).0,
    {
        let mut values: Vec<AstNode> = Vec::new();
        let ghost tokens = self.tokens();
        let ghost all = grammar::values(tokens, self.state().pos);
        proof {
            lemma_nodes_view_empty(values@);
            self.lemma_inside();
        }
        loop
            invariant
                self.moved(*old(self), self.state().pos),
                tokens == old(self).tokens(),
                0 <= self.state().pos <= tokens.len(),
                all == grammar::values(tokens, old(self).state().pos),
                all.0 == nodes_view(values@) + grammar::values(tokens, self.state().pos).0,
                all.1 == grammar::values(tokens, self.state().pos).1,
            ensures
                self.moved(*old(self), all.1),
                nodes_view(values@) == all.0,
            decreases tokens.len() - self.state().pos,
        {
            let ghost before = nodes_view(values@);
            let next_token = self.tokens.peek_skip_indent();
            match next_token.kind {
                TokenKind::Newline => {
                    assert(before + Seq::<NodeView>::empty() =~= before);
                    break ;
                },
                TokenKind::Eof => {
                    assert(before + Seq::<NodeView>::empty() =~= before);
                    break ;
                },
                TokenKind::Identifier(_) => {
                    let node = self.parse_identifier();
                    proof {
                        lemma_nodes_view_push(values@, node);
                    }
                    values.push(node);
                },
                TokenKind::Primitive(_) => {
                    let node = self.parse_primitive();
                    proof {
                        lemma_nodes_view_push(values@, node);
                    }
                    values.push(node);
                },
                TokenKind::String(_) => {
                    let node = self.parse_string();
                    proof {
                        lemma_nodes_view_push(values@, node);
                    }
                    values.push(node);
                },
                token => {
                    self.tokens.consume();
                    let node = AstNode::Error { token, location: next_token.location };
                    proof {
                        lemma_nodes_view_push(values@, node);
                    }
                    values.push(node);
                },
            }
            proof {
                let rest = grammar::values(tokens, self.state().pos).0;
                let node = grammar::value(next_token);
                assert(before + (seq![node] + rest) =~= before.push(node) + rest);
            }
        }
        values
    }

    /// Reads the comma behind an attribute, if there is one.
    fn skip_optional_comma(&mut self)
        ensures
            final(self).moved(
                *old(self),
                grammar::past_comma(old(self).tokens(), old(self).state().pos),
            ),
    {
        if self.tokens.peek_skip_indent().kind.is_comma() {
            self.tokens.consume();
        }
    }

    /// Reads the attribute list whose opening bracket is at the cursor, up to its closing
    /// bracket or the end of the input. Behind a malformed value, the rest of the list is
    /// dropped.
    fn parse_attributes<G: ExpressionParser>(&mut self, expressions: &G) -> (attributes: Attributes)
        requires
            token_at(old(self).tokens(), old(self).state().pos).kind.is_operator(
                crate::token::Operator::LBracket,
            ),
        ensures
            final(self).moved(
                *old(self),
                grammar::attributes(expressions, old(self).tokens(), old(self).state().pos).1,
            ),
            attributes@ == grammar::attributes(
                expressions,
                old(self).tokens(),
                old(self).state().pos,
            ).0,
    {
        let token = self.tokens.next_token();
        let start_location = token.location;

        let mut attributes: Vec<AstNode> = Vec::new();
        let ghost tokens = self.tokens();
        let ghost all = grammar::attribute_items(expressions, tokens, self.state().pos);
        proof {
            lemma_nodes_view_empty(attributes@);
        }
        let end_location;
        loop
            invariant_except_break
                all.0 == nodes_view(attributes@) + grammar::attribute_items(
                    expressions,
                    tokens,
                    self.state().pos,
                ).0,
                all.1 == grammar::attribute_items(expressions, tokens, self.state().pos).1,
                all.2 == grammar::attribute_items(expressions, tokens, self.state().pos).2,
            invariant
                self.moved(*old(self), self.state().pos),
                tokens == old(self).tokens(),
                0 <= self.state().pos <= tokens.len(),
            ensures
                self.moved(*old(self), all.2),
                nodes_view(attributes@) == all.0,
                end_location == all.1,
            decreases tokens.len() - self.state().pos,
        {
            let ghost before = nodes_view(attributes@);
            let next_token = self.tokens.peek_skip_indent();
            let ghost at = self.state().pos;

            if next_token.kind.is_right_bracket() {
                self.tokens.consume();
                end_location = next_token.location;
                assert(before + Seq::<NodeView>::empty() =~= before);
                break ;
            }
            if next_token.kind.is_eof() {
                end_location = next_token.location;
                assert(before + Seq::<NodeView>::empty() =~= before);
                break ;
            }
            if next_token.kind.is_newline() {
                self.tokens.consume();
                continue ;
            }
            let name = self.parse_identifier();
            self.tokens.consume_all_whitespace();

            if self.tokens.peek().kind.is_colon() {
                self.tokens.consume();
            }
            self.tokens.consume_all_whitespace();
            let value = expressions.parse_expression(&self.tokens);
            self.tokens.advance(value.width);

            if value.has_error() {
                let ghost from = self.state().pos;
                loop
                    invariant
                        self.moved(*old(self), self.state().pos),
                        0 <= from <= self.state().pos <= tokens.len(),
                        tokens == old(self).tokens(),
                        past_bracket_content(tokens, self.state().pos) == past_bracket_content(
                            tokens,
                            from,
                        ),
                    ensures
                        self.moved(*old(self), past_bracket_content(tokens, from)),
                    decreases tokens.len() - self.state().pos,
                {
                    let kind = self.tokens.peek().kind;
                    if kind.is_right_bracket() || kind.is_eof() {
                        break ;
                    }
                    self.tokens.consume();
                }
            }
            let location = name.location().merge(value.location());
            let attribute = AstNode::Attribute { name: Box::new(name), value, location };
            proof {
                lemma_nodes_view_push(attributes@, attribute);
            }
            attributes.push(attribute);

            self.skip_optional_comma();
            proof {
                grammar::lemma_attribute_advances(expressions, tokens, at);
                let rest = grammar::attribute_items(expressions, tokens, self.state().pos).0;
                let node = grammar::attribute(expressions, tokens, at).0;
                assert(before + (seq![node] + rest) =~= before.push(node) + rest);
            }
        }

        Attributes { items: attributes, location: Some(start_location.merge(end_location)) }
    }

    /// Reads an attribute list if one comes next.
    fn maybe_parse_attributes<G: ExpressionParser>(&mut self, expressions: &G) -> (attributes:
        Attributes)
        ensures
            final(self).moved(
                *old(self),
                grammar::maybe_attributes(expressions, old(self).tokens(), old(self).state().pos).1,
            ),
            attributes@ == grammar::maybe_attributes(
                expressions,
                old(self).tokens(),
                old(self).state().pos,
            ).0,
    {
        self.tokens.consume_indent();
        if self.tokens.peek_skip_indent().kind.is_left_bracket() {
            let attributes = self.parse_attributes(expressions);
            self.tokens.consume_indent();
            return attributes;
        }
        Attributes::default()
    }

    /// Reads the component slot whose keyword is at the cursor.
    fn parse_component_slot(&mut self) -> (node: AstNode)
        requires
            token_at(old(self).tokens(), old(self).state().pos).kind is ComponentSlot,
        ensures
            final(self).moved(
                *old(self),
                grammar::component_slot(old(self).tokens(), old(self).state().pos).1,
            ),
            node@ == grammar::component_slot(old(self).tokens(), old(self).state().pos).0,
    {
        let component = self.tokens.next_token();
        let start_location = component.location;
        let name = self.parse_identifier();

        let location = start_location.merge(name.location());
        AstNode::ComponentSlot { location, name: Box::new(name) }
    }

    /// Reads the component whose keyword is at the cursor.
    fn parse_component<G: ExpressionParser>(&mut self, expressions: &G) -> (node: AstNode)
        requires
            token_at(old(self).tokens(), old(self).state().pos).kind is Component,
        ensures
            final(self).moved(
                *old(self),
                grammar::component(expressions, old(self).tokens(), old(self).state().pos).1,
            ),
            node@ == grammar::component(expressions, old(self).tokens(), old(self).state().pos).0,
    {
        let component = self.tokens.next_token();
        let start_location = component.location;

        let name = self.parse_identifier();
        let attributes = self.maybe_parse_attributes(expressions);

        let location = match attributes.location {
            Some(location) => start_location.merge(location),
            None => start_location.merge(name.location()),
        };

        AstNode::Component { name: Box::new(name), location, attributes }
    }

    /// Reads the span element whose keyword is at the cursor: attributes and inline
    /// values, never children.
    fn parse_span<G: ExpressionParser>(&mut self, expressions: &G) -> (node: AstNode)
        requires
            token_at(old(self).tokens(), old(self).state().pos).kind == TokenKind::Element(
                Element::Span,
            ),
        ensures
            final(self).moved(
                *old(self),
                grammar::span(expressions, old(self).tokens(), old(self).state().pos).1,
            ),
            node@ == grammar::span(expressions, old(self).tokens(), old(self).state().pos).0,
    {
        let span = self.tokens.next_token();

        let start_location = span.location;
        let attributes = self.maybe_parse_attributes(expressions);
        let values = self.parse_values();

        let location = LocationCalculator::merge_location_without_values(
            start_location,
            &attributes,
            &values,
        );

        AstNode::Span { values, attributes, location, keyword: span.location }
    }

    /// Reads the declaration whose keyword is at the cursor. The token behind the name is
    /// read as the equals sign, whatever it is.
    fn parse_declaration<G: ExpressionParser>(&mut self, expressions: &G) -> (node: AstNode)
        requires
            ({
                let kind = token_at(old(self).tokens(), old(self).state().pos).kind;
                kind is Local || kind is Decl || kind is Global
            }),
        ensures
            final(self).moved(
                *old(self),
                grammar::declaration(expressions, old(self).tokens(), old(self).state().pos).1,
            ),
            node@ == grammar::declaration(
                expressions,
                old(self).tokens(),
                old(self).state().pos,
            ).0,
    {
        let keyword = self.tokens.next_token();
        let start_location = keyword.location;

        let kind = match keyword.kind {
            TokenKind::Local => DeclarationKind::Local,
            TokenKind::Decl => DeclarationKind::Local,
            TokenKind::Global => DeclarationKind::Global,
            _ => unreached(),
        };

        self.tokens.consume_indent();
        let name = self.parse_identifier();

        self.tokens.consume_indent();
        self.tokens.consume();
        let value = expressions.parse_expression(&self.tokens);
        self.tokens.advance(value.width);

        let location = start_location.merge(value.location());
        AstNode::Declaration { kind, value, location, name: Box::new(name) }
    }

    /// Reads the element whose keyword is at the cursor.
    fn parse_element<G: ExpressionParser>(
        &mut self,
        expressions: &G,
        element: Element,
        current_indent: usize,
    ) -> (result: Result<AstNode, ParseError>)
        requires
            token_at(old(self).tokens(), old(self).state().pos).kind == TokenKind::Element(element),
        ensures
            final(self).gives_node(
                *old(self),
                result,
                grammar::node(
                    expressions,
                    old(self).tokens(),
                    old(self).depth_limit(),
                    old(self).state(),
                    current_indent,
                ),
            ),
            result is Ok ==> final(self).advanced(*old(self)),
        decreases old(self).tokens().len() - old(self).state().pos, 1int, 0int,
    {
        let ghost tokens = self.tokens();
        let ghost pos = self.state().pos;
        match element {
            Element::Text => self.parse_text(expressions, current_indent),
            Element::Span => {
                proof {
                    grammar::lemma_span_advances(expressions, tokens, pos);
                }
                Ok(self.parse_span(expressions))
            },
        }
    }

    /// Reads the text element whose keyword is at the cursor: attributes, inline values,
    /// and the children on the lines below, if those are wider.
    fn parse_text<G: ExpressionParser>(&mut self, expressions: &G, current_indent: usize) -> (result:
        Result<AstNode, ParseError>)
        requires
            token_at(old(self).tokens(), old(self).state().pos).kind == TokenKind::Element(
                Element::Text,
            ),
        ensures
            final(self).gives_node(
                *old(self),
                result,
                grammar::text(
                    expressions,
                    old(self).tokens(),
                    old(self).depth_limit(),
                    old(self).state(),
                    current_indent,
                ),
            ),
            result is Ok ==> final(self).advanced(*old(self)),
        decreases old(self).tokens().len() - old(self).state().pos, 0int, 0int,
    {
        let ghost tokens = self.tokens();
        let ghost pos = self.state().pos;
        let text = self.tokens.next_token();

        let start_location = text.location;
        let attributes = self.maybe_parse_attributes(expressions);
        let values = self.parse_values();
        proof {
            grammar::lemma_maybe_attributes_advances(expressions, tokens, pos + 1);
            grammar::lemma_values_advances(
                tokens,
                grammar::maybe_attributes(expressions, tokens, pos + 1).1,
            );
        }
        let children = self.maybe_parse_block(expressions, current_indent)?;

        let location = LocationCalculator::merge_location_with_values(
            start_location,
            &attributes,
            Some(&values),
            Some(&children),
        );

        Ok(AstNode::Text { values, attributes, children, location, keyword: text.location })
    }

    /// Reads the container whose keyword is at the cursor: attributes, and the children on
    /// the lines below, if those are wider.
    fn parse_container<G: ExpressionParser>(&mut self, expressions: &G, current_indent: usize) -> (result:
        Result<AstNode, ParseError>)
        requires
            token_at(old(self).tokens(), old(self).state().pos).kind is Container,
        ensures
            final(self).gives_node(
                *old(self),
                result,
                grammar::container(
                    expressions,
                    old(self).tokens(),
                    old(self).depth_limit(),
                    old(self).state(),
                    current_indent,
                ),
            ),
            result is Ok ==> final(self).advanced(*old(self)),
        decreases old(self).tokens().len() - old(self).state().pos, 0int, 0int,
    {
        let ghost tokens = self.tokens();
        let ghost pos = self.state().pos;
        let token = self.tokens.next_token();
        let kind = match token.kind {
            TokenKind::Container(kind) => kind,
            _ => unreached(),
        };
        let start_location = token.location;
        let attributes = self.maybe_parse_attributes(expressions);
        proof {
            grammar::lemma_maybe_attributes_advances(expressions, tokens, pos + 1);
        }
        let children = self.maybe_parse_block(expressions, current_indent)?;

        let location = LocationCalculator::merge_location_without_values(
            start_location,
            &attributes,
            &children,
        );

        Ok(AstNode::Container { kind, children, attributes, location, keyword: token.location })
    }

    /// Reads the loop whose keyword is at the cursor: the binding, the word `in` if it is
    /// there, the iterated expression, and the children on the lines below, if those are
    /// wider.
    fn parse_for_loop<G: ExpressionParser>(&mut self, expressions: &G, current_indent: usize) -> (result:
        Result<AstNode, ParseError>)
        requires
            token_at(old(self).tokens(), old(self).state().pos).kind is For,
        ensures
            final(self).gives_node(
                *old(self),
                result,
                grammar::for_loop(
                    expressions,
                    old(self).tokens(),
                    old(self).depth_limit(),
                    old(self).state(),
                    current_indent,
                ),
            ),
            result is Ok ==> final(self).advanced(*old(self)),
        decreases old(self).tokens().len() - old(self).state().pos, 0int, 0int,
    {
        let keyword = self.tokens.next_token();
        let start_location = keyword.location;
        self.tokens.consume_indent();

        let binding = self.parse_identifier();
        self.tokens.consume_indent();

        if self.tokens.peek().kind.is_in() {
            self.tokens.consume()
        }
        self.tokens.consume_indent();

        let value = expressions.parse_expression(&self.tokens);
        self.tokens.advance(value.width);
        let children = self.maybe_parse_block(expressions, current_indent)?;

        let last_child_location = crate::span::last_node_location(&children);

        let location = match last_child_location {
            Some(location) => start_location.merge(location),
            None => start_location.merge(value.location()),
        };

        Ok(
            AstNode::For {
                binding: Box::new(binding),
                value,
                children,
                location,
                keyword: keyword.location,
            },
        )
    }

    /// The condition on which the parse ends at `token`, if it begins no node.
    fn refusal(token: Token) -> (error: Option<ParseError>)
        ensures
            error == if grammar::begins_node(token.kind) {
                None
            } else {
                Some(grammar::refusal(token))
            },
    {
        match token.kind {
            TokenKind::Element(_) => None,
            TokenKind::Container(_) => None,
            TokenKind::String(_) => None,
            TokenKind::Identifier(_) => None,
            TokenKind::Decl => None,
            TokenKind::Local => None,
            TokenKind::Global => None,
            TokenKind::Component => None,
            TokenKind::ComponentSlot => None,
            TokenKind::For => None,
            TokenKind::If => Some(ParseError::Unsupported(token)),
            TokenKind::Switch => Some(ParseError::Unsupported(token)),
            TokenKind::With => Some(ParseError::Unsupported(token)),
            TokenKind::Indent(_) => Some(ParseError::Unexpected(token)),
            TokenKind::Else => Some(ParseError::Unexpected(token)),
            TokenKind::In => Some(ParseError::Unexpected(token)),
            TokenKind::Case => Some(ParseError::Unexpected(token)),
            TokenKind::Default => Some(ParseError::Unexpected(token)),
            TokenKind::As => Some(ParseError::Unexpected(token)),
            TokenKind::Eof => Some(ParseError::Unexpected(token)),
            TokenKind::Newline => Some(ParseError::Unexpected(token)),
            TokenKind::Operator(_) => Some(ParseError::Unexpected(token)),
            TokenKind::Primitive(_) => Some(ParseError::Unexpected(token)),
            TokenKind::Error(_) => Some(ParseError::Unexpected(token)),
            TokenKind::Equal => Some(ParseError::Unexpected(token)),
        }
    }

    /// Reads one node. Its first token, behind indentation markers, decides which
    /// construct it is, and must begin one.
    fn parse_node<G: ExpressionParser>(&mut self, expressions: &G, current_indent: usize) -> (result:
        Result<AstNode, ParseError>)
        requires
            grammar::begins_node(
                token_at(
                    old(self).tokens(),
                    past_indents(old(self).tokens(), old(self).state().pos),
                ).kind,
            ),
        ensures
            final(self).gives_node(
                *old(self),
                result,
                grammar::node(
                    expressions,
                    old(self).tokens(),
                    old(self).depth_limit(),
                    old(self).state(),
                    current_indent,
                ),
            ),
            result is Ok ==> final(self).advanced(*old(self)),
        decreases old(self).tokens().len() - old(self).state().pos, 1int, 1int,
    {
        let ghost tokens = self.tokens();
        let token = self.tokens.peek_skip_indent();
        let ghost at = self.state().pos;
        match token.kind {
            TokenKind::Element(element) => self.parse_element(expressions, element, current_indent),
            TokenKind::Container(_) => self.parse_container(expressions, current_indent),
            TokenKind::String(_) => Ok(self.parse_string()),
            TokenKind::Identifier(_) => Ok(self.parse_identifier()),
            TokenKind::Decl => {
                proof {
                    grammar::lemma_declaration_advances(expressions, tokens, at);
                }
                Ok(self.parse_declaration(expressions))
            },
            TokenKind::Local => {
                proof {
                    grammar::lemma_declaration_advances(expressions, tokens, at);
                }
                Ok(self.parse_declaration(expressions))
            },
            TokenKind::Global => {
                proof {
                    grammar::lemma_declaration_advances(expressions, tokens, at);
                }
                Ok(self.parse_declaration(expressions))
            },
            TokenKind::Component => {
                proof {
                    grammar::lemma_component_advances(expressions, tokens, at);
                }
                Ok(self.parse_component(expressions))
            },
            TokenKind::ComponentSlot => Ok(self.parse_component_slot()),
            TokenKind::For => self.parse_for_loop(expressions, current_indent),
            TokenKind::If
            | TokenKind::Switch
            | TokenKind::With
            | TokenKind::Indent(_)
            | TokenKind::Else
            | TokenKind::In
            | TokenKind::Case
            | TokenKind::Default
            | TokenKind::As
            | TokenKind::Eof
            | TokenKind::Newline
            | TokenKind::Operator(_)
            | TokenKind::Primitive(_)
            | TokenKind::Error(_)
            | TokenKind::Equal => unreached(),
        }
    }

    /// Reads the block of children below a line of width `current_indent`, if the next
    /// line is wider.
    fn maybe_parse_block<G: ExpressionParser>(&mut self, expressions: &G, current_indent: usize) -> (result:
        Result<Vec<AstNode>, ParseError>)
        ensures
            final(self).gives_nodes(
                *old(self),
                result,
                grammar::maybe_block(
                    expressions,
                    old(self).tokens(),
                    old(self).depth_limit(),
                    old(self).state(),
                    current_indent,
                ),
            ),
            result is Ok ==> final(self).not_behind(*old(self)),
        decreases old(self).tokens().len() - old(self).state().pos, 4int, 0int,
    {
        self.tokens.consume_newlines();

        let next_indent = match self.tokens.peek().kind {
            TokenKind::Indent(i) => i,
            _ => 0,
        };

        if next_indent > current_indent {
            self.parse_block(expressions, next_indent)
        } else {
            let children: Vec<AstNode> = Vec::new();
            proof {
                lemma_nodes_view_empty(children@);
            }
            Ok(children)
        }
    }

    /// Reads the lines of width `block_indent` as the nodes of one block, in a scope of its
    /// own. The block ends before the first line of another width, of which nothing is
    /// read, and at the end of the input. The parse ends at a line of the block's width
    /// whose first token begins no node.
    fn parse_block<G: ExpressionParser>(&mut self, expressions: &G, block_indent: usize) -> (result:
        Result<Vec<AstNode>, ParseError>)
        ensures
            final(self).gives_nodes(
                *old(self),
                result,
                grammar::block(
                    expressions,
                    old(self).tokens(),
                    old(self).depth_limit(),
                    old(self).state(),
                    block_indent,
                ),
            ),
            result is Ok ==> final(self).not_behind(*old(self)),
        decreases old(self).tokens().len() - old(self).state().pos, 3int, 0int,
    {
        proof {
            self.lemma_inside();
        }
        if self.scope_stack.len() >= self.depth_limit {
            return Err(ParseError::RecursionLimit);
        }
        self.add_scope();

        let mut nodes: Vec<AstNode> = Vec::new();
        let ghost tokens = self.tokens();
        let ghost limit = self.depth_limit();
        let ghost all = grammar::block_items(expressions, tokens, limit, self.state(), block_indent);
        proof {
            lemma_nodes_view_empty(nodes@);
            match all {
                Ok((rest, end)) => {
                    assert(nodes_view(nodes@) + rest =~= rest);
                },
                Err(_) => {},
            }
        }

        loop
            invariant_except_break
                match grammar::block_items(expressions, tokens, limit, self.state(), block_indent) {
                    Ok((rest, end)) => all == Ok::<(Seq<NodeView>, State), ParseError>(
                        (nodes_view(nodes@) + rest, end),
                    ),
                    Err(error) => all == Err::<(Seq<NodeView>, State), ParseError>(error),
                },
            invariant
                self.follows(*old(self), self.state()),
                tokens == old(self).tokens(),
                limit == old(self).depth_limit(),
                old(self).state().open.len() < limit,
                all == grammar::block_items(
                    expressions,
                    tokens,
                    limit,
                    old(self).state().enter(),
                    block_indent,
                ),
                0 <= old(self).state().pos <= self.state().pos <= tokens.len(),
            ensures
                all == Ok::<(Seq<NodeView>, State), ParseError>((nodes_view(nodes@), self.state())),
            decreases tokens.len() - self.state().pos,
        {
            let ghost before = nodes_view(nodes@);
            self.tokens.consume_newlines();

            let current_indent = match self.tokens.peek().kind {
                TokenKind::Indent(i) => i,
                _ => 0,
            };

            if current_indent < block_indent {
                assert(before + Seq::<NodeView>::empty() =~= before);
                break ;
            }
            if current_indent > block_indent {
                assert(before + Seq::<NodeView>::empty() =~= before);
                break ;
            }
            self.tokens.consume_indent();
            if self.tokens.peek().kind.is_eof() {
                assert(before + Seq::<NodeView>::empty() =~= before);
                break ;
            }
            let ghost body = self.state();
            let first = self.tokens.peek_skip_indent();
            match Self::refusal(first) {
                Some(error) => {
                    return Err(error);
                },
                None => {},
            }
            proof {
                crate::tokens::lemma_past_indents(tokens, body.pos);
                assert(past_indents(tokens, self.state().pos) == self.state().pos);
                assert(self.state().at(self.state().pos) == body.at(self.state().pos));
                assert(grammar::node(expressions, tokens, limit, self.state(), block_indent)
                    == grammar::node(expressions, tokens, limit, body, block_indent));
            }
            let node = self.parse_node(expressions, current_indent)?;
            proof {
                lemma_nodes_view_push(nodes@, node);
                match grammar::block_items(expressions, tokens, limit, self.state(), block_indent) {
                    Ok((rest, end)) => {
                        assert(before + (seq![node@] + rest) =~= before.push(node@) + rest);
                    },
                    Err(_) => {},
                }
            }
            nodes.push(node);
        }

        self.pop_scope();
        Ok(nodes)
    }

    /// Reads the whole input: the block that begins at the cursor, of the width of its
    /// first line.
    ///
    /// The parse ends with an error, and yields no tree, where a node begins with `if`,
    /// `switch` or `with`, where it begins with a token that cannot begin a node, and where
    /// more blocks are nested than the limit allows.
    ///
    /// In the tree of a parser that [`Parser::new`] made, every node is well spanned, and
    /// the scopes are a forest, one scope for each block that was entered: all of them
    /// empty, the first without a parent, every other below the scope of the block around
    /// it.
    pub fn parse<G: ExpressionParser>(self, expressions: &G) -> (result: Result<Ast, ParseError>)
        ensures
            match grammar::document(expressions, self.tokens(), self.depth_limit(), self.state()) {
                Ok(ast) => result matches Ok(built) && built@ == ast,
                Err(error) => result matches Err(raised) && raised == error,
            },
            self.state().well_formed() ==> (result matches Ok(built) ==> {
                &&& all_well_spanned(built@.nodes)
                &&& is_forest(built@.scopes)
                &&& built@.scopes.len() > self.state().scopes.len()
                &&& self.state().scopes.len() == 0 ==> is_rooted(built@.scopes)
                    && built@.scopes[0].parent is None
            }),
    {
        let mut parser = self;
        let base_indent = match parser.tokens.peek().kind {
            TokenKind::Indent(indent) => indent,
            _ => 0,
        };
        proof {
            if parser.state().well_formed() {
                crate::laws::lemma_block(
                    expressions,
                    parser.tokens(),
                    parser.depth_limit(),
                    parser.state(),
                    base_indent,
                );
            }
        }

        let nodes = parser.parse_block(expressions, base_indent)?;
        parser.ast.nodes = nodes;
        Ok(parser.ast)
    }

    /// Opens a scope below the innermost open one.
    fn add_scope(&mut self)
        ensures
            final(self).follows(*old(self), old(self).state().enter()),
    {
        let scope_id = self.ast.scopes.len();
        let parent = if self.scope_stack.len() == 0 {
            None
        } else {
            Some(self.scope_stack[self.scope_stack.len() - 1])
        };

        self.ast.scopes.push(Scope { variables: Vec::new(), parent });
        self.scope_stack.push(scope_id);
        proof {
            assert(final(self).state().scopes =~= old(self).state().enter().scopes);
        }
    }

    /// Closes the innermost open scope.
    fn pop_scope(&mut self)
        ensures
            final(self).follows(*old(self), old(self).state().leave()),
    {
        self.scope_stack.pop();
    }
}

} // verus!
