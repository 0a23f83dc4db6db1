use aml_syntax::ast::{Ast, AstNode, Attributes, DeclarationKind, Scope};
use aml_syntax::error::ParseError;
use aml_syntax::expression::{Atoms, Expression, ExpressionParser};
use aml_syntax::location::Location;
use aml_syntax::parser::{Parser, DEFAULT_DEPTH_LIMIT};
use aml_syntax::token::{ContainerKind, Element, Operator, Primitive, Token, TokenKind};
use aml_syntax::tokens::Tokens;

/// Lays tokens out one after the other: token `i` covers the positions `3 * i` to
/// `3 * i + 2`, and a name or a string carries that range as its text.
fn stream(kinds: Vec<TokenKind>) -> Vec<Token> {
    let mut tokens = Vec::new();
    let mut at = 0;
    for kind in kinds {
        let location = Location::new(at, at + 2);
        let kind = match kind {
            TokenKind::Identifier(_) => TokenKind::Identifier(location),
            TokenKind::String(_) => TokenKind::String(location),
            other => other,
        };
        tokens.push(Token::new(kind, location));
        at += 3;
    }
    tokens
}

/// The range of token `i` of a stream.
fn at(i: usize) -> Location {
    Location::new(3 * i, 3 * i + 2)
}

fn loc(start: usize, end: usize) -> Location {
    Location::new(start, end)
}

fn ident() -> TokenKind {
    TokenKind::Identifier(Location::new(0, 0))
}

fn string() -> TokenKind {
    TokenKind::String(Location::new(0, 0))
}

fn number(value: i64) -> TokenKind {
    TokenKind::Primitive(Primitive::Int(value))
}

fn op(operator: Operator) -> TokenKind {
    TokenKind::Operator(operator)
}

fn text() -> TokenKind {
    TokenKind::Element(Element::Text)
}

fn container(tag: u32) -> TokenKind {
    TokenKind::Container(ContainerKind { tag })
}

fn parse(kinds: Vec<TokenKind>) -> Result<Ast, ParseError> {
    Parser::new(Tokens::new(stream(kinds))).parse(&Atoms)
}

fn no_attributes() -> Attributes {
    Attributes { items: vec![], location: None }
}

fn scope(parent: Option<usize>) -> Scope {
    Scope { variables: vec![], parent }
}

/// A text element without attributes, values or children.
fn bare_text(i: usize) -> AstNode {
    AstNode::Text {
        attributes: no_attributes(),
        values: vec![],
        children: vec![],
        location: at(i),
        keyword: at(i),
    }
}

fn atom(i: usize, width: usize) -> Expression {
    Expression { location: at(i), has_error: false, width }
}

/// A grammar that takes one atom, and calls it malformed where a colon follows.
struct NoColonAfter;

impl ExpressionParser for NoColonAfter {
    fn parse_expression(&self, tokens: &Tokens) -> Expression {
        let atom = Atoms.parse_expression(tokens);
        let next = tokens.get(tokens.position() + atom.width);
        if next.kind == TokenKind::Operator(Operator::Colon) {
            Expression { has_error: true, ..atom }
        } else {
            atom
        }
    }
}

#[test]
fn text_with_attribute_and_value() {
    // text [color: "red"] "hello"
    let ast = parse(vec![
        text(),
        TokenKind::Indent(1),
        op(Operator::LBracket),
        ident(),
        op(Operator::Colon),
        TokenKind::Indent(1),
        string(),
        op(Operator::RBracket),
        TokenKind::Indent(1),
        string(),
    ])
    .unwrap();

    let expected = AstNode::Text {
        attributes: Attributes {
            items: vec![AstNode::Attribute {
                name: Box::new(AstNode::Identifier(at(3))),
                value: atom(6, 1),
                location: loc(9, 20),
            }],
            location: Some(loc(6, 23)),
        },
        values: vec![AstNode::String(at(9))],
        children: vec![],
        location: loc(0, 29),
        keyword: at(0),
    };
    assert_eq!(ast.nodes, vec![expected]);
    assert_eq!(ast.scopes, vec![scope(None)]);
}

#[test]
fn container_with_and_without_children() {
    // a
    // b
    //     text
    let ast = parse(vec![
        container(1),
        TokenKind::Newline,
        container(2),
        TokenKind::Newline,
        TokenKind::Indent(4),
        text(),
    ])
    .unwrap();

    let first = AstNode::Container {
        kind: ContainerKind { tag: 1 },
        children: vec![],
        attributes: no_attributes(),
        location: at(0),
        keyword: at(0),
    };
    let second = AstNode::Container {
        kind: ContainerKind { tag: 2 },
        children: vec![bare_text(5)],
        attributes: no_attributes(),
        location: loc(6, 17),
        keyword: at(2),
    };
    assert_eq!(ast.nodes, vec![first, second]);
    assert_eq!(ast.scopes, vec![scope(None), scope(Some(0))]);
}

#[test]
fn for_loop_without_children() {
    // for x in items
    let ast = parse(vec![
        TokenKind::For,
        TokenKind::Indent(1),
        ident(),
        TokenKind::Indent(1),
        TokenKind::In,
        TokenKind::Indent(1),
        ident(),
    ])
    .unwrap();
    assert_eq!(
        ast.nodes,
        vec![AstNode::For {
            binding: Box::new(AstNode::Identifier(at(2))),
            value: atom(6, 1),
            children: vec![],
            location: loc(0, 20),
            keyword: at(0),
        }]
    );
}

#[test]
fn for_loop_without_the_word_in() {
    // for x items
    //     text
    let ast = parse(vec![
        TokenKind::For,
        TokenKind::Indent(1),
        ident(),
        TokenKind::Indent(1),
        ident(),
        TokenKind::Newline,
        TokenKind::Indent(4),
        text(),
    ])
    .unwrap();
    assert_eq!(
        ast.nodes,
        vec![AstNode::For {
            binding: Box::new(AstNode::Identifier(at(2))),
            value: atom(4, 1),
            children: vec![bare_text(7)],
            location: loc(0, 23),
            keyword: at(0),
        }]
    );
    assert_eq!(ast.scopes, vec![scope(None), scope(Some(0))]);
}

#[test]
fn local_declaration() {
    // local x = 1
    let ast = parse(vec![
        TokenKind::Local,
        TokenKind::Indent(1),
        ident(),
        TokenKind::Indent(1),
        TokenKind::Equal,
        TokenKind::Indent(1),
        number(1),
    ])
    .unwrap();
    assert_eq!(
        ast.nodes,
        vec![AstNode::Declaration {
            kind: DeclarationKind::Local,
            name: Box::new(AstNode::Identifier(at(2))),
            value: atom(6, 2),
            location: loc(0, 20),
        }]
    );
}

#[test]
fn the_three_declaration_keywords() {
    let kind_of = |keyword: TokenKind| {
        let ast = parse(vec![keyword, ident(), TokenKind::Equal, number(1)]).unwrap();
        match &ast.nodes[0] {
            AstNode::Declaration { kind, .. } => *kind,
            other => panic!("no declaration: {:?}", other),
        }
    };
    assert_eq!(kind_of(TokenKind::Local), DeclarationKind::Local);
    assert_eq!(kind_of(TokenKind::Decl), DeclarationKind::Local);
    assert_eq!(kind_of(TokenKind::Global), DeclarationKind::Global);
}

#[test]
fn declaration_takes_any_token_for_the_equals_sign() {
    // local x 1: the literal is read in place of the sign, and no value is left
    let ast = parse(vec![TokenKind::Local, TokenKind::Indent(1), ident(), TokenKind::Indent(1), number(1)])
        .unwrap();
    assert_eq!(
        ast.nodes,
        vec![AstNode::Declaration {
            kind: DeclarationKind::Local,
            name: Box::new(AstNode::Identifier(at(2))),
            value: Expression { location: loc(14, 14), has_error: true, width: 0 },
            location: loc(0, 14),
        }]
    );
}

#[test]
fn slot_with_name() {
    // slot name
    let ast = parse(vec![TokenKind::ComponentSlot, ident()]).unwrap();
    assert_eq!(
        ast.nodes,
        vec![AstNode::ComponentSlot {
            name: Box::new(AstNode::Identifier(at(1))),
            location: loc(0, 5),
        }]
    );
    assert_eq!(ast.scopes, vec![scope(None)]);
}

#[test]
fn slot_without_name() {
    let ast = parse(vec![TokenKind::ComponentSlot]).unwrap();
    assert_eq!(
        ast.nodes,
        vec![AstNode::ComponentSlot {
            name: Box::new(AstNode::Error { token: TokenKind::Eof, location: loc(2, 2) }),
            location: loc(0, 2),
        }]
    );
}

#[test]
fn component_with_and_without_attributes() {
    // component name [a: 1]
    // component name
    let ast = parse(vec![
        TokenKind::Component,
        ident(),
        TokenKind::Indent(1),
        op(Operator::LBracket),
        ident(),
        op(Operator::Colon),
        number(1),
        op(Operator::RBracket),
        TokenKind::Newline,
        TokenKind::Component,
        ident(),
    ])
    .unwrap();
    let first = AstNode::Component {
        name: Box::new(AstNode::Identifier(at(1))),
        attributes: Attributes {
            items: vec![AstNode::Attribute {
                name: Box::new(AstNode::Identifier(at(4))),
                value: atom(6, 1),
                location: loc(12, 20),
            }],
            location: Some(loc(9, 23)),
        },
        location: loc(0, 23),
    };
    let second = AstNode::Component {
        name: Box::new(AstNode::Identifier(at(10))),
        attributes: no_attributes(),
        location: loc(27, 32),
    };
    assert_eq!(ast.nodes, vec![first, second]);
}

#[test]
fn span_takes_values_and_no_children() {
    // span "a" b
    //     text
    let ast = parse(vec![
        TokenKind::Element(Element::Span),
        TokenKind::Indent(1),
        string(),
        TokenKind::Indent(1),
        ident(),
        TokenKind::Newline,
        TokenKind::Indent(4),
        text(),
    ])
    .unwrap();
    assert_eq!(
        ast.nodes,
        vec![AstNode::Span {
            attributes: no_attributes(),
            values: vec![AstNode::String(at(2)), AstNode::Identifier(at(4))],
            location: loc(0, 14),
            keyword: at(0),
        }]
    );
    assert_eq!(ast.scopes, vec![scope(None)]);
}

#[test]
fn values_keep_unexpected_tokens_as_errors() {
    // text "a" = 7 b
    let ast = parse(vec![
        text(),
        TokenKind::Indent(1),
        string(),
        TokenKind::Equal,
        number(7),
        op(Operator::Comma),
        ident(),
    ])
    .unwrap();
    assert_eq!(
        ast.nodes,
        vec![AstNode::Text {
            attributes: no_attributes(),
            values: vec![
                AstNode::String(at(2)),
                AstNode::Error { token: TokenKind::Equal, location: at(3) },
                AstNode::Primitive { value: Primitive::Int(7), location: at(4) },
                AstNode::Error { token: op(Operator::Comma), location: at(5) },
                AstNode::Identifier(at(6)),
            ],
            children: vec![],
            location: loc(0, 20),
            keyword: at(0),
        }]
    );
}

#[test]
fn malformed_attribute_drops_the_rest_of_the_list() {
    // text [badtoken "ok":1]
    let tokens = stream(vec![
        text(),
        TokenKind::Indent(1),
        op(Operator::LBracket),
        ident(),
        TokenKind::Indent(1),
        string(),
        op(Operator::Colon),
        number(1),
        op(Operator::RBracket),
    ]);
    let ast = Parser::new(Tokens::new(tokens)).parse(&NoColonAfter).unwrap();
    let expected = AstNode::Text {
        attributes: Attributes {
            items: vec![AstNode::Attribute {
                name: Box::new(AstNode::Identifier(at(3))),
                value: Expression { location: at(5), has_error: true, width: 1 },
                location: loc(9, 17),
            }],
            location: Some(loc(6, 26)),
        },
        values: vec![],
        children: vec![],
        location: loc(0, 26),
        keyword: at(0),
    };
    assert_eq!(ast.nodes, vec![expected]);
}

#[test]
fn malformed_attribute_hides_two_well_formed_ones() {
    // text [a: +, b: 1, c: 2] "x"
    let ast = parse(vec![
        text(),
        TokenKind::Indent(1),
        op(Operator::LBracket),
        ident(),
        op(Operator::Colon),
        TokenKind::Indent(1),
        op(Operator::Plus),
        op(Operator::Comma),
        TokenKind::Indent(1),
        ident(),
        op(Operator::Colon),
        TokenKind::Indent(1),
        number(1),
        op(Operator::Comma),
        TokenKind::Indent(1),
        ident(),
        op(Operator::Colon),
        TokenKind::Indent(1),
        number(2),
        op(Operator::RBracket),
        TokenKind::Indent(1),
        string(),
    ])
    .unwrap();
    let expected = AstNode::Text {
        attributes: Attributes {
            items: vec![AstNode::Attribute {
                name: Box::new(AstNode::Identifier(at(3))),
                value: Expression { location: at(6), has_error: true, width: 0 },
                location: loc(9, 20),
            }],
            location: Some(loc(6, 59)),
        },
        values: vec![AstNode::String(at(21))],
        children: vec![],
        location: loc(0, 65),
        keyword: at(0),
    };
    assert_eq!(ast.nodes, vec![expected]);
}

#[test]
fn well_formed_attributes_are_all_kept() {
    // text [a: 1, b 2
    //   c: "x"]
    let ast = parse(vec![
        text(),
        op(Operator::LBracket),
        ident(),
        op(Operator::Colon),
        number(1),
        op(Operator::Comma),
        TokenKind::Indent(1),
        ident(),
        TokenKind::Indent(1),
        number(2),
        TokenKind::Newline,
        TokenKind::Indent(2),
        ident(),
        op(Operator::Colon),
        TokenKind::Indent(1),
        string(),
        op(Operator::RBracket),
    ])
    .unwrap();
    let attribute = |name: usize, value: usize, width: usize| AstNode::Attribute {
        name: Box::new(AstNode::Identifier(at(name))),
        value: atom(value, width),
        location: loc(3 * name, 3 * value + 2),
    };
    assert_eq!(
        ast.nodes,
        vec![AstNode::Text {
            attributes: Attributes {
                items: vec![attribute(2, 4, 1), attribute(7, 9, 1), attribute(12, 15, 1)],
                location: Some(loc(3, 50)),
            },
            values: vec![],
            children: vec![],
            location: loc(0, 50),
            keyword: at(0),
        }]
    );
}

#[test]
fn attribute_list_may_end_with_the_input() {
    // text [a: 1
    let ast = parse(vec![text(), op(Operator::LBracket), ident(), op(Operator::Colon), number(1)])
        .unwrap();
    assert_eq!(
        ast.nodes,
        vec![AstNode::Text {
            attributes: Attributes {
                items: vec![AstNode::Attribute {
                    name: Box::new(AstNode::Identifier(at(2))),
                    value: atom(4, 1),
                    location: loc(6, 14),
                }],
                location: Some(loc(3, 14)),
            },
            values: vec![],
            children: vec![],
            location: loc(0, 14),
            keyword: at(0),
        }]
    );
}

#[test]
fn attribute_name_that_is_no_identifier() {
    // text [7: 1]
    let ast = parse(vec![
        text(),
        op(Operator::LBracket),
        number(7),
        op(Operator::Colon),
        number(1),
        op(Operator::RBracket),
    ])
    .unwrap();
    match &ast.nodes[0] {
        AstNode::Text { attributes, .. } => assert_eq!(
            attributes.items,
            vec![AstNode::Attribute {
                name: Box::new(AstNode::Error { token: number(7), location: at(2) }),
                value: atom(4, 1),
                location: loc(6, 14),
            }]
        ),
        other => panic!("no text: {:?}", other),
    }
}

#[test]
fn siblings_share_one_block() {
    // a
    //     text
    //     text
    //
    //     text
    // text
    let ast = parse(vec![
        container(1),
        TokenKind::Newline,
        TokenKind::Indent(4),
        text(),
        TokenKind::Newline,
        TokenKind::Indent(4),
        text(),
        TokenKind::Newline,
        TokenKind::Newline,
        TokenKind::Indent(4),
        text(),
        TokenKind::Newline,
        text(),
    ])
    .unwrap();
    let first = AstNode::Container {
        kind: ContainerKind { tag: 1 },
        children: vec![bare_text(3), bare_text(6), bare_text(10)],
        attributes: no_attributes(),
        location: loc(0, 32),
        keyword: at(0),
    };
    assert_eq!(ast.nodes, vec![first, bare_text(12)]);
    assert_eq!(ast.scopes, vec![scope(None), scope(Some(0))]);
}

#[test]
fn narrower_line_goes_back_to_the_block_of_its_width() {
    // a
    //   b
    //     text
    //   c
    let ast = parse(vec![
        container(1),
        TokenKind::Newline,
        TokenKind::Indent(2),
        container(2),
        TokenKind::Newline,
        TokenKind::Indent(4),
        text(),
        TokenKind::Newline,
        TokenKind::Indent(2),
        container(3),
        TokenKind::Eof,
    ])
    .unwrap();
    let b = AstNode::Container {
        kind: ContainerKind { tag: 2 },
        children: vec![bare_text(6)],
        attributes: no_attributes(),
        location: loc(9, 20),
        keyword: at(3),
    };
    let c = AstNode::Container {
        kind: ContainerKind { tag: 3 },
        children: vec![],
        attributes: no_attributes(),
        location: at(9),
        keyword: at(9),
    };
    let a = AstNode::Container {
        kind: ContainerKind { tag: 1 },
        children: vec![b, c],
        attributes: no_attributes(),
        location: loc(0, 29),
        keyword: at(0),
    };
    assert_eq!(ast.nodes, vec![a]);
    assert_eq!(ast.scopes, vec![scope(None), scope(Some(0)), scope(Some(1))]);
}

#[test]
fn narrower_lines_close_as_many_blocks_as_they_leave() {
    // a
    //   b
    //     c
    //       text
    //   d
    // text
    let ast = parse(vec![
        container(1),
        TokenKind::Newline,
        TokenKind::Indent(2),
        container(2),
        TokenKind::Newline,
        TokenKind::Indent(4),
        container(3),
        TokenKind::Newline,
        TokenKind::Indent(6),
        text(),
        TokenKind::Newline,
        TokenKind::Indent(2),
        container(4),
        TokenKind::Newline,
        text(),
    ])
    .unwrap();
    let plain = |tag: u32, i: usize, children: Vec<AstNode>, end: usize| AstNode::Container {
        kind: ContainerKind { tag },
        children,
        attributes: no_attributes(),
        location: loc(3 * i, end),
        keyword: at(i),
    };
    let c = plain(3, 6, vec![bare_text(9)], 29);
    let b = plain(2, 3, vec![c], 29);
    let d = plain(4, 12, vec![], 38);
    let a = plain(1, 0, vec![b, d], 38);
    assert_eq!(ast.nodes, vec![a, bare_text(14)]);
    assert_eq!(
        ast.scopes,
        vec![scope(None), scope(Some(0)), scope(Some(1)), scope(Some(2))]
    );
}

#[test]
fn line_between_two_widths_has_no_block_and_ends_the_parse() {
    // a
    //     text
    //   text      narrower than the children of a, wider than a: no block is of its width
    // text
    let ast = parse(vec![
        container(1),
        TokenKind::Newline,
        TokenKind::Indent(4),
        text(),
        TokenKind::Newline,
        TokenKind::Indent(2),
        text(),
        TokenKind::Newline,
        text(),
    ])
    .unwrap();
    let first = AstNode::Container {
        kind: ContainerKind { tag: 1 },
        children: vec![bare_text(3)],
        attributes: no_attributes(),
        location: loc(0, 11),
        keyword: at(0),
    };
    assert_eq!(ast.nodes, vec![first]);
}

#[test]
fn wider_line_without_owner_ends_the_blocks_around_it() {
    // a
    //   local x = 1
    //       text      a declaration has no children: the line has no owner
    //   text
    let ast = parse(vec![
        container(1),
        TokenKind::Newline,
        TokenKind::Indent(2),
        TokenKind::Local,
        ident(),
        TokenKind::Equal,
        number(1),
        TokenKind::Newline,
        TokenKind::Indent(6),
        text(),
        TokenKind::Newline,
        TokenKind::Indent(2),
        text(),
    ])
    .unwrap();
    let declaration = AstNode::Declaration {
        kind: DeclarationKind::Local,
        name: Box::new(AstNode::Identifier(at(4))),
        value: atom(6, 1),
        location: loc(9, 20),
    };
    assert_eq!(
        ast.nodes,
        vec![AstNode::Container {
            kind: ContainerKind { tag: 1 },
            children: vec![declaration],
            attributes: no_attributes(),
            location: loc(0, 20),
            keyword: at(0),
        }]
    );
    assert_eq!(ast.scopes, vec![scope(None), scope(Some(0))]);
}

#[test]
fn wider_line_without_owner_ends_the_block() {
    // local x = 1
    //     text
    // text
    let ast = parse(vec![
        TokenKind::Local,
        ident(),
        TokenKind::Equal,
        number(1),
        TokenKind::Newline,
        TokenKind::Indent(4),
        text(),
        TokenKind::Newline,
        text(),
    ])
    .unwrap();
    assert_eq!(
        ast.nodes,
        vec![AstNode::Declaration {
            kind: DeclarationKind::Local,
            name: Box::new(AstNode::Identifier(at(1))),
            value: atom(3, 1),
            location: loc(0, 11),
        }]
    );
    assert_eq!(ast.scopes, vec![scope(None)]);
}

#[test]
fn first_line_sets_the_width_of_the_outermost_block() {
    //   text
    //   text
    // text
    let ast = parse(vec![
        TokenKind::Indent(2),
        text(),
        TokenKind::Newline,
        TokenKind::Indent(2),
        text(),
        TokenKind::Newline,
        text(),
    ])
    .unwrap();
    assert_eq!(ast.nodes, vec![bare_text(1), bare_text(4)]);
}

#[test]
fn scopes_follow_the_blocks() {
    // a            scope 0 is the outermost block
    //   b          scope 1: children of a
    //     text     scope 2: children of b
    //   c
    //     text     scope 3: children of c
    // for x xs
    //   text       scope 4: children of the loop
    let ast = parse(vec![
        container(1),
        TokenKind::Newline,
        TokenKind::Indent(2),
        container(2),
        TokenKind::Newline,
        TokenKind::Indent(4),
        text(),
        TokenKind::Newline,
        TokenKind::Indent(2),
        container(3),
        TokenKind::Newline,
        TokenKind::Indent(4),
        text(),
        TokenKind::Newline,
        TokenKind::For,
        ident(),
        ident(),
        TokenKind::Newline,
        TokenKind::Indent(2),
        text(),
    ])
    .unwrap();
    assert_eq!(
        ast.scopes,
        vec![scope(None), scope(Some(0)), scope(Some(1)), scope(Some(1)), scope(Some(0))]
    );
    assert_eq!(ast.nodes.len(), 2);
    match &ast.nodes[0] {
        AstNode::Container { children, .. } => assert_eq!(children.len(), 2),
        other => panic!("no container: {:?}", other),
    }
    for (index, scope) in ast.scopes.iter().enumerate() {
        match scope.parent {
            Some(parent) => assert!(parent < index),
            None => assert_eq!(index, 0),
        }
        assert!(scope.variables.is_empty());
    }
}

#[test]
fn entered_block_without_nodes_still_has_a_scope() {
    // a
    //     (nothing but the indentation)
    let ast = parse(vec![container(1), TokenKind::Newline, TokenKind::Indent(4)]).unwrap();
    assert_eq!(
        ast.nodes,
        vec![AstNode::Container {
            kind: ContainerKind { tag: 1 },
            children: vec![],
            attributes: no_attributes(),
            location: at(0),
            keyword: at(0),
        }]
    );
    assert_eq!(ast.scopes, vec![scope(None), scope(Some(0))]);
}

#[test]
fn empty_input() {
    let ast = parse(vec![]).unwrap();
    assert_eq!(ast.nodes, vec![]);
    assert_eq!(ast.scopes, vec![scope(None)]);
}

#[test]
fn blank_lines_before_the_first_line() {
    let ast = parse(vec![TokenKind::Newline, TokenKind::Newline, string(), TokenKind::Newline, ident()])
        .unwrap();
    assert_eq!(ast.nodes, vec![AstNode::String(at(2)), AstNode::Identifier(at(4))]);
}

#[test]
fn reserved_keywords_end_the_parse() {
    for keyword in [TokenKind::If, TokenKind::Switch, TokenKind::With] {
        let result = parse(vec![text(), TokenKind::Newline, keyword, ident()]);
        assert_eq!(result, Err(ParseError::Unsupported(Token::new(keyword, at(2)))));
    }
}

#[test]
fn tokens_that_begin_no_node_end_the_parse() {
    let kinds = [
        TokenKind::Else,
        TokenKind::In,
        TokenKind::Case,
        TokenKind::Default,
        TokenKind::As,
        TokenKind::Equal,
        TokenKind::Error(7),
        number(3),
        op(Operator::LBracket),
    ];
    for kind in kinds {
        let result = parse(vec![kind, ident()]);
        assert_eq!(result, Err(ParseError::Unexpected(Token::new(kind, at(0)))));
    }
}

#[test]
fn indentation_before_the_end_of_the_input_ends_the_parse() {
    let result = parse(vec![TokenKind::Indent(0), TokenKind::Indent(0)]);
    assert_eq!(
        result,
        Err(ParseError::Unexpected(Token::new(TokenKind::Eof, loc(5, 5))))
    );
}

#[test]
fn error_inside_a_nested_block_ends_the_parse() {
    let result = parse(vec![
        container(1),
        TokenKind::Newline,
        TokenKind::Indent(4),
        text(),
        TokenKind::Newline,
        TokenKind::Indent(4),
        TokenKind::With,
    ]);
    assert_eq!(result, Err(ParseError::Unsupported(Token::new(TokenKind::With, at(6)))));
}

#[test]
fn depth_limit_bounds_the_open_blocks() {
    let nested = || {
        stream(vec![
            container(1),
            TokenKind::Newline,
            TokenKind::Indent(2),
            container(2),
            TokenKind::Newline,
            TokenKind::Indent(4),
            text(),
        ])
    };
    let with_limit =
        |limit: usize| Parser::new(Tokens::new(nested())).with_depth_limit(limit).parse(&Atoms);

    assert_eq!(with_limit(0), Err(ParseError::RecursionLimit));
    assert_eq!(with_limit(1), Err(ParseError::RecursionLimit));
    assert_eq!(with_limit(2), Err(ParseError::RecursionLimit));
    let ast = with_limit(3).unwrap();
    assert_eq!(ast.scopes, vec![scope(None), scope(Some(0)), scope(Some(1))]);
    assert_eq!(DEFAULT_DEPTH_LIMIT, 256);
    assert!(Parser::new(Tokens::new(nested())).parse(&Atoms).is_ok());
}

#[test]
fn deep_nesting_is_refused_not_followed() {
    let mut kinds = Vec::new();
    for depth in 0..300 {
        kinds.push(TokenKind::Indent(depth + 1));
        kinds.push(container(0));
        kinds.push(TokenKind::Newline);
    }
    assert_eq!(parse(kinds), Err(ParseError::RecursionLimit));
}

#[test]
fn every_stream_of_two_tokens_is_read_to_an_end() {
    let kinds = [
        TokenKind::Indent(0),
        TokenKind::Indent(3),
        TokenKind::Newline,
        TokenKind::Eof,
        ident(),
        string(),
        number(0),
        text(),
        TokenKind::Element(Element::Span),
        container(0),
        TokenKind::Decl,
        TokenKind::Component,
        TokenKind::ComponentSlot,
        TokenKind::For,
        TokenKind::In,
        TokenKind::Equal,
        op(Operator::LBracket),
        op(Operator::RBracket),
        op(Operator::Colon),
        op(Operator::Comma),
        TokenKind::Error(7),
    ];
    let mut finished = 0;
    for first in kinds {
        for second in kinds {
            for third in kinds {
                match parse(vec![first, second, third]) {
                    Ok(ast) => assert!(!ast.scopes.is_empty()),
                    Err(error) => assert_ne!(error, ParseError::RecursionLimit),
                }
                finished += 1;
            }
        }
    }
    assert_eq!(finished, 21 * 21 * 21);
}

#[test]
fn end_of_input_token_ends_every_list() {
    // text [a: 1 <end>
    let open_list = parse(vec![
        text(),
        op(Operator::LBracket),
        ident(),
        op(Operator::Colon),
        number(1),
        TokenKind::Eof,
    ])
    .unwrap();
    match &open_list.nodes[0] {
        AstNode::Text { attributes, values, children, location, .. } => {
            assert_eq!(attributes.items.len(), 1);
            assert_eq!(attributes.location, Some(loc(3, 17)));
            assert!(values.is_empty());
            assert!(children.is_empty());
            assert_eq!(*location, loc(0, 17));
        }
        other => panic!("no text: {:?}", other),
    }
    assert_eq!(open_list.nodes.len(), 1);

    // slot name <end>
    let slot = parse(vec![TokenKind::ComponentSlot, ident(), TokenKind::Eof]).unwrap();
    assert_eq!(
        slot.nodes,
        vec![AstNode::ComponentSlot {
            name: Box::new(AstNode::Identifier(at(1))),
            location: loc(0, 5),
        }]
    );

    // text "a" <end>
    let line = parse(vec![text(), string(), TokenKind::Eof]).unwrap();
    match &line.nodes[0] {
        AstNode::Text { values, .. } => assert_eq!(*values, vec![AstNode::String(at(1))]),
        other => panic!("no text: {:?}", other),
    }
}
