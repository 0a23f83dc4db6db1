use aml_syntax::ast::{AstNode, Attributes};
use aml_syntax::expression::Expression;
use aml_syntax::location::Location;
use aml_syntax::span::{last_node_location, LocationCalculator};
use aml_syntax::token::{Primitive, TokenKind};

fn loc(start: usize, end: usize) -> Location {
    Location::new(start, end)
}

fn leaves(ends: &[usize]) -> Vec<AstNode> {
    ends.iter().map(|end| AstNode::String(loc(*end - 1, *end))).collect()
}

fn list(location: Option<Location>) -> Attributes {
    Attributes { items: vec![], location }
}

#[test]
fn merge_keeps_the_start_and_takes_the_later_end() {
    assert_eq!(loc(3, 5).merge(loc(7, 9)), loc(3, 9));
    assert_eq!(loc(3, 9).merge(loc(4, 6)), loc(3, 9));
    assert_eq!(loc(3, 5).merge(loc(0, 2)), loc(3, 5));
    assert_eq!(loc(3, 5).merge(loc(3, 5)), loc(3, 5));
    assert_eq!(loc(0, 0).merge(loc(0, usize::MAX)), loc(0, usize::MAX));
}

#[test]
fn location_of_each_kind_of_node() {
    let location = loc(1, 2);
    let name = || Box::new(AstNode::Identifier(loc(8, 9)));
    let value = Expression { location: loc(5, 6), has_error: false, width: 1 };
    let nodes = vec![
        AstNode::Container {
            kind: aml_syntax::token::ContainerKind { tag: 0 },
            children: vec![],
            attributes: list(None),
            location,
            keyword: loc(1, 1),
        },
        AstNode::Text {
            attributes: list(None),
            values: vec![],
            children: vec![],
            location,
            keyword: loc(1, 1),
        },
        AstNode::Span { attributes: list(None), values: vec![], location, keyword: loc(1, 1) },
        AstNode::Component { name: name(), attributes: list(None), location },
        AstNode::ComponentSlot { name: name(), location },
        AstNode::Declaration {
            kind: aml_syntax::ast::DeclarationKind::Global,
            name: name(),
            value,
            location,
        },
        AstNode::For { binding: name(), value, children: vec![], location, keyword: loc(1, 1) },
        AstNode::Attribute { name: name(), value, location },
        AstNode::Primitive { value: Primitive::Hex(1, 2, 3), location },
        AstNode::String(location),
        AstNode::Identifier(location),
        AstNode::Error { token: TokenKind::Equal, location },
    ];
    for node in &nodes {
        assert_eq!(node.location(), location);
    }
    assert_eq!(last_node_location(&nodes), Some(location));
    assert_eq!(last_node_location(&vec![]), None);
}

#[test]
fn with_values_the_last_child_decides() {
    let merged = LocationCalculator::merge_location_with_values(
        loc(10, 12),
        &list(Some(loc(13, 40))),
        Some(&leaves(&[20, 30])),
        Some(&leaves(&[50, 60, 25])),
    );
    assert_eq!(merged, loc(10, 25));
}

#[test]
fn with_values_and_no_child_the_last_value_decides() {
    let values = leaves(&[20, 30]);
    let merged = LocationCalculator::merge_location_with_values(
        loc(10, 12),
        &list(Some(loc(13, 40))),
        Some(&values),
        Some(&vec![]),
    );
    assert_eq!(merged, loc(10, 30));
    let merged = LocationCalculator::merge_location_with_values(
        loc(10, 12),
        &list(Some(loc(13, 40))),
        Some(&values),
        None,
    );
    assert_eq!(merged, loc(10, 30));
}

#[test]
fn with_values_and_neither_the_attribute_list_decides() {
    let merged = LocationCalculator::merge_location_with_values(
        loc(10, 12),
        &list(Some(loc(13, 40))),
        Some(&vec![]),
        Some(&vec![]),
    );
    assert_eq!(merged, loc(10, 40));
    let merged = LocationCalculator::merge_location_with_values(
        loc(10, 12),
        &list(Some(loc(13, 40))),
        None,
        None,
    );
    assert_eq!(merged, loc(10, 40));
}

#[test]
fn with_values_and_nothing_else_the_start_stays() {
    let merged =
        LocationCalculator::merge_location_with_values(loc(10, 12), &list(None), None, Some(&vec![]));
    assert_eq!(merged, loc(10, 12));
}

#[test]
fn without_values_the_last_child_decides() {
    let merged = LocationCalculator::merge_location_without_values(
        loc(10, 12),
        &list(Some(loc(13, 40))),
        &leaves(&[90, 33]),
    );
    assert_eq!(merged, loc(10, 33));
}

#[test]
fn without_values_and_no_child_the_attribute_list_decides() {
    let merged = LocationCalculator::merge_location_without_values(
        loc(10, 12),
        &list(Some(loc(13, 40))),
        &vec![],
    );
    assert_eq!(merged, loc(10, 40));
}

#[test]
fn without_values_and_nothing_else_the_start_stays() {
    let merged = LocationCalculator::merge_location_without_values(loc(10, 12), &list(None), &vec![]);
    assert_eq!(merged, loc(10, 12));
}

#[test]
fn a_part_that_ends_early_leaves_the_end_of_the_start() {
    let merged = LocationCalculator::merge_location_without_values(
        loc(10, 12),
        &list(Some(loc(0, 5))),
        &vec![],
    );
    assert_eq!(merged, loc(10, 12));
}

#[test]
fn defaults_are_empty() {
    let attributes = Attributes::default();
    assert_eq!(attributes, list(None));
    let ast = aml_syntax::ast::Ast::default();
    assert!(ast.nodes.is_empty());
    assert!(ast.scopes.is_empty());
}
