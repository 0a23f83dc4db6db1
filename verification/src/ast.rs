//! The tree that the parser builds, and the mathematical value of each of its parts.

use vstd::prelude::*;
use crate::expression::Expression;
use crate::location::Location;
use crate::token::{ContainerKind, Primitive, TokenKind};

verus! {

/// How far a declared name reaches.
#[derive(Clone, Copy, Debug, PartialEq, Eq, Hash)]
pub enum DeclarationKind {
    Local,
    Global,
}

/// A bracketed list of attributes.
#[derive(Debug, PartialEq, Eq)]
pub struct Attributes {
    /// The attributes, in the order of the source.
    pub items: Vec<AstNode>,
    /// The range from the opening bracket to the end of the list; `None` where the source
    /// has no list.
    pub location: Option<Location>,
}

/// A node of the tree.
#[derive(Debug, PartialEq, Eq)]
#[allow(inconsistent_fields)]
pub enum AstNode {
    Container {
        kind: ContainerKind,
        children: Vec<AstNode>,
        attributes: Attributes,
        location: Location,
        keyword: Location,
    },
    Text {
        attributes: Attributes,
        values: Vec<AstNode>,
        children: Vec<AstNode>,
        location: Location,
        keyword: Location,
    },
    Span { attributes: Attributes, values: Vec<AstNode>, location: Location, keyword: Location },
    Component { name: Box<AstNode>, attributes: Attributes, location: Location },
    ComponentSlot { name: Box<AstNode>, location: Location },
    Declaration { kind: DeclarationKind, name: Box<AstNode>, value: Expression, location: Location },
    For {
        binding: Box<AstNode>,
        value: Expression,
        children: Vec<AstNode>,
        location: Location,
        keyword: Location,
    },
    Attribute { name: Box<AstNode>, value: Expression, location: Location },
    Primitive { value: Primitive, location: Location },
    String(Location),
    Identifier(Location),
    /// A token that the grammar has no place for.
    Error { token: TokenKind, location: Location },
}

/// A lexical scope: one for each block.
#[derive(Debug, PartialEq, Eq)]
pub struct Scope {
    /// The names that the scope binds. The parser leaves the list empty.
    pub variables: Vec<Location>,
    /// The index of the enclosing scope; `None` for the outermost.
    pub parent: Option<usize>,
}

/// What a parse yields: the nodes of the outermost block, and all the scopes.
#[derive(Debug, PartialEq, Eq)]
pub struct Ast {
    pub nodes: Vec<AstNode>,
    pub scopes: Vec<Scope>,
}

/// The value of an [`Attributes`].
pub struct AttributesView {
    pub items: Seq<NodeView>,
    pub location: Option<Location>,
}

/// The value of an [`AstNode`].
#[allow(inconsistent_fields)]
pub enum NodeView {
    Container {
        kind: ContainerKind,
        children: Seq<NodeView>,
        attributes: AttributesView,
        location: Location,
        keyword: Location,
    },
    Text {
        attributes: AttributesView,
        values: Seq<NodeView>,
        children: Seq<NodeView>,
        location: Location,
        keyword: Location,
    },
    Span { attributes: AttributesView, values: Seq<NodeView>, location: Location, keyword: Location },
    Component { name: Box<NodeView>, attributes: AttributesView, location: Location },
    ComponentSlot { name: Box<NodeView>, location: Location },
    Declaration { kind: DeclarationKind, name: Box<NodeView>, value: Expression, location: Location },
    For {
        binding: Box<NodeView>,
        value: Expression,
        children: Seq<NodeView>,
        location: Location,
        keyword: Location,
    },
    Attribute { name: Box<NodeView>, value: Expression, location: Location },
    Primitive { value: Primitive, location: Location },
    String(Location),
    Identifier(Location),
    Error { token: TokenKind, location: Location },
}

/// The value of a [`Scope`].
pub struct ScopeView {
    pub variables: Seq<Location>,
    pub parent: Option<usize>,
}

/// The value of an [`Ast`].
pub struct AstView {
    pub nodes: Seq<NodeView>,
    pub scopes: Seq<ScopeView>,
}

impl AttributesView {
    /// The list that stands for "no brackets in the source".
    pub open spec fn absent() -> AttributesView {
        AttributesView { items: Seq::empty(), location: None }
    }
}

impl NodeView {
    /// The range of the node's source.
    pub open spec fn location(self) -> Location {
        match self {
            NodeView::Container { location, .. } => location,
            NodeView::Text { location, .. } => location,
            NodeView::Span { location, .. } => location,
            NodeView::Component { location, .. } => location,
            NodeView::ComponentSlot { location, .. } => location,
            NodeView::Declaration { location, .. } => location,
            NodeView::For { location, .. } => location,
            NodeView::Attribute { location, .. } => location,
            NodeView::Primitive { location, .. } => location,
            NodeView::String(location) => location,
            NodeView::Identifier(location) => location,
            NodeView::Error { location, .. } => location,
        }
    }
}

/// The range of the last of `nodes`, if there is one.
pub open spec fn last_location(nodes: Seq<NodeView>) -> Option<Location> {
    if nodes.len() == 0 {
        None
    } else {
        Some(nodes.last().location())
    }
}

/// The values of the nodes of a list, in order.
pub open spec fn nodes_view(nodes: Seq<AstNode>) -> Seq<NodeView>
    decreases nodes,
{
    Seq::new(
        nodes.len(),
        |i: int|
            if 0 <= i < nodes.len() {
                node_view(nodes[i])
            } else {
                NodeView::Identifier(Location::point(0))
            },
    )
}

/// The value of a list of attributes.
pub open spec fn attributes_view(attributes: Attributes) -> AttributesView
    decreases attributes,
{
    AttributesView { items: nodes_view(attributes.items@), location: attributes.location }
}

/// The value of a node.
pub open spec fn node_view(node: AstNode) -> NodeView
    decreases node,
{
    match node {
        AstNode::Container { kind, children, attributes, location, keyword } => NodeView::Container {
            kind,
            children: nodes_view(children@),
            attributes: attributes_view(attributes),
            location,
            keyword,
        },
        AstNode::Text { attributes, values, children, location, keyword } => NodeView::Text {
            attributes: attributes_view(attributes),
            values: nodes_view(values@),
            children: nodes_view(children@),
            location,
            keyword,
        },
        AstNode::Span { attributes, values, location, keyword } => NodeView::Span {
            attributes: attributes_view(attributes),
            values: nodes_view(values@),
            location,
            keyword,
        },
        AstNode::Component { name, attributes, location } => NodeView::Component {
            name: Box::new(node_view(*name)),
            attributes: attributes_view(attributes),
            location,
        },
        AstNode::ComponentSlot { name, location } => NodeView::ComponentSlot {
            name: Box::new(node_view(*name)),
            location,
        },
        AstNode::Declaration { kind, name, value, location } => NodeView::Declaration {
            kind,
            name: Box::new(node_view(*name)),
            value,
            location,
        },
        AstNode::For { binding, value, children, location, keyword } => NodeView::For {
            binding: Box::new(node_view(*binding)),
            value,
            children: nodes_view(children@),
            location,
            keyword,
        },
        AstNode::Attribute { name, value, location } => NodeView::Attribute {
            name: Box::new(node_view(*name)),
            value,
            location,
        },
        AstNode::Primitive { value, location } => NodeView::Primitive { value, location },
        AstNode::String(location) => NodeView::String(location),
        AstNode::Identifier(location) => NodeView::Identifier(location),
        AstNode::Error { token, location } => NodeView::Error { token, location },
    }
}

/// The scopes are a forest: the parent of a scope, where it has one, stands before it in
/// the table.
pub open spec fn is_forest(scopes: Seq<ScopeView>) -> bool {
    forall|i: int|
        0 <= i < scopes.len() ==> (#[trigger] scopes[i].parent matches Some(parent) ==> parent < i)
}

/// Every scope is still empty, and every scope but the first has a parent.
pub open spec fn is_rooted(scopes: Seq<ScopeView>) -> bool {
    forall|i: int|
        0 <= i < scopes.len() ==> {
            &&& (#[trigger] scopes[i]).variables.len() == 0
            &&& i > 0 ==> scopes[i].parent is Some
        }
}

/// The values of the scopes of a table, in order.
pub open spec fn scopes_view(scopes: Seq<Scope>) -> Seq<ScopeView> {
    Seq::new(scopes.len(), |i: int| scopes[i]@)
}

impl View for AstNode {
    type V = NodeView;

    open spec fn view(&self) -> NodeView {
        node_view(*self)
    }
}

impl View for Attributes {
    type V = AttributesView;

    open spec fn view(&self) -> AttributesView {
        attributes_view(*self)
    }
}

impl View for Scope {
    type V = ScopeView;

    open spec fn view(&self) -> ScopeView {
        ScopeView { variables: self.variables@, parent: self.parent }
    }
}

impl View for Ast {
    type V = AstView;

    open spec fn view(&self) -> AstView {
        AstView { nodes: nodes_view(self.nodes@), scopes: scopes_view(self.scopes@) }
    }
}

/// Adding a node at the end of a list adds its value at the end of the list's value.
pub proof fn lemma_nodes_view_push(nodes: Seq<AstNode>, node: AstNode)
    ensures
        nodes_view(nodes.push(node)) == nodes_view(nodes).push(node@),
{
    assert(nodes_view(nodes.push(node)) =~= nodes_view(nodes).push(node@));
}

/// The empty list has the empty value.
pub proof fn lemma_nodes_view_empty(nodes: Seq<AstNode>)
    requires
        nodes.len() == 0,
    ensures
        nodes_view(nodes) == Seq::<NodeView>::empty(),
{
    assert(nodes_view(nodes) =~= Seq::<NodeView>::empty());
}

impl AstNode {
    /// The range of the node's source.
    pub fn location(&self) -> (location: Location)
        ensures
            location == self@.location(),
    {
        match self {
            AstNode::Container { location, .. } => *location,
            AstNode::Text { location, .. } => *location,
            AstNode::Span { location, .. } => *location,
            AstNode::Component { location, .. } => *location,
            AstNode::ComponentSlot { location, .. } => *location,
            AstNode::Declaration { location, .. } => *location,
            AstNode::For { location, .. } => *location,
            AstNode::Attribute { location, .. } => *location,
            AstNode::Primitive { location, .. } => *location,
            AstNode::String(location) => *location,
            AstNode::Identifier(location) => *location,
            AstNode::Error { location, .. } => *location,
        }
    }
}

impl Default for Attributes {
    /// The list that stands for "no brackets in the source".
    fn default() -> (attributes: Attributes)
        ensures
            attributes@ == AttributesView::absent(),
    {
        let attributes = Attributes { items: Vec::new(), location: None };
        proof {
            lemma_nodes_view_empty(attributes.items@);
        }
        attributes
    }
}

impl Default for Ast {
    /// The tree without nodes or scopes.
    fn default() -> (ast: Ast)
        ensures
            ast@.nodes == Seq::<NodeView>::empty(),
            ast@.scopes == Seq::<ScopeView>::empty(),
    {
        let ast = Ast { nodes: Vec::new(), scopes: Vec::new() };
        proof {
            lemma_nodes_view_empty(ast.nodes@);
            assert(scopes_view(ast.scopes@) =~= Seq::<ScopeView>::empty());
        }
        ast
    }
}

} // verus!
