//! How far a node reaches: the two policies by which a node's range is merged from the
//! range of its first token and the ranges of its parts.

use vstd::prelude::*;
use crate::ast::{last_location, nodes_view, AstNode, Attributes, NodeView};
use crate::location::Location;

verus! {

/// The range of a construct that may have inline values: `start`, extended to the first
/// that is present of `child`, `value` and `attributes`.
pub open spec fn merged_with_values(
    start: Location,
    attributes: Option<Location>,
    value: Option<Location>,
    child: Option<Location>,
) -> Location {
    match (child, value, attributes) {
        (Some(location), _, _) => start.merged(location),
        (_, Some(location), _) => start.merged(location),
        (_, _, Some(location)) => start.merged(location),
        (None, None, None) => start,
    }
}

/// The range of a construct without inline values: `start`, extended to `child` if it is
/// present, else to `attributes` if it is.
pub open spec fn merged_without_values(
    start: Location,
    attributes: Option<Location>,
    child: Option<Location>,
) -> Location {
    match (child, attributes) {
        (Some(location), _) => start.merged(location),
        (_, Some(location)) => start.merged(location),
        (None, None) => start,
    }
}

/// `span` begins where `start` begins, and ends neither before `start` ends nor before
/// `part` ends.
pub open spec fn reaches(span: Location, start: Location, part: Option<Location>) -> bool {
    &&& span.start == start.start
    &&& span.end >= start.end
    &&& part matches Some(location) ==> span.end >= location.end
}

/// The first that is present of three optional ranges.
pub open spec fn first_present(
    first: Option<Location>,
    second: Option<Location>,
    third: Option<Location>,
) -> Option<Location> {
    if first is Some {
        first
    } else if second is Some {
        second
    } else {
        third
    }
}

/// Every node of the list is well spanned.
pub open spec fn all_well_spanned(nodes: Seq<NodeView>) -> bool
    decreases nodes, 0int,
{
    forall|i: int| 0 <= i < nodes.len() ==> well_spanned(#[trigger] nodes[i])
}

/// The range of the node, and of every node below it, begins where its first token
/// begins and reaches the end of the part that decides by the node's merge policy.
pub open spec fn well_spanned(node: NodeView) -> bool
    decreases node, 1int,
{
    match node {
        NodeView::Container { children, attributes, location, keyword, .. } => {
            &&& reaches(
                location,
                keyword,
                first_present(last_location(children), attributes.location, None),
            )
            &&& all_well_spanned(children)
            &&& all_well_spanned(attributes.items)
        },
        NodeView::Text { attributes, values, children, location, keyword } => {
            &&& reaches(
                location,
                keyword,
                first_present(last_location(children), last_location(values), attributes.location),
            )
            &&& all_well_spanned(children)
            &&& all_well_spanned(values)
            &&& all_well_spanned(attributes.items)
        },
        NodeView::Span { attributes, values, location, keyword } => {
            &&& reaches(
                location,
                keyword,
                first_present(last_location(values), attributes.location, None),
            )
            &&& all_well_spanned(values)
            &&& all_well_spanned(attributes.items)
        },
        NodeView::Component { name, attributes, location } => {
            &&& location.end >= match attributes.location {
                Some(list) => list.end,
                None => name.location().end,
            }
            &&& well_spanned(*name)
            &&& all_well_spanned(attributes.items)
        },
        NodeView::ComponentSlot { name, location } => {
            &&& location.end >= name.location().end
            &&& well_spanned(*name)
        },
        NodeView::Declaration { name, value, location, .. } => {
            &&& location.end >= value.location.end
            &&& well_spanned(*name)
        },
        NodeView::For { binding, value, children, location, keyword } => {
            &&& reaches(
                location,
                keyword,
                first_present(last_location(children), Some(value.location), None),
            )
            &&& well_spanned(*binding)
            &&& all_well_spanned(children)
        },
        NodeView::Attribute { name, value, location } => {
            &&& reaches(location, name.location(), Some(value.location))
            &&& well_spanned(*name)
        },
        NodeView::Primitive { .. } => true,
        NodeView::String(_) => true,
        NodeView::Identifier(_) => true,
        NodeView::Error { .. } => true,
    }
}

/// The range of the last node of a list that may be absent.
pub open spec fn last_of(nodes: Option<&Vec<AstNode>>) -> Option<Location> {
    match nodes {
        Some(nodes) => last_location(nodes_view(nodes@)),
        None => None,
    }
}

/// The range of the last of `nodes`, if there is one.
pub fn last_node_location(nodes: &Vec<AstNode>) -> (location: Option<Location>)
    ensures
        location == last_location(nodes_view(nodes@)),
{
    if nodes.len() == 0 {
        None
    } else {
        Some(nodes[nodes.len() - 1].location())
    }
}

/// The two merge policies.
pub struct LocationCalculator;

impl LocationCalculator {
    /// The range of a construct that may have inline values. The last child decides; without
    /// children the last value; without values the attribute list; without a list the
    /// range is `start`.
    pub fn merge_location_with_values(
        start: Location,
        attributes: &Attributes,
        values: Option<&Vec<AstNode>>,
        children: Option<&Vec<AstNode>>,
    ) -> (location: Location)
        ensures
            location == merged_with_values(
                start,
                attributes.location,
                last_of(values),
                last_of(children),
            ),
            reaches(
                location,
                start,
                first_present(last_of(children), last_of(values), attributes.location),
            ),
    {
        let value_location = match values {
            Some(values) => last_node_location(values),
            None => None,
        };
        let children_location = match children {
            Some(children) => last_node_location(children),
            None => None,
        };
        match (children_location, value_location, attributes.location) {
            (Some(location), _, _) => start.merge(location),
            (_, Some(location), _) => start.merge(location),
            (_, _, Some(location)) => start.merge(location),
            (None, None, None) => start,
        }
    }

    /// The range of a construct without inline values. The last child decides; without
    /// children the attribute list; without a list the range is `start`.
    pub fn merge_location_without_values(
        start: Location,
        attributes: &Attributes,
        children: &Vec<AstNode>,
    ) -> (location: Location)
        ensures
            location == merged_without_values(
                start,
                attributes.location,
                last_location(nodes_view(children@)),
            ),
            reaches(
                location,
                start,
                first_present(last_location(nodes_view(children@)), attributes.location, None),
            ),
    {
        let children_location = last_node_location(children);
        match (children_location, attributes.location) {
            (Some(location), _) => start.merge(location),
            (_, Some(location)) => start.merge(location),
            (None, None) => start,
        }
    }
}

} // verus!
