//! What holds of every parse.
//!
//! The statements of this file are about the functions of [`crate::grammar`], and so about
//! every tree that [`crate::parser::Parser`] builds.

use vstd::prelude::*;
use crate::ast::{is_forest, is_rooted, NodeView, ScopeView};
use crate::error::ParseError;
use crate::expression::ExpressionParser;
use crate::grammar::{
    attribute, attribute_items, attribute_value_start, attributes, begins_node, block,
    block_items, component, component_slot, container, declaration, declaration_kind,
    declaration_value_start, document, for_loop, for_value_start, identifier,
    lemma_attribute_advances, lemma_component_advances, lemma_declaration_advances,
    lemma_for_value_start, lemma_maybe_attributes_advances, lemma_span_advances,
    lemma_values_advances, line_width, maybe_attributes, maybe_block, node, refusal, span, text,
    value, values, Outcome, State,
};

use crate::span::{all_well_spanned, well_spanned};
use crate::token::{Element, Operator, Token, TokenKind};
use crate::tokens::{
    lemma_past_bracket_content, lemma_past_indents, lemma_past_newlines, past_bracket_content,
    past_indent, past_indents, past_newlines, past_token, past_tokens, token_at,
};

verus! {

/// `after` is `before` with blocks entered and left again: the same blocks are open, the
/// scopes of `before` are the first scopes of `after`, one scope was made for each block
/// that was entered, and `after` is well formed. Inside an open block the new scopes are
/// empty and have parents.
pub open spec fn extends(before: State, after: State) -> bool {
    &&& after.open == before.open
    &&& before.scopes.len() <= after.scopes.len()
    &&& forall|i: int|
        0 <= i < before.scopes.len() ==> #[trigger] after.scopes[i] == before.scopes[i]
    &&& after.scopes.len() - before.scopes.len() == after.entered - before.entered
    &&& after.well_formed()
    &&& is_rooted(before.scopes) && before.open.len() > 0 ==> is_rooted(after.scopes)
}

/// A construct that was read ends inside the input, behind the position where it begins;
/// the state behind it extends the state before it; and the node is well spanned.
pub open spec fn node_holds(tokens: Seq<Token>, before: State, outcome: Outcome<NodeView>) -> bool {
    outcome matches Ok((node, after)) ==> {
        &&& before.pos < after.pos <= tokens.len()
        &&& extends(before, after)
        &&& well_spanned(node)
    }
}

/// A list of constructs that was read ends inside the input, not before the position where
/// it begins; the state behind it extends the state before it; and the nodes are well
/// spanned.
pub open spec fn nodes_hold(
    tokens: Seq<Token>,
    before: State,
    outcome: Outcome<Seq<NodeView>>,
) -> bool {
    outcome matches Ok((nodes, after)) ==> {
        &&& before.pos <= after.pos <= tokens.len()
        &&& extends(before, after)
        &&& all_well_spanned(nodes)
    }
}

/// The inline values of a line are well spanned.
pub proof fn lemma_values_spanned(tokens: Seq<Token>, pos: int)
    requires
        0 <= pos <= tokens.len(),
    ensures
        all_well_spanned(values(tokens, pos).0),
    decreases tokens.len() - pos,
{
    lemma_past_indents(tokens, pos);
    let at = past_indents(tokens, pos);
    let token = token_at(tokens, at);
    if !(token.kind is Newline || token.kind is Eof) {
        lemma_values_spanned(tokens, at + 1);
        let rest = values(tokens, at + 1).0;
        let all = values(tokens, pos).0;
        assert(all =~= seq![value(token)] + rest);
        assert forall|i: int| 0 <= i < all.len() implies well_spanned(#[trigger] all[i]) by {
            if i > 0 {
                assert(all[i] == rest[i - 1]);
            }
        }
    }
}

/// The attributes of a list are well spanned.
pub proof fn lemma_attribute_items_spanned<G: ExpressionParser>(
    g: &G,
    tokens: Seq<Token>,
    pos: int,
)
    requires
        0 <= pos <= tokens.len(),
    ensures
        all_well_spanned(attribute_items(g, tokens, pos).0),
    decreases tokens.len() - pos,
{
    lemma_past_indents(tokens, pos);
    let at = past_indents(tokens, pos);
    let token = token_at(tokens, at);
    if token.kind.is_operator(Operator::RBracket) {
    } else if token.kind is Eof {
    } else if token.kind is Newline {
        lemma_attribute_items_spanned(g, tokens, at + 1);
    } else {
        lemma_attribute_advances(g, tokens, at);
        let first = attribute(g, tokens, at);
        assert(well_spanned(first.0)) by {
            reveal_with_fuel(well_spanned, 2);
        }
        lemma_attribute_items_spanned(g, tokens, first.1);
        let rest = attribute_items(g, tokens, first.1).0;
        let all = attribute_items(g, tokens, pos).0;
        assert(all =~= seq![first.0] + rest);
        assert forall|i: int| 0 <= i < all.len() implies well_spanned(#[trigger] all[i]) by {
            if i > 0 {
                assert(all[i] == rest[i - 1]);
            }
        }
    }
}

/// What may be an attribute list is well spanned.
pub proof fn lemma_maybe_attributes_spanned<G: ExpressionParser>(
    g: &G,
    tokens: Seq<Token>,
    pos: int,
)
    requires
        0 <= pos <= tokens.len(),
    ensures
        all_well_spanned(maybe_attributes(g, tokens, pos).0.items),
{
    lemma_past_indents(tokens, pos);
    let at = past_indents(tokens, pos);
    if token_at(tokens, at).kind.is_operator(Operator::LBracket) {
        lemma_attribute_items_spanned(g, tokens, at + 1);
    }
}

/// A text element that was read ends behind its keyword, leaves the open blocks as they
/// were, and is well spanned.
pub proof fn lemma_text<G: ExpressionParser>(
    g: &G,
    tokens: Seq<Token>,
    limit: usize,
    state: State,
    indent: usize,
)
    requires
        0 <= state.pos < tokens.len(),
        state.well_formed(),
    ensures
        node_holds(tokens, state, text(g, tokens, limit, state, indent)),
    decreases tokens.len() - state.pos, 0int,
{
    let list = maybe_attributes(g, tokens, state.pos + 1);
    let inline = values(tokens, list.1);
    lemma_maybe_attributes_advances(g, tokens, state.pos + 1);
    lemma_maybe_attributes_spanned(g, tokens, state.pos + 1);
    lemma_values_advances(tokens, list.1);
    lemma_values_spanned(tokens, list.1);
    lemma_maybe_block(g, tokens, limit, state.at(inline.1), indent);
}

/// A container that was read ends behind its keyword, leaves the open blocks as they
/// were, and is well spanned.
pub proof fn lemma_container<G: ExpressionParser>(
    g: &G,
    tokens: Seq<Token>,
    limit: usize,
    state: State,
    indent: usize,
)
    requires
        0 <= state.pos < tokens.len(),
        token_at(tokens, state.pos).kind is Container,
        state.well_formed(),
    ensures
        node_holds(tokens, state, container(g, tokens, limit, state, indent)),
    decreases tokens.len() - state.pos, 0int,
{
    let list = maybe_attributes(g, tokens, state.pos + 1);
    lemma_maybe_attributes_advances(g, tokens, state.pos + 1);
    lemma_maybe_attributes_spanned(g, tokens, state.pos + 1);
    lemma_maybe_block(g, tokens, limit, state.at(list.1), indent);
}

/// A loop that was read ends behind its keyword, leaves the open blocks as they were, and
/// is well spanned.
pub proof fn lemma_for_loop<G: ExpressionParser>(
    g: &G,
    tokens: Seq<Token>,
    limit: usize,
    state: State,
    indent: usize,
)
    requires
        0 <= state.pos < tokens.len(),
        state.well_formed(),
    ensures
        node_holds(tokens, state, for_loop(g, tokens, limit, state, indent)),
    decreases tokens.len() - state.pos, 0int,
{
    let start = for_value_start(tokens, state.pos);
    let value = g.expression(tokens, start);
    lemma_for_value_start(tokens, state.pos);
    reveal_with_fuel(well_spanned, 2);
    lemma_maybe_block(
        g,
        tokens,
        limit,
        state.at(past_tokens(tokens, start, value.width as int)),
        indent,
    );
}

/// A node that was read ends behind the position where it begins, leaves the open blocks
/// as they were, and is well spanned.
pub proof fn lemma_node<G: ExpressionParser>(
    g: &G,
    tokens: Seq<Token>,
    limit: usize,
    state: State,
    indent: usize,
)
    requires
        0 <= state.pos <= tokens.len(),
        begins_node(token_at(tokens, past_indents(tokens, state.pos)).kind),
        state.well_formed(),
    ensures
        node_holds(tokens, state, node(g, tokens, limit, state, indent)),
    decreases tokens.len() - state.pos, 1int,
{
    lemma_past_indents(tokens, state.pos);
    let at = past_indents(tokens, state.pos);
    let token = token_at(tokens, at);
    reveal_with_fuel(well_spanned, 2);
    match token.kind {
        TokenKind::Element(Element::Text) => {
            lemma_text(g, tokens, limit, state.at(at), indent);
        },
        TokenKind::Element(Element::Span) => {
            lemma_span_advances(g, tokens, at);
            lemma_maybe_attributes_advances(g, tokens, at + 1);
            lemma_maybe_attributes_spanned(g, tokens, at + 1);
            lemma_values_spanned(tokens, maybe_attributes(g, tokens, at + 1).1);
        },
        TokenKind::Container(_) => {
            lemma_container(g, tokens, limit, state.at(at), indent);
        },
        TokenKind::Decl | TokenKind::Local | TokenKind::Global => {
            lemma_declaration_advances(g, tokens, at);
        },
        TokenKind::Component => {
            lemma_component_advances(g, tokens, at);
            lemma_maybe_attributes_spanned(g, tokens, past_token(tokens, at + 1));
        },
        TokenKind::For => {
            lemma_for_loop(g, tokens, limit, state.at(at), indent);
        },
        _ => {},
    }
}

/// The nodes of a block that were read end inside the input, leave the open blocks as
/// they were, and are well spanned.
pub proof fn lemma_block_items<G: ExpressionParser>(
    g: &G,
    tokens: Seq<Token>,
    limit: usize,
    state: State,
    indent: usize,
)
    requires
        0 <= state.pos <= tokens.len(),
        state.well_formed(),
    ensures
        nodes_hold(tokens, state, block_items(g, tokens, limit, state, indent)),
    decreases tokens.len() - state.pos, 2int,
{
    lemma_past_newlines(tokens, state.pos);
    let body = past_indent(tokens, past_newlines(tokens, state.pos));
    let first = token_at(tokens, past_indents(tokens, body));
    if line_width(tokens, state.pos) == indent && !(token_at(tokens, body).kind is Eof)
        && begins_node(first.kind) {
        lemma_node(g, tokens, limit, state.at(body), indent);
        match node(g, tokens, limit, state.at(body), indent) {
            Err(_) => {},
            Ok((first, next)) => {
                lemma_block_items(g, tokens, limit, next, indent);
                match block_items(g, tokens, limit, next, indent) {
                    Err(_) => {},
                    Ok((rest, end)) => {
                        let all = seq![first] + rest;
                        assert forall|i: int| 0 <= i < all.len() implies well_spanned(
                            #[trigger] all[i],
                        ) by {
                            if i > 0 {
                                assert(all[i] == rest[i - 1]);
                            }
                        }
                    },
                }
            },
        }
    }
}

/// A block that was read ends inside the input, leaves the open blocks as they were, has
/// made its own scope first, below the scope of the block around it, and is well spanned.
/// Where no scope was made before, all its scopes but the first have parents, and all are
/// empty.
pub proof fn lemma_block<G: ExpressionParser>(
    g: &G,
    tokens: Seq<Token>,
    limit: usize,
    state: State,
    indent: usize,
)
    requires
        0 <= state.pos <= tokens.len(),
        state.well_formed(),
    ensures
        nodes_hold(tokens, state, block(g, tokens, limit, state, indent)),
        block(g, tokens, limit, state, indent) matches Ok((_, after)) ==> {
            &&& state.scopes.len() < after.scopes.len()
            &&& after.scopes[state.scopes.len() as int] == (ScopeView {
                variables: Seq::empty(),
                parent: state.innermost(),
            })
            &&& state.scopes.len() == 0 ==> is_rooted(after.scopes)
        },
    decreases tokens.len() - state.pos, 3int,
{
    if state.open.len() < limit {
        let inner = state.enter();
        assert(is_rooted(state.scopes) && (state.open.len() > 0 || state.scopes.len() == 0)
            ==> is_rooted(inner.scopes));
        lemma_block_items(g, tokens, limit, inner, indent);
        match block_items(g, tokens, limit, inner, indent) {
            Err(_) => {},
            Ok((nodes, end)) => {
                assert(end.leave().open =~= state.open);
                assert(end.scopes[state.scopes.len() as int] == inner.scopes[state.scopes.len() as int]);
            },
        }
    }
}

/// The children of a construct that were read end inside the input, leave the open
/// blocks as they were, and are well spanned.
pub proof fn lemma_maybe_block<G: ExpressionParser>(
    g: &G,
    tokens: Seq<Token>,
    limit: usize,
    state: State,
    indent: usize,
)
    requires
        0 <= state.pos <= tokens.len(),
        state.well_formed(),
    ensures
        nodes_hold(tokens, state, maybe_block(g, tokens, limit, state, indent)),
    decreases tokens.len() - state.pos, 4int,
{
    lemma_past_newlines(tokens, state.pos);
    let at = past_newlines(tokens, state.pos);
    let width = token_at(tokens, at).kind.indent_width();
    if width > indent {
        lemma_block(g, tokens, limit, state.at(at), width);
    }
}

/// The position of the token that ends the line of `pos`: the first blank-line marker
/// or end-of-input token from `pos` on.
pub open spec fn line_end(tokens: Seq<Token>, pos: int) -> int
    decreases tokens.len() - pos,
{
    let kind = token_at(tokens, pos).kind;
    if kind is Newline || kind is Eof {
        pos
    } else {
        line_end(tokens, pos + 1)
    }
}

/// The value nodes of the tokens from `from` up to `to`, the indentation markers left out.
pub open spec fn value_nodes(tokens: Seq<Token>, from: int, to: int) -> Seq<NodeView> {
    tokens.subrange(from, to).filter(|token: Token| !(token.kind is Indent)).map_values(
        |token: Token| value(token),
    )
}

/// The values of a line are its tokens, one node for each in the order of the source, but
/// for the indentation markers; and the list ends at the token that ends the line.
pub proof fn lemma_values_are_the_line(tokens: Seq<Token>, pos: int)
    requires
        0 <= pos <= tokens.len(),
    ensures
        pos <= line_end(tokens, pos) <= tokens.len(),
        values(tokens, pos).1 == line_end(tokens, pos),
        values(tokens, pos).0 == value_nodes(tokens, pos, line_end(tokens, pos)),
    decreases tokens.len() - pos,
{
    let kind = token_at(tokens, pos).kind;
    let kept = |token: Token| !(token.kind is Indent);
    if kind is Newline || kind is Eof {
        assert(tokens.subrange(pos, pos) =~= Seq::<Token>::empty());
        assert(Seq::<Token>::empty().filter(kept) =~= Seq::<Token>::empty()) by {
            reveal(Seq::filter);
        }
        assert(value_nodes(tokens, pos, pos) =~= Seq::<NodeView>::empty());
    } else {
        lemma_values_are_the_line(tokens, pos + 1);
        lemma_past_indents(tokens, pos + 1);
        let end = line_end(tokens, pos);
        let rest = tokens.subrange(pos + 1, end);
        assert(tokens.subrange(pos, end) =~= seq![tokens[pos]] + rest);
        rest.lemma_filter_prepend(tokens[pos], kept);
        if kind is Indent {
            assert(past_indents(tokens, pos) == past_indents(tokens, pos + 1));
            assert(values(tokens, pos) == values(tokens, pos + 1));
        } else {
            assert(value_nodes(tokens, pos, end) =~= seq![value(tokens[pos])] + value_nodes(
                tokens,
                pos + 1,
                end,
            ));
        }
    }
}

/// A value list takes one token for each value: where the line goes on behind the
/// indentation markers, the token there is the first value, and the rest of the list
/// begins behind it.
pub proof fn lemma_values_take_one_token(tokens: Seq<Token>, pos: int)
    requires
        0 <= pos <= tokens.len(),
        !(token_at(tokens, past_indents(tokens, pos)).kind is Newline),
        !(token_at(tokens, past_indents(tokens, pos)).kind is Eof),
    ensures
        pos <= past_indents(tokens, pos) < tokens.len(),
        values(tokens, pos).0 == seq![value(token_at(tokens, past_indents(tokens, pos)))] + values(
            tokens,
            past_indents(tokens, pos) + 1,
        ).0,
        values(tokens, pos).1 == values(tokens, past_indents(tokens, pos) + 1).1,
{
    lemma_past_indents(tokens, pos);
}

/// A block ends before a line of another width, narrower or wider, and reads nothing of
/// it: the line still has its indentation marker for whoever reads on.
pub proof fn lemma_block_ends_at_other_width<G: ExpressionParser>(
    g: &G,
    tokens: Seq<Token>,
    limit: usize,
    state: State,
    indent: usize,
)
    requires
        0 <= state.pos <= tokens.len(),
        line_width(tokens, state.pos) != indent,
    ensures
        block_items(g, tokens, limit, state, indent) == Ok::<(Seq<NodeView>, State), ParseError>(
            (Seq::empty(), state.at(past_newlines(tokens, state.pos))),
        ),
{
}

/// A block ends at the end of the input.
pub proof fn lemma_block_ends_at_end_of_input<G: ExpressionParser>(
    g: &G,
    tokens: Seq<Token>,
    limit: usize,
    state: State,
    indent: usize,
)
    requires
        0 <= state.pos <= tokens.len(),
        line_width(tokens, state.pos) == indent,
        token_at(tokens, past_indent(tokens, past_newlines(tokens, state.pos))).kind is Eof,
    ensures
        block_items(g, tokens, limit, state, indent) == Ok::<(Seq<NodeView>, State), ParseError>(
            (Seq::empty(), state.at(past_indent(tokens, past_newlines(tokens, state.pos)))),
        ),
{
}

/// The parse ends at a line of the block's own width whose first token begins no node:
/// no node is made of such a token, and none of what stands behind it.
pub proof fn lemma_block_refuses_token<G: ExpressionParser>(
    g: &G,
    tokens: Seq<Token>,
    limit: usize,
    state: State,
    indent: usize,
)
    requires
        0 <= state.pos <= tokens.len(),
        line_width(tokens, state.pos) == indent,
        !(token_at(tokens, past_indent(tokens, past_newlines(tokens, state.pos))).kind is Eof),
        !begins_node(
            token_at(
                tokens,
                past_indents(tokens, past_indent(tokens, past_newlines(tokens, state.pos))),
            ).kind,
        ),
    ensures
        block_items(g, tokens, limit, state, indent) == Err::<(Seq<NodeView>, State), ParseError>(
            refusal(
                token_at(
                    tokens,
                    past_indents(tokens, past_indent(tokens, past_newlines(tokens, state.pos))),
                ),
            ),
        ),
{
}

/// A line of the block's own width gives the block's next node, and the block goes on
/// behind that node: all the lines of this width, up to the first line of another, are
/// nodes of the one block.
pub proof fn lemma_block_takes_line<G: ExpressionParser>(
    g: &G,
    tokens: Seq<Token>,
    limit: usize,
    state: State,
    indent: usize,
)
    requires
        0 <= state.pos <= tokens.len(),
        state.well_formed(),
        line_width(tokens, state.pos) == indent,
        !(token_at(tokens, past_indent(tokens, past_newlines(tokens, state.pos))).kind is Eof),
        begins_node(
            token_at(
                tokens,
                past_indents(tokens, past_indent(tokens, past_newlines(tokens, state.pos))),
            ).kind,
        ),
    ensures
        block_items(g, tokens, limit, state, indent) == match node(
            g,
            tokens,
            limit,
            state.at(past_indent(tokens, past_newlines(tokens, state.pos))),
            indent,
        ) {
            Err(error) => Err::<(Seq<NodeView>, State), ParseError>(error),
            Ok((first, next)) => match block_items(g, tokens, limit, next, indent) {
                Err(error) => Err(error),
                Ok((rest, end)) => Ok((seq![first] + rest, end)),
            },
        },
{
    lemma_past_newlines(tokens, state.pos);
    lemma_node(
        g,
        tokens,
        limit,
        state.at(past_indent(tokens, past_newlines(tokens, state.pos))),
        indent,
    );
}

/// Where a block has ended, the line that ended it is unread. The cursor stands at the
/// end of the input, or at the first token of a line of another width, which is the
/// indentation marker if the line has one: the block around sees the line as it is.
pub proof fn lemma_block_leaves_the_next_line_unread<G: ExpressionParser>(
    g: &G,
    tokens: Seq<Token>,
    limit: usize,
    state: State,
    indent: usize,
)
    requires
        0 <= state.pos <= tokens.len(),
        state.well_formed(),
    ensures
        block_items(g, tokens, limit, state, indent) matches Ok((_, end)) ==> {
            &&& past_newlines(tokens, end.pos) == end.pos
            &&& token_at(tokens, end.pos).kind is Eof || line_width(tokens, end.pos) != indent
        },
        block(g, tokens, limit, state, indent) matches Ok((_, end)) ==> {
            &&& past_newlines(tokens, end.pos) == end.pos
            &&& token_at(tokens, end.pos).kind is Eof || line_width(tokens, end.pos) != indent
        },
    decreases tokens.len() - state.pos,
{
    lemma_items_leave_the_next_line_unread(g, tokens, limit, state, indent);
    if state.open.len() < limit {
        lemma_items_leave_the_next_line_unread(g, tokens, limit, state.enter(), indent);
    }
}

proof fn lemma_items_leave_the_next_line_unread<G: ExpressionParser>(
    g: &G,
    tokens: Seq<Token>,
    limit: usize,
    state: State,
    indent: usize,
)
    requires
        0 <= state.pos <= tokens.len(),
        state.well_formed(),
    ensures
        block_items(g, tokens, limit, state, indent) matches Ok((_, end)) ==> {
            &&& past_newlines(tokens, end.pos) == end.pos
            &&& token_at(tokens, end.pos).kind is Eof || line_width(tokens, end.pos) != indent
        },
    decreases tokens.len() - state.pos,
{
    lemma_past_newlines(tokens, state.pos);
    let line = past_newlines(tokens, state.pos);
    let body = past_indent(tokens, line);
    let first = token_at(tokens, past_indents(tokens, body));
    if line_width(tokens, state.pos) != indent {
        assert(past_newlines(tokens, line) == line);
    } else if token_at(tokens, body).kind is Eof {
        assert(past_newlines(tokens, body) == body);
    } else if begins_node(first.kind) {
        lemma_node(g, tokens, limit, state.at(body), indent);
        match node(g, tokens, limit, state.at(body), indent) {
            Err(_) => {},
            Ok((_, next)) => {
                lemma_items_leave_the_next_line_unread(g, tokens, limit, next, indent);
            },
        }
    }
}

/// The scopes of a tree are a forest with the scope of the outermost block as its only
/// root: that scope has no parent, and every other scope has a parent that was made
/// before it. Every scope is empty. There are as many scopes as blocks were entered, and
/// no block is left open.
pub proof fn lemma_document_scopes<G: ExpressionParser>(
    g: &G,
    tokens: Seq<Token>,
    limit: usize,
    pos: int,
)
    requires
        0 <= pos <= tokens.len(),
    ensures
        document(g, tokens, limit, State::initial(pos)) matches Ok(ast) ==> {
            &&& ast.scopes.len() >= 1
            &&& ast.scopes[0].parent is None
            &&& is_forest(ast.scopes)
            &&& is_rooted(ast.scopes)
        },
        block(
            g,
            tokens,
            limit,
            State::initial(pos),
            token_at(tokens, pos).kind.indent_width(),
        ) matches Ok((_, end)) ==> {
            &&& document(g, tokens, limit, State::initial(pos)) matches Ok(ast) && ast.scopes
                == end.scopes
            &&& end.scopes.len() == end.entered
            &&& end.open.len() == 0
        },
{
    let state = State::initial(pos);
    lemma_block(g, tokens, limit, state, token_at(tokens, pos).kind.indent_width());
}

/// Every node of a tree is well spanned.
pub proof fn lemma_document_spans<G: ExpressionParser>(
    g: &G,
    tokens: Seq<Token>,
    limit: usize,
    pos: int,
)
    requires
        0 <= pos <= tokens.len(),
    ensures
        document(g, tokens, limit, State::initial(pos)) matches Ok(ast) ==> all_well_spanned(
            ast.nodes,
        ),
{
    let state = State::initial(pos);
    lemma_block(g, tokens, limit, state, token_at(tokens, pos).kind.indent_width());
}

/// The constructs that keep no keyword of their own begin where their first token
/// begins: a declaration, a component and a component slot at the keyword, an attribute
/// list at its opening bracket.
pub proof fn lemma_spans_start_at_first_token<G: ExpressionParser>(
    g: &G,
    tokens: Seq<Token>,
    pos: int,
)
    ensures
        declaration(g, tokens, pos).0.location().start == token_at(tokens, pos).location.start,
        component(g, tokens, pos).0.location().start == token_at(tokens, pos).location.start,
        component_slot(tokens, pos).0.location().start == token_at(tokens, pos).location.start,
        attributes(g, tokens, pos).0.location matches Some(list) && list.start == token_at(
            tokens,
            pos,
        ).location.start,
{
}

/// A text element keeps the range of its keyword, and its own range goes from there to
/// its last child; without children to its last value; without values to the end of its
/// attribute list; without a list it is the range of the keyword.
pub proof fn lemma_span_of_text<G: ExpressionParser>(
    g: &G,
    tokens: Seq<Token>,
    limit: usize,
    state: State,
    indent: usize,
)
    requires
        0 <= state.pos < tokens.len(),
    ensures
        text(g, tokens, limit, state, indent) matches Ok((node, _)) ==> {
            &&& node matches NodeView::Text { attributes, values: inline, children, location, keyword }
            &&& keyword == token_at(tokens, state.pos).location
            &&& location == if children.len() > 0 {
                keyword.merged(children.last().location())
            } else if inline.len() > 0 {
                keyword.merged(inline.last().location())
            } else if attributes.location is Some {
                keyword.merged(attributes.location->0)
            } else {
                keyword
            }
        },
{
}

/// A span element keeps the range of its keyword, and its own range goes from there to
/// its last value; without values to the end of its attribute list; without a list it is
/// the range of the keyword.
pub proof fn lemma_span_of_span_element<G: ExpressionParser>(g: &G, tokens: Seq<Token>, pos: int)
    ensures
        ({
            &&& span(g, tokens, pos).0 matches NodeView::Span {
                attributes,
                values: inline,
                location,
                keyword,
            }
            &&& keyword == token_at(tokens, pos).location
            &&& location == if inline.len() > 0 {
                keyword.merged(inline.last().location())
            } else if attributes.location is Some {
                keyword.merged(attributes.location->0)
            } else {
                keyword
            }
        }),
{
}

/// A container keeps the tag and the range of its keyword, and its own range goes from
/// there to its last child; without children to the end of its attribute list; without a
/// list it is the range of the keyword.
pub proof fn lemma_span_of_container<G: ExpressionParser>(
    g: &G,
    tokens: Seq<Token>,
    limit: usize,
    state: State,
    indent: usize,
)
    requires
        0 <= state.pos < tokens.len(),
        token_at(tokens, state.pos).kind is Container,
    ensures
        container(g, tokens, limit, state, indent) matches Ok((node, _)) ==> {
            &&& node matches NodeView::Container { kind, children, attributes, location, keyword }
            &&& token_at(tokens, state.pos).kind == TokenKind::Container(kind)
            &&& keyword == token_at(tokens, state.pos).location
            &&& location == if children.len() > 0 {
                keyword.merged(children.last().location())
            } else if attributes.location is Some {
                keyword.merged(attributes.location->0)
            } else {
                keyword
            }
        },
{
}

/// A loop keeps the range of its keyword and the expression that it iterates over, and
/// its own range goes from the keyword to its last child; without children to the end of
/// the expression.
pub proof fn lemma_span_of_for_loop<G: ExpressionParser>(
    g: &G,
    tokens: Seq<Token>,
    limit: usize,
    state: State,
    indent: usize,
)
    requires
        0 <= state.pos < tokens.len(),
    ensures
        for_loop(g, tokens, limit, state, indent) matches Ok((node, _)) ==> {
            &&& node matches NodeView::For { binding, value: iterated, children, location, keyword }
            &&& keyword == token_at(tokens, state.pos).location
            &&& iterated == g.expression(tokens, for_value_start(tokens, state.pos))
            &&& location == if children.len() > 0 {
                keyword.merged(children.last().location())
            } else {
                keyword.merged(iterated.location)
            }
        },
{
}

/// A declaration keeps its value expression, and its range goes from the keyword to the
/// end of that expression, not of the name.
pub proof fn lemma_span_of_declaration<G: ExpressionParser>(g: &G, tokens: Seq<Token>, pos: int)
    ensures
        ({
            &&& declaration(g, tokens, pos).0 matches NodeView::Declaration {
                kind,
                name,
                value: declared,
                location,
            }
            &&& kind == declaration_kind(token_at(tokens, pos).kind)
            &&& declared == g.expression(tokens, declaration_value_start(tokens, pos))
            &&& location == token_at(tokens, pos).location.merged(declared.location)
        }),
{
}

/// The range of a component goes from its keyword to the end of its attribute list, and
/// without a list to the end of its name.
pub proof fn lemma_span_of_component<G: ExpressionParser>(g: &G, tokens: Seq<Token>, pos: int)
    ensures
        ({
            &&& component(g, tokens, pos).0 matches NodeView::Component {
                name,
                attributes,
                location,
            }
            &&& *name == identifier(tokens, past_token(tokens, pos)).0
            &&& location == if attributes.location is Some {
                token_at(tokens, pos).location.merged(attributes.location->0)
            } else {
                token_at(tokens, pos).location.merged(name.location())
            }
        }),
{
}

/// Behind an attribute with a malformed value nothing more is read of the list: where
/// the first attribute of a list is malformed, it is the only one, whatever stands
/// between it and the closing bracket.
pub proof fn lemma_attribute_resync<G: ExpressionParser>(g: &G, tokens: Seq<Token>, pos: int)
    requires
        0 <= pos < tokens.len(),
        !(token_at(tokens, pos).kind is Indent),
        !(token_at(tokens, pos).kind is Newline),
        !(token_at(tokens, pos).kind is Eof),
        !token_at(tokens, pos).kind.is_operator(Operator::RBracket),
        g.expression(tokens, attribute_value_start(tokens, pos)).has_error,
    ensures
        attribute_items(g, tokens, pos).0 == seq![attribute(g, tokens, pos).0],
{
    lemma_attribute_advances(g, tokens, pos);
    let start = attribute_value_start(tokens, pos);
    let end = past_tokens(tokens, start, g.expression(tokens, start).width as int);
    lemma_past_bracket_content(tokens, end);
    let resumed = past_bracket_content(tokens, end);
    assert(attribute_items(g, tokens, resumed).0 =~= Seq::<NodeView>::empty());
    assert(attribute_items(g, tokens, pos).0 =~= seq![attribute(g, tokens, pos).0]);
}

} // verus!
