//! Every tree is the tree of some tokens.
//!
//! A tree can be written down with each operand that is not a literal in
//! parentheses.  Reading what was written gives the tree back, so the
//! grammar leaves no tree out, and parentheses always group what they
//! enclose.

use vstd::prelude::*;
use crate::ast::NodeView;
use crate::grammar::{
    complete, cursor_at, expression, is_binary, lemma_climb_unfolds,
    lemma_expression_unfolds, lemma_parse_text_at, operand_level, operation, parse_text,
    primary, Step,
};
use crate::spelling::{all_writable, lemma_scan_spelled, spell};
use crate::grouping::lemma_advance_at;
use crate::parser::ParseErrorView;
use crate::soundness::{lemma_parse_well_formed, well_formed};
use crate::token::{OperPrec, TokenView};

verus! {

/// The number of nodes on the longest way from the node down to a
/// literal.
pub open spec fn height(node: NodeView) -> nat
    decreases node,
{
    match node {
        NodeView::And(l, r)
        | NodeView::Or(l, r)
        | NodeView::Add(l, r)
        | NodeView::Subtract(l, r)
        | NodeView::Multiply(l, r)
        | NodeView::Divide(l, r)
        | NodeView::Caret(l, r) => 1 + if height(*l) < height(*r) {
            height(*r)
        } else {
            height(*l)
        },
        NodeView::Negative(operand) => 1 + height(*operand),
        NodeView::Number(_) => 0,
    }
}

/// The operator and the operands of a node that a binary operator made.
pub open spec fn parts(node: NodeView) -> Option<(TokenView, NodeView, NodeView)> {
    match node {
        NodeView::And(l, r) => Some((TokenView::And, *l, *r)),
        NodeView::Or(l, r) => Some((TokenView::Or, *l, *r)),
        NodeView::Add(l, r) => Some((TokenView::Add, *l, *r)),
        NodeView::Subtract(l, r) => Some((TokenView::Subtract, *l, *r)),
        NodeView::Multiply(l, r) => Some((TokenView::Multiply, *l, *r)),
        NodeView::Divide(l, r) => Some((TokenView::Divide, *l, *r)),
        NodeView::Caret(l, r) => Some((TokenView::Caret, *l, *r)),
        _ => None,
    }
}

/// The tree as an operand: a literal as it is, anything else in
/// parentheses.
pub open spec fn render_operand(node: NodeView) -> Seq<TokenView>
    decreases height(node), 1nat,
{
    match node {
        NodeView::Number(text) => seq![TokenView::Num(text)],
        _ => seq![TokenView::LeftParen] + render(node) + seq![TokenView::RightParen],
    }
}

/// The tree written down: a minus sign before the operand that it
/// negates, and an operator between its operands.
pub open spec fn render(node: NodeView) -> Seq<TokenView>
    decreases height(node), 0nat,
{
    match node {
        NodeView::Number(text) => seq![TokenView::Num(text)],
        NodeView::Negative(operand) => seq![TokenView::Subtract] + render_operand(*operand),
        _ => match parts(node) {
            Some((operator, left, right)) => render_operand(left) + seq![operator]
                + render_operand(right),
            None => Seq::empty(),
        },
    }
}

/// An operand that was written down is read as a primary.
pub proof fn lemma_reads_operand(node: NodeView, after: Seq<TokenView>)
    requires
        after.len() >= 1,
    ensures
        primary(cursor_at(render_operand(node) + after)) == (Step {
            outcome: Ok(node),
            cursor: cursor_at(after),
        }),
    decreases height(node), 1nat,
{
    let tokens = render_operand(node) + after;
    match node {
        NodeView::Number(text) => {
            assert(tokens.drop_first() =~= after);
            lemma_advance_at(tokens);
        },
        _ => {
            let shut = seq![TokenView::RightParen] + after;
            let inner = render(node) + shut;
            assert(tokens =~= seq![TokenView::LeftParen] + inner);
            assert(tokens.drop_first() =~= inner);
            lemma_advance_at(tokens);
            lemma_reads_written(node, shut);
            assert(shut.drop_first() =~= after);
            lemma_advance_at(shut);
        },
    }
}

/// A tree that was written down is read as an expression, if the token
/// that follows is no operator.
pub proof fn lemma_reads_written(node: NodeView, after: Seq<TokenView>)
    requires
        after.len() >= 1,
        !is_binary(after[0]),
    ensures
        expression(cursor_at(render(node) + after), OperPrec::DefaultZero) == (Step {
            outcome: Ok(node),
            cursor: cursor_at(after),
        }),
    decreases height(node), 0nat,
{
    let min = OperPrec::DefaultZero;
    let tokens = render(node) + after;
    lemma_expression_unfolds(cursor_at(tokens), min);
    lemma_climb_unfolds(node, cursor_at(after), min);
    match node {
        NodeView::Number(text) => {
            assert(tokens.drop_first() =~= after);
            lemma_advance_at(tokens);
        },
        NodeView::Negative(operand) => {
            let negated = render_operand(*operand) + after;
            assert(tokens =~= seq![TokenView::Subtract] + negated);
            assert(tokens.drop_first() =~= negated);
            lemma_advance_at(tokens);
            lemma_expression_unfolds(cursor_at(negated), OperPrec::Negative);
            lemma_reads_operand(*operand, after);
            lemma_climb_unfolds(*operand, cursor_at(after), OperPrec::Negative);
        },
        _ => {
            let (operator, left, right) = parts(node)->Some_0;
            let level = operand_level(operator);
            let from_right = render_operand(right) + after;
            let from_operator = seq![operator] + from_right;
            assert(tokens =~= render_operand(left) + from_operator);
            lemma_reads_operand(left, from_operator);
            lemma_climb_unfolds(left, cursor_at(from_operator), min);
            assert(from_operator.drop_first() =~= from_right);
            lemma_advance_at(from_operator);
            lemma_expression_unfolds(cursor_at(from_right), level);
            lemma_reads_operand(right, after);
            lemma_climb_unfolds(right, cursor_at(after), level);
            assert(operation(left, cursor_at(from_operator)) == (Step {
                outcome: Ok(node),
                cursor: cursor_at(after),
            }));
        },
    }
}

/// Every tree is the tree of the tokens that it is written down with.
pub proof fn lemma_every_tree_is_read(node: NodeView)
    ensures
        complete(cursor_at(render(node) + seq![TokenView::EOF])).outcome == Ok::<
            NodeView,
            ParseErrorView,
        >(node),
{
    lemma_reads_written(node, seq![TokenView::EOF]);
}

/// A tree whose literals have the shape of literals is written down with
/// tokens that can stand in a text.
pub proof fn lemma_render_writable(node: NodeView)
    requires
        well_formed(node),
    ensures
        all_writable(render(node)),
        all_writable(render_operand(node)),
    decreases height(node),
{
    let open = seq![TokenView::LeftParen];
    let shut = seq![TokenView::RightParen];
    match node {
        NodeView::Number(text) => {
            assert(render(node) =~= seq![TokenView::Num(text)]);
            assert(render_operand(node) =~= seq![TokenView::Num(text)]);
        },
        NodeView::Negative(operand) => {
            lemma_render_writable(*operand);
            assert(render(node) =~= seq![TokenView::Subtract] + render_operand(*operand));
            assert(all_writable(render(node)));
            assert(render_operand(node) =~= open + render(node) + shut);
        },
        _ => {
            let (operator, left, right) = parts(node)->Some_0;
            lemma_render_writable(left);
            lemma_render_writable(right);
            assert(render(node) =~= render_operand(left) + seq![operator] + render_operand(right));
            assert(all_writable(render(node)));
            assert(render_operand(node) =~= open + render(node) + shut);
        },
    }
}

/// Every tree whose literals have the shape of literals is the tree of a
/// text: of the spelling of the tokens that it is written down with.
pub proof fn lemma_every_tree_has_a_text(node: NodeView)
    requires
        well_formed(node),
    ensures
        parse_text(spell(render(node))) == Ok::<NodeView, ParseErrorView>(node),
{
    lemma_render_writable(node);
    lemma_scan_spelled(render(node));
    lemma_parse_text_at(spell(render(node)), render(node) + seq![TokenView::EOF]);
    lemma_every_tree_is_read(node);
}

/// Writing down the tree of a text and reading it again gives the same
/// tree.
pub proof fn lemma_round_trip(source: Seq<char>)
    requires
        parse_text(source) is Ok,
    ensures
        parse_text(spell(render(parse_text(source)->Ok_0))) == parse_text(source),
{
    lemma_parse_well_formed(source);
    lemma_every_tree_has_a_text(parse_text(source)->Ok_0);
}

} // verus!
