//! How the grammar groups operands: what precedence climbing makes of a
//! row of operands and operators.

use vstd::prelude::*;
use crate::ast::NodeView;
use crate::grammar::{
    advance, combine, complete, continues, cursor_at, expression, is_binary, lemma_climb_unfolds,
    lemma_expression_unfolds, operand_level, operation, primary, Step,
};
use crate::parser::ParseErrorView;
use crate::token::{OperPrec, TokenView};
use crate::tokenizer::LexErrorView;

verus! {

/// Moving on from the first of at least two tokens leads to the second.
pub proof fn lemma_advance_at(tokens: Seq<TokenView>)
    requires
        tokens.len() >= 2,
    ensures
        advance(cursor_at(tokens)) == (Step {
            outcome: Ok(()),
            cursor: cursor_at(tokens.drop_first()),
        }),
{
    assert(cursor_at(tokens).rest.drop_first() =~= cursor_at(tokens.drop_first()).rest);
    assert(cursor_at(tokens).rest[0] == Ok::<TokenView, LexErrorView>(tokens[1]));
}

/// A literal that is followed by a token which does not continue the
/// expression is an expression by itself.
pub proof fn lemma_literal_alone(text: Seq<char>, after: Seq<TokenView>, min: OperPrec)
    requires
        after.len() >= 1,
        !continues(after[0], min),
    ensures
        expression(cursor_at(seq![TokenView::Num(text)] + after), min) == (Step {
            outcome: Ok(NodeView::Number(text)),
            cursor: cursor_at(after),
        }),
{
    let tokens = seq![TokenView::Num(text)] + after;
    assert(tokens.drop_first() =~= after);
    lemma_advance_at(tokens);
    lemma_expression_unfolds(cursor_at(tokens), min);
    lemma_climb_unfolds(NodeView::Number(text), cursor_at(after), min);
}

/// An operator and a literal that is followed by a token which does not
/// continue the right operand are one operation.
pub proof fn lemma_operation_on_literal(
    left: NodeView,
    operator: TokenView,
    text: Seq<char>,
    after: Seq<TokenView>,
)
    requires
        is_binary(operator),
        after.len() >= 1,
        !continues(after[0], operand_level(operator)),
    ensures
        operation(left, cursor_at(seq![operator, TokenView::Num(text)] + after)) == (Step {
            outcome: Ok(combine(operator, left, NodeView::Number(text))),
            cursor: cursor_at(after),
        }),
{
    let tokens = seq![operator, TokenView::Num(text)] + after;
    assert(tokens.drop_first() =~= seq![TokenView::Num(text)] + after);
    lemma_advance_at(tokens);
    lemma_literal_alone(text, after, operand_level(operator));
}

/// Two literals with an operator between them, followed by a token that
/// continues neither the right operand nor the expression, are one
/// expression.
pub proof fn lemma_one_operator(
    a: Seq<char>,
    operator: TokenView,
    b: Seq<char>,
    after: Seq<TokenView>,
    min: OperPrec,
)
    requires
        is_binary(operator),
        continues(operator, min),
        after.len() >= 1,
        !continues(after[0], operand_level(operator)),
        !continues(after[0], min),
    ensures
        expression(
            cursor_at(seq![TokenView::Num(a), operator, TokenView::Num(b)] + after),
            min,
        ) == (Step {
            outcome: Ok(combine(operator, NodeView::Number(a), NodeView::Number(b))),
            cursor: cursor_at(after),
        }),
{
    let tokens = seq![TokenView::Num(a), operator, TokenView::Num(b)] + after;
    let from_operator = seq![operator, TokenView::Num(b)] + after;
    let left = NodeView::Number(a);
    assert(tokens.drop_first() =~= from_operator);
    lemma_advance_at(tokens);
    lemma_expression_unfolds(cursor_at(tokens), min);
    lemma_climb_unfolds(left, cursor_at(from_operator), min);
    lemma_operation_on_literal(left, operator, b, after);
    lemma_climb_unfolds(combine(operator, left, NodeView::Number(b)), cursor_at(after), min);
}

/// Of two operators in a row the second takes the operand between them
/// exactly if it binds more strongly than the level at which the first
/// reads its right operand.
///
/// So operators of one level group from the left, `^` groups from the
/// right, and of two operators of different levels the stronger one is
/// applied first.
pub proof fn lemma_two_operators(
    a: Seq<char>,
    first: TokenView,
    b: Seq<char>,
    second: TokenView,
    c: Seq<char>,
)
    requires
        is_binary(first),
        is_binary(second),
    ensures
        complete(
            cursor_at(
                seq![
                    TokenView::Num(a),
                    first,
                    TokenView::Num(b),
                    second,
                    TokenView::Num(c),
                    TokenView::EOF,
                ],
            ),
        ).outcome == Ok::<NodeView, ParseErrorView>(
            if continues(second, operand_level(first)) {
                combine(
                    first,
                    NodeView::Number(a),
                    combine(second, NodeView::Number(b), NodeView::Number(c)),
                )
            } else {
                combine(
                    second,
                    combine(first, NodeView::Number(a), NodeView::Number(b)),
                    NodeView::Number(c),
                )
            },
        ),
{
    let end = seq![TokenView::EOF];
    let from_second = seq![second, TokenView::Num(c)] + end;
    let from_b = seq![TokenView::Num(b)] + from_second;
    let from_first = seq![first] + from_b;
    let all = seq![TokenView::Num(a)] + from_first;
    assert(all =~= seq![
        TokenView::Num(a),
        first,
        TokenView::Num(b),
        second,
        TokenView::Num(c),
        TokenView::EOF,
    ]);
    let na = NodeView::Number(a);
    let nb = NodeView::Number(b);
    let nc = NodeView::Number(c);
    let level = operand_level(first);

    // The first operand.
    assert(all.drop_first() =~= from_first);
    lemma_advance_at(all);
    lemma_expression_unfolds(cursor_at(all), OperPrec::DefaultZero);
    assert(primary(cursor_at(all)) == (Step { outcome: Ok(na), cursor: cursor_at(from_first) }));
    lemma_climb_unfolds(na, cursor_at(from_first), OperPrec::DefaultZero);

    // The first operator and its right operand.
    assert(from_first.drop_first() =~= from_b);
    lemma_advance_at(from_first);
    lemma_expression_unfolds(cursor_at(from_b), level);
    assert(from_b.drop_first() =~= from_second);
    lemma_advance_at(from_b);
    assert(primary(cursor_at(from_b)) == (Step { outcome: Ok(nb), cursor: cursor_at(from_second) }));
    lemma_climb_unfolds(nb, cursor_at(from_second), level);
    lemma_operation_on_literal(nb, second, c, end);
    assert(seq![second, TokenView::Num(c)] + end =~= from_second);

    if continues(second, level) {
        let inner = combine(second, nb, nc);
        lemma_climb_unfolds(inner, cursor_at(end), level);
        assert(expression(cursor_at(from_b), level) == (Step {
            outcome: Ok(inner),
            cursor: cursor_at(end),
        }));
        assert(operation(na, cursor_at(from_first)) == (Step {
            outcome: Ok(combine(first, na, inner)),
            cursor: cursor_at(end),
        }));
        lemma_climb_unfolds(combine(first, na, inner), cursor_at(end), OperPrec::DefaultZero);
    } else {
        let inner = combine(first, na, nb);
        assert(expression(cursor_at(from_b), level) == (Step {
            outcome: Ok(nb),
            cursor: cursor_at(from_second),
        }));
        assert(operation(na, cursor_at(from_first)) == (Step {
            outcome: Ok(inner),
            cursor: cursor_at(from_second),
        }));
        lemma_climb_unfolds(inner, cursor_at(from_second), OperPrec::DefaultZero);
        lemma_operation_on_literal(inner, second, c, end);
        lemma_climb_unfolds(combine(second, inner, nc), cursor_at(end), OperPrec::DefaultZero);
    }
}

/// A minus sign in front of a literal negates the literal alone, whatever
/// operator follows.
pub proof fn lemma_negation_binds_first(a: Seq<char>, operator: TokenView, b: Seq<char>)
    requires
        is_binary(operator),
    ensures
        complete(
            cursor_at(
                seq![
                    TokenView::Subtract,
                    TokenView::Num(a),
                    operator,
                    TokenView::Num(b),
                    TokenView::EOF,
                ],
            ),
        ).outcome == Ok::<NodeView, ParseErrorView>(
            combine(
                operator,
                NodeView::Negative(Box::new(NodeView::Number(a))),
                NodeView::Number(b),
            ),
        ),
{
    let end = seq![TokenView::EOF];
    let from_operator = seq![operator, TokenView::Num(b)] + end;
    let from_a = seq![TokenView::Num(a)] + from_operator;
    let all = seq![TokenView::Subtract] + from_a;
    assert(all =~= seq![
        TokenView::Subtract,
        TokenView::Num(a),
        operator,
        TokenView::Num(b),
        TokenView::EOF,
    ]);
    let negated = NodeView::Negative(Box::new(NodeView::Number(a)));
    assert(all.drop_first() =~= from_a);
    lemma_advance_at(all);
    lemma_literal_alone(a, from_operator, OperPrec::Negative);
    assert(primary(cursor_at(all)) == (Step {
        outcome: Ok(negated),
        cursor: cursor_at(from_operator),
    }));
    lemma_expression_unfolds(cursor_at(all), OperPrec::DefaultZero);
    lemma_climb_unfolds(negated, cursor_at(from_operator), OperPrec::DefaultZero);
    lemma_operation_on_literal(negated, operator, b, end);
    lemma_climb_unfolds(
        combine(operator, negated, NodeView::Number(b)),
        cursor_at(end),
        OperPrec::DefaultZero,
    );
}

/// Parentheses around the first two of three operands make them the left
/// operand of the second operator, whatever the levels of the operators.
pub proof fn lemma_parentheses_on_the_left(
    a: Seq<char>,
    first: TokenView,
    b: Seq<char>,
    second: TokenView,
    c: Seq<char>,
)
    requires
        is_binary(first),
        is_binary(second),
    ensures
        complete(
            cursor_at(
                seq![
                    TokenView::LeftParen,
                    TokenView::Num(a),
                    first,
                    TokenView::Num(b),
                    TokenView::RightParen,
                    second,
                    TokenView::Num(c),
                    TokenView::EOF,
                ],
            ),
        ).outcome == Ok::<NodeView, ParseErrorView>(
            combine(
                second,
                combine(first, NodeView::Number(a), NodeView::Number(b)),
                NodeView::Number(c),
            ),
        ),
{
    let end = seq![TokenView::EOF];
    let from_second = seq![second, TokenView::Num(c)] + end;
    let from_close = seq![TokenView::RightParen] + from_second;
    let from_a = seq![TokenView::Num(a), first, TokenView::Num(b)] + from_close;
    let all = seq![TokenView::LeftParen] + from_a;
    assert(all =~= seq![
        TokenView::LeftParen,
        TokenView::Num(a),
        first,
        TokenView::Num(b),
        TokenView::RightParen,
        second,
        TokenView::Num(c),
        TokenView::EOF,
    ]);
    let inner = combine(first, NodeView::Number(a), NodeView::Number(b));
    assert(all.drop_first() =~= from_a);
    lemma_advance_at(all);
    lemma_one_operator(a, first, b, from_close, OperPrec::DefaultZero);
    assert(from_close.drop_first() =~= from_second);
    lemma_advance_at(from_close);
    assert(primary(cursor_at(all)) == (Step {
        outcome: Ok(inner),
        cursor: cursor_at(from_second),
    }));
    lemma_expression_unfolds(cursor_at(all), OperPrec::DefaultZero);
    lemma_climb_unfolds(inner, cursor_at(from_second), OperPrec::DefaultZero);
    lemma_operation_on_literal(inner, second, c, end);
    lemma_climb_unfolds(
        combine(second, inner, NodeView::Number(c)),
        cursor_at(end),
        OperPrec::DefaultZero,
    );
}

/// Parentheses around the last two of three operands make them the right
/// operand of the first operator, whatever the levels of the operators.
pub proof fn lemma_parentheses_on_the_right(
    a: Seq<char>,
    first: TokenView,
    b: Seq<char>,
    second: TokenView,
    c: Seq<char>,
)
    requires
        is_binary(first),
        is_binary(second),
    ensures
        complete(
            cursor_at(
                seq![
                    TokenView::Num(a),
                    first,
                    TokenView::LeftParen,
                    TokenView::Num(b),
                    second,
                    TokenView::Num(c),
                    TokenView::RightParen,
                    TokenView::EOF,
                ],
            ),
        ).outcome == Ok::<NodeView, ParseErrorView>(
            combine(
                first,
                NodeView::Number(a),
                combine(second, NodeView::Number(b), NodeView::Number(c)),
            ),
        ),
{
    let end = seq![TokenView::EOF];
    let from_close = seq![TokenView::RightParen] + end;
    let from_b = seq![TokenView::Num(b), second, TokenView::Num(c)] + from_close;
    let from_open = seq![TokenView::LeftParen] + from_b;
    let from_first = seq![first] + from_open;
    let all = seq![TokenView::Num(a)] + from_first;
    assert(all =~= seq![
        TokenView::Num(a),
        first,
        TokenView::LeftParen,
        TokenView::Num(b),
        second,
        TokenView::Num(c),
        TokenView::RightParen,
        TokenView::EOF,
    ]);
    let left = NodeView::Number(a);
    let inner = combine(second, NodeView::Number(b), NodeView::Number(c));
    let level = operand_level(first);

    // The first operand.
    assert(all.drop_first() =~= from_first);
    lemma_advance_at(all);
    assert(primary(cursor_at(all)) == (Step { outcome: Ok(left), cursor: cursor_at(from_first) }));
    lemma_expression_unfolds(cursor_at(all), OperPrec::DefaultZero);
    lemma_climb_unfolds(left, cursor_at(from_first), OperPrec::DefaultZero);

    // The parenthesised right operand.
    assert(from_first.drop_first() =~= from_open);
    lemma_advance_at(from_first);
    assert(from_open.drop_first() =~= from_b);
    lemma_advance_at(from_open);
    lemma_one_operator(b, second, c, from_close, OperPrec::DefaultZero);
    assert(from_close.drop_first() =~= end);
    lemma_advance_at(from_close);
    assert(primary(cursor_at(from_open)) == (Step { outcome: Ok(inner), cursor: cursor_at(end) }));
    lemma_expression_unfolds(cursor_at(from_open), level);
    lemma_climb_unfolds(inner, cursor_at(end), level);
    assert(operation(left, cursor_at(from_first)) == (Step {
        outcome: Ok(combine(first, left, inner)),
        cursor: cursor_at(end),
    }));
    lemma_climb_unfolds(combine(first, left, inner), cursor_at(end), OperPrec::DefaultZero);
}

} // verus!
