//! The grammar of expressions, as mathematical functions on token streams.
//!
//! An expression is read by precedence climbing.  A *primary* is a
//! literal, a parenthesised expression, or a minus sign in front of a
//! primary.  An *expression* at a minimum level is a primary followed by
//! any number of operations whose operators bind more strongly than that
//! level; the right operand of an operation is an expression at the level
//! of its operator, so that operators of one level group from the left.
//! The one exception is `^`, whose right operand is read one level lower
//! and which therefore groups from the right.

use vstd::prelude::*;
use crate::ast::NodeView;
use crate::parser::ParseErrorView;
use crate::token::{OperPrec, TokenView};
use crate::tokenizer::{all_ok, scan, Item};

verus! {

/// The model of a parser: the token it looks at, and what its tokenizer
/// has still to hand out.
pub struct Cursor {
    pub current: TokenView,
    pub rest: Seq<Item>,
}

impl Cursor {
    /// The number of tokens that can still be consumed.
    pub open spec fn measure(self) -> nat {
        if self.current == TokenView::EOF {
            self.rest.len()
        } else {
            self.rest.len() + 1
        }
    }
}

/// How a step of parsing ends: with a value or an error, and with the
/// parser at a new place.
pub struct Step<T> {
    pub outcome: Result<T, ParseErrorView>,
    pub cursor: Cursor,
}

/// Moves to the next token.  A tokenizer with nothing left reads as the
/// end of the input; a lexical error is passed on and leaves the current
/// token as it is.
pub open spec fn advance(c: Cursor) -> Step<()> {
    if c.rest.len() == 0 {
        Step { outcome: Ok(()), cursor: Cursor { current: TokenView::EOF, rest: c.rest } }
    } else {
        match c.rest[0] {
            Ok(token) => Step {
                outcome: Ok(()),
                cursor: Cursor { current: token, rest: c.rest.drop_first() },
            },
            Err(error) => Step {
                outcome: Err(ParseErrorView::Lex(error)),
                cursor: Cursor { current: c.current, rest: c.rest.drop_first() },
            },
        }
    }
}

/// The token is one of the seven binary operators.
pub open spec fn is_binary(token: TokenView) -> bool {
    token.precedence() != OperPrec::DefaultZero
}

/// The token continues an expression that is read at level `min`: it is
/// not the end of the input and binds more strongly than `min`.
pub open spec fn continues(token: TokenView, min: OperPrec) -> bool {
    token != TokenView::EOF && min.rank() < token.precedence().rank()
}

/// The level at which the right operand of `operator` is read: the level
/// of the operator itself, and one level lower for `^`.
pub open spec fn operand_level(operator: TokenView) -> OperPrec {
    if operator == TokenView::Caret {
        OperPrec::MulDiv
    } else {
        operator.precedence()
    }
}

/// The node that `operator` makes of its two operands.
pub open spec fn combine(operator: TokenView, left: NodeView, right: NodeView) -> NodeView {
    match operator {
        TokenView::And => NodeView::And(Box::new(left), Box::new(right)),
        TokenView::Or => NodeView::Or(Box::new(left), Box::new(right)),
        TokenView::Add => NodeView::Add(Box::new(left), Box::new(right)),
        TokenView::Subtract => NodeView::Subtract(Box::new(left), Box::new(right)),
        TokenView::Multiply => NodeView::Multiply(Box::new(left), Box::new(right)),
        TokenView::Divide => NodeView::Divide(Box::new(left), Box::new(right)),
        TokenView::Caret => NodeView::Caret(Box::new(left), Box::new(right)),
        _ => left,
    }
}

/// Reads a closing parenthesis.
pub open spec fn close(c: Cursor) -> Step<()> {
    if c.current == TokenView::RightParen {
        advance(c)
    } else {
        Step { outcome: Err(ParseErrorView::UnbalancedParen(c.current)), cursor: c }
    }
}

/// Reads a primary: a literal, an expression in parentheses, or a minus
/// sign and the primary that it negates.
///
/// What follows a minus sign is read at the strongest level, which no
/// operator exceeds: the sign applies to the next primary alone, and
/// `-2^2` is `(-2)^2`.
pub open spec fn primary(c: Cursor) -> Step<NodeView>
    decreases c.measure(), 0nat,
{
    match c.current {
        TokenView::Subtract => {
            let moved = advance(c);
            match moved.outcome {
                Err(error) => Step { outcome: Err(error), cursor: moved.cursor },
                Ok(_) => {
                    let operand = expression(moved.cursor, OperPrec::Negative);
                    match operand.outcome {
                        Err(error) => operand,
                        Ok(node) => Step {
                            outcome: Ok(NodeView::Negative(Box::new(node))),
                            cursor: operand.cursor,
                        },
                    }
                },
            }
        },
        TokenView::Num(text) => {
            let moved = advance(c);
            match moved.outcome {
                Err(error) => Step { outcome: Err(error), cursor: moved.cursor },
                Ok(_) => Step { outcome: Ok(NodeView::Number(text)), cursor: moved.cursor },
            }
        },
        TokenView::LeftParen => {
            let moved = advance(c);
            match moved.outcome {
                Err(error) => Step { outcome: Err(error), cursor: moved.cursor },
                Ok(_) => {
                    let inner = expression(moved.cursor, OperPrec::DefaultZero);
                    match inner.outcome {
                        Err(error) => inner,
                        Ok(node) => {
                            let closed = close(inner.cursor);
                            match closed.outcome {
                                Err(error) => Step { outcome: Err(error), cursor: closed.cursor },
                                Ok(_) => Step { outcome: Ok(node), cursor: closed.cursor },
                            }
                        },
                    }
                },
            }
        },
        other => Step { outcome: Err(ParseErrorView::UnableToParse(other)), cursor: c },
    }
}

/// Reads one operation on `left`: the operator that `c` looks at, and its
/// right operand.
pub open spec fn operation(left: NodeView, c: Cursor) -> Step<NodeView>
    decreases c.measure(), 0nat,
{
    if is_binary(c.current) {
        let moved = advance(c);
        match moved.outcome {
            Err(error) => Step { outcome: Err(error), cursor: moved.cursor },
            Ok(_) => {
                let right = expression(moved.cursor, operand_level(c.current));
                match right.outcome {
                    Err(error) => right,
                    Ok(node) => Step {
                        outcome: Ok(combine(c.current, left, node)),
                        cursor: right.cursor,
                    },
                }
            },
        }
    } else {
        Step { outcome: Ok(left), cursor: c }
    }
}

/// Reads the operations that follow `left` in an expression at level
/// `min`, one after the other.
///
/// The comparison of measures is there for the definition to be well
/// founded; [`lemma_progress`] shows that it always holds.
pub open spec fn climb(left: NodeView, c: Cursor, min: OperPrec) -> Step<NodeView>
    decreases c.measure(), 1nat,
{
    if continues(c.current, min) {
        let step = operation(left, c);
        match step.outcome {
            Err(error) => step,
            Ok(node) => if step.cursor.measure() < c.measure() {
                climb(node, step.cursor, min)
            } else {
                step
            },
        }
    } else {
        Step { outcome: Ok(left), cursor: c }
    }
}

/// Reads an expression at level `min`: a primary and the operations that
/// follow it.
///
/// The comparison of measures is there for the definition to be well
/// founded; [`lemma_progress`] shows that it always holds.
pub open spec fn expression(c: Cursor, min: OperPrec) -> Step<NodeView>
    decreases c.measure(), 2nat,
{
    let first = primary(c);
    match first.outcome {
        Err(error) => first,
        Ok(node) => if first.cursor.measure() <= c.measure() {
            climb(node, first.cursor, min)
        } else {
            first
        },
    }
}

/// Reads one expression that must take up all of the input.
pub open spec fn complete(c: Cursor) -> Step<NodeView> {
    let whole = expression(c, OperPrec::DefaultZero);
    match whole.outcome {
        Err(error) => whole,
        Ok(node) => if whole.cursor.current == TokenView::EOF {
            whole
        } else {
            Step {
                outcome: Err(ParseErrorView::TrailingInput(whole.cursor.current)),
                cursor: whole.cursor,
            }
        },
    }
}

/// Where a parser starts on a stream of items: at its first token.  It
/// cannot start on a stream that hands out no token.
pub open spec fn start(items: Seq<Item>) -> Result<Cursor, ParseErrorView> {
    if items.len() == 0 {
        Err(ParseErrorView::UnableToParse(TokenView::EOF))
    } else {
        match items[0] {
            Ok(token) => Ok(Cursor { current: token, rest: items.drop_first() }),
            Err(error) => Err(ParseErrorView::Lex(error)),
        }
    }
}

/// A parser over exactly the tokens `tokens`, looking at the first.
pub open spec fn cursor_at(tokens: Seq<TokenView>) -> Cursor
    recommends
        tokens.len() > 0,
{
    Cursor { current: tokens[0], rest: all_ok(tokens.drop_first()) }
}

/// The syntax tree of `source`, or the reason why it has none.
pub open spec fn parse_text(source: Seq<char>) -> Result<NodeView, ParseErrorView> {
    match start(scan(source)) {
        Ok(c) => complete(c).outcome,
        Err(error) => Err(error),
    }
}

/// A text whose tokenizer hands out exactly `tokens` has the tree of
/// those tokens.
pub proof fn lemma_parse_text_at(source: Seq<char>, tokens: Seq<TokenView>)
    requires
        tokens.len() > 0,
        scan(source) == all_ok(tokens),
    ensures
        parse_text(source) == complete(cursor_at(tokens)).outcome,
{
    assert(all_ok(tokens).drop_first() =~= all_ok(tokens.drop_first()));
}

/// No step of parsing leaves more to consume than it found, and an
/// operation leaves less.
pub proof fn lemma_progress(left: NodeView, c: Cursor, min: OperPrec)
    ensures
        primary(c).cursor.measure() <= c.measure(),
        expression(c, min).cursor.measure() <= c.measure(),
        climb(left, c, min).cursor.measure() <= c.measure(),
        is_binary(c.current) ==> operation(left, c).cursor.measure() < c.measure(),
    decreases c.measure(),
{
    lemma_primary_progress(c);
    lemma_expression_progress(c, min);
    lemma_climb_progress(left, c, min);
    lemma_operation_progress(left, c);
}

/// An expression is its primary and the operations that follow it: the
/// comparison in [`expression`] never fails.
pub proof fn lemma_expression_unfolds(c: Cursor, min: OperPrec)
    ensures
        expression(c, min) == match primary(c).outcome {
            Err(error) => primary(c),
            Ok(node) => climb(node, primary(c).cursor, min),
        },
{
    lemma_primary_progress(c);
}

/// The operations of an expression are read one after the other, as long
/// as the token that the parser looks at continues the expression: the
/// comparison in [`climb`] never fails.
pub proof fn lemma_climb_unfolds(left: NodeView, c: Cursor, min: OperPrec)
    ensures
        climb(left, c, min) == if continues(c.current, min) {
            match operation(left, c).outcome {
                Err(error) => operation(left, c),
                Ok(node) => climb(node, operation(left, c).cursor, min),
            }
        } else {
            Step { outcome: Ok(left), cursor: c }
        },
{
    lemma_operation_progress(left, c);
}

proof fn lemma_primary_progress(c: Cursor)
    ensures
        primary(c).cursor.measure() <= c.measure(),
    decreases c.measure(), 0nat,
{
    match c.current {
        TokenView::Subtract => {
            let moved = advance(c);
            if moved.outcome is Ok {
                lemma_expression_progress(moved.cursor, OperPrec::Negative);
            }
        },
        TokenView::LeftParen => {
            let moved = advance(c);
            if moved.outcome is Ok {
                lemma_expression_progress(moved.cursor, OperPrec::DefaultZero);
            }
        },
        _ => {},
    }
}

proof fn lemma_operation_progress(left: NodeView, c: Cursor)
    ensures
        is_binary(c.current) ==> operation(left, c).cursor.measure() < c.measure(),
        operation(left, c).cursor.measure() <= c.measure(),
    decreases c.measure(), 0nat,
{
    if is_binary(c.current) {
        let moved = advance(c);
        if moved.outcome is Ok {
            lemma_expression_progress(moved.cursor, operand_level(c.current));
        }
    }
}

proof fn lemma_climb_progress(left: NodeView, c: Cursor, min: OperPrec)
    ensures
        climb(left, c, min).cursor.measure() <= c.measure(),
    decreases c.measure(), 1nat,
{
    if continues(c.current, min) {
        let step = operation(left, c);
        lemma_operation_progress(left, c);
        if let Ok(node) = step.outcome {
            lemma_climb_progress(node, step.cursor, min);
        }
    }
}

proof fn lemma_expression_progress(c: Cursor, min: OperPrec)
    ensures
        expression(c, min).cursor.measure() <= c.measure(),
    decreases c.measure(), 2nat,
{
    let first = primary(c);
    lemma_primary_progress(c);
    if let Ok(node) = first.outcome {
        lemma_climb_progress(node, first.cursor, min);
    }
}

} // verus!
