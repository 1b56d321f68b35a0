//! What a tree says about the tokens it was read from.
//!
//! Reading never drops, invents or reorders a token: apart from the
//! parentheses, the tokens that make up a tree are the tokens that an
//! in-order walk of the tree meets, and the parentheses among them match.

use vstd::prelude::*;
use crate::ast::NodeView;
use crate::grammar::{
    advance, climb, close, combine, continues, expression, is_binary, lemma_climb_unfolds,
    lemma_expression_unfolds, lemma_progress, operand_level, operation, parse_text, primary,
    start, Cursor,
};
use crate::token::{is_numeral, OperPrec, TokenView};
use crate::tokenizer::{
    all_numerals, all_ok, lemma_scan_shape, scan, terminated, token_of, Item, LexErrorView,
};

verus! {

/// The tokens that an in-order walk of the tree meets: a minus sign before
/// what it negates, and an operator between its operands.
pub open spec fn flatten(node: NodeView) -> Seq<TokenView>
    decreases node,
{
    match node {
        NodeView::And(l, r) => flatten(*l) + seq![TokenView::And] + flatten(*r),
        NodeView::Or(l, r) => flatten(*l) + seq![TokenView::Or] + flatten(*r),
        NodeView::Add(l, r) => flatten(*l) + seq![TokenView::Add] + flatten(*r),
        NodeView::Subtract(l, r) => flatten(*l) + seq![TokenView::Subtract] + flatten(*r),
        NodeView::Multiply(l, r) => flatten(*l) + seq![TokenView::Multiply] + flatten(*r),
        NodeView::Divide(l, r) => flatten(*l) + seq![TokenView::Divide] + flatten(*r),
        NodeView::Caret(l, r) => flatten(*l) + seq![TokenView::Caret] + flatten(*r),
        NodeView::Negative(operand) => seq![TokenView::Subtract] + flatten(*operand),
        NodeView::Number(text) => seq![TokenView::Num(text)],
    }
}

/// The token is a parenthesis.
pub open spec fn is_paren(token: TokenView) -> bool {
    token == TokenView::LeftParen || token == TokenView::RightParen
}

/// The tokens of `tokens` that are no parentheses, in order.
pub open spec fn without_parens(tokens: Seq<TokenView>) -> Seq<TokenView>
    decreases tokens.len(),
{
    if tokens.len() == 0 {
        tokens
    } else if is_paren(tokens[0]) {
        without_parens(tokens.drop_first())
    } else {
        seq![tokens[0]] + without_parens(tokens.drop_first())
    }
}

/// The number of parentheses that are open after `tokens`, when `open`
/// were open before; nothing, if `tokens` closes one that is not open.
pub open spec fn depth_after(tokens: Seq<TokenView>, open: nat) -> Option<nat>
    decreases tokens.len(),
{
    if tokens.len() == 0 {
        Some(open)
    } else if tokens[0] == TokenView::LeftParen {
        depth_after(tokens.drop_first(), open + 1)
    } else if tokens[0] == TokenView::RightParen {
        if open == 0 {
            None
        } else {
            depth_after(tokens.drop_first(), (open - 1) as nat)
        }
    } else {
        depth_after(tokens.drop_first(), open)
    }
}

/// The parentheses in `tokens` match: each closes one that is open, and
/// none stays open.
pub open spec fn balanced(tokens: Seq<TokenView>) -> bool {
    depth_after(tokens, 0) == Some(0nat)
}

/// Removing parentheses goes piece by piece.
pub proof fn lemma_without_parens_concat(x: Seq<TokenView>, y: Seq<TokenView>)
    ensures
        without_parens(x + y) == without_parens(x) + without_parens(y),
    decreases x.len(),
{
    if x.len() == 0 {
        assert(x + y =~= y);
        assert(without_parens(x) + without_parens(y) =~= without_parens(y));
    } else {
        assert((x + y).drop_first() =~= x.drop_first() + y);
        lemma_without_parens_concat(x.drop_first(), y);
        assert(without_parens(x + y) =~= without_parens(x) + without_parens(y));
    }
}

/// Counting open parentheses goes piece by piece.
pub proof fn lemma_depth_concat(x: Seq<TokenView>, y: Seq<TokenView>, open: nat)
    ensures
        depth_after(x + y, open) == match depth_after(x, open) {
            Some(then) => depth_after(y, then),
            None => None,
        },
    decreases x.len(),
{
    if x.len() == 0 {
        assert(x + y =~= y);
    } else {
        assert((x + y).drop_first() =~= x.drop_first() + y);
        if x[0] == TokenView::LeftParen {
            lemma_depth_concat(x.drop_first(), y, open + 1);
        } else if x[0] == TokenView::RightParen {
            if open > 0 {
                lemma_depth_concat(x.drop_first(), y, (open - 1) as nat);
            }
        } else {
            lemma_depth_concat(x.drop_first(), y, open);
        }
    }
}

/// Tokens that can be read with some parentheses open can be read with
/// more of them open, and leave as many more open.
pub proof fn lemma_depth_shift(x: Seq<TokenView>, open: nat, more: nat)
    ensures
        depth_after(x, open) matches Some(then) ==> depth_after(x, open + more) == Some(
            then + more,
        ),
    decreases x.len(),
{
    if x.len() > 0 {
        if x[0] == TokenView::LeftParen {
            lemma_depth_shift(x.drop_first(), open + 1, more);
        } else if x[0] == TokenView::RightParen {
            if open > 0 {
                lemma_depth_shift(x.drop_first(), (open - 1) as nat, more);
            }
        } else {
            lemma_depth_shift(x.drop_first(), open, more);
        }
    }
}

/// Balanced pieces in a row are balanced.
pub proof fn lemma_balanced_concat(x: Seq<TokenView>, y: Seq<TokenView>)
    requires
        balanced(x),
        balanced(y),
    ensures
        balanced(x + y),
{
    lemma_depth_concat(x, y, 0);
}

/// One token that is no parenthesis is balanced, and stays when the
/// parentheses are removed.
pub proof fn lemma_single(token: TokenView)
    requires
        !is_paren(token),
    ensures
        balanced(seq![token]),
        without_parens(seq![token]) == seq![token],
{
    let one = seq![token];
    assert(one.drop_first().len() == 0);
    assert(depth_after(one.drop_first(), 0) == Some(0nat));
    assert(without_parens(one.drop_first()) =~= Seq::<TokenView>::empty());
    assert(without_parens(one) =~= one);
}

/// A balanced piece in parentheses is balanced, and without parentheses
/// it is what it was.
pub proof fn lemma_enclosed(x: Seq<TokenView>)
    requires
        balanced(x),
    ensures
        balanced(seq![TokenView::LeftParen] + x + seq![TokenView::RightParen]),
        without_parens(seq![TokenView::LeftParen] + x + seq![TokenView::RightParen])
            == without_parens(x),
{
    let open = seq![TokenView::LeftParen];
    let shut = seq![TokenView::RightParen];
    assert(open.drop_first().len() == 0);
    assert(shut.drop_first().len() == 0);
    assert(depth_after(open, 0) == Some(1nat)) by {
        assert(depth_after(open.drop_first(), 1) == Some(1nat));
    }
    assert(depth_after(shut, 1) == Some(0nat)) by {
        assert(depth_after(shut.drop_first(), 0) == Some(0nat));
    }
    lemma_depth_shift(x, 0, 1);
    lemma_depth_concat(open, x, 0);
    lemma_depth_concat(open + x, shut, 0);
    assert(without_parens(open) =~= Seq::<TokenView>::empty()) by {
        assert(without_parens(open.drop_first()) =~= Seq::<TokenView>::empty());
    }
    assert(without_parens(shut) =~= Seq::<TokenView>::empty()) by {
        assert(without_parens(shut.drop_first()) =~= Seq::<TokenView>::empty());
    }
    lemma_without_parens_concat(open, x);
    lemma_without_parens_concat(open + x, shut);
    assert(without_parens(open + x + shut) =~= without_parens(x));
}

/// The parser is at a place in a terminated stream.
pub open spec fn proper(c: Cursor) -> bool {
    if c.current == TokenView::EOF {
        c.rest.len() == 0
    } else {
        terminated(c.rest)
    }
}

/// The items that the parser has not consumed: the token it looks at,
/// and what follows.
pub open spec fn remaining(c: Cursor) -> Seq<Item> {
    seq![Ok(c.current)] + c.rest
}

/// Going from `c` to `then` consumes exactly the tokens `used`.
pub open spec fn reads(c: Cursor, used: Seq<TokenView>, then: Cursor) -> bool {
    proper(then) && remaining(c) == all_ok(used) + remaining(then)
}

/// Consuming one piece and then another consumes both in a row.
proof fn lemma_reads_both(
    c: Cursor,
    first: Seq<TokenView>,
    between: Cursor,
    second: Seq<TokenView>,
    then: Cursor,
)
    requires
        reads(c, first, between),
        reads(between, second, then),
    ensures
        reads(c, first + second, then),
{
    assert(all_ok(first + second) =~= all_ok(first) + all_ok(second));
    assert(all_ok(first + second) + remaining(then) =~= all_ok(first) + (all_ok(second)
        + remaining(then)));
}

/// The walk of a node made by a binary operator: the left operand, the
/// operator, the right operand.
pub proof fn lemma_flatten_combine(operator: TokenView, left: NodeView, right: NodeView)
    requires
        is_binary(operator),
    ensures
        flatten(combine(operator, left, right)) == flatten(left) + seq![operator] + flatten(right),
{
}

/// Moving on from a token consumes that token.
proof fn lemma_advance_reads(c: Cursor)
    requires
        proper(c),
        c.current != TokenView::EOF,
        advance(c).outcome is Ok,
    ensures
        reads(c, seq![c.current], advance(c).cursor),
{
    let then = advance(c).cursor;
    assert(c.rest[0] == Ok::<TokenView, LexErrorView>(then.current));
    assert(then.rest == c.rest.drop_first());
    if then.current != TokenView::EOF {
        assert(c.rest.len() >= 2);
        assert forall|i: int| 0 <= i < then.rest.len() - 1 implies (#[trigger] then.rest[i] matches Ok(
            token,
        ) && token != TokenView::EOF) by {
            assert(then.rest[i] == c.rest[i + 1]);
        }
        assert(then.rest.last() == c.rest.last());
    }
    assert(remaining(c) =~= all_ok(seq![c.current]) + remaining(then));
}

/// A primary that is read consumes balanced tokens, which without their
/// parentheses are the walk of its tree.
proof fn lemma_primary_reads(c: Cursor) -> (used: Seq<TokenView>)
    requires
        proper(c),
        primary(c).outcome is Ok,
    ensures
        reads(c, used, primary(c).cursor),
        balanced(used),
        without_parens(used) == flatten(primary(c).outcome->Ok_0),
    decreases c.measure(), 0nat,
{
    let moved = advance(c).cursor;
    let head = seq![c.current];
    match c.current {
        TokenView::Subtract => {
            lemma_advance_reads(c);
            let inner = lemma_expression_reads(moved, OperPrec::Negative);
            lemma_reads_both(c, head, moved, inner, expression(moved, OperPrec::Negative).cursor);
            lemma_single(c.current);
            lemma_balanced_concat(head, inner);
            lemma_without_parens_concat(head, inner);
            head + inner
        },
        TokenView::Num(text) => {
            lemma_advance_reads(c);
            lemma_single(c.current);
            head
        },
        TokenView::LeftParen => {
            lemma_advance_reads(c);
            let within = expression(moved, OperPrec::DefaultZero);
            let inner = lemma_expression_reads(moved, OperPrec::DefaultZero);
            lemma_reads_both(c, head, moved, inner, within.cursor);
            lemma_advance_reads(within.cursor);
            let shut = seq![TokenView::RightParen];
            lemma_reads_both(c, head + inner, within.cursor, shut, close(within.cursor).cursor);
            lemma_enclosed(inner);
            head + inner + shut
        },
        _ => Seq::empty(),
    }
}

/// An operation that is read consumes balanced tokens, which without
/// their parentheses are what the operation adds to the walk of its left
/// operand.
proof fn lemma_operation_reads(left: NodeView, c: Cursor) -> (used: Seq<TokenView>)
    requires
        proper(c),
        is_binary(c.current),
        operation(left, c).outcome is Ok,
    ensures
        reads(c, used, operation(left, c).cursor),
        balanced(used),
        flatten(operation(left, c).outcome->Ok_0) == flatten(left) + without_parens(used),
    decreases c.measure(), 0nat,
{
    let moved = advance(c).cursor;
    let head = seq![c.current];
    let level = operand_level(c.current);
    lemma_advance_reads(c);
    let right = expression(moved, level);
    let inner = lemma_expression_reads(moved, level);
    lemma_reads_both(c, head, moved, inner, right.cursor);
    lemma_single(c.current);
    lemma_balanced_concat(head, inner);
    lemma_without_parens_concat(head, inner);
    lemma_flatten_combine(c.current, left, right.outcome->Ok_0);
    assert(flatten(left) + head + flatten(right.outcome->Ok_0) =~= flatten(left) + (head
        + flatten(right.outcome->Ok_0)));
    head + inner
}

/// The operations that are read after an operand consume balanced tokens,
/// which without their parentheses are what the operations add to the
/// walk of the operand.
proof fn lemma_climb_reads(left: NodeView, c: Cursor, min: OperPrec) -> (used: Seq<TokenView>)
    requires
        proper(c),
        climb(left, c, min).outcome is Ok,
    ensures
        reads(c, used, climb(left, c, min).cursor),
        balanced(used),
        flatten(climb(left, c, min).outcome->Ok_0) == flatten(left) + without_parens(used),
    decreases c.measure(), 1nat,
{
    lemma_climb_unfolds(left, c, min);
    if continues(c.current, min) {
        let step = operation(left, c);
        lemma_progress(left, c, min);
        let first = lemma_operation_reads(left, c);
        let node = step.outcome->Ok_0;
        let others = lemma_climb_reads(node, step.cursor, min);
        lemma_reads_both(c, first, step.cursor, others, climb(node, step.cursor, min).cursor);
        lemma_balanced_concat(first, others);
        lemma_without_parens_concat(first, others);
        assert(flatten(left) + without_parens(first) + without_parens(others) =~= flatten(left)
            + (without_parens(first) + without_parens(others)));
        first + others
    } else {
        let none = Seq::<TokenView>::empty();
        assert(all_ok(none) + remaining(c) =~= remaining(c));
        assert(flatten(left) + without_parens(none) =~= flatten(left));
        none
    }
}

/// An expression that is read consumes balanced tokens, which without
/// their parentheses are the walk of its tree.
proof fn lemma_expression_reads(c: Cursor, min: OperPrec) -> (used: Seq<TokenView>)
    requires
        proper(c),
        expression(c, min).outcome is Ok,
    ensures
        reads(c, used, expression(c, min).cursor),
        balanced(used),
        without_parens(used) == flatten(expression(c, min).outcome->Ok_0),
    decreases c.measure(), 2nat,
{
    lemma_expression_unfolds(c, min);
    lemma_progress(NodeView::Number(Seq::empty()), c, min);
    let first = primary(c);
    let operand = lemma_primary_reads(c);
    let node = first.outcome->Ok_0;
    let others = lemma_climb_reads(node, first.cursor, min);
    lemma_reads_both(c, operand, first.cursor, others, climb(node, first.cursor, min).cursor);
    lemma_balanced_concat(operand, others);
    lemma_without_parens_concat(operand, others);
    operand + others
}

/// A text that has a tree is made of tokens only, the last of them the
/// end of the input.  In the tokens before it the parentheses match, and
/// the others are the tokens of an in-order walk of the tree.
pub proof fn lemma_parse_sound(source: Seq<char>) -> (tokens: Seq<TokenView>)
    requires
        parse_text(source) is Ok,
    ensures
        scan(source) == all_ok(tokens + seq![TokenView::EOF]),
        balanced(tokens),
        without_parens(tokens) == flatten(parse_text(source)->Ok_0),
{
    let items = scan(source);
    lemma_scan_shape(source);
    let c = start(items)->Ok_0;
    assert(c.rest == items.drop_first());
    if c.current != TokenView::EOF {
        assert(items.len() >= 2);
        assert forall|i: int| 0 <= i < c.rest.len() - 1 implies (#[trigger] c.rest[i] matches Ok(
            token,
        ) && token != TokenView::EOF) by {
            assert(c.rest[i] == items[i + 1]);
        }
        assert(c.rest.last() == items.last());
    }
    assert(remaining(c) =~= items);
    let tokens = lemma_expression_reads(c, OperPrec::DefaultZero);
    let end = expression(c, OperPrec::DefaultZero).cursor;
    assert(remaining(end) =~= all_ok(seq![TokenView::EOF]));
    assert(all_ok(tokens) + all_ok(seq![TokenView::EOF]) =~= all_ok(tokens + seq![TokenView::EOF]));
    tokens
}

/// Every literal in the tree has the shape of one.
pub open spec fn well_formed(node: NodeView) -> bool
    decreases node,
{
    match node {
        NodeView::And(l, r)
        | NodeView::Or(l, r)
        | NodeView::Add(l, r)
        | NodeView::Subtract(l, r)
        | NodeView::Multiply(l, r)
        | NodeView::Divide(l, r)
        | NodeView::Caret(l, r) => well_formed(*l) && well_formed(*r),
        NodeView::Negative(operand) => well_formed(*operand),
        NodeView::Number(text) => is_numeral(text),
    }
}

/// Literals that have the shape of literals among all the tokens have it
/// among those that are no parentheses.
pub proof fn lemma_numerals_without_parens(tokens: Seq<TokenView>)
    requires
        all_numerals(tokens),
    ensures
        all_numerals(without_parens(tokens)),
    decreases tokens.len(),
{
    if tokens.len() > 0 {
        let others = tokens.drop_first();
        assert forall|i: int| 0 <= i < others.len() implies (#[trigger] others[i] matches TokenView::Num(
            text,
        ) ==> is_numeral(text)) by {
            assert(others[i] == tokens[i + 1]);
        }
        lemma_numerals_without_parens(others);
        let kept = without_parens(others);
        if !is_paren(tokens[0]) {
            let all = seq![tokens[0]] + kept;
            assert forall|i: int| 0 <= i < all.len() implies (#[trigger] all[i] matches TokenView::Num(
                text,
            ) ==> is_numeral(text)) by {
                if i > 0 {
                    assert(all[i] == kept[i - 1]);
                }
            }
        }
    }
}

/// Literals that have the shape of literals in both of two pieces have
/// it in the pieces in a row, and the other way round.
pub proof fn lemma_numerals_concat(x: Seq<TokenView>, y: Seq<TokenView>)
    ensures
        all_numerals(x + y) <==> all_numerals(x) && all_numerals(y),
{
    if all_numerals(x + y) {
        assert forall|i: int| 0 <= i < x.len() implies (#[trigger] x[i] matches TokenView::Num(
            text,
        ) ==> is_numeral(text)) by {
            assert(x[i] == (x + y)[i]);
        }
        assert forall|i: int| 0 <= i < y.len() implies (#[trigger] y[i] matches TokenView::Num(
            text,
        ) ==> is_numeral(text)) by {
            assert(y[i] == (x + y)[x.len() + i]);
        }
    }
    if all_numerals(x) && all_numerals(y) {
        assert forall|i: int| 0 <= i < (x + y).len() implies (#[trigger] (x + y)[i] matches TokenView::Num(
            text,
        ) ==> is_numeral(text)) by {
            if i < x.len() {
                assert((x + y)[i] == x[i]);
            } else {
                assert((x + y)[i] == y[i - x.len()]);
            }
        }
    }
}

/// A tree whose walk meets only literals that have the shape of literals
/// holds only such literals.
pub proof fn lemma_well_formed_walk(node: NodeView)
    requires
        all_numerals(flatten(node)),
    ensures
        well_formed(node),
    decreases node,
{
    match node {
        NodeView::And(l, r)
        | NodeView::Or(l, r)
        | NodeView::Add(l, r)
        | NodeView::Subtract(l, r)
        | NodeView::Multiply(l, r)
        | NodeView::Divide(l, r)
        | NodeView::Caret(l, r) => {
            let operator = flatten(node)[flatten(*l).len() as int];
            assert(flatten(node) == flatten(*l) + seq![operator] + flatten(*r));
            lemma_numerals_concat(flatten(*l) + seq![operator], flatten(*r));
            lemma_numerals_concat(flatten(*l), seq![operator]);
            lemma_well_formed_walk(*l);
            lemma_well_formed_walk(*r);
        },
        NodeView::Negative(operand) => {
            lemma_numerals_concat(seq![TokenView::Subtract], flatten(*operand));
            lemma_well_formed_walk(*operand);
        },
        NodeView::Number(text) => {
            assert(flatten(node)[0] == TokenView::Num(text));
        },
    }
}

/// Every literal in the tree of a text has the shape of a literal.
pub proof fn lemma_parse_well_formed(source: Seq<char>)
    requires
        parse_text(source) is Ok,
    ensures
        well_formed(parse_text(source)->Ok_0),
{
    let tokens = lemma_parse_sound(source);
    lemma_scan_shape(source);
    let all = scan(source).map_values(|item: Item| token_of(item));
    assert(all =~= tokens + seq![TokenView::EOF]);
    lemma_numerals_concat(tokens, seq![TokenView::EOF]);
    lemma_numerals_without_parens(tokens);
    lemma_well_formed_walk(parse_text(source)->Ok_0);
}

} // verus!
