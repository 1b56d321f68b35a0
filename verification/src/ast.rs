//! The syntax tree of an expression.

use vstd::prelude::*;
use crate::token::Literal;

verus! {

/// A node of the syntax tree.  Every operator owns its operands.
#[derive(Debug, PartialEq, Eq)]
pub enum Node {
    /// Bitwise and of the operands.
    And(Box<Node>, Box<Node>),
    /// Bitwise or of the operands.
    Or(Box<Node>, Box<Node>),
    /// Sum.
    Add(Box<Node>, Box<Node>),
    /// Difference.
    Subtract(Box<Node>, Box<Node>),
    /// Product.
    Multiply(Box<Node>, Box<Node>),
    /// Quotient.
    Divide(Box<Node>, Box<Node>),
    /// The left operand raised to the power of the right one.
    Caret(Box<Node>, Box<Node>),
    /// Arithmetic negation of the operand.
    Negative(Box<Node>),
    /// A numeric literal.
    Number(Literal),
}

/// The mathematical model of a [`Node`]: the same tree, with each literal
/// as the sequence of its characters.
pub enum NodeView {
    And(Box<NodeView>, Box<NodeView>),
    Or(Box<NodeView>, Box<NodeView>),
    Add(Box<NodeView>, Box<NodeView>),
    Subtract(Box<NodeView>, Box<NodeView>),
    Multiply(Box<NodeView>, Box<NodeView>),
    Divide(Box<NodeView>, Box<NodeView>),
    Caret(Box<NodeView>, Box<NodeView>),
    Negative(Box<NodeView>),
    Number(Seq<char>),
}

impl Node {
    /// The model of the tree, built from the models of its operands.
    pub open spec fn model(&self) -> NodeView
        decreases self,
    {
        match self {
            Node::And(l, r) => NodeView::And(Box::new(l.model()), Box::new(r.model())),
            Node::Or(l, r) => NodeView::Or(Box::new(l.model()), Box::new(r.model())),
            Node::Add(l, r) => NodeView::Add(Box::new(l.model()), Box::new(r.model())),
            Node::Subtract(l, r) => NodeView::Subtract(Box::new(l.model()), Box::new(r.model())),
            Node::Multiply(l, r) => NodeView::Multiply(Box::new(l.model()), Box::new(r.model())),
            Node::Divide(l, r) => NodeView::Divide(Box::new(l.model()), Box::new(r.model())),
            Node::Caret(l, r) => NodeView::Caret(Box::new(l.model()), Box::new(r.model())),
            Node::Negative(operand) => NodeView::Negative(Box::new(operand.model())),
            Node::Number(literal) => NodeView::Number(literal@),
        }
    }
}

impl View for Node {
    type V = NodeView;

    open spec fn view(&self) -> NodeView {
        self.model()
    }
}

impl Clone for Node {
    fn clone(&self) -> (copy: Self)
        ensures
            copy@ == self@,
        decreases self,
    {
        match self {
            Node::And(l, r) => Node::And(Box::new((**l).clone()), Box::new((**r).clone())),
            Node::Or(l, r) => Node::Or(Box::new((**l).clone()), Box::new((**r).clone())),
            Node::Add(l, r) => Node::Add(Box::new((**l).clone()), Box::new((**r).clone())),
            Node::Subtract(l, r) => Node::Subtract(
                Box::new((**l).clone()),
                Box::new((**r).clone()),
            ),
            Node::Multiply(l, r) => Node::Multiply(
                Box::new((**l).clone()),
                Box::new((**r).clone()),
            ),
            Node::Divide(l, r) => Node::Divide(Box::new((**l).clone()), Box::new((**r).clone())),
            Node::Caret(l, r) => Node::Caret(Box::new((**l).clone()), Box::new((**r).clone())),
            Node::Negative(operand) => Node::Negative(Box::new((**operand).clone())),
            Node::Number(literal) => Node::Number(literal.clone()),
        }
    }
}

} // verus!
