//! Building the syntax tree from tokens.

use vstd::prelude::*;
use crate::ast::{Node, NodeView};
use crate::grammar::{
    advance, climb, close, complete, expression, is_binary, lemma_progress, operation,
    parse_text, primary, start, Cursor,
};
use crate::token::{OperPrec, Token, TokenView};
use crate::tokenizer::{scan, LexError, LexErrorView, Tokenizer};

verus! {

/// Why a text is not an expression.
#[derive(Debug, PartialEq, Eq)]
pub enum ParseError {
    /// The text holds something that is no token.
    Lex(LexError),
    /// An operand was expected where this token stands.
    UnableToParse(Token),
    /// A closing parenthesis was expected where this token stands.
    UnbalancedParen(Token),
    /// This token follows a complete expression.
    TrailingInput(Token),
}

/// The mathematical model of a [`ParseError`].
pub enum ParseErrorView {
    Lex(LexErrorView),
    UnableToParse(TokenView),
    UnbalancedParen(TokenView),
    TrailingInput(TokenView),
}

impl View for ParseError {
    type V = ParseErrorView;

    open spec fn view(&self) -> ParseErrorView {
        match self {
            ParseError::Lex(error) => ParseErrorView::Lex(error@),
            ParseError::UnableToParse(token) => ParseErrorView::UnableToParse(token@),
            ParseError::UnbalancedParen(token) => ParseErrorView::UnbalancedParen(token@),
            ParseError::TrailingInput(token) => ParseErrorView::TrailingInput(token@),
        }
    }
}

impl Clone for ParseError {
    fn clone(&self) -> (copy: Self)
        ensures
            copy@ == self@,
    {
        match self {
            ParseError::Lex(error) => ParseError::Lex(error.clone()),
            ParseError::UnableToParse(token) => ParseError::UnableToParse(token.clone()),
            ParseError::UnbalancedParen(token) => ParseError::UnbalancedParen(token.clone()),
            ParseError::TrailingInput(token) => ParseError::TrailingInput(token.clone()),
        }
    }
}

impl ParseErrorView {
    /// What went wrong, in words.
    pub open spec fn detail(self) -> Seq<char> {
        match self {
            ParseErrorView::Lex(error) => error.message(),
            ParseErrorView::UnableToParse(token) => "Unable to parse "@ + token.text(),
            ParseErrorView::UnbalancedParen(token) => "Expected ), got "@ + token.text(),
            ParseErrorView::TrailingInput(token) => "Unexpected trailing input "@ + token.text(),
        }
    }

    /// The error in words, with the token that it is about.
    pub open spec fn message(self) -> Seq<char> {
        "Error in evaluating "@ + self.detail()
    }
}

impl ParseError {
    /// The error in words, with the token that it is about.
    pub fn message(&self) -> (message: String)
        ensures
            message@ == self@.message(),
    {
        let mut message = String::from_str("Error in evaluating ");
        match self {
            ParseError::Lex(error) => {
                let detail = error.message();
                message.append(detail.as_str());
            },
            ParseError::UnableToParse(token) => {
                message.append("Unable to parse ");
                token.write_to(&mut message);
            },
            ParseError::UnbalancedParen(token) => {
                message.append("Expected ), got ");
                token.write_to(&mut message);
            },
            ParseError::TrailingInput(token) => {
                message.append("Unexpected trailing input ");
                token.write_to(&mut message);
            },
        }
        message
    }
}

/// The model of the result of a step that yields a tree.
pub open spec fn tree_view(r: Result<Node, ParseError>) -> Result<NodeView, ParseErrorView> {
    match r {
        Ok(node) => Ok(node@),
        Err(error) => Err(error@),
    }
}

/// The model of the result of a step that yields nothing.
pub open spec fn unit_view(r: Result<(), ParseError>) -> Result<(), ParseErrorView> {
    match r {
        Ok(_) => Ok(()),
        Err(error) => Err(error@),
    }
}

/// A parser over the tokens of a text, with one token of lookahead.
pub struct Parser {
    tokenizer: Tokenizer,
    current_token: Token,
}

impl View for Parser {
    type V = Cursor;

    closed spec fn view(&self) -> Cursor {
        Cursor { current: self.current_token@, rest: self.tokenizer@ }
    }
}

impl Parser {
    /// A parser at the first token of `expr`.  Fails if `expr` does not
    /// start with a token.
    pub fn new(expr: &str) -> (r: Result<Parser, ParseError>)
        ensures
            match start(scan(expr@)) {
                Ok(c) => r matches Ok(parser) && parser@ == c,
                Err(error) => r matches Err(e) && e@ == error,
            },
    {
        let mut lexer = Tokenizer::new(expr);
        match lexer.next() {
            Some(Ok(token)) => Ok(Parser { tokenizer: lexer, current_token: token }),
            Some(Err(error)) => Err(ParseError::Lex(error)),
            None => Err(ParseError::UnableToParse(Token::EOF)),
        }
    }

    /// Reads one expression that takes up all that is left of the input.
    pub fn parse(&mut self) -> (r: Result<Node, ParseError>)
        ensures
            tree_view(r) == complete(old(self)@).outcome,
            final(self)@ == complete(old(self)@).cursor,
    {
        match self.generate_ast(OperPrec::DefaultZero) {
            Err(error) => Err(error),
            Ok(node) => match self.current_token {
                Token::EOF => Ok(node),
                _ => Err(ParseError::TrailingInput(self.current_token.clone())),
            },
        }
    }

    /// Moves to the next token.
    fn get_next_token(&mut self) -> (r: Result<(), ParseError>)
        ensures
            unit_view(r) == advance(old(self)@).outcome,
            final(self)@ == advance(old(self)@).cursor,
    {
        match self.tokenizer.next() {
            Some(Ok(token)) => {
                self.current_token = token;
                Ok(())
            },
            Some(Err(error)) => Err(ParseError::Lex(error)),
            None => {
                self.current_token = Token::EOF;
                Ok(())
            },
        }
    }

    /// Reads an expression whose operators bind more strongly than
    /// `oper_prec`.
    fn generate_ast(&mut self, oper_prec: OperPrec) -> (r: Result<Node, ParseError>)
        ensures
            tree_view(r) == expression(old(self)@, oper_prec).outcome,
            final(self)@ == expression(old(self)@, oper_prec).cursor,
        decreases old(self)@.measure(), 2nat,
    {
        let ghost entry = self@;
        let mut left_expr = match self.parse_number() {
            Ok(node) => node,
            Err(error) => {
                return Err(error);
            },
        };
        proof {
            lemma_progress(left_expr@, entry, oper_prec);
        }
        while oper_prec.level() < self.current_token.get_oper_prec().level()
            invariant
                entry == old(self)@,
                climb(left_expr@, self@, oper_prec) == expression(entry, oper_prec),
                self@.measure() <= entry.measure(),
            decreases self@.measure(),
        {
            let ghost before = self@;
            let ghost left = left_expr@;
            proof {
                lemma_progress(left, before, oper_prec);
            }
            match self.convert_token_to_node(left_expr) {
                Ok(node) => {
                    left_expr = node;
                },
                Err(error) => {
                    return Err(error);
                },
            }
        }
        Ok(left_expr)
    }

    /// Reads a primary: a literal, an expression in parentheses, or a
    /// minus sign and what it negates.
    fn parse_number(&mut self) -> (r: Result<Node, ParseError>)
        ensures
            tree_view(r) == primary(old(self)@).outcome,
            final(self)@ == primary(old(self)@).cursor,
        decreases old(self)@.measure(), 0nat,
    {
        let token = self.current_token.clone();
        match token {
            Token::Subtract => {
                self.get_next_token()?;
                let expr = self.generate_ast(OperPrec::Negative)?;
                Ok(Node::Negative(Box::new(expr)))
            },
            Token::Num(i) => {
                self.get_next_token()?;
                Ok(Node::Number(i))
            },
            Token::LeftParen => {
                self.get_next_token()?;
                let expr = self.generate_ast(OperPrec::DefaultZero)?;
                self.check_paren()?;
                Ok(expr)
            },
            _ => Err(ParseError::UnableToParse(token)),
        }
    }

    /// Reads a closing parenthesis.
    fn check_paren(&mut self) -> (r: Result<(), ParseError>)
        ensures
            unit_view(r) == close(old(self)@).outcome,
            final(self)@ == close(old(self)@).cursor,
    {
        match self.current_token {
            Token::RightParen => self.get_next_token(),
            _ => Err(ParseError::UnbalancedParen(self.current_token.clone())),
        }
    }

    /// Reads the operator that the parser looks at and its right operand,
    /// and makes them a node with `left_expr`.
    fn convert_token_to_node(&mut self, left_expr: Node) -> (r: Result<Node, ParseError>)
        requires
            is_binary(old(self)@.current),
        ensures
            tree_view(r) == operation(left_expr@, old(self)@).outcome,
            final(self)@ == operation(left_expr@, old(self)@).cursor,
        decreases old(self)@.measure(), 0nat,
    {
        let operator = self.current_token.clone();
        let level = match operator {
            Token::Caret => OperPrec::MulDiv,
            _ => operator.get_oper_prec(),
        };
        self.get_next_token()?;
        let right_expr = self.generate_ast(level)?;
        let left = Box::new(left_expr);
        let right = Box::new(right_expr);
        Ok(
            match operator {
                Token::And => Node::And(left, right),
                Token::Or => Node::Or(left, right),
                Token::Add => Node::Add(left, right),
                Token::Subtract => Node::Subtract(left, right),
                Token::Multiply => Node::Multiply(left, right),
                Token::Divide => Node::Divide(left, right),
                Token::Caret => Node::Caret(left, right),
                _ => *left,
            },
        )
    }
}

/// Parsing has no hidden state: whatever two runs on one text return,
/// they return the same tree or the same error.
pub proof fn lemma_parse_deterministic(
    source: Seq<char>,
    first: Result<Node, ParseError>,
    second: Result<Node, ParseError>,
)
    requires
        tree_view(first) == parse_text(source),
        tree_view(second) == parse_text(source),
    ensures
        tree_view(first) == tree_view(second),
        first is Ok <==> second is Ok,
{
}

/// Reads `source` as one expression.
pub fn parse(source: &str) -> (r: Result<Node, ParseError>)
    ensures
        tree_view(r) == parse_text(source@),
{
    match Parser::new(source) {
        Ok(mut parser) => parser.parse(),
        Err(error) => Err(error),
    }
}

} // verus!
