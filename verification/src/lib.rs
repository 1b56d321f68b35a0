//! Parsing of arithmetic expressions into syntax trees.
//!
//! An expression is made of numeric literals, the binary operators
//! `+ - * / ^ & |`, the minus sign in front of an operand, and
//! parentheses.  [`tokenizer::Tokenizer`] splits a text into tokens, and
//! [`parser::Parser`] builds an [`ast::Node`] from them by precedence
//! climbing; [`parser::parse`] does both.
//!
//! Every executable function carries a contract over a mathematical
//! model: [`tokenizer::scan`] says which tokens a text is made of, and
//! [`grammar::parse_text`] which tree it has.  The modules [`grouping`],
//! [`soundness`], [`spelling`] and [`completeness`] prove what follows
//! from these definitions.
//!
//! Literals are kept as they are written.  Their values as numbers, and
//! the arithmetic on them, are left to the user of the tree.

pub mod chars;
pub mod token;
pub mod tokenizer;
pub mod ast;
pub mod grammar;
pub mod parser;
pub mod grouping;
pub mod soundness;
pub mod spelling;
pub mod completeness;
