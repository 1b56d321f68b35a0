use parsemath::ast::Node;
use parsemath::ast::Node::{Add, And, Caret, Divide, Multiply, Negative, Number, Or, Subtract};
use parsemath::parser::{parse, ParseError, Parser};
use parsemath::token::{Literal, Token};
use parsemath::tokenizer::{tokenize, LexError};

fn n(text: &str) -> Box<Node> {
    Box::new(Number(Literal::new(text).unwrap()))
}

fn lit(value: f64) -> Literal {
    Literal::new(&format!("{}", value)).unwrap()
}

fn num(text: &str) -> Token {
    Token::Num(Literal::new(text).unwrap())
}

#[test]
fn test_addition() {
    let mut parser = Parser::new("1+2").unwrap();
    let expected = Add(Box::new(Number(lit(1.0))), Box::new(Number(lit(2.0))));
    assert_eq!(parser.parse().unwrap(), expected);
}

#[test]
fn test_bitwise_or() {
    let mut parser = Parser::new("6|2").unwrap();
    let expected = Or(Box::new(Number(lit(6.0))), Box::new(Number(lit(2.0))));
    assert_eq!(parser.parse().unwrap(), expected);
}

#[test]
fn single_number() {
    assert_eq!(parse("42"), Ok(Number(Literal::new("42").unwrap())));
    assert_eq!(parse(" 4.25 "), Ok(Number(Literal::new("4.25").unwrap())));
}

#[test]
fn each_operator_makes_its_node() {
    assert_eq!(parse("1&2"), Ok(And(n("1"), n("2"))));
    assert_eq!(parse("1|2"), Ok(Or(n("1"), n("2"))));
    assert_eq!(parse("1+2"), Ok(Add(n("1"), n("2"))));
    assert_eq!(parse("1-2"), Ok(Subtract(n("1"), n("2"))));
    assert_eq!(parse("1*2"), Ok(Multiply(n("1"), n("2"))));
    assert_eq!(parse("1/2"), Ok(Divide(n("1"), n("2"))));
    assert_eq!(parse("1^2"), Ok(Caret(n("1"), n("2"))));
}

#[test]
fn subtraction_groups_from_the_left() {
    assert_eq!(
        parse("2-3-4"),
        Ok(Subtract(Box::new(Subtract(n("2"), n("3"))), n("4")))
    );
}

#[test]
fn division_groups_from_the_left() {
    assert_eq!(
        parse("8/4/2"),
        Ok(Divide(Box::new(Divide(n("8"), n("4"))), n("2")))
    );
}

#[test]
fn power_groups_from_the_right() {
    assert_eq!(
        parse("2^3^2"),
        Ok(Caret(n("2"), Box::new(Caret(n("3"), n("2")))))
    );
}

#[test]
fn multiplication_binds_tighter_than_addition() {
    assert_eq!(
        parse("2+3*4"),
        Ok(Add(n("2"), Box::new(Multiply(n("3"), n("4")))))
    );
    assert_eq!(
        parse("2*3+4"),
        Ok(Add(Box::new(Multiply(n("2"), n("3"))), n("4")))
    );
}

#[test]
fn power_binds_tighter_than_multiplication() {
    assert_eq!(
        parse("2*3^4"),
        Ok(Multiply(n("2"), Box::new(Caret(n("3"), n("4")))))
    );
    assert_eq!(
        parse("2^3*4"),
        Ok(Multiply(Box::new(Caret(n("2"), n("3"))), n("4")))
    );
}

#[test]
fn bitwise_operators_bind_weakest() {
    assert_eq!(
        parse("3+3|4"),
        Ok(Or(Box::new(Add(n("3"), n("3"))), n("4")))
    );
    assert_eq!(
        parse("4&3+3"),
        Ok(And(n("4"), Box::new(Add(n("3"), n("3")))))
    );
    assert_eq!(
        parse("1|2&3"),
        Ok(And(Box::new(Or(n("1"), n("2"))), n("3")))
    );
}

#[test]
fn parentheses_override_precedence() {
    assert_eq!(
        parse("(2+3)*4"),
        Ok(Multiply(Box::new(Add(n("2"), n("3"))), n("4")))
    );
    assert_eq!(parse("((7))"), Ok(Number(Literal::new("7").unwrap())));
    assert_eq!(
        parse("2-(3-4)"),
        Ok(Subtract(n("2"), Box::new(Subtract(n("3"), n("4")))))
    );
}

#[test]
fn mixed_chain() {
    assert_eq!(
        parse("3+2-1*5/4"),
        Ok(Subtract(
            Box::new(Add(n("3"), n("2"))),
            Box::new(Divide(Box::new(Multiply(n("1"), n("5"))), n("4")))
        ))
    );
}

#[test]
fn minus_negates_the_primary_that_follows() {
    assert_eq!(
        parse("-3+5"),
        Ok(Add(Box::new(Negative(n("3"))), n("5")))
    );
    assert_eq!(
        parse("-2^2"),
        Ok(Caret(Box::new(Negative(n("2"))), n("2")))
    );
    assert_eq!(
        parse("-(2^2)"),
        Ok(Negative(Box::new(Caret(n("2"), n("2")))))
    );
    assert_eq!(
        parse("2--3"),
        Ok(Subtract(n("2"), Box::new(Negative(n("3")))))
    );
    assert_eq!(
        parse("--3"),
        Ok(Negative(Box::new(Negative(n("3")))))
    );
    assert_eq!(
        parse("2*-3"),
        Ok(Multiply(n("2"), Box::new(Negative(n("3")))))
    );
}

#[test]
fn missing_closing_parenthesis() {
    assert_eq!(parse("(1+2"), Err(ParseError::UnbalancedParen(Token::EOF)));
    assert_eq!(parse("(1 2)"), Err(ParseError::UnbalancedParen(num("2"))));
    assert_eq!(
        parse("((1+2)"),
        Err(ParseError::UnbalancedParen(Token::EOF))
    );
}

#[test]
fn trailing_input() {
    assert_eq!(
        parse("1+2)"),
        Err(ParseError::TrailingInput(Token::RightParen))
    );
    assert_eq!(parse("1 2"), Err(ParseError::TrailingInput(num("2"))));
    assert_eq!(
        parse("(1)(2)"),
        Err(ParseError::TrailingInput(Token::LeftParen))
    );
}

#[test]
fn operand_expected() {
    assert_eq!(parse(""), Err(ParseError::UnableToParse(Token::EOF)));
    assert_eq!(parse("1+"), Err(ParseError::UnableToParse(Token::EOF)));
    assert_eq!(parse("*2"), Err(ParseError::UnableToParse(Token::Multiply)));
    assert_eq!(parse("1+*2"), Err(ParseError::UnableToParse(Token::Multiply)));
    assert_eq!(parse("()"), Err(ParseError::UnableToParse(Token::RightParen)));
    assert_eq!(parse("-"), Err(ParseError::UnableToParse(Token::EOF)));
}

#[test]
fn lexical_errors_are_passed_on() {
    assert_eq!(
        parse("#$%"),
        Err(ParseError::Lex(LexError::InvalidChar('#')))
    );
    assert_eq!(
        parse("1+a"),
        Err(ParseError::Lex(LexError::InvalidChar('a')))
    );
    assert_eq!(
        parse("2*3."),
        Err(ParseError::Lex(LexError::MalformedNumber("3.".to_string())))
    );
}

#[test]
fn tokens_are_read_only_as_far_as_needed() {
    assert_eq!(
        parse("1 ) #"),
        Err(ParseError::TrailingInput(Token::RightParen))
    );
    assert_eq!(
        parse("1 #"),
        Err(ParseError::Lex(LexError::InvalidChar('#')))
    );
}

#[test]
fn construction_fails_on_a_bad_first_token() {
    assert!(Parser::new("#").is_err());
    assert_eq!(
        Parser::new("1.").err(),
        Some(ParseError::Lex(LexError::MalformedNumber("1.".to_string())))
    );
    assert!(Parser::new("").is_ok());
    assert!(Parser::new("+").is_ok());
    assert!(Parser::new("1 #").is_ok());
}

#[test]
fn a_parser_that_is_done_is_at_the_end() {
    let mut parser = Parser::new("1+2").unwrap();
    assert!(parser.parse().is_ok());
    assert_eq!(
        parser.parse(),
        Err(ParseError::UnableToParse(Token::EOF))
    );
}

#[test]
fn a_parser_goes_on_after_trailing_input() {
    let mut parser = Parser::new("1 2").unwrap();
    assert_eq!(parser.parse(), Err(ParseError::TrailingInput(num("2"))));
    assert_eq!(parser.parse(), Ok(Number(Literal::new("2").unwrap())));
}

#[test]
fn parsing_twice_gives_the_same_tree() {
    let text = "-(1+2)*3^2^-1 | 7 & 12.5/4";
    let first = parse(text);
    let second = parse(text);
    assert!(first.is_ok());
    assert_eq!(first, second);
    let third = Parser::new(text).unwrap().parse();
    assert_eq!(first, third);
}

#[test]
fn failing_twice_gives_the_same_error() {
    assert_eq!(parse("(1+2"), parse("(1+2"));
    assert_eq!(parse("1+2)"), parse("1+2)"));
}

#[test]
fn deep_nesting() {
    let mut text = String::new();
    for _ in 0..200 {
        text.push('(');
    }
    text.push('1');
    for _ in 0..200 {
        text.push(')');
    }
    assert_eq!(parse(&text), Ok(Number(Literal::new("1").unwrap())));
}

#[test]
fn tree_clone_is_equal() {
    let tree = parse("-(1+2)*3^2").unwrap();
    assert_eq!(tree.clone(), tree);
}

#[test]
fn parse_error_messages() {
    assert_eq!(
        parse("1+").unwrap_err().message(),
        "Error in evaluating Unable to parse end of input"
    );
    assert_eq!(
        parse("(1+2 3").unwrap_err().message(),
        "Error in evaluating Expected ), got 3"
    );
    assert_eq!(
        parse("1+2)").unwrap_err().message(),
        "Error in evaluating Unexpected trailing input )"
    );
    assert_eq!(
        parse("1+#").unwrap_err().message(),
        "Error in evaluating Invalid character #"
    );
    assert_eq!(
        parse("1..2").unwrap_err().message(),
        "Error in evaluating Malformed number 1..2"
    );
    let error = parse("*").unwrap_err();
    assert_eq!(error.clone(), error);
}

fn walk(node: &Node, out: &mut Vec<Token>) {
    match node {
        Number(literal) => out.push(Token::Num(literal.clone())),
        Negative(operand) => {
            out.push(Token::Subtract);
            walk(operand, out);
        }
        And(l, r) => walk_both(l, Token::And, r, out),
        Or(l, r) => walk_both(l, Token::Or, r, out),
        Add(l, r) => walk_both(l, Token::Add, r, out),
        Subtract(l, r) => walk_both(l, Token::Subtract, r, out),
        Multiply(l, r) => walk_both(l, Token::Multiply, r, out),
        Divide(l, r) => walk_both(l, Token::Divide, r, out),
        Caret(l, r) => walk_both(l, Token::Caret, r, out),
    }
}

fn walk_both(l: &Node, operator: Token, r: &Node, out: &mut Vec<Token>) {
    walk(l, out);
    out.push(operator);
    walk(r, out);
}

#[test]
fn a_tree_is_made_of_the_tokens_of_its_text() {
    for text in [
        "1",
        "-(1+2)*3^2^-1 | 7 & 12.5/4",
        "((2))-((3-4))",
        "2^(3^2)^(1|2)",
        "1+2*3-4/5^6&7|8",
    ] {
        let tree = parse(text).unwrap();
        let mut walked = Vec::new();
        walk(&tree, &mut walked);
        let mut depth = 0;
        let mut others = Vec::new();
        for token in tokenize(text).unwrap() {
            match token {
                Token::LeftParen => depth += 1,
                Token::RightParen => {
                    assert!(depth > 0);
                    depth -= 1;
                }
                Token::EOF => {}
                other => others.push(other),
            }
        }
        assert_eq!(depth, 0);
        assert_eq!(walked, others);
    }
}

#[test]
fn three_operands_group_by_level() {
    let operators = [
        ("&", 1),
        ("|", 1),
        ("+", 2),
        ("-", 2),
        ("*", 3),
        ("/", 3),
        ("^", 4),
    ];
    for (first, first_level) in operators {
        for (second, second_level) in operators {
            let flat = parse(&format!("1{}2{}3", first, second)).unwrap();
            let left = parse(&format!("(1{}2){}3", first, second)).unwrap();
            let right = parse(&format!("1{}(2{}3)", first, second)).unwrap();
            assert_ne!(left, right);
            let operand_level = if first == "^" { 3 } else { first_level };
            if second_level > operand_level {
                assert_eq!(flat, right);
            } else {
                assert_eq!(flat, left);
            }
        }
    }
}

#[test]
fn negation_applies_before_every_operator() {
    for operator in ["&", "|", "+", "-", "*", "/", "^"] {
        let flat = parse(&format!("-1{}2", operator)).unwrap();
        let grouped = parse(&format!("(-1){}2", operator)).unwrap();
        assert_eq!(flat, grouped);
    }
}

fn write(node: &Node, out: &mut String) {
    match node {
        Number(literal) => out.push_str(literal.as_str()),
        Negative(operand) => {
            out.push_str("- ");
            write_operand(operand, out);
        }
        And(l, r) => write_both(l, "&", r, out),
        Or(l, r) => write_both(l, "|", r, out),
        Add(l, r) => write_both(l, "+", r, out),
        Subtract(l, r) => write_both(l, "-", r, out),
        Multiply(l, r) => write_both(l, "*", r, out),
        Divide(l, r) => write_both(l, "/", r, out),
        Caret(l, r) => write_both(l, "^", r, out),
    }
}

fn write_operand(node: &Node, out: &mut String) {
    match node {
        Number(literal) => out.push_str(literal.as_str()),
        other => {
            out.push_str("( ");
            write(other, out);
            out.push_str(" )");
        }
    }
}

fn write_both(l: &Node, operator: &str, r: &Node, out: &mut String) {
    write_operand(l, out);
    out.push(' ');
    out.push_str(operator);
    out.push(' ');
    write_operand(r, out);
}

#[test]
fn every_tree_is_read_back_from_its_text() {
    let trees = [
        Number(Literal::new("0.5").unwrap()),
        Negative(Box::new(Negative(n("1")))),
        Add(n("1"), Box::new(Add(n("2"), n("3")))),
        Caret(Box::new(Caret(n("2"), n("3"))), n("2")),
        Multiply(Box::new(Add(n("1"), n("2"))), Box::new(Negative(Box::new(Or(n("3"), n("4")))))),
        And(
            Box::new(Divide(n("8"), Box::new(Subtract(n("4"), n("2"))))),
            Box::new(Negative(n("7"))),
        ),
    ];
    for tree in trees {
        let mut text = String::new();
        write(&tree, &mut text);
        assert_eq!(parse(&text), Ok(tree), "{}", text);
    }
}

#[test]
fn spelled_tokens_are_handed_out_again() {
    let tokens = vec![
        Token::RightParen,
        num("12.50"),
        Token::Caret,
        Token::Subtract,
        Token::Subtract,
        num("0"),
        Token::LeftParen,
        Token::And,
        Token::Or,
        Token::Add,
        Token::Multiply,
        Token::Divide,
        num("007"),
    ];
    let mut text = String::new();
    for token in &tokens {
        token.write_to(&mut text);
        text.push(' ');
    }
    let mut expected = tokens;
    expected.push(Token::EOF);
    assert_eq!(tokenize(&text), Ok(expected));
}

#[test]
fn writing_and_reading_again_gives_the_same_tree() {
    for text in [
        "7",
        "2^3^2",
        "2-3-4",
        "-(1+2)*3^2^-1 | 7 & 12.5/4",
        "((1))+-(-2)",
    ] {
        let tree = parse(text).unwrap();
        let mut written = String::new();
        write(&tree, &mut written);
        assert_eq!(parse(&written), Ok(tree), "{}", written);
    }
}
