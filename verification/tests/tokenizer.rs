use parsemath::chars::{run_end, to_chars, CharClass};
use parsemath::token::{is_numeral_at, collect, Literal, OperPrec, Token};
use parsemath::tokenizer::{tokenize, LexError, Tokenizer};

fn num(text: &str) -> Token {
    Token::Num(Literal::new(text).unwrap())
}

fn lit(value: f64) -> Literal {
    Literal::new(&format!("{}", value)).unwrap()
}

fn value(token: &Token) -> f64 {
    match token {
        Token::Num(literal) => literal.as_str().parse().unwrap(),
        other => panic!("not a number: {:?}", other),
    }
}

#[test]
fn test_positive_integer() {
    let mut tokenizer = Tokenizer::new("34");
    assert_eq!(tokenizer.next().unwrap(), Ok(Token::Num(lit(34.0))))
}

#[test]
fn test_decimal_number() {
    let mut tokenizer = Tokenizer::new("34.5");
    assert_eq!(tokenizer.next().unwrap(), Ok(Token::Num(lit(34.5))))
}

#[test]
fn test_invalid_char() {
    let mut tokenizer = Tokenizer::new("#$%");
    assert_eq!(tokenizer.next().unwrap().ok(), None);
}

#[test]
fn literal_values_are_those_of_the_text() {
    let mut tokenizer = Tokenizer::new("34");
    assert_eq!(value(&tokenizer.next().unwrap().unwrap()), 34.0);
    let mut tokenizer = Tokenizer::new("34.5");
    assert_eq!(value(&tokenizer.next().unwrap().unwrap()), 34.5);
    let mut tokenizer = Tokenizer::new("007.250");
    assert_eq!(value(&tokenizer.next().unwrap().unwrap()), 7.25);
    let mut tokenizer = Tokenizer::new("0.1");
    assert_eq!(value(&tokenizer.next().unwrap().unwrap()), 0.1);
    let long = "123456789012345678901234567890.5";
    let mut tokenizer = Tokenizer::new(long);
    let token = tokenizer.next().unwrap().unwrap();
    assert_eq!(token, num(long));
    assert_eq!(value(&token), 123456789012345678901234567890.5);
}

#[test]
fn tokenize_integer_then_end() {
    assert_eq!(tokenize("34"), Ok(vec![num("34"), Token::EOF]));
}

#[test]
fn tokenize_decimal_then_end() {
    assert_eq!(tokenize("34.5"), Ok(vec![num("34.5"), Token::EOF]));
}

#[test]
fn tokenize_invalid_characters_fails() {
    assert_eq!(tokenize("#$%"), Err(LexError::InvalidChar('#')));
}

#[test]
fn tokenize_empty_text_is_only_the_end() {
    assert_eq!(tokenize(""), Ok(vec![Token::EOF]));
    assert_eq!(tokenize(" \t\r\n\u{a0}\u{3000}"), Ok(vec![Token::EOF]));
}

#[test]
fn every_symbol_is_its_own_token() {
    assert_eq!(
        tokenize("+-*/^&|()"),
        Ok(vec![
            Token::Add,
            Token::Subtract,
            Token::Multiply,
            Token::Divide,
            Token::Caret,
            Token::And,
            Token::Or,
            Token::LeftParen,
            Token::RightParen,
            Token::EOF,
        ])
    );
}

#[test]
fn blanks_between_tokens_are_skipped() {
    assert_eq!(
        tokenize("  3 +\t3\n|  4 "),
        Ok(vec![num("3"), Token::Add, num("3"), Token::Or, num("4"), Token::EOF])
    );
}

#[test]
fn a_literal_is_the_longest_run() {
    assert_eq!(
        tokenize("12.5+3"),
        Ok(vec![num("12.5"), Token::Add, num("3"), Token::EOF])
    );
    assert_eq!(tokenize("1 2"), Ok(vec![num("1"), num("2"), Token::EOF]));
}

#[test]
fn malformed_numbers_are_lexical_errors() {
    assert_eq!(
        tokenize("3."),
        Err(LexError::MalformedNumber("3.".to_string()))
    );
    assert_eq!(
        tokenize("1.2.3"),
        Err(LexError::MalformedNumber("1.2.3".to_string()))
    );
    assert_eq!(
        tokenize("2+1..5*4"),
        Err(LexError::MalformedNumber("1..5".to_string()))
    );
}

#[test]
fn a_point_cannot_start_a_token() {
    assert_eq!(tokenize(".5"), Err(LexError::InvalidChar('.')));
}

#[test]
fn letters_are_invalid() {
    assert_eq!(tokenize("2*x"), Err(LexError::InvalidChar('x')));
    assert_eq!(tokenize("1e5"), Err(LexError::InvalidChar('e')));
    assert_eq!(tokenize("\u{0661}"), Err(LexError::InvalidChar('\u{0661}')));
    assert_eq!(tokenize("\u{200b}1"), Err(LexError::InvalidChar('\u{200b}')));
}

#[test]
fn end_is_handed_out_exactly_once() {
    let mut tokenizer = Tokenizer::new("7");
    assert_eq!(tokenizer.next(), Some(Ok(num("7"))));
    assert_eq!(tokenizer.next(), Some(Ok(Token::EOF)));
    assert_eq!(tokenizer.next(), None);
    assert_eq!(tokenizer.next(), None);
}

#[test]
fn nothing_follows_a_lexical_error() {
    let mut tokenizer = Tokenizer::new("1 # 2");
    assert_eq!(tokenizer.next(), Some(Ok(num("1"))));
    assert_eq!(tokenizer.next(), Some(Err(LexError::InvalidChar('#'))));
    assert_eq!(tokenizer.next(), None);
}

#[test]
fn a_new_tokenizer_starts_over() {
    let first = tokenize("(1+2)*3");
    let second = tokenize("(1+2)*3");
    assert_eq!(first, second);
    assert_eq!(first.unwrap().len(), 8);
}

#[test]
fn precedence_of_each_token() {
    assert_eq!(Token::And.get_oper_prec(), OperPrec::AndOr);
    assert_eq!(Token::Or.get_oper_prec(), OperPrec::AndOr);
    assert_eq!(Token::Add.get_oper_prec(), OperPrec::AddSub);
    assert_eq!(Token::Subtract.get_oper_prec(), OperPrec::AddSub);
    assert_eq!(Token::Multiply.get_oper_prec(), OperPrec::MulDiv);
    assert_eq!(Token::Divide.get_oper_prec(), OperPrec::MulDiv);
    assert_eq!(Token::Caret.get_oper_prec(), OperPrec::Power);
    assert_eq!(Token::LeftParen.get_oper_prec(), OperPrec::DefaultZero);
    assert_eq!(Token::RightParen.get_oper_prec(), OperPrec::DefaultZero);
    assert_eq!(num("1").get_oper_prec(), OperPrec::DefaultZero);
    assert_eq!(Token::EOF.get_oper_prec(), OperPrec::DefaultZero);
}

#[test]
fn precedence_levels_are_ordered() {
    assert!(OperPrec::DefaultZero < OperPrec::AndOr);
    assert!(OperPrec::AndOr < OperPrec::AddSub);
    assert!(OperPrec::AddSub < OperPrec::MulDiv);
    assert!(OperPrec::MulDiv < OperPrec::Power);
    assert!(OperPrec::Power < OperPrec::Negative);
    let levels = [
        OperPrec::DefaultZero,
        OperPrec::AndOr,
        OperPrec::AddSub,
        OperPrec::MulDiv,
        OperPrec::Power,
        OperPrec::Negative,
    ];
    for (i, level) in levels.iter().enumerate() {
        assert_eq!(level.level() as usize, i);
    }
}

#[test]
fn literal_accepts_only_numerals() {
    assert_eq!(Literal::new("0").unwrap().as_str(), "0");
    assert_eq!(Literal::new("12.34").unwrap().as_str(), "12.34");
    assert_eq!(Literal::new("000.000").unwrap().as_str(), "000.000");
    assert!(Literal::new("").is_none());
    assert!(Literal::new(".5").is_none());
    assert!(Literal::new("5.").is_none());
    assert!(Literal::new("1.2.3").is_none());
    assert!(Literal::new("-1").is_none());
    assert!(Literal::new("+1").is_none());
    assert!(Literal::new("1e5").is_none());
    assert!(Literal::new(" 1").is_none());
    assert!(Literal::new("1 ").is_none());
}

#[test]
fn clones_are_equal() {
    let token = num("12.5");
    assert_eq!(token.clone(), token);
    assert_eq!(Token::Caret.clone(), Token::Caret);
    let error = LexError::MalformedNumber("1.".to_string());
    assert_eq!(error.clone(), error);
}

#[test]
fn token_text() {
    let mut out = String::from("<");
    Token::Add.write_to(&mut out);
    num("2.5").write_to(&mut out);
    Token::RightParen.write_to(&mut out);
    Token::EOF.write_to(&mut out);
    assert_eq!(out, "<+2.5)end of input");
}

#[test]
fn lexical_error_messages() {
    assert_eq!(LexError::InvalidChar('#').message(), "Invalid character #");
    assert_eq!(
        LexError::MalformedNumber("1.2.3".to_string()).message(),
        "Malformed number 1.2.3"
    );
}

#[test]
fn runs_of_characters() {
    let chars = to_chars("  12.5x");
    assert_eq!(chars, vec![' ', ' ', '1', '2', '.', '5', 'x']);
    assert_eq!(run_end(&chars, 0, chars.len(), CharClass::Space), 2);
    assert_eq!(run_end(&chars, 2, chars.len(), CharClass::Digit), 4);
    assert_eq!(run_end(&chars, 2, chars.len(), CharClass::Numeral), 6);
    assert_eq!(run_end(&chars, 2, 3, CharClass::Numeral), 3);
    assert_eq!(run_end(&chars, 6, chars.len(), CharClass::Digit), 6);
    assert!(CharClass::Space.contains('\x0C'));
    assert!(!CharClass::Space.contains('\x08'));
    assert!(!CharClass::Digit.contains('/'));
    assert!(!CharClass::Digit.contains(':'));
    assert!(is_numeral_at(&chars, 2, 6));
    assert!(!is_numeral_at(&chars, 2, 5));
    assert!(is_numeral_at(&chars, 2, 4));
    assert!(!is_numeral_at(&chars, 4, 6));
    assert_eq!(collect(&chars, 2, 6), "12.5");
}

#[test]
fn blank_characters_are_those_of_unicode() {
    for code in 0..=0x10FFFFu32 {
        if let Some(c) = char::from_u32(code) {
            assert_eq!(CharClass::Space.contains(c), c.is_whitespace(), "{:?}", c);
        }
    }
}

#[test]
fn digits_are_the_ascii_digits() {
    for code in 0..=0x10FFFFu32 {
        if let Some(c) = char::from_u32(code) {
            assert_eq!(CharClass::Digit.contains(c), c.is_ascii_digit(), "{:?}", c);
            assert_eq!(
                CharClass::Numeral.contains(c),
                c.is_ascii_digit() || c == '.',
                "{:?}",
                c
            );
        }
    }
}

#[test]
fn a_token_is_written_as_the_characters_it_takes_up() {
    let text = "(12.5+3)*-4^2&7|1/2";
    let mut written = String::new();
    for token in tokenize(text).unwrap() {
        if token != Token::EOF {
            token.write_to(&mut written);
        }
    }
    assert_eq!(written, text);
}
