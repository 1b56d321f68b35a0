//! Tokens, numeric literals and operator precedence.

use vstd::prelude::*;
use crate::chars::{leading, run_end, to_chars, CharClass};

verus! {

/// Trusted: `String::push` leaves the string one character longer, with
/// `ch` in the last place and what was there before in front of it.
pub assume_specification[ String::push ](s: &mut String, ch: char)
    ensures
        final(s)@ == old(s)@.push(ch),
;

/// The shape of a numeric literal: one or more digits, optionally followed
/// by a point and one or more digits, and nothing else.
pub open spec fn is_numeral(s: Seq<char>) -> bool {
    let whole = leading(s, CharClass::Digit);
    let fraction = s.subrange(whole as int + 1, s.len() as int);
    &&& whole > 0
    &&& whole < s.len() ==> {
        &&& s[whole as int] == '.'
        &&& fraction.len() > 0
        &&& leading(fraction, CharClass::Digit) == fraction.len()
    }
}

/// Decides whether the characters from `start` up to `end` form a numeric
/// literal.
pub fn is_numeral_at(chars: &Vec<char>, start: usize, end: usize) -> (b: bool)
    requires
        start <= end <= chars.len(),
    ensures
        b == is_numeral(chars@.subrange(start as int, end as int)),
{
    let ghost s = chars@.subrange(start as int, end as int);
    let whole_end = run_end(chars, start, end, CharClass::Digit);
    if whole_end == start {
        false
    } else if whole_end == end {
        true
    } else if chars[whole_end] != '.' {
        false
    } else {
        let fraction_end = run_end(chars, whole_end + 1, end, CharClass::Digit);
        proof {
            assert(s.subrange(whole_end - start + 1, s.len() as int) =~= chars@.subrange(
                whole_end + 1,
                end as int,
            ));
        }
        fraction_end == end && fraction_end > whole_end + 1
    }
}

/// Copies the characters from `start` up to `end` into a string.
pub fn collect(chars: &Vec<char>, start: usize, end: usize) -> (text: String)
    requires
        start <= end <= chars.len(),
    ensures
        text@ == chars@.subrange(start as int, end as int),
{
    let mut text = String::new();
    let mut i: usize = start;
    while i < end
        invariant
            start <= i <= end <= chars.len(),
            text@ == chars@.subrange(start as int, i as int),
        decreases end - i,
    {
        text.push(chars[i]);
        i += 1;
    }
    text
}

/// A numeric literal, kept as the text it was written with.
///
/// The text always has the shape [`is_numeral`], so it denotes a finite,
/// non-negative decimal number; a sign is never part of a literal.
#[derive(Debug, PartialEq, Eq)]
pub struct Literal {
    text: String,
}

impl View for Literal {
    type V = Seq<char>;

    closed spec fn view(&self) -> Seq<char> {
        self.text@
    }
}

impl Clone for Literal {
    fn clone(&self) -> (copy: Self)
        ensures
            copy@ == self@,
    {
        proof {
            use_type_invariant(self);
        }
        Literal { text: self.text.clone() }
    }
}

impl Literal {
    #[verifier::type_invariant]
    spec fn well_formed(&self) -> bool {
        is_numeral(self.text@)
    }

    /// Makes a literal of `text`, if `text` has the shape of one.
    pub fn new(text: &str) -> (r: Option<Literal>)
        ensures
            r is Some <==> is_numeral(text@),
            r matches Some(literal) ==> literal@ == text@,
    {
        let chars = to_chars(text);
        assert(chars@.subrange(0, chars.len() as int) =~= text@);
        if is_numeral_at(&chars, 0, chars.len()) {
            Some(Literal { text: text.to_owned() })
        } else {
            None
        }
    }

    /// Makes a literal of the characters from `start` up to `end`.
    pub(crate) fn from_chars(chars: &Vec<char>, start: usize, end: usize) -> (literal: Literal)
        requires
            start <= end <= chars.len(),
            is_numeral(chars@.subrange(start as int, end as int)),
        ensures
            literal@ == chars@.subrange(start as int, end as int),
    {
        Literal { text: collect(chars, start, end) }
    }

    /// The text of the literal.
    pub fn as_str(&self) -> (text: &str)
        ensures
            text@ == self@,
            is_numeral(text@),
    {
        proof {
            use_type_invariant(self);
        }
        self.text.as_str()
    }
}

/// The kinds of token that source text is made of.
#[derive(Debug, PartialEq, Eq)]
pub enum Token {
    /// `&`
    And,
    /// `|`
    Or,
    /// `+`
    Add,
    /// `-`
    Subtract,
    /// `*`
    Multiply,
    /// `/`
    Divide,
    /// `^`
    Caret,
    /// `(`
    LeftParen,
    /// `)`
    RightParen,
    /// A numeric literal such as `12.34`.
    Num(Literal),
    /// The end of the input.
    EOF,
}

/// The mathematical model of a [`Token`]: a literal is the sequence of its
/// characters.
pub enum TokenView {
    And,
    Or,
    Add,
    Subtract,
    Multiply,
    Divide,
    Caret,
    LeftParen,
    RightParen,
    Num(Seq<char>),
    EOF,
}

impl View for Token {
    type V = TokenView;

    open spec fn view(&self) -> TokenView {
        match self {
            Token::And => TokenView::And,
            Token::Or => TokenView::Or,
            Token::Add => TokenView::Add,
            Token::Subtract => TokenView::Subtract,
            Token::Multiply => TokenView::Multiply,
            Token::Divide => TokenView::Divide,
            Token::Caret => TokenView::Caret,
            Token::LeftParen => TokenView::LeftParen,
            Token::RightParen => TokenView::RightParen,
            Token::Num(literal) => TokenView::Num(literal@),
            Token::EOF => TokenView::EOF,
        }
    }
}

impl Clone for Token {
    fn clone(&self) -> (copy: Self)
        ensures
            copy@ == self@,
    {
        match self {
            Token::And => Token::And,
            Token::Or => Token::Or,
            Token::Add => Token::Add,
            Token::Subtract => Token::Subtract,
            Token::Multiply => Token::Multiply,
            Token::Divide => Token::Divide,
            Token::Caret => Token::Caret,
            Token::LeftParen => Token::LeftParen,
            Token::RightParen => Token::RightParen,
            Token::Num(literal) => Token::Num(literal.clone()),
            Token::EOF => Token::EOF,
        }
    }
}

/// How strongly an operator binds, from the weakest level to the
/// strongest.
#[derive(Clone, Copy, Debug, PartialEq, Eq, PartialOrd, Ord, Structural)]
pub enum OperPrec {
    DefaultZero,
    AndOr,
    AddSub,
    MulDiv,
    Power,
    Negative,
}

impl OperPrec {
    /// The position of the level in the order of levels.
    pub open spec fn rank(self) -> nat {
        match self {
            OperPrec::DefaultZero => 0,
            OperPrec::AndOr => 1,
            OperPrec::AddSub => 2,
            OperPrec::MulDiv => 3,
            OperPrec::Power => 4,
            OperPrec::Negative => 5,
        }
    }

    /// The position of the level in the order of levels.
    pub fn level(&self) -> (n: u8)
        ensures
            n == self.rank(),
    {
        match self {
            OperPrec::DefaultZero => 0,
            OperPrec::AndOr => 1,
            OperPrec::AddSub => 2,
            OperPrec::MulDiv => 3,
            OperPrec::Power => 4,
            OperPrec::Negative => 5,
        }
    }
}

impl TokenView {
    /// The binding strength of a token: that of its operator, and the
    /// weakest level for everything that is not a binary operator.
    pub open spec fn precedence(self) -> OperPrec {
        match self {
            TokenView::And | TokenView::Or => OperPrec::AndOr,
            TokenView::Add | TokenView::Subtract => OperPrec::AddSub,
            TokenView::Multiply | TokenView::Divide => OperPrec::MulDiv,
            TokenView::Caret => OperPrec::Power,
            _ => OperPrec::DefaultZero,
        }
    }
}

impl TokenView {
    /// The token as it is written: the character of an operator or of a
    /// parenthesis, and the text of a literal.
    pub open spec fn text(self) -> Seq<char> {
        match self {
            TokenView::And => seq!['&'],
            TokenView::Or => seq!['|'],
            TokenView::Add => seq!['+'],
            TokenView::Subtract => seq!['-'],
            TokenView::Multiply => seq!['*'],
            TokenView::Divide => seq!['/'],
            TokenView::Caret => seq!['^'],
            TokenView::LeftParen => seq!['('],
            TokenView::RightParen => seq![')'],
            TokenView::Num(text) => text,
            TokenView::EOF => "end of input"@,
        }
    }
}

impl Token {
    /// Writes the token at the end of `out`.
    pub fn write_to(&self, out: &mut String)
        ensures
            final(out)@ == old(out)@ + self@.text(),
    {
        match self {
            Token::And => out.push('&'),
            Token::Or => out.push('|'),
            Token::Add => out.push('+'),
            Token::Subtract => out.push('-'),
            Token::Multiply => out.push('*'),
            Token::Divide => out.push('/'),
            Token::Caret => out.push('^'),
            Token::LeftParen => out.push('('),
            Token::RightParen => out.push(')'),
            Token::Num(literal) => out.append(literal.as_str()),
            Token::EOF => out.append("end of input"),
        }
    }

    /// The binding strength of the token.
    pub fn get_oper_prec(&self) -> (prec: OperPrec)
        ensures
            prec == self@.precedence(),
    {
        match self {
            Token::And | Token::Or => OperPrec::AndOr,
            Token::Add | Token::Subtract => OperPrec::AddSub,
            Token::Multiply | Token::Divide => OperPrec::MulDiv,
            Token::Caret => OperPrec::Power,
            _ => OperPrec::DefaultZero,
        }
    }
}

} // verus!
