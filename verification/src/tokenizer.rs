//! Splitting source text into tokens.

use vstd::prelude::*;
use crate::chars::{is_digit, is_space, leading, lemma_leading, run_end, to_chars, CharClass};
use crate::token::{collect, is_numeral, is_numeral_at, Literal, Token, TokenView};

verus! {

/// Why a piece of source text is not a token.
#[derive(Debug, PartialEq, Eq)]
pub enum LexError {
    /// The character cannot start any token.
    InvalidChar(char),
    /// A run of digits and points that is not a numeric literal.
    MalformedNumber(String),
}

/// The mathematical model of a [`LexError`].
pub enum LexErrorView {
    InvalidChar(char),
    MalformedNumber(Seq<char>),
}

impl View for LexError {
    type V = LexErrorView;

    open spec fn view(&self) -> LexErrorView {
        match self {
            LexError::InvalidChar(c) => LexErrorView::InvalidChar(*c),
            LexError::MalformedNumber(text) => LexErrorView::MalformedNumber(text@),
        }
    }
}

impl Clone for LexError {
    fn clone(&self) -> (copy: Self)
        ensures
            copy@ == self@,
    {
        match self {
            LexError::InvalidChar(c) => LexError::InvalidChar(*c),
            LexError::MalformedNumber(text) => LexError::MalformedNumber(text.clone()),
        }
    }
}

impl LexErrorView {
    /// The error in words, with the text that it is about.
    pub open spec fn message(self) -> Seq<char> {
        match self {
            LexErrorView::InvalidChar(c) => "Invalid character "@.push(c),
            LexErrorView::MalformedNumber(text) => "Malformed number "@ + text,
        }
    }
}

impl LexError {
    /// The error in words, with the text that it is about.
    pub fn message(&self) -> (message: String)
        ensures
            message@ == self@.message(),
    {
        match self {
            LexError::InvalidChar(c) => {
                let mut message = String::from_str("Invalid character ");
                message.push(*c);
                message
            },
            LexError::MalformedNumber(text) => {
                let mut message = String::from_str("Malformed number ");
                message.append(text.as_str());
                message
            },
        }
    }
}

/// What a tokenizer hands out at one step: a token, or the reason why the
/// text at that place is none.
pub type Item = Result<TokenView, LexErrorView>;

/// The model of what one call of [`Tokenizer::next`] hands out.
pub open spec fn item_view(item: Result<Token, LexError>) -> Item {
    match item {
        Ok(token) => Ok(token@),
        Err(error) => Err(error@),
    }
}

/// The token that a single character stands for, if it stands for one.
pub open spec fn symbol(c: char) -> Option<TokenView> {
    if c == '+' {
        Some(TokenView::Add)
    } else if c == '-' {
        Some(TokenView::Subtract)
    } else if c == '*' {
        Some(TokenView::Multiply)
    } else if c == '/' {
        Some(TokenView::Divide)
    } else if c == '^' {
        Some(TokenView::Caret)
    } else if c == '&' {
        Some(TokenView::And)
    } else if c == '|' {
        Some(TokenView::Or)
    } else if c == '(' {
        Some(TokenView::LeftParen)
    } else if c == ')' {
        Some(TokenView::RightParen)
    } else {
        None
    }
}

/// The first token of `s` together with the text that follows it, or the
/// reason why `s` does not start with a token.
///
/// Blank characters in front are skipped.  Text that holds nothing else is
/// the end of the input.  A digit starts the longest run of digits and
/// points, which must be a numeric literal.  Any other character must be
/// one of the nine symbols.
pub open spec fn lex(s: Seq<char>) -> Result<(TokenView, Seq<char>), LexErrorView> {
    let t = s.skip(leading(s, CharClass::Space) as int);
    if t.len() == 0 {
        Ok((TokenView::EOF, t))
    } else if is_digit(t[0]) {
        let run = t.take(leading(t, CharClass::Numeral) as int);
        if is_numeral(run) {
            Ok((TokenView::Num(run), t.skip(run.len() as int)))
        } else {
            Err(LexErrorView::MalformedNumber(run))
        }
    } else {
        match symbol(t[0]) {
            Some(token) => Ok((token, t.skip(1))),
            None => Err(LexErrorView::InvalidChar(t[0])),
        }
    }
}

/// A token other than the end of the input takes up at least one
/// character.
pub proof fn lemma_lex_consumes(s: Seq<char>)
    ensures
        lex(s) matches Ok((token, rest)) ==> (rest.len() <= s.len() && (token != TokenView::EOF
            ==> rest.len() < s.len())),
{
    lemma_leading(s, CharClass::Space);
    let t = s.skip(leading(s, CharClass::Space) as int);
    lemma_leading(t, CharClass::Numeral);
}

/// A token is made of the characters that it takes up: the text is some
/// blank characters, the token as it is written, and what follows.  A
/// literal has the shape of one.
pub proof fn lemma_lex_sound(s: Seq<char>)
    requires
        lex(s) is Ok,
        lex(s)->Ok_0.0 != TokenView::EOF,
    ensures
        ({
            let (token, rest) = lex(s)->Ok_0;
            let blanks = s.take(leading(s, CharClass::Space) as int);
            &&& s == blanks + token.text() + rest
            &&& forall|i: int| 0 <= i < blanks.len() ==> is_space(#[trigger] blanks[i])
            &&& token matches TokenView::Num(text) ==> is_numeral(text)
        }),
{
    lemma_leading(s, CharClass::Space);
    let (token, rest) = lex(s)->Ok_0;
    let blanks = s.take(leading(s, CharClass::Space) as int);
    let t = s.skip(leading(s, CharClass::Space) as int);
    lemma_leading(t, CharClass::Numeral);
    if !is_digit(t[0]) {
        assert(token.text() =~= seq![t[0]]);
    }
    assert(t =~= token.text() + rest);
    assert(s =~= blanks + token.text() + rest);
}

/// Everything that a tokenizer over `s` hands out, in order: the tokens of
/// `s`, closed by the end of the input, or broken off by the first piece
/// of text that is no token.
pub open spec fn scan(s: Seq<char>) -> Seq<Item>
    decreases s.len(),
    via scan_decreases
{
    match lex(s) {
        Err(error) => seq![Err(error)],
        Ok((token, rest)) => if token == TokenView::EOF {
            seq![Ok(token)]
        } else {
            seq![Ok(token)] + scan(rest)
        },
    }
}

#[via_fn]
proof fn scan_decreases(s: Seq<char>) {
    lemma_lex_consumes(s);
}

/// The stream ends with the end of the input or with a lexical error,
/// and holds neither anywhere else.
pub open spec fn terminated(items: Seq<Item>) -> bool {
    &&& items.len() >= 1
    &&& forall|i: int|
        0 <= i < items.len() - 1 ==> (#[trigger] items[i] matches Ok(token) && token
            != TokenView::EOF)
    &&& (items.last() is Err || items.last() == Ok::<TokenView, LexErrorView>(TokenView::EOF))
}

/// Every literal among the tokens has the shape of one.
pub open spec fn all_numerals(tokens: Seq<TokenView>) -> bool {
    forall|i: int|
        0 <= i < tokens.len() ==> (#[trigger] tokens[i] matches TokenView::Num(text)
            ==> is_numeral(text))
}

/// The token of an item; a lexical error, which holds none, reads as the
/// end of the input.
pub open spec fn token_of(item: Item) -> TokenView {
    match item {
        Ok(token) => token,
        Err(_) => TokenView::EOF,
    }
}

/// What a tokenizer hands out is never empty; the end of the input and a
/// lexical error come last, and nowhere else; and every literal has the
/// shape of one.
pub proof fn lemma_scan_shape(s: Seq<char>)
    ensures
        terminated(scan(s)),
        all_numerals(scan(s).map_values(|item: Item| token_of(item))),
    decreases s.len(),
{
    lemma_lex_consumes(s);
    match lex(s) {
        Err(error) => {},
        Ok((token, rest)) => {
            if token != TokenView::EOF {
                lemma_scan_shape(rest);
                let head: Seq<Item> = seq![Ok(token)];
                assert(scan(s) == head + scan(rest));
                assert forall|i: int| 0 <= i < scan(s).len() - 1 implies (#[trigger] scan(
                    s,
                )[i] matches Ok(token) && token != TokenView::EOF) by {
                    if i > 0 {
                        assert(scan(s)[i] == scan(rest)[i - 1]);
                    }
                }
                assert(scan(s).last() == scan(rest).last());
                let tokens = scan(s).map_values(|item: Item| token_of(item));
                let others = scan(rest).map_values(|item: Item| token_of(item));
                assert forall|i: int| 0 <= i < tokens.len() implies (#[trigger] tokens[i] matches TokenView::Num(
                    text,
                ) ==> is_numeral(text)) by {
                    if i > 0 {
                        assert(tokens[i] == others[i - 1]);
                    }
                }
            }
        },
    }
}

/// A forward-only reader of the tokens of a text.
pub struct Tokenizer {
    chars: Vec<char>,
    pos: usize,
    finished: bool,
}

impl View for Tokenizer {
    type V = Seq<Item>;

    /// What the tokenizer has still to hand out.
    closed spec fn view(&self) -> Seq<Item> {
        if self.finished {
            Seq::empty()
        } else {
            scan(self.chars@.subrange(self.pos as int, self.chars.len() as int))
        }
    }
}

/// The token that `c` stands for by itself, if it stands for one.
fn symbol_token(c: char) -> (r: Option<Token>)
    ensures
        match r {
            Some(token) => symbol(c) == Some(token@),
            None => symbol(c) is None,
        },
{
    if c == '+' {
        Some(Token::Add)
    } else if c == '-' {
        Some(Token::Subtract)
    } else if c == '*' {
        Some(Token::Multiply)
    } else if c == '/' {
        Some(Token::Divide)
    } else if c == '^' {
        Some(Token::Caret)
    } else if c == '&' {
        Some(Token::And)
    } else if c == '|' {
        Some(Token::Or)
    } else if c == '(' {
        Some(Token::LeftParen)
    } else if c == ')' {
        Some(Token::RightParen)
    } else {
        None
    }
}

impl Tokenizer {
    #[verifier::type_invariant]
    spec fn well_formed(&self) -> bool {
        self.pos <= self.chars.len()
    }

    /// A tokenizer at the start of `new_expr`.
    pub fn new(new_expr: &str) -> (tokenizer: Tokenizer)
        ensures
            tokenizer@ == scan(new_expr@),
    {
        let chars = to_chars(new_expr);
        assert(chars@.subrange(0, chars.len() as int) =~= new_expr@);
        Tokenizer { chars, pos: 0, finished: false }
    }

    /// Hands out the next token.
    ///
    /// The end of the input is handed out once, as [`Token::EOF`], and so
    /// is the first lexical error; after either, there is nothing more.
    pub fn next(&mut self) -> (r: Option<Result<Token, LexError>>)
        ensures
            old(self)@.len() == 0 ==> r is None && final(self)@ == old(self)@,
            old(self)@.len() > 0 ==> (r matches Some(item) && item_view(item) == old(self)@[0]
                && final(self)@ == old(self)@.drop_first()),
    {
        proof {
            use_type_invariant(&*self);
        }
        if self.finished {
            return None;
        }
        let len = self.chars.len();
        let ghost s = self.chars@.subrange(self.pos as int, len as int);
        let start = run_end(&self.chars, self.pos, len, CharClass::Space);
        let ghost t = s.skip(leading(s, CharClass::Space) as int);
        assert(t =~= self.chars@.subrange(start as int, len as int));
        if start == len {
            self.pos = start;
            self.finished = true;
            return Some(Ok(Token::EOF));
        }
        let c = self.chars[start];
        if CharClass::Digit.contains(c) {
            let end = run_end(&self.chars, start, len, CharClass::Numeral);
            let ghost run = t.take(leading(t, CharClass::Numeral) as int);
            assert(run =~= self.chars@.subrange(start as int, end as int));
            if is_numeral_at(&self.chars, start, end) {
                let literal = Literal::from_chars(&self.chars, start, end);
                self.pos = end;
                proof {
                    let rest = t.skip(run.len() as int);
                    assert(rest =~= self.chars@.subrange(end as int, len as int));
                }
                Some(Ok(Token::Num(literal)))
            } else {
                let text = collect(&self.chars, start, end);
                self.finished = true;
                Some(Err(LexError::MalformedNumber(text)))
            }
        } else {
            match symbol_token(c) {
                Some(token) => {
                    self.pos = start + 1;
                    proof {
                        let rest = t.skip(1);
                        assert(rest =~= self.chars@.subrange(start + 1, len as int));
                    }
                    Some(Ok(token))
                },
                None => {
                    self.finished = true;
                    Some(Err(LexError::InvalidChar(c)))
                },
            }
        }
    }
}

/// The stream of items that hands out exactly `tokens`.
pub open spec fn all_ok(tokens: Seq<TokenView>) -> Seq<Item> {
    Seq::new(tokens.len(), |i: int| Ok(tokens[i]))
}

/// The stream of items that hands out exactly the models of `tokens`.
pub open spec fn items_of(tokens: Seq<Token>) -> Seq<Item> {
    Seq::new(tokens.len(), |i: int| Ok(tokens[i]@))
}

/// Splits `source` into its tokens, the last of which is [`Token::EOF`],
/// or gives the first lexical error in it.
pub fn tokenize(source: &str) -> (r: Result<Vec<Token>, LexError>)
    ensures
        match r {
            Ok(tokens) => items_of(tokens@) == scan(source@),
            Err(error) => scan(source@).last() == Err::<TokenView, LexErrorView>(error@),
        },
{
    let mut tokenizer = Tokenizer::new(source);
    let mut tokens: Vec<Token> = Vec::new();
    proof {
        lemma_scan_shape(source@);
    }
    loop
        invariant
            items_of(tokens@) + tokenizer@ == scan(source@),
            terminated(scan(source@)),
        decreases tokenizer@.len(),
    {
        match tokenizer.next() {
            None => {
                return Ok(tokens);
            },
            Some(Err(error)) => {
                return Err(error);
            },
            Some(Ok(token)) => {
                tokens.push(token);
            },
        }
    }
}

} // verus!
