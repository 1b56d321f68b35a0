//! Every row of tokens is the row of tokens of some text.
//!
//! Tokens can be spelled out one after the other, each followed by a
//! blank.  A tokenizer over that text hands the tokens out again.

use vstd::prelude::*;
use crate::chars::{is_digit, leading, lemma_leading, lemma_leading_is, CharClass};
use crate::token::{is_numeral, TokenView};
use crate::tokenizer::{all_ok, lex, scan, LexErrorView};

verus! {

/// The token can stand in a text: it is not the end of the input, and if
/// it is a literal, it has the shape of one.
pub open spec fn writable(token: TokenView) -> bool {
    match token {
        TokenView::EOF => false,
        TokenView::Num(text) => is_numeral(text),
        _ => true,
    }
}

/// Each of the tokens can stand in a text.
pub open spec fn all_writable(tokens: Seq<TokenView>) -> bool {
    forall|i: int| 0 <= i < tokens.len() ==> writable(#[trigger] tokens[i])
}

/// The tokens as they are written, each followed by a blank.
pub open spec fn spell(tokens: Seq<TokenView>) -> Seq<char>
    decreases tokens.len(),
{
    if tokens.len() == 0 {
        Seq::empty()
    } else {
        tokens[0].text() + seq![' '] + spell(tokens.drop_first())
    }
}

/// A literal is made of digits and points only, and starts with a digit.
pub proof fn lemma_numeral_chars(text: Seq<char>)
    requires
        is_numeral(text),
    ensures
        text.len() > 0,
        is_digit(text[0]),
        forall|i: int| 0 <= i < text.len() ==> CharClass::Numeral.holds(#[trigger] text[i]),
{
    let whole = leading(text, CharClass::Digit);
    let fraction = text.subrange(whole as int + 1, text.len() as int);
    lemma_leading(text, CharClass::Digit);
    assert(CharClass::Digit.holds(text[0]));
    if whole < text.len() {
        lemma_leading(fraction, CharClass::Digit);
        assert forall|i: int| 0 <= i < text.len() implies CharClass::Numeral.holds(
            #[trigger] text[i],
        ) by {
            if i < whole {
                assert(CharClass::Digit.holds(text[i]));
            } else if i > whole {
                assert(text[i] == fraction[i - whole - 1]);
                assert(CharClass::Digit.holds(fraction[i - whole - 1]));
            }
        }
    } else {
        assert forall|i: int| 0 <= i < text.len() implies CharClass::Numeral.holds(
            #[trigger] text[i],
        ) by {
            assert(CharClass::Digit.holds(text[i]));
        }
    }
}

/// A blank in front of a text does not change its first token.
pub proof fn lemma_lex_blank(s: Seq<char>)
    ensures
        lex(seq![' '] + s) == lex(s),
{
    let blank = seq![' '] + s;
    assert(blank.drop_first() =~= s);
    assert(leading(blank, CharClass::Space) == 1 + leading(s, CharClass::Space));
    lemma_leading(s, CharClass::Space);
    assert(blank.skip(leading(blank, CharClass::Space) as int) =~= s.skip(
        leading(s, CharClass::Space) as int,
    ));
}

/// A token that is written in front of a blank is the first token of the
/// text, and the text goes on with the blank.
pub proof fn lemma_lex_written(token: TokenView, s: Seq<char>)
    requires
        writable(token),
    ensures
        lex(token.text() + seq![' '] + s) == Ok::<_, LexErrorView>((token, seq![' '] + s)),
{
    let text = token.text();
    let after = seq![' '] + s;
    let all = text + seq![' '] + s;
    if let TokenView::Num(literal) = token {
        lemma_numeral_chars(text);
        assert(all[0] == text[0]);
        assert(all.skip(0) =~= all);
        assert forall|i: int| 0 <= i < text.len() implies CharClass::Numeral.holds(
            #[trigger] all[i],
        ) by {
            assert(all[i] == text[i]);
        }
        assert(all[text.len() as int] == ' ');
        lemma_leading_is(all, CharClass::Numeral, text.len());
        assert(all.take(text.len() as int) =~= text);
        assert(all.skip(text.len() as int) =~= after);
    } else {
        assert(text.len() == 1);
        assert(all[0] == text[0]);
        assert(all.skip(0) =~= all);
        assert(all.skip(1) =~= after);
    }
}

/// A tokenizer over the spelling of tokens hands out those tokens, and
/// then the end of the input.
pub proof fn lemma_scan_spelled(tokens: Seq<TokenView>)
    requires
        all_writable(tokens),
    ensures
        scan(spell(tokens)) == all_ok(tokens + seq![TokenView::EOF]),
    decreases tokens.len(),
{
    if tokens.len() == 0 {
        let nothing = spell(tokens);
        assert(nothing.skip(0) =~= nothing);
        assert(scan(nothing) =~= all_ok(tokens + seq![TokenView::EOF]));
    } else {
        let others = tokens.drop_first();
        assert forall|i: int| 0 <= i < others.len() implies writable(#[trigger] others[i]) by {
            assert(others[i] == tokens[i + 1]);
        }
        lemma_scan_spelled(others);
        lemma_lex_written(tokens[0], spell(others));
        lemma_lex_blank(spell(others));
        assert(scan(seq![' '] + spell(others)) == scan(spell(others)));
        assert(scan(spell(tokens)) =~= all_ok(tokens + seq![TokenView::EOF]));
    }
}

} // verus!
