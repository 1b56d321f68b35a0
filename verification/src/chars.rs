//! Character classes and maximal runs of characters.

use vstd::prelude::*;

verus! {

/// The classes of characters that the lexical rules distinguish.
#[derive(Clone, Copy, Debug, PartialEq, Eq, Structural)]
pub enum CharClass {
    /// The blank characters that may stand between tokens.
    Space,
    /// The decimal digits `0` to `9`.
    Digit,
    /// The characters a numeric literal is made of: digits and the point.
    Numeral,
}

/// `c` is one of the decimal digits `0` to `9`.
pub open spec fn is_digit(c: char) -> bool {
    '0' <= c <= '9'
}

/// `c` is a blank character: one of those that Unicode classes as
/// `White_Space`.
pub open spec fn is_space(c: char) -> bool {
    ||| '\t' <= c <= '\r'
    ||| c == ' '
    ||| c == '\u{85}'
    ||| c == '\u{A0}'
    ||| c == '\u{1680}'
    ||| '\u{2000}' <= c <= '\u{200A}'
    ||| c == '\u{2028}'
    ||| c == '\u{2029}'
    ||| c == '\u{202F}'
    ||| c == '\u{205F}'
    ||| c == '\u{3000}'
}

impl CharClass {
    /// Membership of `c` in the class.
    pub open spec fn holds(self, c: char) -> bool {
        match self {
            CharClass::Space => is_space(c),
            CharClass::Digit => is_digit(c),
            CharClass::Numeral => is_digit(c) || c == '.',
        }
    }

    /// Tests whether `c` belongs to the class.
    pub fn contains(&self, c: char) -> (b: bool)
        ensures
            b == self.holds(c),
    {
        match self {
            CharClass::Space => ('\t' <= c && c <= '\r') || c == ' ' || c == '\u{85}' || c
                == '\u{A0}' || c == '\u{1680}' || ('\u{2000}' <= c && c <= '\u{200A}') || c
                == '\u{2028}' || c == '\u{2029}' || c == '\u{202F}' || c == '\u{205F}' || c
                == '\u{3000}',
            CharClass::Digit => '0' <= c && c <= '9',
            CharClass::Numeral => ('0' <= c && c <= '9') || c == '.',
        }
    }
}

/// The length of the longest prefix of `s` whose characters all belong to
/// `class`.
pub open spec fn leading(s: Seq<char>, class: CharClass) -> nat
    decreases s.len(),
{
    if s.len() > 0 && class.holds(s[0]) {
        1 + leading(s.drop_first(), class)
    } else {
        0
    }
}

/// `leading` stays within the sequence, every character before it is in
/// the class, and the character at it, if there is one, is not.
pub proof fn lemma_leading(s: Seq<char>, class: CharClass)
    ensures
        leading(s, class) <= s.len(),
        forall|i: int| 0 <= i < leading(s, class) ==> class.holds(#[trigger] s[i]),
        leading(s, class) < s.len() ==> !class.holds(s[leading(s, class) as int]),
    decreases s.len(),
{
    if s.len() > 0 && class.holds(s[0]) {
        let t = s.drop_first();
        lemma_leading(t, class);
        assert forall|i: int| 0 <= i < leading(s, class) implies class.holds(#[trigger] s[i]) by {
            if i > 0 {
                assert(s[i] == t[i - 1]);
            }
        }
        if leading(s, class) < s.len() {
            assert(s[leading(s, class) as int] == t[leading(t, class) as int]);
        }
    }
}

/// A prefix of length `k` that lies in the class and cannot be extended
/// is the longest one.
pub proof fn lemma_leading_is(s: Seq<char>, class: CharClass, k: nat)
    requires
        k <= s.len(),
        forall|i: int| 0 <= i < k ==> class.holds(#[trigger] s[i]),
        k < s.len() ==> !class.holds(s[k as int]),
    ensures
        leading(s, class) == k,
    decreases k,
{
    if k > 0 {
        let t = s.drop_first();
        assert forall|i: int| 0 <= i < k - 1 implies class.holds(#[trigger] t[i]) by {
            assert(t[i] == s[i + 1]);
        }
        lemma_leading_is(t, class, (k - 1) as nat);
    }
}

/// Finds where the run of `class` characters that starts at `start` ends,
/// looking no further than `limit`.
pub fn run_end(chars: &Vec<char>, start: usize, limit: usize, class: CharClass) -> (end: usize)
    requires
        start <= limit <= chars.len(),
    ensures
        end == start + leading(chars@.subrange(start as int, limit as int), class),
        start <= end <= limit,
{
    let mut end: usize = start;
    while end < limit && class.contains(chars[end])
        invariant
            start <= end <= limit <= chars.len(),
            forall|i: int| start <= i < end ==> class.holds(#[trigger] chars@[i]),
        decreases limit - end,
    {
        end += 1;
    }
    proof {
        let s = chars@.subrange(start as int, limit as int);
        assert forall|i: int| 0 <= i < end - start implies class.holds(#[trigger] s[i]) by {
            assert(s[i] == chars@[start + i]);
        }
        lemma_leading_is(s, class, (end - start) as nat);
    }
    end
}

/// Copies the characters of `text` into a vector.
pub fn to_chars(text: &str) -> (chars: Vec<char>)
    ensures
        chars@ == text@,
{
    let mut chars: Vec<char> = Vec::new();
    for c in it: text.chars()
        invariant
            it.seq() == text@,
            chars@ == it.seq().take(it.index() as int),
    {
        chars.push(c);
    }
    chars
}

} // verus!
