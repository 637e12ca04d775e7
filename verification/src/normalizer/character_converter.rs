use vstd::prelude::*;

use super::{ReplacementForm, canonical_form, form_of, replacement, str_replacement, CharNormalizer, CharOrStr};
use crate::text::chars_of;
use crate::token::{Token, TokenView};
use crate::unicode::{is_uppercase, lowercase, spec_is_uppercase, spec_lowercase};

verus! {

/// A normalizer that lowercases characters and converts a few characters to a plain form:
/// the ligatures 'æ', 'œ' (any case) to "ae", "oe", 'Ð', 'ð', 'Đ', 'đ' to "d", 'ı' to "i",
/// the Arabic Taa Marbuta, Alef wasla and Yeh 'ى' to 'ه', 'ا', 'ي', the high quotation marks
/// to '\'', and removes the Arabic Tatweel.
pub struct CharacterConverterNormalizer;

/// Whether a character is one that the conversion table converts.
pub open spec fn spec_is_converted(c: char) -> bool {
    c == '\u{00C6}' || c == '\u{00D0}' || c == '\u{00E6}' || c == '\u{00F0}' || c == '\u{0110}' || c == '\u{0111}' || c == '\u{0131}' || c == '\u{0152}' || c == '\u{0153}' || c == '\u{0629}' || c == '\u{0640}' || c == '\u{0671}' || c == '\u{0649}' || c == '\u{2018}' || c == '\u{2019}' || c == '\u{201B}'
}

/// The conversion of a (lowercase) character by the table; the character itself when the
/// table does not hold it.
pub open spec fn spec_convert(c: char) -> Seq<char> {
    if c == '\u{00C6}' {
        seq!['a', 'e']
    } else if c == '\u{00D0}' {
        seq!['d']
    } else if c == '\u{00E6}' {
        seq!['a', 'e']
    } else if c == '\u{00F0}' {
        seq!['d']
    } else if c == '\u{0110}' {
        seq!['d']
    } else if c == '\u{0111}' {
        seq!['d']
    } else if c == '\u{0131}' {
        seq!['i']
    } else if c == '\u{0152}' {
        seq!['o', 'e']
    } else if c == '\u{0153}' {
        seq!['o', 'e']
    } else if c == '\u{0629}' {
        seq!['\u{0647}']
    } else if c == '\u{0640}' {
        Seq::empty()
    } else if c == '\u{0671}' {
        seq!['\u{0627}']
    } else if c == '\u{0649}' {
        seq!['\u{064A}']
    } else if c == '\u{2018}' {
        seq!['\'']
    } else if c == '\u{2019}' {
        seq!['\'']
    } else if c == '\u{201B}' {
        seq!['\'']
    } else {
        seq![c]
    }
}

/// The conversion of a character by the table (`normalize_char`).
fn convert(c: char) -> (r: Option<CharOrStr>)
    ensures
        replacement(r) == spec_convert(c),
        form_of(r) == canonical_form(spec_convert(c)),
{
    if c == '\u{00C6}' {
        Some(str_replacement(&['a', 'e']))
    } else if c == '\u{00D0}' {
        Some(CharOrStr::Char('d'))
    } else if c == '\u{00E6}' {
        Some(str_replacement(&['a', 'e']))
    } else if c == '\u{00F0}' {
        Some(CharOrStr::Char('d'))
    } else if c == '\u{0110}' {
        Some(CharOrStr::Char('d'))
    } else if c == '\u{0111}' {
        Some(CharOrStr::Char('d'))
    } else if c == '\u{0131}' {
        Some(CharOrStr::Char('i'))
    } else if c == '\u{0152}' {
        Some(str_replacement(&['o', 'e']))
    } else if c == '\u{0153}' {
        Some(str_replacement(&['o', 'e']))
    } else if c == '\u{0629}' {
        Some(CharOrStr::Char('\u{0647}'))
    } else if c == '\u{0640}' {
        None
    } else if c == '\u{0671}' {
        Some(CharOrStr::Char('\u{0627}'))
    } else if c == '\u{0649}' {
        Some(CharOrStr::Char('\u{064A}'))
    } else if c == '\u{2018}' {
        Some(CharOrStr::Char('\''))
    } else if c == '\u{2019}' {
        Some(CharOrStr::Char('\''))
    } else if c == '\u{201B}' {
        Some(CharOrStr::Char('\''))
    } else {
        Some(CharOrStr::Char(c))
    }
}

/// Whether the table converts `c`.
fn is_converted(c: char) -> (b: bool)
    ensures
        b == spec_is_converted(c),
{
    c == '\u{00C6}' || c == '\u{00D0}' || c == '\u{00E6}' || c == '\u{00F0}' || c == '\u{0110}' || c == '\u{0111}' || c == '\u{0131}' || c == '\u{0152}' || c == '\u{0153}' || c == '\u{0629}' || c == '\u{0640}' || c == '\u{0671}' || c == '\u{0649}' || c == '\u{2018}' || c == '\u{2019}' || c == '\u{201B}'
}

/// What the normalizer makes of a character: its lowercase mapping, of which the first two
/// characters are converted by the table (a third one is dropped).
pub open spec fn spec_character_converter(c: char) -> Seq<char> {
    let l = spec_lowercase(c);
    if l.len() == 0 {
        Seq::empty()
    } else if l.len() == 1 {
        spec_convert(l[0])
    } else {
        spec_convert(l[0]) + spec_convert(l[1])
    }
}

/// Whether a character makes the normalizer apply: it is uppercase or the table converts it.
pub open spec fn spec_triggers_converter(c: char) -> bool {
    spec_is_uppercase(c) || spec_is_converted(c)
}

/// Whether some character of `s` makes the normalizer apply.
fn has_converted(s: &str) -> (b: bool)
    ensures
        b == exists|i: int| 0 <= i < s@.len() && #[trigger] spec_triggers_converter(s@[i]),
{
    let v = chars_of(s);
    let mut i: usize = 0;
    while i < v.len()
        invariant
            v@ == s@,
            i <= v@.len(),
            forall|j: int| 0 <= j < i ==> !#[trigger] spec_triggers_converter(v@[j]),
        decreases v@.len() - i,
    {
        if is_uppercase(v[i]) || is_converted(v[i]) {
            assert(spec_triggers_converter(s@[i as int]));
            return true;
        }
        i += 1;
    }
    false
}

impl CharNormalizer for CharacterConverterNormalizer {
    open spec fn spec_normalize_char(&self, c: char) -> Seq<char> {
        spec_character_converter(c)
    }

    open spec fn spec_form(&self, c: char) -> ReplacementForm {
        canonical_form(self.spec_normalize_char(c))
    }

    open spec fn spec_should_normalize(&self, token: TokenView) -> bool {
        exists|i: int| 0 <= i < token.lemma.len() && #[trigger] spec_triggers_converter(token.lemma[i])
    }

    fn normalize_char(&self, c: char) -> (r: Option<CharOrStr>) {
        let l = lowercase(c);
        if l.len() == 1 {
            convert(l[0])
        } else {
            let first = convert(l[0]);
            let second = convert(l[1]);
            match (first, second) {
                (Some(first), Some(second)) => Some(first.merge(&second)),
                (Some(first), None) => {
                    assert(first.chars() + Seq::<char>::empty() =~= first.chars());
                    Some(first)
                },
                (None, Some(second)) => {
                    assert(Seq::<char>::empty() + second.chars() =~= second.chars());
                    Some(second)
                },
                (None, None) => {
                    assert(Seq::<char>::empty() + Seq::<char>::empty() =~= Seq::<char>::empty());
                    None
                },
            }
        }
    }

    fn should_normalize(&self, token: &Token) -> (b: bool) {
        proof {
            assert(token@.lemma == token.lemma@);
        }
        has_converted(token.lemma.as_str())
    }
}

} // verus!
