use vstd::prelude::*;

use super::{ReplacementForm, canonical_form, form_of, str_replacement, CharNormalizer, CharOrStr};
use crate::detection::{Language, Script};
use crate::text::chars_of;
use crate::token::{Token, TokenView};

verus! {

/// A normalizer for the Persian language: unifies the Yeh and Kaf variants, turns Persian
/// digits into ASCII digits, unifies the Alef variants, turns the Taa Marbuta into Heh,
/// removes the Tatweel, the diacritics (Fatha to Sukun) and the ZWNJ, spells out the Rial
/// sign as "RIAL" and turns Persian punctuation into ASCII punctuation.
pub struct PersianNormalizer;

/// The replacement of a character by `PersianNormalizer`; empty when the character is removed.
pub open spec fn spec_normalize_persian_char(c: char) -> Seq<char> {
    if c == '\u{064A}' || c == '\u{06CC}' || c == '\u{0649}' || c == '\u{06C0}' {
        seq!['\u{06CC}']
    } else if c == '\u{0643}' || c == '\u{06A9}' {
        seq!['\u{06A9}']
    } else if c == '\u{06F0}' {
        seq!['0']
    } else if c == '\u{06F1}' {
        seq!['1']
    } else if c == '\u{06F2}' {
        seq!['2']
    } else if c == '\u{06F3}' {
        seq!['3']
    } else if c == '\u{06F4}' {
        seq!['4']
    } else if c == '\u{06F5}' {
        seq!['5']
    } else if c == '\u{06F6}' {
        seq!['6']
    } else if c == '\u{06F7}' {
        seq!['7']
    } else if c == '\u{06F8}' {
        seq!['8']
    } else if c == '\u{06F9}' {
        seq!['9']
    } else if c == '\u{0623}' || c == '\u{0625}' || c == '\u{0622}' || c == '\u{0671}' {
        seq!['\u{0627}']
    } else if c == '\u{0629}' {
        seq!['\u{0647}']
    } else if c == '\u{0640}' {
        Seq::empty()
    } else if ('\u{064B}' <= c && c <= '\u{0652}') {
        Seq::empty()
    } else if c == '\u{FDFC}' {
        seq!['R', 'I', 'A', 'L']
    } else if c == '\u{200C}' {
        Seq::empty()
    } else if c == '\u{060C}' {
        seq![',']
    } else if c == '\u{061B}' {
        seq![';']
    } else if c == '\u{061F}' {
        seq!['?']
    } else if c == '\u{066B}' {
        seq!['.']
    } else if c == '\u{066C}' {
        seq![',']
    } else if c == '\u{00AB}' {
        seq!['"']
    } else if c == '\u{00BB}' {
        seq!['"']
    } else {
        seq![c]
    }
}

/// Normalizes one Persian character.
fn normalize_persian_char(c: char) -> (r: Option<CharOrStr>)
    ensures
        super::replacement(r) == spec_normalize_persian_char(c),
        form_of(r) == canonical_form(spec_normalize_persian_char(c)),
{
    if c == '\u{064A}' || c == '\u{06CC}' || c == '\u{0649}' || c == '\u{06C0}' {
        Some(CharOrStr::Char('\u{06CC}'))
    } else if c == '\u{0643}' || c == '\u{06A9}' {
        Some(CharOrStr::Char('\u{06A9}'))
    } else if c == '\u{06F0}' {
        Some(CharOrStr::Char('0'))
    } else if c == '\u{06F1}' {
        Some(CharOrStr::Char('1'))
    } else if c == '\u{06F2}' {
        Some(CharOrStr::Char('2'))
    } else if c == '\u{06F3}' {
        Some(CharOrStr::Char('3'))
    } else if c == '\u{06F4}' {
        Some(CharOrStr::Char('4'))
    } else if c == '\u{06F5}' {
        Some(CharOrStr::Char('5'))
    } else if c == '\u{06F6}' {
        Some(CharOrStr::Char('6'))
    } else if c == '\u{06F7}' {
        Some(CharOrStr::Char('7'))
    } else if c == '\u{06F8}' {
        Some(CharOrStr::Char('8'))
    } else if c == '\u{06F9}' {
        Some(CharOrStr::Char('9'))
    } else if c == '\u{0623}' || c == '\u{0625}' || c == '\u{0622}' || c == '\u{0671}' {
        Some(CharOrStr::Char('\u{0627}'))
    } else if c == '\u{0629}' {
        Some(CharOrStr::Char('\u{0647}'))
    } else if c == '\u{0640}' {
        None
    } else if ('\u{064B}' <= c && c <= '\u{0652}') {
        None
    } else if c == '\u{FDFC}' {
        Some(str_replacement(&['R', 'I', 'A', 'L']))
    } else if c == '\u{200C}' {
        None
    } else if c == '\u{060C}' {
        Some(CharOrStr::Char(','))
    } else if c == '\u{061B}' {
        Some(CharOrStr::Char(';'))
    } else if c == '\u{061F}' {
        Some(CharOrStr::Char('?'))
    } else if c == '\u{066B}' {
        Some(CharOrStr::Char('.'))
    } else if c == '\u{066C}' {
        Some(CharOrStr::Char(','))
    } else if c == '\u{00AB}' {
        Some(CharOrStr::Char('"'))
    } else if c == '\u{00BB}' {
        Some(CharOrStr::Char('"'))
    } else {
        Some(CharOrStr::Char(c))
    }
}

/// The characters that make `PersianNormalizer` apply.
pub open spec fn spec_is_persian_normalized(c: char) -> bool {
    c == '\u{064A}' || c == '\u{06CC}' || c == '\u{0649}' || c == '\u{06C0}' || c == '\u{0643}' || c == '\u{06A9}' || ('\u{06F0}' <= c && c <= '\u{06F9}') || c == '\u{0623}' || c == '\u{0625}' || c == '\u{0622}' || c == '\u{0671}' || c == '\u{0629}' || c == '\u{0640}' || ('\u{064B}' <= c && c <= '\u{0652}') || c == '\u{FDFC}' || c == '\u{200C}' || c == '\u{060C}' || c == '\u{061B}' || c == '\u{061F}' || c == '\u{066B}' || c == '\u{066C}' || c == '\u{00AB}' || c == '\u{00BB}'
}

fn is_should_normalize(c: char) -> (b: bool)
    ensures
        b == spec_is_persian_normalized(c),
{
    c == '\u{064A}' || c == '\u{06CC}' || c == '\u{0649}' || c == '\u{06C0}' || c == '\u{0643}' || c == '\u{06A9}' || ('\u{06F0}' <= c && c <= '\u{06F9}') || c == '\u{0623}' || c == '\u{0625}' || c == '\u{0622}' || c == '\u{0671}' || c == '\u{0629}' || c == '\u{0640}' || ('\u{064B}' <= c && c <= '\u{0652}') || c == '\u{FDFC}' || c == '\u{200C}' || c == '\u{060C}' || c == '\u{061B}' || c == '\u{061F}' || c == '\u{066B}' || c == '\u{066C}' || c == '\u{00AB}' || c == '\u{00BB}'
}

/// Whether some character of `s` is one that the normalizer rewrites.
fn has_is_should_normalize(s: &str) -> (b: bool)
    ensures
        b == exists|i: int| 0 <= i < s@.len() && #[trigger] spec_is_persian_normalized(s@[i]),
{
    let v = chars_of(s);
    let mut i: usize = 0;
    while i < v.len()
        invariant
            v@ == s@,
            i <= v@.len(),
            forall|j: int| 0 <= j < i ==> !#[trigger] spec_is_persian_normalized(v@[j]),
        decreases v@.len() - i,
    {
        if is_should_normalize(v[i]) {
            return true;
        }
        i += 1;
    }
    false
}

impl CharNormalizer for PersianNormalizer {
    open spec fn spec_normalize_char(&self, c: char) -> Seq<char> {
        spec_normalize_persian_char(c)
    }

    open spec fn spec_form(&self, c: char) -> ReplacementForm {
        canonical_form(self.spec_normalize_char(c))
    }

    open spec fn spec_should_normalize(&self, token: TokenView) -> bool {
        token.script == Script::Arabic && (token.language is None || token.language == Some(Language::Pes)) && exists|i: int| 0 <= i < token.lemma.len() && #[trigger] spec_is_persian_normalized(token.lemma[i])
    }

    fn normalize_char(&self, c: char) -> (r: Option<CharOrStr>) {
        normalize_persian_char(c)
    }

    fn should_normalize(&self, token: &Token) -> (b: bool) {
        proof {
            assert(token@.lemma == token.lemma@);
        }
        token.script == Script::Arabic && (match token.language {
            None => true,
            Some(lang) => lang == Language::Pes,
        }) && has_is_should_normalize(token.lemma.as_str())
    }
}

} // verus!
