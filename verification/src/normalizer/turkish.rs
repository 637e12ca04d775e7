use vstd::prelude::*;

use super::{ReplacementForm, form_of, str_replacement, CharNormalizer, CharOrStr};
use crate::detection::{Language, Script};
use crate::text::chars_of;
use crate::token::{Token, TokenView};

verus! {

/// A normalizer for Turkish: the dotless 'ı' becomes 'i'.
pub struct TurkishNormalizer;

/// The replacement of a character by `TurkishNormalizer`; empty when the character is removed.
pub open spec fn spec_normalize_turkish(c: char) -> Seq<char> {
    if c == '\u{0131}' {
        seq!['i']
    } else {
        seq![c]
    }
}

/// Normalizes one character.
fn normalize_turkish_char(c: char) -> (r: Option<CharOrStr>)
    ensures
        super::replacement(r) == spec_normalize_turkish(c),
        form_of(r) == (if c == '\u{0131}' {
            ReplacementForm::Str
        } else {
            ReplacementForm::Char
        }),
{
    if c == '\u{0131}' {
        Some(super::str_replacement(&['i']))
    } else {
        Some(CharOrStr::Char(c))
    }
}

/// The characters that make `TurkishNormalizer` apply.
pub open spec fn spec_is_dotless_i(c: char) -> bool {
    c == '\u{0131}'
}

fn is_should_normalize(c: char) -> (b: bool)
    ensures
        b == spec_is_dotless_i(c),
{
    c == '\u{0131}'
}

/// Whether some character of `s` is one that the normalizer rewrites.
fn has_is_should_normalize(s: &str) -> (b: bool)
    ensures
        b == exists|i: int| 0 <= i < s@.len() && #[trigger] spec_is_dotless_i(s@[i]),
{
    let v = chars_of(s);
    let mut i: usize = 0;
    while i < v.len()
        invariant
            v@ == s@,
            i <= v@.len(),
            forall|j: int| 0 <= j < i ==> !#[trigger] spec_is_dotless_i(v@[j]),
        decreases v@.len() - i,
    {
        if is_should_normalize(v[i]) {
            return true;
        }
        i += 1;
    }
    false
}

impl CharNormalizer for TurkishNormalizer {
    open spec fn spec_normalize_char(&self, c: char) -> Seq<char> {
        spec_normalize_turkish(c)
    }

    open spec fn spec_form(&self, c: char) -> ReplacementForm {
        if c == '\u{0131}' {
            ReplacementForm::Str
        } else {
            ReplacementForm::Char
        }
    }

    open spec fn spec_should_normalize(&self, token: TokenView) -> bool {
        token.script == Script::Latin && exists|i: int| 0 <= i < token.lemma.len() && #[trigger] spec_is_dotless_i(token.lemma[i])
    }

    fn normalize_char(&self, c: char) -> (r: Option<CharOrStr>) {
        normalize_turkish_char(c)
    }

    fn should_normalize(&self, token: &Token) -> (b: bool) {
        proof {
            assert(token@.lemma == token.lemma@);
        }
        token.script == Script::Latin && has_is_should_normalize(token.lemma.as_str())
    }
}

} // verus!
