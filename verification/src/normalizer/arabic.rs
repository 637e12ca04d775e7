use vstd::prelude::*;

use super::{ReplacementForm, canonical_form, form_of, CharNormalizer, CharOrStr};
use crate::detection::{Language, Script};
use crate::text::chars_of;
use crate::token::{Token, TokenView};

verus! {

/// A normalizer for the Arabic language: removes the Tatweel ('ـ') and normalizes the Alefs
/// 'أ', 'إ', 'آ', 'ٱ' to 'ا', the Yeh 'ى' to 'ي' and the Taa Marbuta 'ة' to 'ه'.
pub struct ArabicNormalizer;

/// Whether a character is one of the Alefs that become 'ا': 'أ', 'إ', 'آ' and 'ٱ'.
pub open spec fn spec_is_alef_variant(c: char) -> bool {
    c == '\u{0623}' || c == '\u{0625}' || c == '\u{0622}' || c == '\u{0671}'
}

/// The replacement of a character by `ArabicNormalizer`; empty when the character is removed.
pub open spec fn spec_normalize_arabic_char(c: char) -> Seq<char> {
    if c == '\u{0640}' {
        Seq::empty()
    } else if spec_is_alef_variant(c) {
        seq!['\u{0627}']
    } else if c == '\u{0649}' {
        seq!['\u{064A}']
    } else if c == '\u{0629}' {
        seq!['\u{0647}']
    } else {
        seq![c]
    }
}

/// Normalizes one Arabic character.
fn normalize_arabic_char(c: char) -> (r: Option<CharOrStr>)
    ensures
        super::replacement(r) == spec_normalize_arabic_char(c),
        form_of(r) == canonical_form(spec_normalize_arabic_char(c)),
{
    if c == '\u{0640}' {
        None
    } else if c == '\u{0623}' || c == '\u{0625}' || c == '\u{0622}' || c == '\u{0671}' {
        Some(CharOrStr::Char('\u{0627}'))
    } else if c == '\u{0649}' {
        Some(CharOrStr::Char('\u{064A}'))
    } else if c == '\u{0629}' {
        Some(CharOrStr::Char('\u{0647}'))
    } else {
        Some(CharOrStr::Char(c))
    }
}

/// The characters that make `ArabicNormalizer` apply.
pub open spec fn spec_is_arabic_normalized(c: char) -> bool {
    c == '\u{0640}' || spec_is_alef_variant(c) || c == '\u{0649}' || c == '\u{0629}'
}

fn is_shoud_normalize(c: char) -> (b: bool)
    ensures
        b == spec_is_arabic_normalized(c),
{
    c == '\u{0640}' || c == '\u{0623}' || c == '\u{0625}' || c == '\u{0622}' || c == '\u{0671}'
        || c == '\u{0649}' || c == '\u{0629}'
}

/// Whether some character of `s` is one that the normalizer rewrites.
fn has_is_shoud_normalize(s: &str) -> (b: bool)
    ensures
        b == exists|i: int| 0 <= i < s@.len() && #[trigger] spec_is_arabic_normalized(s@[i]),
{
    let v = chars_of(s);
    let mut i: usize = 0;
    while i < v.len()
        invariant
            v@ == s@,
            i <= v@.len(),
            forall|j: int| 0 <= j < i ==> !#[trigger] spec_is_arabic_normalized(v@[j]),
        decreases v@.len() - i,
    {
        if is_shoud_normalize(v[i]) {
            return true;
        }
        i += 1;
    }
    false
}

impl CharNormalizer for ArabicNormalizer {
    open spec fn spec_normalize_char(&self, c: char) -> Seq<char> {
        spec_normalize_arabic_char(c)
    }

    open spec fn spec_form(&self, c: char) -> ReplacementForm {
        canonical_form(self.spec_normalize_char(c))
    }

    open spec fn spec_should_normalize(&self, token: TokenView) -> bool {
        token.script == Script::Arabic && exists|i: int| 0 <= i < token.lemma.len() && #[trigger] spec_is_arabic_normalized(token.lemma[i])
    }

    fn normalize_char(&self, c: char) -> (r: Option<CharOrStr>) {
        normalize_arabic_char(c)
    }

    fn should_normalize(&self, token: &Token) -> (b: bool) {
        proof {
            assert(token@.lemma == token.lemma@);
        }
        token.script == Script::Arabic && has_is_shoud_normalize(token.lemma.as_str())
    }
}

} // verus!
