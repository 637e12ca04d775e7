use vstd::prelude::*;

use super::{ReplacementForm, form_of, str_replacement, CharNormalizer, CharOrStr};
use crate::detection::{Language, Script};
use crate::text::chars_of;
use crate::token::{Token, TokenView};

verus! {

/// A normalizer for Vietnamese (and other languages that write them): 'Ð', 'Đ', 'đ' and 'ð'
/// become 'd'.
pub struct VietnameseNormalizer;

/// The replacement of a character by `VietnameseNormalizer`; empty when the character is removed.
pub open spec fn spec_normalize_vietnamese(c: char) -> Seq<char> {
    if c == '\u{00D0}' || c == '\u{0110}' || c == '\u{0111}' || c == '\u{00F0}' {
        seq!['d']
    } else {
        seq![c]
    }
}

/// Normalizes one character.
fn normalize_vietnamese_char(c: char) -> (r: Option<CharOrStr>)
    ensures
        super::replacement(r) == spec_normalize_vietnamese(c),
        form_of(r) == (if c == '\u{00D0}' || c == '\u{0110}' || c == '\u{0111}' || c == '\u{00F0}' {
            ReplacementForm::Str
        } else {
            ReplacementForm::Char
        }),
{
    if c == '\u{00D0}' || c == '\u{0110}' || c == '\u{0111}' || c == '\u{00F0}' {
        Some(super::str_replacement(&['d']))
    } else {
        Some(CharOrStr::Char(c))
    }
}

/// The characters that make `VietnameseNormalizer` apply.
pub open spec fn spec_is_d_variant(c: char) -> bool {
    c == '\u{00D0}' || c == '\u{0110}' || c == '\u{0111}' || c == '\u{00F0}'
}

fn is_should_normalize(c: char) -> (b: bool)
    ensures
        b == spec_is_d_variant(c),
{
    c == '\u{00D0}' || c == '\u{0110}' || c == '\u{0111}' || c == '\u{00F0}'
}

/// Whether some character of `s` is one that the normalizer rewrites.
fn has_is_should_normalize(s: &str) -> (b: bool)
    ensures
        b == exists|i: int| 0 <= i < s@.len() && #[trigger] spec_is_d_variant(s@[i]),
{
    let v = chars_of(s);
    let mut i: usize = 0;
    while i < v.len()
        invariant
            v@ == s@,
            i <= v@.len(),
            forall|j: int| 0 <= j < i ==> !#[trigger] spec_is_d_variant(v@[j]),
        decreases v@.len() - i,
    {
        if is_should_normalize(v[i]) {
            return true;
        }
        i += 1;
    }
    false
}

impl CharNormalizer for VietnameseNormalizer {
    open spec fn spec_normalize_char(&self, c: char) -> Seq<char> {
        spec_normalize_vietnamese(c)
    }

    open spec fn spec_form(&self, c: char) -> ReplacementForm {
        if c == '\u{00D0}' || c == '\u{0110}' || c == '\u{0111}' || c == '\u{00F0}' {
            ReplacementForm::Str
        } else {
            ReplacementForm::Char
        }
    }

    open spec fn spec_should_normalize(&self, token: TokenView) -> bool {
        token.script == Script::Latin && exists|i: int| 0 <= i < token.lemma.len() && #[trigger] spec_is_d_variant(token.lemma[i])
    }

    fn normalize_char(&self, c: char) -> (r: Option<CharOrStr>) {
        normalize_vietnamese_char(c)
    }

    fn should_normalize(&self, token: &Token) -> (b: bool) {
        proof {
            assert(token@.lemma == token.lemma@);
        }
        token.script == Script::Latin && has_is_should_normalize(token.lemma.as_str())
    }
}

} // verus!
