use vstd::prelude::*;

use super::{ReplacementForm, canonical_form, form_of, CharNormalizer, CharOrStr};
use crate::detection::{Language, Script};
use crate::text::chars_of;
use crate::token::{Token, TokenView};

verus! {

/// A Latin normalizer that replaces the unicode high quotation marks by a single quote.
pub struct QuoteNormalizer;

/// The replacement of a character by `QuoteNormalizer`; empty when the character is removed.
pub open spec fn spec_normalize_quote(c: char) -> Seq<char> {
    if c == '\u{2019}' || c == '\u{2018}' || c == '\u{201B}' {
        seq!['\'']
    } else {
        seq![c]
    }
}

/// Normalizes one character.
fn normalize_quote_char(c: char) -> (r: Option<CharOrStr>)
    ensures
        super::replacement(r) == spec_normalize_quote(c),
        form_of(r) == canonical_form(spec_normalize_quote(c)),
{
    if c == '\u{2019}' || c == '\u{2018}' || c == '\u{201B}' {
        Some(CharOrStr::Char('\''))
    } else {
        Some(CharOrStr::Char(c))
    }
}

/// The characters that make `QuoteNormalizer` apply.
pub open spec fn spec_is_unicode_high_quotation_mark(c: char) -> bool {
    c == '\u{2019}' || c == '\u{2018}' || c == '\u{201B}'
}

fn is_unicode_high_quotation_mark(c: char) -> (b: bool)
    ensures
        b == spec_is_unicode_high_quotation_mark(c),
{
    c == '\u{2019}' || c == '\u{2018}' || c == '\u{201B}'
}

/// Whether some character of `s` is one that the normalizer rewrites.
fn has_is_unicode_high_quotation_mark(s: &str) -> (b: bool)
    ensures
        b == exists|i: int| 0 <= i < s@.len() && #[trigger] spec_is_unicode_high_quotation_mark(s@[i]),
{
    let v = chars_of(s);
    let mut i: usize = 0;
    while i < v.len()
        invariant
            v@ == s@,
            i <= v@.len(),
            forall|j: int| 0 <= j < i ==> !#[trigger] spec_is_unicode_high_quotation_mark(v@[j]),
        decreases v@.len() - i,
    {
        if is_unicode_high_quotation_mark(v[i]) {
            return true;
        }
        i += 1;
    }
    false
}

impl CharNormalizer for QuoteNormalizer {
    open spec fn spec_normalize_char(&self, c: char) -> Seq<char> {
        spec_normalize_quote(c)
    }

    open spec fn spec_form(&self, c: char) -> ReplacementForm {
        canonical_form(self.spec_normalize_char(c))
    }

    open spec fn spec_should_normalize(&self, token: TokenView) -> bool {
        token.script == Script::Latin && exists|i: int| 0 <= i < token.lemma.len() && #[trigger] spec_is_unicode_high_quotation_mark(token.lemma[i])
    }

    fn normalize_char(&self, c: char) -> (r: Option<CharOrStr>) {
        normalize_quote_char(c)
    }

    fn should_normalize(&self, token: &Token) -> (b: bool) {
        proof {
            assert(token@.lemma == token.lemma@);
        }
        token.script == Script::Latin && has_is_unicode_high_quotation_mark(token.lemma.as_str())
    }
}

} // verus!
