use vstd::prelude::*;

use super::recompose::{recompose_fits, recompose_token, spec_recomposed_token, Recomposition};
use super::NormalizerOption;
use crate::detection::Script;
use crate::text::{chars_of, occurs, occurs_in};
use crate::token::Token;

verus! {

/// A normalizer for Russian: 'ё' and 'Ё' written as 'е', 'Е' followed by a combining diaeresis
/// lose the diaeresis ('ё' is commonly written 'е').
pub struct RussianNormalizer;

/// Whether a text holds 'Е' or 'е' followed by a combining diaeresis.
pub open spec fn has_decomposed_yo(s: Seq<char>) -> bool {
    occurs_in(seq!['Е', '\u{308}'], s) || occurs_in(seq!['е', '\u{308}'], s)
}

impl RussianNormalizer {
    /// Folds 'Е', 'е' followed by a combining diaeresis into 'Е', 'е'.
    pub fn normalize(&self, token: Token, options: &NormalizerOption) -> (result: Token)
        requires
            recompose_fits(Recomposition::Russian, token),
        ensures
            spec_recomposed_token(Recomposition::Russian, token, options.create_char_map, result),
    {
        recompose_token(&Recomposition::Russian, token, options)
    }

    /// The normalizer applies to Cyrillic tokens that hold a decomposed 'ё' or 'Ё'.
    pub fn should_normalize(&self, token: &Token) -> (b: bool)
        ensures
            b == (token.script == Script::Cyrillic && has_decomposed_yo(token.lemma@)),
    {
        if token.script != Script::Cyrillic {
            return false;
        }
        let v = chars_of(token.lemma.as_str());
        let upper = ['Е', '\u{308}'];
        let lower = ['е', '\u{308}'];
        assert(upper@ =~= seq!['Е', '\u{308}']);
        assert(lower@ =~= seq!['е', '\u{308}']);
        occurs(&upper, v.as_slice()) || occurs(&lower, v.as_slice())
    }
}

} // verus!
