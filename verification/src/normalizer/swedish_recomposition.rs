use vstd::prelude::*;

use super::recompose::{recompose_fits, recompose_token, spec_recomposed_token, Recomposition};
use super::NormalizerOption;
use crate::detection::Language;
use crate::text::{chars_of, occurs, occurs_in};
use crate::token::Token;

verus! {

/// A normalizer for Swedish: recomposes 'å', 'ä', 'ö' (and their capitals) written as a letter
/// followed by a combining mark, so that the later removal of diacritics keeps them and they
/// keep their place in the Swedish alphabet.
pub struct SwedishRecompositionNormalizer;

/// Whether a text holds one of the decomposed Swedish letters.
pub open spec fn has_decomposed_swedish_letter(s: Seq<char>) -> bool {
    ||| occurs_in(seq!['A', '\u{30a}'], s)
    ||| occurs_in(seq!['a', '\u{30a}'], s)
    ||| occurs_in(seq!['A', '\u{308}'], s)
    ||| occurs_in(seq!['a', '\u{308}'], s)
    ||| occurs_in(seq!['O', '\u{308}'], s)
    ||| occurs_in(seq!['o', '\u{308}'], s)
}

impl SwedishRecompositionNormalizer {
    /// Recomposes the decomposed Swedish letters.
    pub fn normalize(&self, token: Token, options: &NormalizerOption) -> (result: Token)
        requires
            recompose_fits(Recomposition::Swedish, token),
        ensures
            spec_recomposed_token(Recomposition::Swedish, token, options.create_char_map, result),
    {
        recompose_token(&Recomposition::Swedish, token, options)
    }

    /// The normalizer applies to Swedish tokens that hold a decomposed Swedish letter.
    pub fn should_normalize(&self, token: &Token) -> (b: bool)
        ensures
            b == (token.language == Some(Language::Swe) && has_decomposed_swedish_letter(token.lemma@)),
    {
        match token.language {
            Some(Language::Swe) => {},
            _ => return false,
        }
        let v = chars_of(token.lemma.as_str());
        let t = v.as_slice();
        let p1 = ['A', '\u{30a}'];
        let p2 = ['a', '\u{30a}'];
        let p3 = ['A', '\u{308}'];
        let p4 = ['a', '\u{308}'];
        let p5 = ['O', '\u{308}'];
        let p6 = ['o', '\u{308}'];
        assert(p1@ =~= seq!['A', '\u{30a}']);
        assert(p2@ =~= seq!['a', '\u{30a}']);
        assert(p3@ =~= seq!['A', '\u{308}']);
        assert(p4@ =~= seq!['a', '\u{308}']);
        assert(p5@ =~= seq!['O', '\u{308}']);
        assert(p6@ =~= seq!['o', '\u{308}']);
        occurs(&p1, t) || occurs(&p2, t) || occurs(&p3, t) || occurs(&p4, t) || occurs(&p5, t)
            || occurs(&p6, t)
    }
}

} // verus!
