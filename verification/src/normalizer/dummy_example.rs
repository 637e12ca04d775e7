use vstd::prelude::*;

use super::{ReplacementForm, str_replacement, CharNormalizer, CharOrStr};
use super::lowercase::has_uppercase;
use crate::detection::Script;
use crate::token::{Token, TokenView};
use crate::unicode::{
    is_lowercase, is_whitespace, lowercase, spec_is_lowercase, spec_is_uppercase,
    spec_is_whitespace, spec_lowercase,
};

verus! {

/// An example of a normalizer: removes whitespaces and lowercases the other characters.
///
/// It applies to Latin and Cyrillic tokens that hold such a character.
pub struct DummyNormalizer;

/// What `DummyNormalizer` makes of a character.
pub open spec fn spec_dummy(c: char) -> Seq<char> {
    if spec_is_whitespace(c) {
        Seq::empty()
    } else if spec_is_lowercase(c) {
        seq![c]
    } else {
        spec_lowercase(c)
    }
}

impl CharNormalizer for DummyNormalizer {
    open spec fn spec_normalize_char(&self, c: char) -> Seq<char> {
        spec_dummy(c)
    }

    open spec fn spec_form(&self, c: char) -> ReplacementForm {
        if spec_is_whitespace(c) {
            ReplacementForm::Removed
        } else if spec_is_lowercase(c) {
            ReplacementForm::Char
        } else {
            ReplacementForm::Str
        }
    }

    open spec fn spec_should_normalize(&self, token: TokenView) -> bool {
        (token.script == Script::Latin || token.script == Script::Cyrillic) && exists|i: int|
            0 <= i < token.lemma.len() && #[trigger] spec_is_uppercase(token.lemma[i])
    }

    fn normalize_char(&self, c: char) -> (r: Option<CharOrStr>) {
        if is_whitespace(c) {
            None
        } else if is_lowercase(c) {
            Some(CharOrStr::Char(c))
        } else {
            let l = lowercase(c);
            Some(str_replacement(l.as_slice()))
        }
    }

    fn should_normalize(&self, token: &Token) -> (b: bool) {
        proof {
            assert(token@.lemma == token.lemma@);
        }
        (token.script == Script::Latin || token.script == Script::Cyrillic) && has_uppercase(
            token.lemma.as_str(),
        )
    }
}

} // verus!
