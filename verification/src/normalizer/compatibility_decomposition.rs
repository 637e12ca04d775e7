use vstd::prelude::*;

use super::{ReplacementForm, canonical_form, str_replacement, CharNormalizer, CharOrStr};
use crate::token::{Token, TokenView};
use crate::unicode::{is_nfkd_quick_yes, nfkd, spec_is_nfkd_quick_yes, spec_nfkd};

verus! {

/// A normalizer to the Unicode Normalization Form KD (compatibility decomposition).
pub struct CompatibilityDecompositionNormalizer;

impl CharNormalizer for CompatibilityDecompositionNormalizer {
    open spec fn spec_normalize_char(&self, c: char) -> Seq<char> {
        spec_nfkd(c)
    }

    open spec fn spec_form(&self, c: char) -> ReplacementForm {
        canonical_form(self.spec_normalize_char(c))
    }

    /// The normalizer applies unless the text is ASCII or quickly known to be in NFKD.
    open spec fn spec_should_normalize(&self, token: TokenView) -> bool {
        !(vstd::utf8::is_ascii_chars(token.lemma) || spec_is_nfkd_quick_yes(token.lemma))
    }

    fn normalize_char(&self, c: char) -> (r: Option<CharOrStr>) {
        let d = nfkd(c);
        if d.len() == 0 {
            None
        } else if d.len() == 1 {
            assert(d@ =~= seq![d@[0]]);
            Some(CharOrStr::Char(d[0]))
        } else {
            Some(str_replacement(d.as_slice()))
        }
    }

    fn should_normalize(&self, token: &Token) -> (b: bool) {
        proof {
            assert(token@.lemma == token.lemma@);
        }
        !(token.lemma.as_str().is_ascii() || is_nfkd_quick_yes(token.lemma.as_str()))
    }
}

} // verus!
