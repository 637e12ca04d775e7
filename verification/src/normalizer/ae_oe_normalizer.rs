use vstd::prelude::*;

use super::{ReplacementForm, canonical_form, str_replacement, CharNormalizer, CharOrStr};
use crate::detection::Script;
use crate::text::chars_of;
use crate::token::{Token, TokenView};

verus! {

/// Replaces the ligatures 'œ', 'Œ', 'æ' and 'Æ' by "oe" and "ae".
pub struct AeOeNormalizer;

/// The replacement of a character by `AeOeNormalizer`.
pub open spec fn spec_ae_oe(c: char) -> Seq<char> {
    if c == 'œ' || c == 'Œ' {
        seq!['o', 'e']
    } else if c == 'æ' || c == 'Æ' {
        seq!['a', 'e']
    } else {
        seq![c]
    }
}

/// The characters that `AeOeNormalizer` rewrites.
pub open spec fn spec_is_ae_oe(c: char) -> bool {
    c == 'œ' || c == 'æ' || c == 'Œ' || c == 'Æ'
}

fn is_should_normalize(c: char) -> (b: bool)
    ensures
        b == spec_is_ae_oe(c),
{
    c == 'œ' || c == 'æ' || c == 'Œ' || c == 'Æ'
}

/// Whether some character of `s` is one of the ligatures.
fn has_ae_oe(s: &str) -> (b: bool)
    ensures
        b == exists|i: int| 0 <= i < s@.len() && #[trigger] spec_is_ae_oe(s@[i]),
{
    let v = chars_of(s);
    let mut i: usize = 0;
    while i < v.len()
        invariant
            v@ == s@,
            i <= v@.len(),
            forall|j: int| 0 <= j < i ==> !#[trigger] spec_is_ae_oe(v@[j]),
        decreases v@.len() - i,
    {
        if is_should_normalize(v[i]) {
            return true;
        }
        i += 1;
    }
    false
}

impl CharNormalizer for AeOeNormalizer {
    open spec fn spec_normalize_char(&self, c: char) -> Seq<char> {
        spec_ae_oe(c)
    }

    open spec fn spec_form(&self, c: char) -> ReplacementForm {
        canonical_form(self.spec_normalize_char(c))
    }

    open spec fn spec_should_normalize(&self, token: TokenView) -> bool {
        token.script == Script::Latin && exists|i: int|
            0 <= i < token.lemma.len() && #[trigger] spec_is_ae_oe(token.lemma[i])
    }

    fn normalize_char(&self, c: char) -> (r: Option<CharOrStr>) {
        if c == 'œ' || c == 'Œ' {
            Some(str_replacement(&['o', 'e']))
        } else if c == 'æ' || c == 'Æ' {
            Some(str_replacement(&['a', 'e']))
        } else {
            Some(CharOrStr::Char(c))
        }
    }

    fn should_normalize(&self, token: &Token) -> (b: bool) {
        proof {
            assert(token@.lemma == token.lemma@);
        }
        token.script == Script::Latin && has_ae_oe(token.lemma.as_str())
    }
}

} // verus!
