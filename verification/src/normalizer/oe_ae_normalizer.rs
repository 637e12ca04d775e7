use vstd::prelude::*;

use super::{ReplacementForm, canonical_form, str_replacement, CharNormalizer, CharOrStr};
use crate::detection::Script;
use crate::text::chars_of;
use crate::token::{Token, TokenView};

verus! {

/// A variant of the ligature normalizer that keeps the case of the ligatures: 'œ', 'æ', 'Œ',
/// 'Æ' become "oe", "ae", "OE", "AE".
///
/// It applies to Latin and Cyrillic tokens that hold such a character.
#[allow(non_camel_case_types)]
pub struct OE_AE_Normalizer;

/// The replacement of a character by `OE_AE_Normalizer`.
pub open spec fn spec_oe_ae(c: char) -> Seq<char> {
    if c == 'œ' {
        seq!['o', 'e']
    } else if c == 'æ' {
        seq!['a', 'e']
    } else if c == 'Œ' {
        seq!['O', 'E']
    } else if c == 'Æ' {
        seq!['A', 'E']
    } else {
        seq![c]
    }
}

/// Whether a character is one of the ligatures.
pub open spec fn spec_is_ligature(c: char) -> bool {
    c == 'œ' || c == 'æ' || c == 'Œ' || c == 'Æ'
}

/// Whether some character of `s` is one of the ligatures.
fn has_ligature(s: &str) -> (b: bool)
    ensures
        b == exists|i: int| 0 <= i < s@.len() && #[trigger] spec_is_ligature(s@[i]),
{
    let v = chars_of(s);
    let mut i: usize = 0;
    while i < v.len()
        invariant
            v@ == s@,
            i <= v@.len(),
            forall|j: int| 0 <= j < i ==> !#[trigger] spec_is_ligature(v@[j]),
        decreases v@.len() - i,
    {
        let c = v[i];
        if c == 'œ' || c == 'æ' || c == 'Œ' || c == 'Æ' {
            assert(spec_is_ligature(s@[i as int]));
            return true;
        }
        i += 1;
    }
    false
}

impl CharNormalizer for OE_AE_Normalizer {
    open spec fn spec_normalize_char(&self, c: char) -> Seq<char> {
        spec_oe_ae(c)
    }

    open spec fn spec_form(&self, c: char) -> ReplacementForm {
        canonical_form(self.spec_normalize_char(c))
    }

    open spec fn spec_should_normalize(&self, token: TokenView) -> bool {
        (token.script == Script::Latin || token.script == Script::Cyrillic) && exists|i: int|
            0 <= i < token.lemma.len() && #[trigger] spec_is_ligature(token.lemma[i])
    }

    fn normalize_char(&self, c: char) -> (r: Option<CharOrStr>) {
        if c == 'œ' {
            Some(str_replacement(&['o', 'e']))
        } else if c == 'æ' {
            Some(str_replacement(&['a', 'e']))
        } else if c == 'Œ' {
            Some(str_replacement(&['O', 'E']))
        } else if c == 'Æ' {
            Some(str_replacement(&['A', 'E']))
        } else {
            Some(CharOrStr::Char(c))
        }
    }

    fn should_normalize(&self, token: &Token) -> (b: bool) {
        proof {
            assert(token@.lemma == token.lemma@);
        }
        (token.script == Script::Latin || token.script == Script::Cyrillic) && has_ligature(
            token.lemma.as_str(),
        )
    }
}

} // verus!
