use vstd::prelude::*;

use super::{ReplacementForm, canonical_form, str_replacement, CharNormalizer, CharOrStr};
use crate::detection::Script;
use crate::text::chars_of;
use crate::token::{Token, TokenView};
use crate::unicode::{is_uppercase, lowercase, spec_is_uppercase, spec_lowercase};

verus! {

/// A normalizer that lowercases characters.
pub struct LowercaseNormalizer;

/// Whether some character of `s` is uppercase.
pub(crate) fn has_uppercase(s: &str) -> (b: bool)
    ensures
        b == exists|i: int| 0 <= i < s@.len() && #[trigger] spec_is_uppercase(s@[i]),
{
    let v = chars_of(s);
    let mut i: usize = 0;
    while i < v.len()
        invariant
            v@ == s@,
            i <= v@.len(),
            forall|j: int| 0 <= j < i ==> !#[trigger] spec_is_uppercase(v@[j]),
        decreases v@.len() - i,
    {
        if is_uppercase(v[i]) {
            return true;
        }
        i += 1;
    }
    false
}

/// Whether the script has letter case.
pub open spec fn spec_is_cased_script(script: Script) -> bool {
    script == Script::Latin || script == Script::Cyrillic || script == Script::Greek || script
        == Script::Georgian || script == Script::Armenian
}

impl CharNormalizer for LowercaseNormalizer {
    open spec fn spec_normalize_char(&self, c: char) -> Seq<char> {
        spec_lowercase(c)
    }

    open spec fn spec_form(&self, c: char) -> ReplacementForm {
        canonical_form(self.spec_normalize_char(c))
    }

    open spec fn spec_should_normalize(&self, token: TokenView) -> bool {
        spec_is_cased_script(token.script) && exists|i: int|
            0 <= i < token.lemma.len() && #[trigger] spec_is_uppercase(token.lemma[i])
    }

    fn normalize_char(&self, c: char) -> (r: Option<CharOrStr>) {
        let l = lowercase(c);
        if l.len() == 1 {
            assert(l@ =~= seq![l@[0]]);
            Some(CharOrStr::Char(l[0]))
        } else {
            Some(str_replacement(l.as_slice()))
        }
    }

    fn should_normalize(&self, token: &Token) -> (b: bool) {
        proof {
            assert(token@.lemma == token.lemma@);
        }
        let cased = match token.script {
            Script::Latin | Script::Cyrillic | Script::Greek | Script::Georgian | Script::Armenian => true,
            _ => false,
        };
        cased && has_uppercase(token.lemma.as_str())
    }
}

} // verus!
