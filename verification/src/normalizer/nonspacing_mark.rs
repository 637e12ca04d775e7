use vstd::prelude::*;

use super::{canonical_form, CharNormalizer, CharOrStr, ReplacementForm};
use crate::detection::Script;
use crate::text::chars_of;
use crate::token::{Token, TokenView};
use crate::unicode::{is_mark_nonspacing, spec_is_mark_nonspacing};

verus! {

/// A normalizer that removes the nonspacing marks (general category Mn), such as accents left
/// apart by the compatibility decomposition, so that a marked word normalizes like the
/// unmarked one.
///
/// Thai tokens are left alone: their vowel and tone marks tell words apart.
pub struct NonspacingMarkNormalizer;

/// Whether some character of `s` is a nonspacing mark.
fn has_nonspacing_mark(s: &str) -> (b: bool)
    ensures
        b == exists|i: int| 0 <= i < s@.len() && #[trigger] spec_is_mark_nonspacing(s@[i]),
{
    let v = chars_of(s);
    let mut i: usize = 0;
    while i < v.len()
        invariant
            v@ == s@,
            i <= v@.len(),
            forall|j: int| 0 <= j < i ==> !#[trigger] spec_is_mark_nonspacing(v@[j]),
        decreases v@.len() - i,
    {
        if is_mark_nonspacing(v[i]) {
            return true;
        }
        i += 1;
    }
    false
}

impl CharNormalizer for NonspacingMarkNormalizer {
    open spec fn spec_normalize_char(&self, c: char) -> Seq<char> {
        if spec_is_mark_nonspacing(c) {
            Seq::empty()
        } else {
            seq![c]
        }
    }

    open spec fn spec_form(&self, c: char) -> ReplacementForm {
        canonical_form(self.spec_normalize_char(c))
    }

    open spec fn spec_should_normalize(&self, token: TokenView) -> bool {
        token.script != Script::Thai && exists|i: int|
            0 <= i < token.lemma.len() && #[trigger] spec_is_mark_nonspacing(token.lemma[i])
    }

    fn normalize_char(&self, c: char) -> (r: Option<CharOrStr>) {
        if is_mark_nonspacing(c) {
            None
        } else {
            Some(CharOrStr::Char(c))
        }
    }

    fn should_normalize(&self, token: &Token) -> (b: bool) {
        proof {
            assert(token@.lemma == token.lemma@);
        }
        token.script != Script::Thai && has_nonspacing_mark(token.lemma.as_str())
    }
}

} // verus!
