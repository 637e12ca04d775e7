use vstd::prelude::*;

use super::{canonical_form, CharNormalizer, CharOrStr, ReplacementForm};
use crate::text::chars_of;
use crate::token::{Token, TokenView};
use crate::unicode::{is_control, is_whitespace, spec_is_control, spec_is_whitespace};

verus! {

/// A normalizer that removes the control characters (general category Cc) that are not
/// whitespace.
pub struct ControlCharNormalizer;

/// Whether the normalizer removes `c`: a control character that is not whitespace.
pub open spec fn spec_is_removed_control(c: char) -> bool {
    spec_is_control(c) && !spec_is_whitespace(c)
}

/// Whether the normalizer removes `c`.
fn is_removed_control(c: char) -> (b: bool)
    ensures
        b == spec_is_removed_control(c),
{
    is_control(c) && !is_whitespace(c)
}

/// Whether some character of `s` is one that the normalizer removes.
fn has_removed_control(s: &str) -> (b: bool)
    ensures
        b == exists|i: int| 0 <= i < s@.len() && #[trigger] spec_is_removed_control(s@[i]),
{
    let v = chars_of(s);
    let mut i: usize = 0;
    while i < v.len()
        invariant
            v@ == s@,
            i <= v@.len(),
            forall|j: int| 0 <= j < i ==> !#[trigger] spec_is_removed_control(v@[j]),
        decreases v@.len() - i,
    {
        if is_removed_control(v[i]) {
            return true;
        }
        i += 1;
    }
    false
}

impl CharNormalizer for ControlCharNormalizer {
    open spec fn spec_normalize_char(&self, c: char) -> Seq<char> {
        if spec_is_removed_control(c) {
            Seq::empty()
        } else {
            seq![c]
        }
    }

    open spec fn spec_form(&self, c: char) -> ReplacementForm {
        canonical_form(self.spec_normalize_char(c))
    }

    open spec fn spec_should_normalize(&self, token: TokenView) -> bool {
        exists|i: int| 0 <= i < token.lemma.len() && #[trigger] spec_is_removed_control(token.lemma[i])
    }

    fn normalize_char(&self, c: char) -> (r: Option<CharOrStr>) {
        if is_removed_control(c) {
            None
        } else {
            Some(CharOrStr::Char(c))
        }
    }

    fn should_normalize(&self, token: &Token) -> (b: bool) {
        proof {
            assert(token@.lemma == token.lemma@);
        }
        has_removed_control(token.lemma.as_str())
    }
}

} // verus!
