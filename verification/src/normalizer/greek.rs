use vstd::prelude::*;

use super::NormalizerOption;
use crate::detection::Script;
use crate::text::{chars_of, push_char};
use crate::token::Token;

verus! {

/// A normalizer for Greek: the final sigma 'ς' becomes the ordinary sigma 'σ'.
pub struct GreekNormalizer;

/// A character with the final sigma replaced.
pub open spec fn spec_unfinal_sigma(c: char) -> char {
    if c == 'ς' {
        'σ'
    } else {
        c
    }
}

/// A text with every final sigma replaced.
pub open spec fn spec_greek(s: Seq<char>) -> Seq<char> {
    s.map_values(|c: char| spec_unfinal_sigma(c))
}

impl GreekNormalizer {
    /// Replaces every final sigma by an ordinary sigma. Both take two bytes, so the char map is
    /// kept as it is.
    pub fn normalize(&self, token: Token, options: &NormalizerOption) -> (result: Token)
        ensures
            result.lemma@ == spec_greek(token.lemma@),
            result.kind == token.kind,
            result.char_start == token.char_start,
            result.char_end == token.char_end,
            result.byte_start == token.byte_start,
            result.byte_end == token.byte_end,
            result.char_map == token.char_map,
            result.script == token.script,
            result.language == token.language,
    {
        let mut token = token;
        let v = chars_of(token.lemma.as_str());
        let mut lemma = String::new();
        let mut i: usize = 0;
        while i < v.len()
            invariant
                i <= v@.len(),
                lemma@ == spec_greek(v@.take(i as int)),
            decreases v@.len() - i,
        {
            let c = v[i];
            push_char(&mut lemma, if c == 'ς' { 'σ' } else { c });
            assert(spec_greek(v@.take(i + 1)) =~= spec_greek(v@.take(i as int)).push(spec_unfinal_sigma(c)));
            i += 1;
        }
        assert(v@.take(v@.len() as int) =~= v@);
        token.lemma = lemma;
        token
    }

    /// The normalizer applies to Greek tokens.
    pub fn should_normalize(&self, token: &Token) -> (b: bool)
        ensures
            b == (token.script == Script::Greek),
    {
        token.script == Script::Greek
    }
}

/// Normalizing Greek text leaves no final sigma.
pub proof fn lemma_greek_no_final_sigma(s: Seq<char>)
    ensures
        forall|i: int| 0 <= i < spec_greek(s).len() ==> spec_greek(s)[i] != 'ς',
        spec_greek(s).len() == s.len(),
{
}

/// Normalizing Greek text twice is normalizing it once.
pub proof fn lemma_greek_idempotent(s: Seq<char>)
    ensures
        spec_greek(spec_greek(s)) == spec_greek(s),
{
    assert(spec_greek(spec_greek(s)) =~= spec_greek(s));
}

} // verus!
