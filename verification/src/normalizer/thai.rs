use vstd::prelude::*;

use super::NormalizerOption;
use crate::detection::Script;
use crate::text::{chars_of, push_char};
use crate::token::Token;

verus! {

/// A normalizer for the Thai script.
///
/// Thai combining marks (vowels, tone marks, the silence mark) carry meaning and are kept.
/// Sara Am (U+0E33), which compatibility decomposition splits into Nikhahit (U+0E4D) and
/// Sara Aa (U+0E32), is put back together.
pub struct ThaiNormalizer;

/// Whether `s` holds a Nikhahit directly followed by a Sara Aa.
pub open spec fn has_decomposed_sara_am(s: Seq<char>) -> bool {
    exists|i: int| 0 <= i < s.len() - 1 && s[i] == '\u{e4d}' && #[trigger] s[i + 1] == '\u{e32}'
}

/// `s` with each Nikhahit that is directly followed by a Sara Aa replaced, with that Sara Aa,
/// by a Sara Am; scanned from the left.
pub open spec fn spec_recompose_sara_am(s: Seq<char>) -> Seq<char>
    decreases s.len(),
{
    if s.len() == 0 {
        Seq::empty()
    } else if s.len() >= 2 && s[0] == '\u{e4d}' && s[1] == '\u{e32}' {
        seq!['\u{e33}'] + spec_recompose_sara_am(s.skip(2))
    } else {
        seq![s[0]] + spec_recompose_sara_am(s.drop_first())
    }
}

/// A text without decomposed Sara Am is left as it is.
pub proof fn lemma_recompose_unchanged(s: Seq<char>)
    requires
        !has_decomposed_sara_am(s),
    ensures
        spec_recompose_sara_am(s) == s,
    decreases s.len(),
{
    if s.len() > 0 {
        let t = s.drop_first();
        assert forall|i: int| 0 <= i < t.len() - 1 && t[i] == '\u{e4d}' implies #[trigger] t[i + 1] != '\u{e32}' by {
            assert(s[i + 1] == t[i]);
            assert(s[(i + 1) + 1] == t[i + 1]);
        }
        if s.len() >= 2 && s[0] == '\u{e4d}' {
            assert(s[0int + 1] != '\u{e32}');
        }
        lemma_recompose_unchanged(t);
        assert(seq![s[0]] + t =~= s);
    }
}

/// The first character of a recomposed text that is not empty.
proof fn lemma_recompose_first(s: Seq<char>)
    requires
        s.len() > 0,
    ensures
        spec_recompose_sara_am(s).len() > 0,
        s[0] == '\u{e4d}' && s.len() >= 2 && s[1] == '\u{e32}' ==> spec_recompose_sara_am(s)[0] == '\u{e33}',
        !(s[0] == '\u{e4d}' && s.len() >= 2 && s[1] == '\u{e32}') ==> spec_recompose_sara_am(s)[0] == s[0],
{
}

/// Recomposition leaves no decomposed Sara Am behind.
pub proof fn lemma_recompose_complete(s: Seq<char>)
    ensures
        !has_decomposed_sara_am(spec_recompose_sara_am(s)),
    decreases s.len(),
{
    if s.len() > 0 {
        let r = spec_recompose_sara_am(s);
        if s.len() >= 2 && s[0] == '\u{e4d}' && s[1] == '\u{e32}' {
            let t = s.skip(2);
            lemma_recompose_complete(t);
            let rt = spec_recompose_sara_am(t);
            assert(r == seq!['\u{e33}'] + rt);
            assert forall|i: int| 0 <= i < r.len() - 1 && r[i] == '\u{e4d}' implies #[trigger] r[i + 1] != '\u{e32}' by {
                assert(i >= 1);
                assert(r[i] == rt[i - 1]);
                assert(r[i + 1] == rt[(i - 1) + 1]);
            }
        } else {
            let t = s.drop_first();
            lemma_recompose_complete(t);
            let rt = spec_recompose_sara_am(t);
            assert(r == seq![s[0]] + rt);
            assert forall|i: int| 0 <= i < r.len() - 1 && r[i] == '\u{e4d}' implies #[trigger] r[i + 1] != '\u{e32}' by {
                if i == 0 {
                    lemma_recompose_first(t);
                    assert(r[1] == rt[0]);
                    if t[0] == '\u{e4d}' && t.len() >= 2 && t[1] == '\u{e32}' {
                    } else {
                        assert(rt[0] == t[0]);
                        assert(t[0] == s[1]);
                    }
                } else {
                    assert(r[i] == rt[i - 1]);
                    assert(r[i + 1] == rt[(i - 1) + 1]);
                }
            }
        }
    }
}

/// Recomposing twice is recomposing once.
pub proof fn lemma_recompose_idempotent(s: Seq<char>)
    ensures
        spec_recompose_sara_am(spec_recompose_sara_am(s)) == spec_recompose_sara_am(s),
{
    lemma_recompose_complete(s);
    lemma_recompose_unchanged(spec_recompose_sara_am(s));
}

/// Whether the characters hold a Nikhahit directly followed by a Sara Aa.
fn find_decomposed_sara_am(v: &[char]) -> (b: bool)
    ensures
        b == has_decomposed_sara_am(v@),
{
    if v.len() < 2 {
        return false;
    }
    let mut i: usize = 0;
    while i < v.len() - 1
        invariant
            v@.len() >= 2,
            forall|j: int| 0 <= j < i && j < v@.len() - 1 ==> !(v@[j] == '\u{e4d}' && #[trigger] v@[j + 1] == '\u{e32}'),
        decreases v@.len() - i,
    {
        if v[i] == '\u{e4d}' && v[i + 1] == '\u{e32}' {
            return true;
        }
        i += 1;
    }
    false
}

/// Recomposes Sara Am: `None` when the text holds no decomposed Sara Am (it is then left as it
/// is), the recomposed text otherwise.
pub fn recompose_sara_am(s: &str) -> (r: Option<String>)
    ensures
        r is None <==> !has_decomposed_sara_am(s@),
        r matches Some(t) ==> t@ == spec_recompose_sara_am(s@),
        r is None ==> spec_recompose_sara_am(s@) == s@,
{
    let v = chars_of(s);
    if !find_decomposed_sara_am(v.as_slice()) {
        proof {
            lemma_recompose_unchanged(s@);
        }
        return None;
    }
    let mut out = String::new();
    let mut i: usize = 0;
    assert(v@.skip(0) =~= v@);
    while i < v.len()
        invariant
            v@ == s@,
            i <= v@.len(),
            out@ + spec_recompose_sara_am(v@.skip(i as int)) == spec_recompose_sara_am(v@),
        decreases v@.len() - i,
    {
        let ghost rest = v@.skip(i as int);
        let ghost before = out@;
        if v[i] == '\u{e4d}' && i + 1 < v.len() && v[i + 1] == '\u{e32}' {
            push_char(&mut out, '\u{e33}');
            proof {
                assert(rest.skip(2) =~= v@.skip(i + 2));
                assert(out@ + spec_recompose_sara_am(v@.skip(i + 2)) =~= before + (seq!['\u{e33}'] + spec_recompose_sara_am(rest.skip(2))));
            }
            i += 2;
        } else {
            push_char(&mut out, v[i]);
            proof {
                assert(rest.drop_first() =~= v@.skip(i + 1));
                assert(out@ + spec_recompose_sara_am(v@.skip(i + 1)) =~= before + (seq![rest[0]] + spec_recompose_sara_am(rest.drop_first())));
            }
            i += 1;
        }
    }
    assert(v@.skip(i as int) =~= Seq::<char>::empty());
    assert(out@ + Seq::<char>::empty() =~= out@);
    Some(out)
}

impl ThaiNormalizer {
    /// Puts Sara Am back together in the lemma. When the lemma changes, its char map no longer
    /// fits it and is dropped; an unchanged token keeps its char map.
    pub fn normalize(&self, token: Token, options: &NormalizerOption) -> (result: Token)
        ensures
            result.kind == token.kind,
            result.char_start == token.char_start,
            result.char_end == token.char_end,
            result.byte_start == token.byte_start,
            result.byte_end == token.byte_end,
            result.script == token.script,
            result.language == token.language,
            result.lemma@ == spec_recompose_sara_am(token.lemma@),
            has_decomposed_sara_am(token.lemma@) ==> result.char_map is None,
            !has_decomposed_sara_am(token.lemma@) ==> result.char_map == token.char_map,
    {
        let mut token = token;
        match recompose_sara_am(token.lemma.as_str()) {
            None => {},
            Some(recomposed) => {
                token.lemma = recomposed;
                token.char_map = None;
            },
        }
        token
    }

    /// The normalizer applies to Thai tokens.
    pub fn should_normalize(&self, token: &Token) -> (b: bool)
        ensures
            b == (token.script == Script::Thai),
    {
        token.script == Script::Thai
    }
}

} // verus!
