use vstd::prelude::*;
use vstd::string::StringExecFns;

use super::NormalizerOption;
use crate::detection::{Language, Script};
use crate::kvariants::{kvariant_of, KVariant, KVariants};
use crate::text::{chars_of, push_char};
use crate::token::Token;
use crate::unicode::{
    is_japanese, is_katakana, pinyin, spec_is_japanese, spec_is_katakana, spec_pinyin,
    spec_str_is_hiragana, spec_to_hiragana, str_is_hiragana, to_hiragana,
};

verus! {

/// A normalizer for Chinese and Japanese text: Katakana becomes Hiragana, other Japanese
/// characters are kept, the ideographic telegraph line feed separator '〷' is removed, and any
/// other character is replaced by the pinyin of its kVariant (or its own pinyin), or by its
/// kVariant when neither has a pinyin.
pub struct CjkNormalizer {
    pub kvariants: KVariants,
}

/// What the normalizer makes of one character, and whether the character is dropped.
pub open spec fn spec_normalize_cjk(kvariants: Map<u32, KVariant>, c: char) -> (Seq<char>, bool) {
    if spec_is_japanese(c) {
        if spec_is_katakana(c) {
            (spec_to_hiragana(seq![c]), false)
        } else {
            (seq![c], false)
        }
    } else if c == '〷' {
        (Seq::empty(), true)
    } else {
        let k = super::chinese::spec_kvariant_of(kvariants, c);
        match spec_pinyin(k) {
            Some(p) => (p, false),
            None => match spec_pinyin(c) {
                Some(p) => (p, false),
                None => (seq![k], false),
            },
        }
    }
}

/// What the normalizer makes of a text: the normalized characters that are kept, in order.
pub open spec fn spec_cjk_text(kvariants: Map<u32, KVariant>, s: Seq<char>) -> Seq<char>
    decreases s.len(),
{
    if s.len() == 0 {
        Seq::empty()
    } else {
        let last = spec_normalize_cjk(kvariants, s.last());
        spec_cjk_text(kvariants, s.drop_last()) + if last.1 {
            Seq::empty()
        } else {
            last.0
        }
    }
}

/// Normalizes one character: its normalized form, and whether it is dropped.
fn normalize_cjk(kvariants: &KVariants, c: char) -> (r: (String, bool))
    ensures
        r.0@ == spec_normalize_cjk(kvariants@, c).0,
        r.1 == spec_normalize_cjk(kvariants@, c).1,
{
    if is_japanese(c) {
        let mut single = String::new();
        push_char(&mut single, c);
        assert(single@ =~= seq![c]);
        if is_katakana(c) {
            (to_hiragana(single.as_str()), false)
        } else {
            (single, false)
        }
    } else if c == '〷' {
        (String::new(), true)
    } else {
        let kvariant = match kvariant_of(kvariants, c) {
            Some(v) => v.destination_ideograph,
            None => c,
        };
        match pinyin(kvariant) {
            Some(p) => (String::from_str(p), false),
            None => match pinyin(c) {
                Some(p) => (String::from_str(p), false),
                None => {
                    let mut single = String::new();
                    push_char(&mut single, kvariant);
                    assert(single@ =~= seq![kvariant]);
                    (single, false)
                },
            },
        }
    }
}

impl CjkNormalizer {
    /// Normalizes each character of the lemma; the lemma is replaced only when the result is not
    /// empty.
    pub fn normalize(&self, token: Token, options: &NormalizerOption) -> (result: Token)
        ensures
            spec_cjk_text(self.kvariants@, token.lemma@).len() > 0 ==> result.lemma@ == spec_cjk_text(
                self.kvariants@,
                token.lemma@,
            ),
            spec_cjk_text(self.kvariants@, token.lemma@).len() == 0 ==> result.lemma == token.lemma,
            result.kind == token.kind,
            result.char_start == token.char_start,
            result.char_end == token.char_end,
            result.byte_start == token.byte_start,
            result.byte_end == token.byte_end,
            result.char_map == token.char_map,
            result.script == token.script,
            result.language == token.language,
    {
        let mut token = token;
        let v = chars_of(token.lemma.as_str());
        let mut new_lemma = String::new();
        let mut i: usize = 0;
        while i < v.len()
            invariant
                i <= v@.len(),
                new_lemma@ == spec_cjk_text(self.kvariants@, v@.take(i as int)),
            decreases v@.len() - i,
        {
            let c = v[i];
            assert(v@[i as int] == c);
            let (normalized, skip_char) = normalize_cjk(&self.kvariants, c);
            if !skip_char {
                new_lemma.append(normalized.as_str());
            }
            proof {
                let t = v@.take(i + 1);
                assert(t.drop_last() =~= v@.take(i as int));
                assert(t.last() == c);
                if skip_char {
                    assert(new_lemma@ =~= new_lemma@ + Seq::<char>::empty());
                }
            }
            i += 1;
        }
        assert(v@.take(v@.len() as int) =~= v@);
        if !new_lemma.as_str().is_empty() {
            token.lemma = new_lemma;
        }
        token
    }

    /// The normalizer applies to CJ tokens that are of Japanese (or unknown) language and not
    /// already Hiragana, or of Chinese (or unknown) language.
    pub fn should_normalize(&self, token: &Token) -> (b: bool)
        ensures
            b == ((token.script == Script::Cj && (token.language is None || token.language == Some(
                Language::Jpn,
            )) && !spec_str_is_hiragana(token.lemma@)) || (token.script == Script::Cj && (
            token.language is None || token.language == Some(Language::Cmn) || token.language
                == Some(Language::Zho)))),
    {
        let japanese = match token.language {
            None => true,
            Some(lang) => lang == Language::Jpn,
        };
        let chinese = match token.language {
            None => true,
            Some(lang) => lang == Language::Cmn || lang == Language::Zho,
        };
        (token.script == Script::Cj && japanese && !str_is_hiragana(token.lemma.as_str())) || (
        token.script == Script::Cj && chinese)
    }
}

} // verus!
