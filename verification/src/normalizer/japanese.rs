use vstd::prelude::*;

use super::NormalizerOption;
use crate::detection::{Language, Script};
use crate::token::Token;
use crate::unicode::{spec_str_is_hiragana, spec_to_hiragana, str_is_hiragana, to_hiragana};

verus! {

/// A normalizer for Japanese: Katakana becomes Hiragana (Romaji is passed through).
///
/// The conversion keeps the number of characters, so the char map is left as it is.
pub struct JapaneseNormalizer;

/// Whether the language of a token may be Japanese.
pub open spec fn may_be_japanese(language: Option<Language>) -> bool {
    language is None || language == Some(Language::Jpn)
}

impl JapaneseNormalizer {
    /// Converts the lemma to Hiragana.
    pub fn normalize(&self, token: Token, options: &NormalizerOption) -> (result: Token)
        ensures
            result.lemma@ == spec_to_hiragana(token.lemma@),
            result.kind == token.kind,
            result.char_start == token.char_start,
            result.char_end == token.char_end,
            result.byte_start == token.byte_start,
            result.byte_end == token.byte_end,
            result.char_map == token.char_map,
            result.script == token.script,
            result.language == token.language,
    {
        let mut token = token;
        token.lemma = to_hiragana(token.lemma.as_str());
        token
    }

    /// The normalizer applies to CJ tokens of Japanese (or unknown) language that are not
    /// already Hiragana.
    pub fn should_normalize(&self, token: &Token) -> (b: bool)
        ensures
            b == (token.script == Script::Cj && may_be_japanese(token.language)
                && !spec_str_is_hiragana(token.lemma@)),
    {
        let japanese = match token.language {
            None => true,
            Some(lang) => lang == Language::Jpn,
        };
        token.script == Script::Cj && japanese && !str_is_hiragana(token.lemma.as_str())
    }
}

} // verus!
