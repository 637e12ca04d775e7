//! Character properties from the Unicode tables of `std` and of the outside crates.
//!
//! Each table lookup is a function of its argument alone; it is named here and not spelled out.
use unicode_normalization::UnicodeNormalization;
use vstd::prelude::*;

verus! {

/// The lowercase mapping of a character (`char::to_lowercase`).
pub uninterp spec fn spec_lowercase(c: char) -> Seq<char>;

/// Whether a character has the Unicode property Uppercase (`char::is_uppercase`).
pub uninterp spec fn spec_is_uppercase(c: char) -> bool;

/// Whether a character has the Unicode property Lowercase (`char::is_lowercase`).
pub uninterp spec fn spec_is_lowercase(c: char) -> bool;

/// Whether a character has the Unicode property White_Space (`char::is_whitespace`).
pub uninterp spec fn spec_is_whitespace(c: char) -> bool;

/// Whether a character is of a numeric general category (`char::is_numeric`).
pub uninterp spec fn spec_is_numeric(c: char) -> bool;

/// Whether a character has the general category Cc (`char::is_control`).
pub uninterp spec fn spec_is_control(c: char) -> bool;

/// The compatibility decomposition (NFKD) of a character (`unicode_normalization`'s `nfkd`).
pub uninterp spec fn spec_nfkd(c: char) -> Seq<char>;

/// Whether the quick check of `unicode_normalization::is_nfkd_quick` answers `Yes` for a text.
pub uninterp spec fn spec_is_nfkd_quick_yes(s: Seq<char>) -> bool;

/// Whether a character is of the general category Mn (`finl_unicode`).
pub uninterp spec fn spec_is_mark_nonspacing(c: char) -> bool;

/// Whether a character is of the general category Lu (`finl_unicode`).
pub uninterp spec fn spec_is_letter_uppercase(c: char) -> bool;

/// Whether a character is of the general category Ll (`finl_unicode`).
pub uninterp spec fn spec_is_letter_lowercase(c: char) -> bool;

/// Whether a character is of the general category Pc (`finl_unicode`).
pub uninterp spec fn spec_is_punctuation_connector(c: char) -> bool;

/// `char::to_lowercase`, collected. The documentation of std promises one or more characters.
#[verifier::external_body]
pub(crate) fn lowercase(c: char) -> (r: Vec<char>)
    ensures
        r@ == spec_lowercase(c),
        r@.len() >= 1,
{
    c.to_lowercase().collect()
}

/// `char::is_uppercase`.
#[verifier::external_body]
pub(crate) fn is_uppercase(c: char) -> (b: bool)
    ensures
        b == spec_is_uppercase(c),
{
    c.is_uppercase()
}

/// `char::is_lowercase`.
#[verifier::external_body]
pub(crate) fn is_lowercase(c: char) -> (b: bool)
    ensures
        b == spec_is_lowercase(c),
{
    c.is_lowercase()
}

/// `char::is_whitespace`.
#[verifier::external_body]
pub(crate) fn is_whitespace(c: char) -> (b: bool)
    ensures
        b == spec_is_whitespace(c),
{
    c.is_whitespace()
}

/// `char::is_control`.
#[verifier::external_body]
pub(crate) fn is_control(c: char) -> (b: bool)
    ensures
        b == spec_is_control(c),
{
    c.is_control()
}

/// `char::is_numeric`.
#[verifier::external_body]
pub(crate) fn is_numeric(c: char) -> (b: bool)
    ensures
        b == spec_is_numeric(c),
{
    c.is_numeric()
}

/// Whether a character is ASCII punctuation (`char::is_ascii_punctuation`): one of
/// `` !"#$%&'()*+,-./:;<=>?@[\]^_`{|}~ ``.
pub open spec fn spec_is_ascii_punctuation(c: char) -> bool {
    let u = c as u32;
    (0x21 <= u && u <= 0x2F) || (0x3A <= u && u <= 0x40) || (0x5B <= u && u <= 0x60) || (0x7B
        <= u && u <= 0x7E)
}

/// Whether a character is ASCII punctuation.
pub fn is_ascii_punctuation(c: char) -> (b: bool)
    ensures
        b == spec_is_ascii_punctuation(c),
{
    let u = c as u32;
    (0x21 <= u && u <= 0x2F) || (0x3A <= u && u <= 0x40) || (0x5B <= u && u <= 0x60) || (0x7B
        <= u && u <= 0x7E)
}

/// `unicode_normalization`'s `nfkd` on a single character, collected.
#[verifier::external_body]
pub(crate) fn nfkd(c: char) -> (r: Vec<char>)
    ensures
        r@ == spec_nfkd(c),
{
    c.nfkd().collect()
}

/// Whether `unicode_normalization::is_nfkd_quick` answers `IsNormalized::Yes` for a text.
#[verifier::external_body]
pub(crate) fn is_nfkd_quick_yes(s: &str) -> (b: bool)
    ensures
        b == spec_is_nfkd_quick_yes(s@),
{
    matches!(unicode_normalization::is_nfkd_quick(s.chars()), unicode_normalization::IsNormalized::Yes)
}

/// `finl_unicode`'s `is_mark_nonspacing`.
#[verifier::external_body]
pub(crate) fn is_mark_nonspacing(c: char) -> (b: bool)
    ensures
        b == spec_is_mark_nonspacing(c),
{
    finl_unicode::categories::CharacterCategories::is_mark_nonspacing(c)
}

/// `finl_unicode`'s `is_letter_uppercase`.
#[verifier::external_body]
pub(crate) fn is_letter_uppercase(c: char) -> (b: bool)
    ensures
        b == spec_is_letter_uppercase(c),
{
    finl_unicode::categories::CharacterCategories::is_letter_uppercase(c)
}

/// `finl_unicode`'s `is_letter_lowercase`.
#[verifier::external_body]
pub(crate) fn is_letter_lowercase(c: char) -> (b: bool)
    ensures
        b == spec_is_letter_lowercase(c),
{
    finl_unicode::categories::CharacterCategories::is_letter_lowercase(c)
}

/// `finl_unicode`'s `is_punctuation_connector`.
#[verifier::external_body]
pub(crate) fn is_punctuation_connector(c: char) -> (b: bool)
    ensures
        b == spec_is_punctuation_connector(c),
{
    finl_unicode::categories::CharacterCategories::is_punctuation_connector(c)
}

/// What `wana_kana`'s `to_hiragana_with_opt` makes of a text, with `pass_romaji` set and the
/// other options at their defaults.
pub uninterp spec fn spec_to_hiragana(s: Seq<char>) -> Seq<char>;

/// Whether `wana_kana`'s `IsJapaneseStr::is_hiragana` holds of a text.
pub uninterp spec fn spec_str_is_hiragana(s: Seq<char>) -> bool;

/// Whether `wana_kana`'s `IsJapaneseChar::is_japanese` holds of a character.
pub uninterp spec fn spec_is_japanese(c: char) -> bool;

/// Whether `wana_kana`'s `IsJapaneseChar::is_katakana` holds of a character.
pub uninterp spec fn spec_is_katakana(c: char) -> bool;

/// The pinyin with tone marks that `pinyin`'s `ToPinyin` gives a character, if it knows one.
pub uninterp spec fn spec_pinyin(c: char) -> Option<Seq<char>>;

/// `wana_kana`'s `to_hiragana_with_opt`, passing romaji through.
#[verifier::external_body]
pub(crate) fn to_hiragana(s: &str) -> (r: String)
    ensures
        r@ == spec_to_hiragana(s@),
{
    wana_kana::ConvertJapanese::to_hiragana_with_opt(
        s,
        wana_kana::Options { pass_romaji: true, ..Default::default() },
    )
}

/// `wana_kana`'s `IsJapaneseStr::is_hiragana`.
#[verifier::external_body]
pub(crate) fn str_is_hiragana(s: &str) -> (b: bool)
    ensures
        b == spec_str_is_hiragana(s@),
{
    wana_kana::IsJapaneseStr::is_hiragana(&s)
}

/// `wana_kana`'s `IsJapaneseChar::is_japanese`.
#[verifier::external_body]
pub(crate) fn is_japanese(c: char) -> (b: bool)
    ensures
        b == spec_is_japanese(c),
{
    wana_kana::IsJapaneseChar::is_japanese(&c)
}

/// `wana_kana`'s `IsJapaneseChar::is_katakana`.
#[verifier::external_body]
pub(crate) fn is_katakana(c: char) -> (b: bool)
    ensures
        b == spec_is_katakana(c),
{
    wana_kana::IsJapaneseChar::is_katakana(&c)
}

/// `pinyin`'s `ToPinyin::to_pinyin` on a character, with tone marks (`with_tone`).
#[verifier::external_body]
pub(crate) fn pinyin(c: char) -> (r: Option<&'static str>)
    ensures
        match r {
            Some(p) => spec_pinyin(c) == Some(p@),
            None => spec_pinyin(c) is None,
        },
{
    pinyin::ToPinyin::to_pinyin(&c).map(|p| p.with_tone())
}

} // verus!
