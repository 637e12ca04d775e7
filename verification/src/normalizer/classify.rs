use vstd::prelude::*;
use vstd::utf8::encode_utf8;

use super::NormalizerOption;
use crate::separators::{CONTEXT_SEPARATORS, DEFAULT_SEPARATORS};
use crate::text::str_eq;
use crate::token::{SeparatorKind, Token, TokenKind};

verus! {

#[verifier::external_type_specification]
#[verifier::external_body]
#[verifier::reject_recursive_types(D)]
pub struct ExFstSet<D>(fst::Set<D>);

/// The keys of an `fst::Set`.
pub uninterp spec fn fst_set_keys(set: fst::Set<Vec<u8>>) -> Set<Seq<u8>>;

/// `fst::Set::contains` with the UTF-8 bytes of `key`: whether the set holds that key.
#[verifier::external_body]
pub(crate) fn fst_set_contains(set: &fst::Set<Vec<u8>>, key: &str) -> (b: bool)
    ensures
        b == fst_set_keys(*set).contains(encode_utf8(key@)),
{
    set.contains(key)
}

/// A copy of an `fst::Set` (`fst::Set::new` on the bytes of its automaton), holding the same
/// keys.
#[verifier::external_body]
pub(crate) fn fst_set_copy(set: &fst::Set<Vec<u8>>) -> (copy: fst::Set<Vec<u8>>)
    ensures
        fst_set_keys(copy) == fst_set_keys(*set),
{
    fst::Set::new(set.as_fst().as_bytes().to_vec()).unwrap()
}

/// Classifies a token as a word, a stop word or a separator.
///
/// A token whose lemma is a stop word is a stop word; otherwise a token whose lemma is one of
/// the configured separators (the default ones when none are configured) is a separator,
/// hard when it is one of the context separators; any other token is a word.
pub struct Classifier;

/// Options of the classification.
pub struct ClassifierOption<'tb> {
    pub stop_words: Option<fst::Set<Vec<u8>>>,
    pub separators: Option<&'tb [&'tb str]>,
}

/// Whether `s` is one of the texts of `list`.
pub open spec fn is_listed(list: Seq<&str>, s: Seq<char>) -> bool {
    exists|i: int| 0 <= i < list.len() && #[trigger] list[i]@ == s
}

/// Whether `s` is one of the texts of `list`.
pub fn contains_str(list: &[&str], s: &str) -> (b: bool)
    ensures
        b == is_listed(list@, s@),
{
    let mut i: usize = 0;
    while i < list.len()
        invariant
            i <= list@.len(),
            forall|j: int| 0 <= j < i ==> #[trigger] list@[j]@ != s@,
        decreases list@.len() - i,
    {
        if str_eq(list[i], s) {
            return true;
        }
        i += 1;
    }
    false
}

/// The kind of a separator: hard when it is a context separator.
pub open spec fn spec_separator_kind(lemma: Seq<char>) -> SeparatorKind {
    if is_listed(CONTEXT_SEPARATORS@, lemma) {
        SeparatorKind::Hard
    } else {
        SeparatorKind::Soft
    }
}

/// The kind of a separator: hard when it is a context separator.
pub fn separator_kind(lemma: &str) -> (kind: SeparatorKind)
    ensures
        kind == spec_separator_kind(lemma@),
{
    if contains_str(&CONTEXT_SEPARATORS, lemma) {
        SeparatorKind::Hard
    } else {
        SeparatorKind::Soft
    }
}

/// Every context separator is a hard separator and every other text a soft one; in
/// particular a line feed, which ends a context, is a hard separator, and a line feed token is
/// classified as one with the default settings.
pub proof fn lemma_context_separators_are_hard()
    ensures
        forall|i: int|
            0 <= i < CONTEXT_SEPARATORS@.len() ==> spec_separator_kind(#[trigger] CONTEXT_SEPARATORS@[i]@)
                == SeparatorKind::Hard,
        forall|lemma: Seq<char>|
            (forall|i: int| 0 <= i < CONTEXT_SEPARATORS@.len() ==> #[trigger] CONTEXT_SEPARATORS@[i]@ != lemma)
                ==> #[trigger] spec_separator_kind(lemma) == SeparatorKind::Soft,
        spec_separator_kind(seq!['\n']) == SeparatorKind::Hard,
        spec_classify(seq!['\n'], None, None) == TokenKind::Separator(SeparatorKind::Hard),
{
    assert forall|i: int| 0 <= i < CONTEXT_SEPARATORS@.len() implies spec_separator_kind(
        #[trigger] CONTEXT_SEPARATORS@[i]@,
    ) == SeparatorKind::Hard by {
        assert(is_listed(CONTEXT_SEPARATORS@, CONTEXT_SEPARATORS@[i]@));
    }
    reveal_strlit("\u{000a}");
    assert(CONTEXT_SEPARATORS@[0]@ == seq!['\n']);
    assert(DEFAULT_SEPARATORS@[1]@ == seq!['\n']);
    assert(is_listed(CONTEXT_SEPARATORS@, seq!['\n']));
    assert(is_listed(DEFAULT_SEPARATORS@, seq!['\n']));
}

/// The kind that the classifier gives a lemma.
pub open spec fn spec_classify(
    lemma: Seq<char>,
    stop_words: Option<Set<Seq<u8>>>,
    separators: Option<Seq<&str>>,
) -> TokenKind {
    if stop_words matches Some(keys) && keys.contains(encode_utf8(lemma)) {
        TokenKind::StopWord
    } else {
        let separator = match separators {
            Some(list) => is_listed(list, lemma),
            None => is_listed(DEFAULT_SEPARATORS@, lemma),
        };
        if separator {
            TokenKind::Separator(spec_separator_kind(lemma))
        } else {
            TokenKind::Word
        }
    }
}

/// The stop word keys of the options, if any.
pub open spec fn option_stop_words(options: ClassifierOption) -> Option<Set<Seq<u8>>> {
    match options.stop_words {
        Some(set) => Some(fst_set_keys(set)),
        None => None,
    }
}

/// The separators of the options, if any.
pub open spec fn option_separators(options: ClassifierOption) -> Option<Seq<&str>> {
    match options.separators {
        Some(list) => Some(list@),
        None => None,
    }
}

impl Classifier {
    /// Classifies the token; only its kind changes.
    pub fn normalize(&self, token: Token, options: &NormalizerOption) -> (result: Token)
        ensures
            result.kind == spec_classify(
                token.lemma@,
                option_stop_words(options.classifier),
                option_separators(options.classifier),
            ),
            result.lemma == token.lemma,
            result.char_start == token.char_start,
            result.char_end == token.char_end,
            result.byte_start == token.byte_start,
            result.byte_end == token.byte_end,
            result.char_map == token.char_map,
            result.script == token.script,
            result.language == token.language,
    {
        let mut token = token;
        token.kind = TokenKind::Word;
        if let Some(stop_words) = &options.classifier.stop_words {
            if fst_set_contains(stop_words, token.lemma.as_str()) {
                token.kind = TokenKind::StopWord;
                return token;
            }
        }
        let separator = match options.classifier.separators {
            Some(separators) => contains_str(separators, token.lemma.as_str()),
            None => contains_str(&DEFAULT_SEPARATORS, token.lemma.as_str()),
        };
        if separator {
            token.kind = TokenKind::Separator(separator_kind(token.lemma.as_str()));
        }
        token
    }

    /// The classifier applies to tokens that are not classified yet.
    pub fn should_normalize(&self, token: &Token) -> (b: bool)
        ensures
            b == (token.kind == TokenKind::Unknown),
    {
        token.kind == TokenKind::Unknown
    }
}

} // verus!
