//! Tokens: the pieces of text that segmentation produces and normalization rewrites.
use vstd::prelude::*;

use crate::detection::{Language, Script};

verus! {

/// The kind of a separator token.
#[derive(Debug, Clone, Copy, PartialEq, Eq, Structural)]
pub enum SeparatorKind {
    /// A separator that ends a context, such as the end of a sentence.
    Hard,
    /// A separator inside a context, such as a space.
    Soft,
}

/// What a token is, once classified.
#[derive(Debug, Clone, Copy, PartialEq, Eq, Structural)]
pub enum TokenKind {
    Word,
    StopWord,
    Separator(SeparatorKind),
    Unknown,
}

/// A piece of text with its normalized form (`lemma`) and its position in the original text.
///
/// `char_map`, when present, holds one pair per group of original characters (a single
/// character, or the characters that a recomposition merged): the number of bytes of the
/// original group and the number of bytes that its normalized form takes in `lemma`.
#[derive(Debug, Clone, PartialEq, Eq)]
pub struct Token {
    pub kind: TokenKind,
    pub lemma: String,
    pub char_start: usize,
    pub char_end: usize,
    pub byte_start: usize,
    pub byte_end: usize,
    pub char_map: Option<Vec<(u8, u8)>>,
    pub script: Script,
    pub language: Option<Language>,
}

/// The content of a token, as mathematical values.
pub struct TokenView {
    pub kind: TokenKind,
    pub lemma: Seq<char>,
    pub char_start: usize,
    pub char_end: usize,
    pub byte_start: usize,
    pub byte_end: usize,
    pub char_map: Option<Seq<(u8, u8)>>,
    pub script: Script,
    pub language: Option<Language>,
}

impl TokenView {
    /// The same token with another lemma.
    pub open spec fn with_lemma(self, lemma: Seq<char>) -> TokenView {
        TokenView { lemma, ..self }
    }

    /// The same token with another char map.
    pub open spec fn with_char_map(self, char_map: Option<Seq<(u8, u8)>>) -> TokenView {
        TokenView { char_map, ..self }
    }

    /// The same token with another kind.
    pub open spec fn with_kind(self, kind: TokenKind) -> TokenView {
        TokenView { kind, ..self }
    }
}

impl View for Token {
    type V = TokenView;

    open spec fn view(&self) -> TokenView {
        TokenView {
            kind: self.kind,
            lemma: self.lemma@,
            char_start: self.char_start,
            char_end: self.char_end,
            byte_start: self.byte_start,
            byte_end: self.byte_end,
            char_map: match self.char_map {
                Some(m) => Some(m@),
                None => None,
            },
            script: self.script,
            language: self.language,
        }
    }
}

/// A token that holds `lemma`, with every other field at its default.
pub open spec fn spec_default_token_with(token: Token, lemma: Seq<char>) -> bool {
    &&& token.kind == TokenKind::Unknown
    &&& token.lemma@ == lemma
    &&& token.char_start == 0
    &&& token.char_end == 0
    &&& token.byte_start == 0
    &&& token.byte_end == 0
    &&& token.char_map is None
    &&& token.script == Script::Other
    &&& token.language is None
}

impl Default for Token {
    fn default() -> (token: Token)
        ensures
            spec_default_token_with(token, Seq::empty()),
    {
        Token {
            kind: TokenKind::Unknown,
            lemma: String::new(),
            char_start: 0,
            char_end: 0,
            byte_start: 0,
            byte_end: 0,
            char_map: None,
            script: Script::Other,
            language: None,
        }
    }
}

impl Token {
    /// A token holding `lemma`, with every other field at its default.
    pub fn from_lemma(lemma: String) -> (token: Token)
        ensures
            spec_default_token_with(token, lemma@),
    {
        Token {
            kind: TokenKind::Unknown,
            lemma,
            char_start: 0,
            char_end: 0,
            byte_start: 0,
            byte_end: 0,
            char_map: None,
            script: Script::Other,
            language: None,
        }
    }

    /// The normalized text of the token.
    pub fn lemma(&self) -> (lemma: &str)
        ensures
            lemma@ == self.lemma@,
    {
        self.lemma.as_str()
    }

    /// Whether the token is classified as a word.
    pub fn is_word(&self) -> (b: bool)
        ensures
            b == (self.kind == TokenKind::Word),
    {
        self.kind == TokenKind::Word
    }

    /// Whether the token is classified as a stop word.
    pub fn is_stopword(&self) -> (b: bool)
        ensures
            b == (self.kind == TokenKind::StopWord),
    {
        self.kind == TokenKind::StopWord
    }

    /// Whether the token is classified as a separator.
    pub fn is_separator(&self) -> (b: bool)
        ensures
            b == (self.kind is Separator),
    {
        match self.kind {
            TokenKind::Separator(_) => true,
            _ => false,
        }
    }

    /// The separator kind of the token, if it is a separator.
    pub fn separator_kind(&self) -> (kind: Option<SeparatorKind>)
        ensures
            kind == (match self.kind {
                TokenKind::Separator(k) => Some(k),
                _ => None,
            }),
    {
        match self.kind {
            TokenKind::Separator(k) => Some(k),
            _ => None,
        }
    }
}

} // verus!
