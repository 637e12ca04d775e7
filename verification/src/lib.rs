//! Charabia: a multilingual tokenizer. A text is cut into runs of one script, each run into
//! pieces by the separators and by the segmenter of its script and language, and each piece
//! becomes a token that the normalizers rewrite and classify.
pub mod detection;
pub mod kvariants;
pub mod normalizer;
pub mod segmenter;
pub mod separators;
pub mod text;
pub mod token;
pub mod tokenizer;
pub mod unicode;

pub use detection::{Language, Script};
pub use normalizer::pipeline::Normalize;
pub use segmenter::Segment;
pub use token::{SeparatorKind, Token, TokenKind};
pub use tokenizer::{Tokenize, Tokenizer, TokenizerBuilder};
