//! The Arabic segmenter: word boundaries, then ASCII punctuation, then the article `ال`
//! cut off the front of a word.
use unicode_segmentation::UnicodeSegmentation;
use vstd::prelude::*;
use vstd::seq_lib::lemma_flatten_concat;

use crate::segmenter::Segmenter;
use crate::segmenter::pieces::{
    all_nonempty, append_pieces, lemma_split_prefix, no_pieces, push_piece, push_piece_char,
    split_prefix, strs,
};
use crate::text::{chars_of, string_from_chars};
use crate::unicode::{is_ascii_punctuation, spec_is_ascii_punctuation};

verus! {

/// The pieces of a text between its Unicode (UAX #29) word boundaries.
pub uninterp spec fn spec_word_bounds(text: Seq<char>) -> Seq<Seq<char>>;

/// `UnicodeSegmentation::split_word_bounds`: the text cut at its Unicode word boundaries. The
/// crate documents that the pieces concatenate to the text; where the boundaries fall is
/// named, not stated.
#[verifier::external_body]
fn split_word_bounds(s: &str) -> (pieces: Vec<String>)
    ensures
        strs(pieces@) == spec_word_bounds(s@),
        strs(pieces@).flatten() == s@,
{
    s.split_word_bounds().map(|w| w.to_string()).collect()
}

/// The pieces of `s` each ending after an ASCII punctuation character (the last may end
/// otherwise); an empty text has none.
pub open spec fn spec_punctuation_pieces(s: Seq<char>) -> Seq<Seq<char>> {
    split_prefix(s, |i: int| spec_is_ascii_punctuation(s[i - 1]), s.len() as int)
}

/// The article `ال`.
pub open spec fn article() -> Seq<char> {
    seq!['\u{0627}', '\u{0644}']
}

/// A piece with the article cut off its front: the article and the rest (possibly empty).
pub open spec fn spec_article_pieces(s: Seq<char>) -> Seq<Seq<char>> {
    if s.len() >= 2 && s.take(2) == article() {
        seq![article(), s.skip(2)]
    } else {
        seq![s]
    }
}

/// What the Arabic segmenter makes of a list of pieces after the word boundaries.
pub open spec fn arabic_pieces_of(words: Seq<Seq<char>>) -> Seq<Seq<char>>
    decreases words.len(),
{
    if words.len() == 0 {
        Seq::empty()
    } else {
        arabic_word_pieces(words[0]) + arabic_pieces_of(words.drop_first())
    }
}

/// What the Arabic segmenter makes of one word: its punctuation pieces, each with the article
/// cut off.
pub open spec fn arabic_word_pieces(w: Seq<char>) -> Seq<Seq<char>> {
    article_pieces_of(spec_punctuation_pieces(w))
}

/// The article cut off each of a list of pieces.
pub open spec fn article_pieces_of(p: Seq<Seq<char>>) -> Seq<Seq<char>>
    decreases p.len(),
{
    if p.len() == 0 {
        Seq::empty()
    } else {
        spec_article_pieces(p[0]) + article_pieces_of(p.drop_first())
    }
}

/// What the Arabic segmenter makes of `s`.
pub open spec fn spec_arabic_pieces(s: Seq<char>) -> Seq<Seq<char>> {
    arabic_pieces_of(spec_word_bounds(s))
}

/// Cuts `s` after each ASCII punctuation character (`str::split_inclusive`).
pub fn split_after_punctuation(s: &str) -> (pieces: Vec<String>)
    ensures
        strs(pieces@) == spec_punctuation_pieces(s@),
        strs(pieces@).flatten() == s@,
        all_nonempty(strs(pieces@)),
{
    let v = chars_of(s);
    let mut pieces = no_pieces();
    let ghost cut = |i: int| spec_is_ascii_punctuation(v@[i - 1]);
    let mut i: usize = 0;
    let mut after_punctuation = false;
    while i < v.len()
        invariant
            v@ == s@,
            i <= v@.len(),
            cut == (|i: int| spec_is_ascii_punctuation(v@[i - 1])),
            strs(pieces@) == split_prefix(v@, cut, i as int),
            i > 0 ==> after_punctuation == spec_is_ascii_punctuation(v@[i - 1]),
        decreases v@.len() - i,
    {
        let c = v[i];
        push_piece_char(&mut pieces, c, i > 0 && after_punctuation);
        after_punctuation = is_ascii_punctuation(c);
        i += 1;
    }
    proof {
        lemma_split_prefix(v@, cut, v@.len() as int);
        assert(v@.take(v@.len() as int) =~= v@);
    }
    pieces
}

/// Cuts the article `ال` off the front of a piece.
fn cut_article(piece: &str) -> (pieces: Vec<String>)
    ensures
        strs(pieces@) == spec_article_pieces(piece@),
        strs(pieces@).flatten() == piece@,
        piece@.len() > 0 ==> pieces@.len() <= piece@.len(),
{
    let v = chars_of(piece);
    let mut out = no_pieces();
    if v.len() >= 2 && v[0] == '\u{0627}' && v[1] == '\u{0644}' {
        let mut rest: Vec<char> = Vec::new();
        let mut i: usize = 2;
        while i < v.len()
            invariant
                2 <= i <= v@.len(),
                rest@ == v@.subrange(2, i as int),
            decreases v@.len() - i,
        {
            rest.push(v[i]);
            i += 1;
        }
        let mut head: Vec<char> = Vec::new();
        head.push('\u{0627}');
        head.push('\u{0644}');
        assert(head@ =~= article());
        push_piece(&mut out, string_from_chars(&head));
        push_piece(&mut out, string_from_chars(&rest));
        assert(v@.take(2) =~= article());
        assert(v@.skip(2) =~= rest@);
        assert(strs(out@) =~= seq![article(), v@.skip(2)]);
        proof {
            lemma_pair_flatten(article(), v@.skip(2));
            assert(article() + v@.skip(2) =~= v@);
        }
    } else {
        push_piece(&mut out, string_from_chars(&v));
        proof {
            if v@.len() >= 2 {
                assert(v@.take(2) != article()) by {
                    if v@.take(2) == article() {
                        assert(v@.take(2)[0] == v@[0]);
                        assert(v@.take(2)[1] == v@[1]);
                    }
                }
            }
        }
        assert(strs(out@) =~= seq![v@]);
        proof {
            seq![v@].lemma_flatten_one_element();
        }
    }
    out
}

/// Two pieces concatenate to their concatenation.
proof fn lemma_pair_flatten(a: Seq<char>, b: Seq<char>)
    ensures
        seq![a, b].flatten() == a + b,
{
    seq![a].lemma_flatten_one_element();
    seq![a].lemma_flatten_push(b);
    assert(seq![a].push(b) =~= seq![a, b]);
}

/// The segmenter of Arabic texts.
pub struct ArabicSegmenter;

impl Segmenter for ArabicSegmenter {
    open spec fn spec_segment(&self, s: Seq<char>) -> Seq<Seq<char>> {
        spec_arabic_pieces(s)
    }

    /// Cuts `s` at its word boundaries, then after each ASCII punctuation character, then cuts
    /// the article `ال` off the front of each piece: `الشجرة` gives `ال` and `شجرة`.
    fn segment_str(&self, s: &str) -> (pieces: Vec<String>)
        ensures
            strs(pieces@).flatten() == s@,
            pieces@.len() <= s@.len(),
    {
        let words = split_word_bounds(s);
        let ghost w = strs(words@);
        let mut out = no_pieces();
        let mut i: usize = 0;
        assert(w.skip(0) =~= w);
        assert(w.take(0) =~= Seq::<Seq<char>>::empty());
        assert(strs(out@) + arabic_pieces_of(w) =~= arabic_pieces_of(w));
        while i < words.len()
            invariant
                w == strs(words@),
                w == spec_word_bounds(s@),
                i <= words@.len(),
                strs(out@) + arabic_pieces_of(w.skip(i as int)) == arabic_pieces_of(w),
                w.flatten() == s@,
                strs(out@).flatten() == w.take(i as int).flatten(),
                out@.len() <= w.take(i as int).flatten().len(),
            decreases words@.len() - i,
        {
            let ghost before = strs(out@);
            let parts = split_after_punctuation(words[i].as_str());
            let ghost p = strs(parts@);
            let mut j: usize = 0;
            let mut word_out = no_pieces();
            assert(p.skip(0) =~= p);
            assert(p.take(0) =~= Seq::<Seq<char>>::empty());
            assert(strs(word_out@) + article_pieces_of(p) =~= article_pieces_of(p));
            while j < parts.len()
                invariant
                    p == strs(parts@),
                    j <= parts@.len(),
                    strs(word_out@) + article_pieces_of(p.skip(j as int)) == article_pieces_of(p),
                    strs(word_out@).flatten() == p.take(j as int).flatten(),
                    word_out@.len() <= p.take(j as int).flatten().len(),
                    all_nonempty(p),
                decreases parts@.len() - j,
            {
                let ghost before_word = strs(word_out@);
                assert(p[j as int].len() > 0);
                let cut = cut_article(parts[j].as_str());
                let ghost c = strs(cut@);
                append_pieces(&mut word_out, cut);
                proof {
                    lemma_flatten_concat(before_word, c);
                    assert(p.take(j + 1) =~= p.take(j as int).push(p[j as int]));
                    p.take(j as int).lemma_flatten_push(p[j as int]);
                    assert(p.skip(j as int)[0] == p[j as int]);
                    assert(p.skip(j as int).drop_first() =~= p.skip(j + 1));
                }
                j += 1;
            }
            let ghost wo = strs(word_out@);
            append_pieces(&mut out, word_out);
            proof {
                assert(p.take(j as int) =~= p);
                lemma_flatten_concat(before, wo);
                assert(w.take(i + 1) =~= w.take(i as int).push(w[i as int]));
                w.take(i as int).lemma_flatten_push(w[i as int]);
                assert(p.skip(j as int) =~= Seq::<Seq<char>>::empty());
                assert(w.skip(i as int)[0] == w[i as int]);
                assert(w.skip(i as int).drop_first() =~= w.skip(i + 1));
            }
            i += 1;
        }
        assert(w.skip(i as int) =~= Seq::<Seq<char>>::empty());
        assert(w.take(i as int) =~= w);
        out
    }
}

} // verus!
