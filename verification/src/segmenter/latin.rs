//! The Latin segmenter: a Latin text is cut on camelCase boundaries (the separators have
//! already been cut out of it); the snake_case rule is kept beside it.
use vstd::prelude::*;

use crate::segmenter::Segmenter;
use crate::segmenter::pieces::{
    extend_pieces, lemma_split_prefix, no_pieces, push_piece_char, split_prefix, strs, all_nonempty,
};
use crate::text::chars_of;
use crate::unicode::{
    is_letter_lowercase, is_letter_uppercase, is_lowercase, is_mark_nonspacing,
    is_punctuation_connector, spec_is_letter_lowercase, spec_is_letter_uppercase,
    spec_is_lowercase, spec_is_mark_nonspacing, spec_is_punctuation_connector,
};

verus! {

/// Whether the letter before position `i` counts as lowercase for the camelCase rule: the
/// last character before `i` that is not a non-spacing mark decides, the first character by
/// the Lowercase property and the others by the category Ll.
pub open spec fn camel_lower_before(s: Seq<char>, i: int) -> bool
    decreases i,
{
    if i <= 1 {
        spec_is_lowercase(s[0])
    } else if spec_is_mark_nonspacing(s[i - 1]) {
        camel_lower_before(s, i - 1)
    } else {
        spec_is_letter_lowercase(s[i - 1])
    }
}

/// Whether a camelCase boundary stands before position `i`: an uppercase letter (not a
/// non-spacing mark) after a lowercase letter, or before one.
pub open spec fn camel_bound(s: Seq<char>, i: int) -> bool {
    &&& !spec_is_mark_nonspacing(s[i])
    &&& spec_is_letter_uppercase(s[i])
    &&& (camel_lower_before(s, i) || (i + 1 < s.len() && spec_is_lowercase(s[i + 1])))
}

/// The pieces of `s` cut on camelCase boundaries.
pub open spec fn spec_camel_case_pieces(s: Seq<char>) -> Seq<Seq<char>> {
    split_prefix(s, |i: int| camel_bound(s, i), s.len() as int)
}

/// Cuts `s` on camelCase boundaries: "camelCase" gives "camel" and "Case", "MongoDBError"
/// gives "Mongo", "DB" and "Error". The pieces concatenate to `s`.
pub fn split_camel_case_bounds(s: &str) -> (pieces: Vec<String>)
    ensures
        strs(pieces@) == spec_camel_case_pieces(s@),
        strs(pieces@).flatten() == s@,
        all_nonempty(strs(pieces@)),
{
    let v = chars_of(s);
    let mut pieces = no_pieces();
    let ghost cut = |i: int| camel_bound(v@, i);
    if v.len() == 0 {
        proof {
            assert(v@.take(0) =~= v@);
            lemma_split_prefix(v@, cut, 0);
        }
        return pieces;
    }
    let mut last_lower = is_lowercase(v[0]);
    push_piece_char(&mut pieces, v[0], false);
    proof {
        assert(strs(pieces@) == split_prefix(v@, cut, 1)) by {
            reveal_with_fuel(split_prefix, 2);
        }
    }
    let mut i: usize = 1;
    while i < v.len()
        invariant
            v@ == s@,
            1 <= i <= v@.len(),
            cut == (|i: int| camel_bound(v@, i)),
            strs(pieces@) == split_prefix(v@, cut, i as int),
            last_lower == camel_lower_before(v@, i as int),
        decreases v@.len() - i,
    {
        let c = v[i];
        let peek_lower = if i + 1 < v.len() {
            is_lowercase(v[i + 1])
        } else {
            false
        };
        let mark = is_mark_nonspacing(c);
        let bound = if mark {
            false
        } else {
            let upper = is_letter_uppercase(c);
            let b = (last_lower || peek_lower) && upper;
            last_lower = is_letter_lowercase(c);
            b
        };
        proof {
            assert(bound == cut(i as int));
        }
        push_piece_char(&mut pieces, c, bound);
        i += 1;
    }
    proof {
        lemma_split_prefix(v@, cut, v@.len() as int);
        assert(v@.take(v@.len() as int) =~= v@);
    }
    pieces
}

/// Whether the character before position `i` counts as an underscore for the snake_case rule:
/// the last character before `i` that is not a non-spacing mark decides.
pub open spec fn snake_connector_before(s: Seq<char>, i: int) -> bool
    decreases i,
{
    if i <= 1 {
        spec_is_punctuation_connector(s[0])
    } else if spec_is_mark_nonspacing(s[i - 1]) {
        snake_connector_before(s, i - 1)
    } else {
        spec_is_punctuation_connector(s[i - 1])
    }
}

/// Whether a snake_case boundary stands before position `i`: a change between connector
/// punctuation (such as `_`) and anything else, non-spacing marks staying with what precedes.
pub open spec fn snake_bound(s: Seq<char>, i: int) -> bool {
    !spec_is_mark_nonspacing(s[i]) && snake_connector_before(s, i) != spec_is_punctuation_connector(s[i])
}

/// The pieces of `s` cut on snake_case boundaries.
pub open spec fn spec_snake_case_pieces(s: Seq<char>) -> Seq<Seq<char>> {
    split_prefix(s, |i: int| snake_bound(s, i), s.len() as int)
}

/// Cuts `s` on snake_case boundaries: "snake_case" gives "snake", "_" and "case". The pieces
/// concatenate to `s`.
pub fn split_snake_case_bounds(s: &str) -> (pieces: Vec<String>)
    ensures
        strs(pieces@) == spec_snake_case_pieces(s@),
        strs(pieces@).flatten() == s@,
        all_nonempty(strs(pieces@)),
{
    let v = chars_of(s);
    let mut pieces = no_pieces();
    let ghost cut = |i: int| snake_bound(v@, i);
    if v.len() == 0 {
        proof {
            assert(v@.take(0) =~= v@);
            lemma_split_prefix(v@, cut, 0);
        }
        return pieces;
    }
    let mut last_connector = is_punctuation_connector(v[0]);
    push_piece_char(&mut pieces, v[0], false);
    proof {
        assert(strs(pieces@) == split_prefix(v@, cut, 1)) by {
            reveal_with_fuel(split_prefix, 2);
        }
    }
    let mut i: usize = 1;
    while i < v.len()
        invariant
            v@ == s@,
            1 <= i <= v@.len(),
            cut == (|i: int| snake_bound(v@, i)),
            strs(pieces@) == split_prefix(v@, cut, i as int),
            last_connector == snake_connector_before(v@, i as int),
        decreases v@.len() - i,
    {
        let c = v[i];
        let mark = is_mark_nonspacing(c);
        let bound = if mark {
            false
        } else {
            let connector = is_punctuation_connector(c);
            let b = last_connector != connector;
            last_connector = connector;
            b
        };
        proof {
            assert(bound == cut(i as int));
        }
        push_piece_char(&mut pieces, c, bound);
        i += 1;
    }
    proof {
        lemma_split_prefix(v@, cut, v@.len() as int);
        assert(v@.take(v@.len() as int) =~= v@);
    }
    pieces
}

/// The segmenter of Latin texts.
pub struct LatinSegmenter;

impl Segmenter for LatinSegmenter {
    open spec fn spec_segment(&self, s: Seq<char>) -> Seq<Seq<char>> {
        spec_camel_case_pieces(s)
    }

    /// Cuts a Latin text on camelCase boundaries.
    fn segment_str(&self, s: &str) -> (pieces: Vec<String>)
        ensures
            strs(pieces@).flatten() == s@,
            pieces@.len() <= s@.len(),
    {
        let pieces = split_camel_case_bounds(s);
        proof {
            crate::segmenter::pieces::lemma_count_le_flatten(strs(pieces@));
        }
        pieces
    }
}

} // verus!
