//! The Persian segmenter: compound words joined by a zero width non-joiner are cut apart.
use vstd::prelude::*;

use crate::segmenter::Segmenter;
use crate::segmenter::pieces::{
    all_nonempty, extend_pieces, lemma_extend_pieces, no_pieces, push_piece, push_piece_char, strs,
};
use crate::text::{chars_of, string_from_chars};

verus! {

/// The zero width non-joiner.
pub const ZWNJ: char = '\u{200c}';

/// The runs of characters other than the zero width non-joiner among the first `n` characters
/// of `s`.
pub open spec fn zwnj_runs(s: Seq<char>, n: int) -> Seq<Seq<char>>
    decreases n,
{
    if n <= 0 {
        Seq::empty()
    } else if s[n - 1] == ZWNJ {
        zwnj_runs(s, n - 1)
    } else {
        extend_pieces(zwnj_runs(s, n - 1), s[n - 1], n - 1 == 0 || s[n - 2] == ZWNJ)
    }
}

/// What the Persian segmenter makes of `s`: the non-empty parts between zero width
/// non-joiners when there is one, else `s` itself.
pub open spec fn spec_persian_pieces(s: Seq<char>) -> Seq<Seq<char>> {
    if s.contains(ZWNJ) {
        zwnj_runs(s, s.len() as int)
    } else {
        seq![s]
    }
}

/// The characters of `s` other than the zero width non-joiner.
pub open spec fn without_zwnj(s: Seq<char>) -> Seq<char> {
    s.filter(|c: char| c != ZWNJ)
}

/// The runs concatenate to the prefix without its zero width non-joiners, none is empty and
/// none holds one.
proof fn lemma_zwnj_runs(s: Seq<char>, n: int)
    requires
        0 <= n <= s.len(),
    ensures
        zwnj_runs(s, n).flatten() == without_zwnj(s.take(n)),
        all_nonempty(zwnj_runs(s, n)),
        forall|i: int| 0 <= i < zwnj_runs(s, n).len() ==> !(#[trigger] zwnj_runs(s, n)[i]).contains(ZWNJ),
    decreases n,
{
    reveal(Seq::filter);
    if n == 0 {
        assert(s.take(0) =~= Seq::<char>::empty());
    } else {
        lemma_zwnj_runs(s, n - 1);
        let p = zwnj_runs(s, n - 1);
        let c = s[n - 1];
        assert(s.take(n).drop_last() =~= s.take(n - 1));
        assert(s.take(n).last() == c);
        if c != ZWNJ {
            let new_piece = n - 1 == 0 || s[n - 2] == ZWNJ;
            lemma_extend_pieces(p, c, new_piece);
            let q = extend_pieces(p, c, new_piece);
            assert forall|i: int| 0 <= i < q.len() implies !(#[trigger] q[i]).contains(ZWNJ) by {
                if new_piece || p.len() == 0 {
                    if i < p.len() {
                        assert(q[i] == p[i]);
                    } else {
                        assert(q[i] =~= seq![c]);
                        if q[i].contains(ZWNJ) {
                            let k = choose|k: int| 0 <= k < q[i].len() && q[i][k] == ZWNJ;
                            assert(q[i][k] == c);
                        }
                    }
                } else {
                    if i < p.len() - 1 {
                        assert(q[i] == p[i]);
                    } else {
                        let last = p.last();
                        assert(q[i] == last.push(c));
                        assert(!p[p.len() - 1].contains(ZWNJ));
                        if q[i].contains(ZWNJ) {
                            let k = choose|k: int| 0 <= k < q[i].len() && q[i][k] == ZWNJ;
                            if k < last.len() {
                                assert(last[k] == ZWNJ);
                            }
                        }
                    }
                }
            }
        }
    }
}

/// The Persian segmenter leaves out the zero width non-joiners, and nothing else: its pieces
/// concatenate to the text without them, none is empty (but for an empty text) and none holds
/// one (but for a text without any).
pub proof fn lemma_persian_pieces(s: Seq<char>)
    ensures
        spec_persian_pieces(s).flatten() == without_zwnj(s),
        s.contains(ZWNJ) ==> all_nonempty(spec_persian_pieces(s)),
        forall|i: int|
            0 <= i < spec_persian_pieces(s).len() ==> !(#[trigger] spec_persian_pieces(s)[i]).contains(
                ZWNJ,
            ),
{
    lemma_zwnj_runs(s, s.len() as int);
    assert(s.take(s.len() as int) =~= s);
    if !s.contains(ZWNJ) {
        seq![s].lemma_flatten_one_element();
        lemma_filter_keeps_all(s);
    }
}

/// A text without zero width non-joiner loses nothing to the filter.
proof fn lemma_filter_keeps_all(s: Seq<char>)
    requires
        !s.contains(ZWNJ),
    ensures
        without_zwnj(s) == s,
    decreases s.len(),
{
    reveal(Seq::filter);
    if s.len() > 0 {
        assert(!s.drop_last().contains(ZWNJ)) by {
            if s.drop_last().contains(ZWNJ) {
                let k = choose|k: int| 0 <= k < s.drop_last().len() && s.drop_last()[k] == ZWNJ;
                assert(s[k] == ZWNJ);
            }
        }
        lemma_filter_keeps_all(s.drop_last());
        assert(s.last() != ZWNJ) by {
            if s.last() == ZWNJ {
                assert(s[s.len() - 1] == ZWNJ);
            }
        }
        assert(s.drop_last().push(s.last()) =~= s);
    }
}

/// The segmenter of Persian texts.
pub struct PersianSegmenter;

impl Segmenter for PersianSegmenter {
    open spec fn spec_segment(&self, s: Seq<char>) -> Seq<Seq<char>> {
        spec_persian_pieces(s)
    }

    /// Cuts `s` at each zero width non-joiner, which is left out, keeping only non-empty
    /// parts; a text without one is a single piece.
    fn segment_str(&self, s: &str) -> (pieces: Vec<String>) {
        let v = chars_of(s);
        let mut pieces = no_pieces();
        let mut found = false;
        let mut i: usize = 0;
        while i < v.len()
            invariant
                v@ == s@,
                i <= v@.len(),
                strs(pieces@) == zwnj_runs(v@, i as int),
                found == (exists|k: int| 0 <= k < i && v@[k] == ZWNJ),
            decreases v@.len() - i,
        {
            let c = v[i];
            if c == ZWNJ {
                found = true;
            } else {
                let new_piece = i == 0 || v[i - 1] == ZWNJ;
                push_piece_char(&mut pieces, c, new_piece);
            }
            i += 1;
        }
        assert(v@.take(v@.len() as int) =~= v@);
        if found {
            pieces
        } else {
            let mut whole = no_pieces();
            push_piece(&mut whole, string_from_chars(&v));
            assert(strs(whole@) =~= seq![s@]);
            whole
        }
    }
}

} // verus!
