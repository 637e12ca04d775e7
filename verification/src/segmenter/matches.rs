//! Cutting a text at the matches of a pattern matcher: the matches are kept whole, and the
//! text between them is left for a segmenter.
use vstd::prelude::*;

use crate::normalizer::{byte_cut, has_byte_cut, lemma_byte_cut_unique};
use crate::segmenter::aho::matches_in_order;
use crate::segmenter::pieces::all_nonempty;
use crate::text::{
    char_len_utf8, lemma_utf8_len_take_increasing, lemma_utf8_len_take_step, string_from_chars,
    utf8_len, utf8_len_seq,
};
use crate::unicode::{is_ascii_punctuation, is_numeric, spec_is_ascii_punctuation, spec_is_numeric};

verus! {

/// How a piece of text came out of the cut at the matches.
#[derive(Debug, Clone, Copy, PartialEq, Eq, Structural)]
pub enum MatchType {
    /// Text between two matches, to be segmented further.
    Interleave,
    /// A match, or a piece that looks like a number: kept whole.
    Match,
}

/// Whether every character of `p` is numeric or ASCII punctuation.
pub open spec fn spec_maybe_number(p: Seq<char>) -> bool {
    forall|i: int| 0 <= i < p.len() ==> spec_is_numeric(#[trigger] p[i]) || spec_is_ascii_punctuation(
        p[i],
    )
}

/// Whether `text` may be a number: all its characters are numeric or ASCII punctuation.
pub fn maybe_number(text: &[char]) -> (b: bool)
    ensures
        b == spec_maybe_number(text@),
{
    let mut i: usize = 0;
    while i < text.len()
        invariant
            i <= text@.len(),
            forall|j: int| 0 <= j < i ==> spec_is_numeric(#[trigger] text@[j])
                || spec_is_ascii_punctuation(text@[j]),
        decreases text@.len() - i,
    {
        let c = text[i];
        if !is_numeric(c) && !is_ascii_punctuation(c) {
            return false;
        }
        i += 1;
    }
    true
}

/// The type of a piece: a piece that may be a number is kept whole.
pub open spec fn piece_type(p: Seq<char>, kind: MatchType) -> MatchType {
    if spec_maybe_number(p) {
        MatchType::Match
    } else {
        kind
    }
}

/// The piece `s[a..b]` with its type.
pub open spec fn tagged(s: Seq<char>, a: int, b: int, kind: MatchType) -> (Seq<char>, MatchType) {
    (s.subrange(a, b), piece_type(s.subrange(a, b), kind))
}

/// Whether every end of every byte range falls between two characters of `s`.
pub open spec fn matches_fit(s: Seq<char>, m: Seq<(usize, usize)>) -> bool {
    forall|i: int|
        0 <= i < m.len() ==> has_byte_cut(s, (#[trigger] m[i]).0 as int) && has_byte_cut(
            s,
            m[i].1 as int,
        )
}

/// The byte ranges `m` as ranges of character positions of `s`.
pub open spec fn char_ranges(s: Seq<char>, m: Seq<(usize, usize)>) -> Seq<(int, int)> {
    Seq::new(m.len(), |i: int| (byte_cut(s, m[i].0 as int), byte_cut(s, m[i].1 as int)))
}

/// The pieces of `s` from position `from` on, cut at the ranges `r` (in order, at or after
/// `from`): the text before a range (if any), then the range itself (if not empty), the text
/// after the last range (if any). As the cut does, an empty piece that ends at the end of the
/// text ends the cut.
pub open spec fn split_pieces(s: Seq<char>, r: Seq<(int, int)>, from: int) -> Seq<
    (Seq<char>, MatchType),
>
    decreases r.len(),
{
    let len = s.len() as int;
    if r.len() == 0 {
        if from < len {
            seq![tagged(s, from, len, MatchType::Interleave)]
        } else {
            Seq::empty()
        }
    } else {
        let a = r[0].0;
        let b = r[0].1;
        let after = if a < b {
            seq![tagged(s, a, b, MatchType::Match)] + split_pieces(s, r.drop_first(), b)
        } else if b < len {
            split_pieces(s, r.drop_first(), b)
        } else {
            Seq::empty()
        };
        if from < a {
            seq![tagged(s, from, a, MatchType::Interleave)] + after
        } else if a < len {
            after
        } else {
            Seq::empty()
        }
    }
}

/// The pieces of `s` cut at the matches `m` (byte ranges).
pub open spec fn spec_split_at_matches(s: Seq<char>, m: Seq<(usize, usize)>) -> Seq<
    (Seq<char>, MatchType),
> {
    split_pieces(s, char_ranges(s, m), 0)
}

/// The characters and types of a list of typed pieces.
pub open spec fn typed_views(v: Seq<(String, MatchType)>) -> Seq<(Seq<char>, MatchType)> {
    Seq::new(v.len(), |i: int| (v[i].0@, v[i].1))
}

/// The texts of a list of typed pieces.
pub open spec fn typed_texts(p: Seq<(Seq<char>, MatchType)>) -> Seq<Seq<char>> {
    Seq::new(p.len(), |i: int| p[i].0)
}

/// One more typed piece adds its text at the end of the concatenation.
proof fn lemma_typed_push(v: Seq<(String, MatchType)>, x: (String, MatchType))
    ensures
        typed_texts(typed_views(v.push(x))).flatten() == typed_texts(typed_views(v)).flatten()
            + x.0@,
        all_nonempty(typed_texts(typed_views(v))) && x.0@.len() > 0 ==> all_nonempty(
            typed_texts(typed_views(v.push(x))),
        ),
{
    let t = typed_texts(typed_views(v));
    assert(typed_texts(typed_views(v.push(x))) =~= t.push(x.0@));
    t.lemma_flatten_push(x.0@);
    if all_nonempty(t) && x.0@.len() > 0 {
        let u = typed_texts(typed_views(v.push(x)));
        assert forall|k: int| 0 <= k < u.len() implies #[trigger] u[k].len() > 0 by {
            if k < t.len() {
                assert(u[k] == t[k]);
            }
        }
    }
}

/// Walks from character position `ci` (taking `bi` bytes) to the position that takes `target`
/// bytes, if there is one.
fn advance_to(s: &[char], ci: usize, bi: usize, target: usize) -> (r: Option<usize>)
    requires
        ci <= s@.len(),
        bi == utf8_len_seq(s@.take(ci as int)),
        bi <= target <= utf8_len_seq(s@),
    ensures
        match r {
            Some(k) => ci <= k <= s@.len() && utf8_len_seq(s@.take(k as int)) == target
                && has_byte_cut(s@, target as int) && byte_cut(s@, target as int) == k,
            None => !has_byte_cut(s@, target as int),
        },
{
    let mut k = ci;
    let mut gap: usize = target - bi;
    let ghost mut bk: int = bi as int;
    proof {
        assert(s@.take(s@.len() as int) =~= s@);
    }
    while gap > 0 && k < s.len()
        invariant
            ci <= k <= s@.len(),
            bk == utf8_len_seq(s@.take(k as int)),
            bk + gap == target,
            bi <= bk,
            bi <= target <= utf8_len_seq(s@),
            bi == utf8_len_seq(s@.take(ci as int)),
            s@.take(s@.len() as int) == s@,
        decreases s@.len() - k,
    {
        proof {
            lemma_utf8_len_take_step(s@, k as int);
        }
        let l = char_len_utf8(s[k]);
        if l > gap {
            // The next character runs past the target: no prefix takes exactly that much.
            proof {
                if has_byte_cut(s@, target as int) {
                    let c = byte_cut(s@, target as int);
                    if c <= k as int {
                        if c < k {
                            lemma_utf8_len_take_increasing(s@, c, k as int);
                        }
                    } else {
                        if c > k + 1 {
                            lemma_utf8_len_take_increasing(s@, k + 1, c);
                        }
                    }
                }
            }
            return None;
        }
        gap = gap - l;
        k = k + 1;
        proof {
            bk = bk + l;
        }
    }
    if gap == 0 {
        proof {
            lemma_byte_cut_unique(s@, target as int, k as int);
        }
        Some(k)
    } else {
        // The whole text takes fewer bytes than the target: impossible.
        proof {
            assert(false);
        }
        None
    }
}

/// The matches `m` (byte ranges) as ranges of character positions of `s`, or `None` where an
/// end of a match does not fall between two characters.
pub fn to_char_ranges(s: &[char], m: &[(usize, usize)]) -> (r: Option<Vec<(usize, usize)>>)
    requires
        matches_in_order(m@, utf8_len_seq(s@) as int),
    ensures
        match r {
            None => !matches_fit(s@, m@),
            Some(v) => matches_fit(s@, m@) && v@.len() == m@.len() && forall|i: int|
                0 <= i < v@.len() ==> (#[trigger] v@[i]).0 == char_ranges(s@, m@)[i].0 && v@[i].1
                    == char_ranges(s@, m@)[i].1,
        },
{
    let mut out: Vec<(usize, usize)> = Vec::new();
    let mut ci: usize = 0;
    let mut bi: usize = 0;
    let mut i: usize = 0;
    assert(s@.take(0) =~= Seq::<char>::empty());
    while i < m.len()
        invariant
            matches_in_order(m@, utf8_len_seq(s@) as int),
            i <= m@.len(),
            ci <= s@.len(),
            bi == utf8_len_seq(s@.take(ci as int)),
            i > 0 ==> bi == m@[i - 1].1,
            i == 0 ==> bi == 0,
            out@.len() == i,
            forall|j: int|
                0 <= j < i ==> has_byte_cut(s@, (#[trigger] m@[j]).0 as int) && has_byte_cut(
                    s@,
                    m@[j].1 as int,
                ),
            forall|j: int|
                0 <= j < i ==> (#[trigger] out@[j]).0 == byte_cut(s@, m@[j].0 as int) && out@[j].1
                    == byte_cut(s@, m@[j].1 as int),
        decreases m@.len() - i,
    {
        let (a, b) = m[i];
        proof {
            assert(m@[i as int].0 <= m@[i as int].1 <= utf8_len_seq(s@));
            if i > 0 {
                assert(m@[i - 1].1 <= m@[i as int].0);
            }
        }
        let start = advance_to(s, ci, bi, a);
        match start {
            None => {
                return None;
            },
            Some(ka) => {
                let end = advance_to(s, ka, a, b);
                match end {
                    None => {
                        return None;
                    },
                    Some(kb) => {
                        out.push((ka, kb));
                        ci = kb;
                        bi = b;
                    },
                }
            },
        }
        i += 1;
    }
    Some(out)
}

/// The character ranges as pairs of integers.
pub open spec fn int_ranges(r: Seq<(usize, usize)>) -> Seq<(int, int)> {
    Seq::new(r.len(), |j: int| (r[j].0 as int, r[j].1 as int))
}

/// The piece `s[a..b]` with its type, as [`tagged`] says.
fn tagged_piece(s: &[char], a: usize, b: usize, kind: MatchType) -> (piece: (String, MatchType))
    requires
        a <= b <= s@.len(),
    ensures
        (piece.0@, piece.1) == tagged(s@, a as int, b as int, kind),
{
    let chars = slice_chars(s, a, b);
    let t = if maybe_number(&chars) {
        MatchType::Match
    } else {
        kind
    };
    (string_from_chars(&chars), t)
}

/// Cuts `s` at the character ranges `r`, as [`split_pieces`] says.
#[verifier::rlimit(40)]
pub fn split_at_ranges(s: &[char], r: &[(usize, usize)]) -> (pieces: Vec<(String, MatchType)>)
    requires
        forall|j: int| 0 <= j < r@.len() ==> (#[trigger] r@[j]).0 <= r@[j].1 <= s@.len(),
        forall|j: int, k: int| 0 <= j < k < r@.len() ==> (#[trigger] r@[j]).1 <= (#[trigger] r@[k]).0,
    ensures
        typed_views(pieces@) == split_pieces(s@, int_ranges(r@), 0),
        typed_texts(typed_views(pieces@)).flatten() == s@,
        all_nonempty(typed_texts(typed_views(pieces@))),
{
    let ghost rs = int_ranges(r@);
    let len = s.len();
    let mut out: Vec<(String, MatchType)> = Vec::new();
    let mut from: usize = 0;
    let mut i: usize = 0;
    assert(rs.skip(0) =~= rs);
    assert(typed_views(out@) + split_pieces(s@, rs, 0) =~= split_pieces(s@, rs, 0));
    loop
        invariant_except_break
            typed_views(out@) + split_pieces(s@, rs.skip(i as int), from as int) == split_pieces(
                s@,
                rs,
                0,
            ),
            typed_texts(typed_views(out@)).flatten() == s@.take(from as int),
        invariant
            rs == int_ranges(r@),
            len == s@.len(),
            i <= r@.len(),
            from <= len,
            forall|j: int| 0 <= j < r@.len() ==> (#[trigger] r@[j]).0 <= r@[j].1 <= s@.len(),
            forall|j: int, k: int|
                0 <= j < k < r@.len() ==> (#[trigger] r@[j]).1 <= (#[trigger] r@[k]).0,
            i > 0 ==> from == r@[i - 1].1,
            i == 0 ==> from == 0,
            all_nonempty(typed_texts(typed_views(out@))),
        ensures
            typed_views(out@) == split_pieces(s@, rs, 0),
            typed_texts(typed_views(out@)).flatten() == s@,
            all_nonempty(typed_texts(typed_views(out@))),
        decreases r@.len() - i,
    {
        let ghost before = typed_views(out@);
        let ghost t = rs.skip(i as int);
        if i == r.len() {
            if from < len {
                let piece = tagged_piece(s, from, len, MatchType::Interleave);
                proof {
                    lemma_typed_push(out@, piece);
                    assert(s@.take(from as int) + s@.subrange(from as int, len as int) =~= s@);
                }
                out.push(piece);
            } else {
                assert(s@.take(from as int) =~= s@);
            }
            assert(typed_views(out@) =~= before + split_pieces(s@, t, from as int));
            break ;
        }
        let (a, b) = r[i];
        proof {
            if i > 0 {
                assert(r@[i - 1].1 <= r@[i as int].0);
            }
            assert(t[0] == (a as int, b as int));
            assert(t.drop_first() =~= rs.skip(i + 1));
        }
        if from < a {
            let piece = tagged_piece(s, from, a, MatchType::Interleave);
            proof {
                lemma_typed_push(out@, piece);
                assert(s@.take(from as int) + s@.subrange(from as int, a as int) =~= s@.take(a as int));
            }
            out.push(piece);
        } else if a >= len {
            assert(typed_views(out@) =~= before + split_pieces(s@, t, from as int));
            assert(s@.take(from as int) =~= s@);
            break ;
        }
        let ghost mid = typed_views(out@);
        assert(typed_texts(typed_views(out@)).flatten() == s@.take(a as int));
        if a < b {
            let piece = tagged_piece(s, a, b, MatchType::Match);
            proof {
                lemma_typed_push(out@, piece);
                assert(s@.take(a as int) + s@.subrange(a as int, b as int) =~= s@.take(b as int));
            }
            out.push(piece);
            proof {
                assert(typed_views(out@) + split_pieces(s@, rs.skip(i + 1), b as int) =~= before
                    + split_pieces(s@, t, from as int));
            }
            from = b;
            i += 1;
        } else if b < len {
            proof {
                assert(typed_views(out@) + split_pieces(s@, rs.skip(i + 1), b as int) =~= before
                    + split_pieces(s@, t, from as int));
            }
            from = b;
            i += 1;
        } else {
            assert(typed_views(out@) =~= before + split_pieces(s@, t, from as int));
            assert(s@.take(a as int) =~= s@);
            break ;
        }
    }
    out
}

/// Cuts `s` at the matches `m` (byte ranges, in order): the text between matches, typed
/// `Interleave`, and the matches, typed `Match`; a piece that may be a number is typed
/// `Match`. `None` where an end of a match does not fall between two characters.
pub fn split_at_matches(s: &[char], m: &[(usize, usize)]) -> (pieces: Option<
    Vec<(String, MatchType)>,
>)
    requires
        matches_in_order(m@, utf8_len_seq(s@) as int),
    ensures
        match pieces {
            None => !matches_fit(s@, m@),
            Some(v) => matches_fit(s@, m@) && typed_views(v@) == spec_split_at_matches(s@, m@)
                && typed_texts(typed_views(v@)).flatten() == s@ && all_nonempty(
                typed_texts(typed_views(v@)),
            ),
        },
{
    match to_char_ranges(s, m) {
        None => None,
        Some(r) => {
            proof {
                lemma_char_ranges_ordered(s@, m@);
                assert(int_ranges(r@) =~= char_ranges(s@, m@));
            }
            Some(split_at_ranges(s, &r))
        },
    }
}

/// The character ranges of fitting matches in order are in order too.
proof fn lemma_char_ranges_ordered(s: Seq<char>, m: Seq<(usize, usize)>)
    requires
        matches_in_order(m, utf8_len_seq(s) as int),
        matches_fit(s, m),
    ensures
        forall|j: int|
            0 <= j < m.len() ==> 0 <= (#[trigger] char_ranges(s, m)[j]).0 <= char_ranges(s, m)[j].1
                <= s.len(),
        forall|j: int, k: int|
            0 <= j < k < m.len() ==> (#[trigger] char_ranges(s, m)[j]).1 <= (#[trigger] char_ranges(
                s,
                m,
            )[k]).0,
{
    assert forall|j: int|
        0 <= j < m.len() implies 0 <= (#[trigger] char_ranges(s, m)[j]).0 <= char_ranges(s, m)[j].1
        <= s.len() by {
        assert(has_byte_cut(s, m[j].0 as int) && has_byte_cut(s, m[j].1 as int));
        lemma_cut_monotone(s, m[j].0 as int, m[j].1 as int);
    }
    assert forall|j: int, k: int| 0 <= j < k < m.len() implies (#[trigger] char_ranges(
        s,
        m,
    )[j]).1 <= (#[trigger] char_ranges(s, m)[k]).0 by {
        assert(m[j].1 <= m[k].0);
        assert(has_byte_cut(s, m[j].1 as int) && has_byte_cut(s, m[k].0 as int));
        lemma_cut_monotone(s, m[j].1 as int, m[k].0 as int);
    }
}

/// Cuts at fewer bytes come at earlier characters.
proof fn lemma_cut_monotone(s: Seq<char>, x: int, y: int)
    requires
        has_byte_cut(s, x),
        has_byte_cut(s, y),
        x <= y,
    ensures
        0 <= byte_cut(s, x) <= byte_cut(s, y) <= s.len(),
{
    let cx = byte_cut(s, x);
    let cy = byte_cut(s, y);
    if cy < cx {
        lemma_utf8_len_take_increasing(s, cy, cx);
    }
}

/// The characters `s[from..to]`.
fn slice_chars(s: &[char], from: usize, to: usize) -> (v: Vec<char>)
    requires
        from <= to <= s@.len(),
    ensures
        v@ == s@.subrange(from as int, to as int),
{
    let mut v: Vec<char> = Vec::new();
    let mut i = from;
    while i < to
        invariant
            from <= i <= to <= s@.len(),
            v@ == s@.subrange(from as int, i as int),
        decreases to - i,
    {
        v.push(s[i]);
        i += 1;
    }
    v
}

} // verus!
