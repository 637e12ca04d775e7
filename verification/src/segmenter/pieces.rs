//! Texts cut into pieces: the pieces are kept as strings, in order, and read as sequences of
//! characters.
use vstd::prelude::*;

use crate::text::push_char;

verus! {

/// The characters of each string, in order.
pub open spec fn strs(v: Seq<String>) -> Seq<Seq<char>> {
    Seq::new(v.len(), |i: int| v[i]@)
}

/// The pieces after one more character: `c` starts a new piece when `new_piece` holds or when
/// there is no piece yet; otherwise it ends the last piece.
pub open spec fn extend_pieces(p: Seq<Seq<char>>, c: char, new_piece: bool) -> Seq<Seq<char>> {
    if new_piece || p.len() == 0 {
        p.push(seq![c])
    } else {
        p.drop_last().push(p.last().push(c))
    }
}

/// The pieces of the first `n` characters of `s`, a new piece starting at each position
/// `0 < i < n` where `cut(i)` holds.
pub open spec fn split_prefix(s: Seq<char>, cut: spec_fn(int) -> bool, n: int) -> Seq<Seq<char>>
    decreases n,
{
    if n <= 0 {
        Seq::empty()
    } else {
        extend_pieces(split_prefix(s, cut, n - 1), s[n - 1], n - 1 > 0 && cut(n - 1))
    }
}

/// Every piece is non-empty.
pub open spec fn all_nonempty(p: Seq<Seq<char>>) -> bool {
    forall|i: int| 0 <= i < p.len() ==> #[trigger] p[i].len() > 0
}

/// One more character adds it at the end of the concatenation and keeps the pieces non-empty.
pub proof fn lemma_extend_pieces(p: Seq<Seq<char>>, c: char, new_piece: bool)
    ensures
        extend_pieces(p, c, new_piece).flatten() == p.flatten().push(c),
        extend_pieces(p, c, new_piece).len() >= 1,
        all_nonempty(p) ==> all_nonempty(extend_pieces(p, c, new_piece)),
{
    let q = extend_pieces(p, c, new_piece);
    if new_piece || p.len() == 0 {
        p.lemma_flatten_push(seq![c]);
        assert(p.flatten() + seq![c] =~= p.flatten().push(c));
    } else {
        let d = p.drop_last();
        assert(d.push(p.last()) =~= p);
        d.lemma_flatten_push(p.last());
        d.lemma_flatten_push(p.last().push(c));
        assert(d.flatten() + p.last().push(c) =~= (d.flatten() + p.last()).push(c));
        if all_nonempty(p) {
            assert forall|i: int| 0 <= i < q.len() implies #[trigger] q[i].len() > 0 by {
                if i < q.len() - 1 {
                    assert(q[i] == p[i]);
                }
            }
        }
    }
}

/// The pieces of a prefix concatenate to the prefix and are non-empty.
pub proof fn lemma_split_prefix(s: Seq<char>, cut: spec_fn(int) -> bool, n: int)
    requires
        0 <= n <= s.len(),
    ensures
        split_prefix(s, cut, n).flatten() == s.take(n),
        all_nonempty(split_prefix(s, cut, n)),
        n > 0 ==> split_prefix(s, cut, n).len() >= 1,
    decreases n,
{
    if n == 0 {
        assert(s.take(0) =~= Seq::<char>::empty());
    } else {
        lemma_split_prefix(s, cut, n - 1);
        lemma_extend_pieces(split_prefix(s, cut, n - 1), s[n - 1], n - 1 > 0 && cut(n - 1));
        assert(s.take(n - 1).push(s[n - 1]) =~= s.take(n));
    }
}

/// Non-empty pieces are no more than their characters.
pub proof fn lemma_count_le_flatten(p: Seq<Seq<char>>)
    requires
        all_nonempty(p),
    ensures
        p.len() <= p.flatten().len(),
    decreases p.len(),
{
    if p.len() > 0 {
        assert(all_nonempty(p.drop_first())) by {
            assert forall|i: int| 0 <= i < p.drop_first().len() implies #[trigger] p.drop_first()[i].len()
                > 0 by {
                assert(p.drop_first()[i] == p[i + 1]);
            }
        }
        lemma_count_le_flatten(p.drop_first());
        assert(p[0].len() > 0);
    }
}

/// An empty list of pieces.
pub fn no_pieces() -> (v: Vec<String>)
    ensures
        strs(v@) == Seq::<Seq<char>>::empty(),
{
    let v: Vec<String> = Vec::new();
    assert(strs(v@) =~= Seq::<Seq<char>>::empty());
    v
}

/// Adds a character to a list of pieces, as [`extend_pieces`] says.
pub fn push_piece_char(pieces: &mut Vec<String>, c: char, new_piece: bool)
    ensures
        strs(final(pieces)@) == extend_pieces(strs(old(pieces)@), c, new_piece),
{
    let ghost p = strs(pieces@);
    if new_piece || pieces.len() == 0 {
        let mut s = String::new();
        push_char(&mut s, c);
        pieces.push(s);
        assert(strs(pieces@) =~= p.push(seq![c]));
    } else {
        let mut last = pieces.pop().unwrap();
        push_char(&mut last, c);
        pieces.push(last);
        assert(strs(pieces@) =~= p.drop_last().push(p.last().push(c)));
    }
}

/// Adds a whole piece at the end of a list of pieces.
pub fn push_piece(pieces: &mut Vec<String>, piece: String)
    ensures
        strs(final(pieces)@) == strs(old(pieces)@).push(piece@),
{
    let ghost p = strs(pieces@);
    pieces.push(piece);
    assert(strs(pieces@) =~= p.push(piece@));
}

/// Adds the pieces of `more` at the end of `pieces`.
pub fn append_pieces(pieces: &mut Vec<String>, more: Vec<String>)
    ensures
        strs(final(pieces)@) == strs(old(pieces)@) + strs(more@),
{
    let ghost p = strs(pieces@);
    let ghost m = strs(more@);
    let mut more = more;
    pieces.append(&mut more);
    assert(strs(pieces@) =~= p + m);
}

} // verus!
