//! The engine shared by the normalizers that fold a letter and a following combining mark
//! into a single character.
use vstd::prelude::*;
use vstd::string::StringExecFns;

use super::{byte_cut, has_byte_cut, lemma_byte_cut_unique, NormalizerOption};
use crate::text::{
    byte_len_u8, char_len_utf8, chars_of, lemma_utf8_len_bound, lemma_utf8_len_take_increasing,
    lemma_utf8_len_take_step, push_char, utf8_len, utf8_len_seq,
};
use crate::token::Token;

verus! {

/// The pairs of characters that a recomposition folds.
pub enum Recomposition {
    /// 'A', 'a' with a ring above and 'A', 'a', 'O', 'o' with a diaeresis become the Swedish
    /// letters.
    Swedish,
    /// 'Е', 'е' with a diaeresis become 'Е', 'е'.
    Russian,
}

/// The character that a letter `c` followed by `next` folds into, if they fold.
pub open spec fn spec_fold(kind: Recomposition, c: char, next: char) -> Option<char> {
    match kind {
        Recomposition::Swedish => if c == 'A' && next == '\u{30a}' {
            Some('Å')
        } else if c == 'a' && next == '\u{30a}' {
            Some('å')
        } else if c == 'A' && next == '\u{308}' {
            Some('Ä')
        } else if c == 'a' && next == '\u{308}' {
            Some('ä')
        } else if c == 'O' && next == '\u{308}' {
            Some('Ö')
        } else if c == 'o' && next == '\u{308}' {
            Some('ö')
        } else {
            None
        },
        Recomposition::Russian => if c == 'Е' && next == '\u{308}' {
            Some('Е')
        } else if c == 'е' && next == '\u{308}' {
            Some('е')
        } else {
            None
        },
    }
}

/// The folding of a letter with the character that follows it, if any
/// (`recompose_swedish`, `normalize_russian`): the resulting character, and whether the
/// following character was consumed.
pub fn fold(kind: &Recomposition, c: char, next: Option<char>) -> (r: (char, bool))
    ensures
        match next {
            Some(n) => match spec_fold(*kind, c, n) {
                Some(f) => r == (f, true),
                None => r == (c, false),
            },
            None => r == (c, false),
        },
{
    match (kind, next) {
        (Recomposition::Swedish, Some(n)) => if c == 'A' && n == '\u{30a}' {
            ('Å', true)
        } else if c == 'a' && n == '\u{30a}' {
            ('å', true)
        } else if c == 'A' && n == '\u{308}' {
            ('Ä', true)
        } else if c == 'a' && n == '\u{308}' {
            ('ä', true)
        } else if c == 'O' && n == '\u{308}' {
            ('Ö', true)
        } else if c == 'o' && n == '\u{308}' {
            ('ö', true)
        } else {
            (c, false)
        },
        (Recomposition::Russian, Some(n)) => if c == 'Е' && n == '\u{308}' {
            ('Е', true)
        } else if c == 'е' && n == '\u{308}' {
            ('е', true)
        } else {
            (c, false)
        },
        (_, None) => (c, false),
    }
}

/// Whether the first two characters of `s` fold.
pub open spec fn folds_at_start(kind: Recomposition, s: Seq<char>) -> bool {
    s.len() >= 2 && spec_fold(kind, s[0], s[1]) is Some
}

/// `s` with each foldable pair folded, scanning from the left.
pub open spec fn spec_recompose(kind: Recomposition, s: Seq<char>) -> Seq<char>
    decreases s.len(),
{
    if s.len() == 0 {
        Seq::empty()
    } else if folds_at_start(kind, s) {
        seq![spec_fold(kind, s[0], s[1]).unwrap()] + spec_recompose(kind, s.skip(2))
    } else {
        seq![s[0]] + spec_recompose(kind, s.drop_first())
    }
}

/// Whether a character is one of the combining marks that a recomposition folds with the
/// letter before it: the diaeresis or the ring above.
pub open spec fn is_folded_mark(c: char) -> bool {
    c == '\u{308}' || c == '\u{30a}'
}

/// Recomposing a concatenation recomposes each part, when the second does not start with a
/// mark that could fold with the end of the first.
pub proof fn lemma_recompose_concat(kind: Recomposition, p: Seq<char>, r: Seq<char>)
    requires
        r.len() > 0 ==> !is_folded_mark(r[0]),
    ensures
        spec_recompose(kind, p + r) == spec_recompose(kind, p) + spec_recompose(kind, r),
    decreases p.len(),
{
    if p.len() == 0 {
        assert(p + r =~= r);
        assert(spec_recompose(kind, p) =~= Seq::<char>::empty());
        assert(Seq::<char>::empty() + spec_recompose(kind, r) =~= spec_recompose(kind, r));
    } else if p.len() >= 2 && folds_at_start(kind, p) {
        assert((p + r)[0] == p[0] && (p + r)[1] == p[1]);
        assert((p + r).skip(2) =~= p.skip(2) + r);
        lemma_recompose_concat(kind, p.skip(2), r);
        assert(spec_recompose(kind, p + r) =~= spec_recompose(kind, p) + spec_recompose(kind, r));
    } else {
        assert((p + r)[0] == p[0]);
        if p.len() >= 2 {
            assert((p + r)[1] == p[1]);
        } else if r.len() > 0 {
            assert((p + r)[1] == r[0]);
        }
        assert(!folds_at_start(kind, p + r));
        assert((p + r).drop_first() =~= p.drop_first() + r);
        lemma_recompose_concat(kind, p.drop_first(), r);
        assert(spec_recompose(kind, p + r) =~= spec_recompose(kind, p) + spec_recompose(kind, r));
    }
}

/// Recomposing `p`, a letter, a mark and `q`, where the letter and the mark fold into
/// `letter`: the two become that single letter between the recompositions of `p` and `q`.
proof fn lemma_recompose_pair(kind: Recomposition, p: Seq<char>, c: char, m: char, q: Seq<char>, letter: char)
    requires
        !is_folded_mark(c),
        spec_fold(kind, c, m) == Some(letter),
    ensures
        spec_recompose(kind, p + seq![c, m] + q) == spec_recompose(kind, p) + seq![letter] + spec_recompose(
            kind,
            q,
        ),
{
    let r = seq![c, m] + q;
    assert(p + seq![c, m] + q =~= p + r);
    lemma_recompose_concat(kind, p, r);
    assert(r[0] == c && r[1] == m);
    assert(folds_at_start(kind, r));
    assert(r.skip(2) =~= q);
}

/// The Swedish recomposition puts each Swedish letter back together wherever it stands in a
/// text: 'a' or 'A' followed by a ring above becomes 'å' or 'Å', and 'a', 'A', 'o' or 'O'
/// followed by a diaeresis becomes 'ä', 'Ä', 'ö' or 'Ö'; the text around it is recomposed on
/// its own.
pub proof fn lemma_swedish_letters_recompose(p: Seq<char>, q: Seq<char>)
    ensures
        spec_recompose(Recomposition::Swedish, p + seq!['a', '\u{30a}'] + q) == spec_recompose(
            Recomposition::Swedish,
            p,
        ) + seq!['å'] + spec_recompose(Recomposition::Swedish, q),
        spec_recompose(Recomposition::Swedish, p + seq!['A', '\u{30a}'] + q) == spec_recompose(
            Recomposition::Swedish,
            p,
        ) + seq!['Å'] + spec_recompose(Recomposition::Swedish, q),
        spec_recompose(Recomposition::Swedish, p + seq!['a', '\u{308}'] + q) == spec_recompose(
            Recomposition::Swedish,
            p,
        ) + seq!['ä'] + spec_recompose(Recomposition::Swedish, q),
        spec_recompose(Recomposition::Swedish, p + seq!['A', '\u{308}'] + q) == spec_recompose(
            Recomposition::Swedish,
            p,
        ) + seq!['Ä'] + spec_recompose(Recomposition::Swedish, q),
        spec_recompose(Recomposition::Swedish, p + seq!['o', '\u{308}'] + q) == spec_recompose(
            Recomposition::Swedish,
            p,
        ) + seq!['ö'] + spec_recompose(Recomposition::Swedish, q),
        spec_recompose(Recomposition::Swedish, p + seq!['O', '\u{308}'] + q) == spec_recompose(
            Recomposition::Swedish,
            p,
        ) + seq!['Ö'] + spec_recompose(Recomposition::Swedish, q),
{
    lemma_recompose_pair(Recomposition::Swedish, p, 'a', '\u{30a}', q, 'å');
    lemma_recompose_pair(Recomposition::Swedish, p, 'A', '\u{30a}', q, 'Å');
    lemma_recompose_pair(Recomposition::Swedish, p, 'a', '\u{308}', q, 'ä');
    lemma_recompose_pair(Recomposition::Swedish, p, 'A', '\u{308}', q, 'Ä');
    lemma_recompose_pair(Recomposition::Swedish, p, 'o', '\u{308}', q, 'ö');
    lemma_recompose_pair(Recomposition::Swedish, p, 'O', '\u{308}', q, 'Ö');
}

/// The char map of a recomposition: one pair per resulting character, the byte length of the
/// first character that it comes from and its own byte length.
pub open spec fn spec_recompose_map(kind: Recomposition, s: Seq<char>) -> Seq<(u8, u8)>
    decreases s.len(),
{
    if s.len() == 0 {
        Seq::empty()
    } else if folds_at_start(kind, s) {
        seq![(utf8_len(s[0]) as u8, utf8_len(spec_fold(kind, s[0], s[1]).unwrap()) as u8)]
            + spec_recompose_map(kind, s.skip(2))
    } else {
        seq![(utf8_len(s[0]) as u8, utf8_len(s[0]) as u8)] + spec_recompose_map(kind, s.drop_first())
    }
}

/// The lemma and char map that a recomposition makes from a lemma grouped by an existing char
/// map: each group is recomposed on its own. `None` where a group does not end on a character.
pub open spec fn recompose_groups(kind: Recomposition, s: Seq<char>, map: Seq<(u8, u8)>) -> Option<
    (Seq<char>, Seq<(u8, u8)>),
>
    decreases map.len(),
{
    if map.len() == 0 {
        Some((Seq::empty(), Seq::empty()))
    } else if !has_byte_cut(s, map[0].1 as int) {
        None
    } else {
        let k = byte_cut(s, map[0].1 as int);
        match recompose_groups(kind, s.skip(k), map.drop_first()) {
            None => None,
            Some(rest) => {
                let head = spec_recompose(kind, s.take(k));
                Some(
                    (
                        head + rest.0,
                        seq![(map[0].0, (utf8_len_seq(head) % 256) as u8)] + rest.1,
                    ),
                )
            },
        }
    }
}

/// Whether a recomposition can rewrite a token: an existing char map must group its lemma.
pub open spec fn recompose_fits(kind: Recomposition, token: Token) -> bool {
    match token.char_map {
        Some(map) => recompose_groups(kind, token.lemma@, map@) is Some,
        None => true,
    }
}

/// What a recomposition makes of a token.
pub open spec fn spec_recomposed_token(
    kind: Recomposition,
    token: Token,
    create_char_map: bool,
    result: Token,
) -> bool {
    &&& result.kind == token.kind
    &&& result.char_start == token.char_start
    &&& result.char_end == token.char_end
    &&& result.byte_start == token.byte_start
    &&& result.byte_end == token.byte_end
    &&& result.script == token.script
    &&& result.language == token.language
    &&& match token.char_map {
        Some(map) => {
            let r = recompose_groups(kind, token.lemma@, map@).unwrap();
            &&& result.lemma@ == r.0
            &&& result.char_map matches Some(m) && m@ == r.1
        },
        None => {
            &&& result.lemma@ == spec_recompose(kind, token.lemma@)
            &&& create_char_map ==> (result.char_map matches Some(m) && m@ == spec_recompose_map(
                kind,
                token.lemma@,
            ))
            &&& !create_char_map ==> result.char_map is None
        },
    }
}

/// Appends the recomposition of `v[from..to]`, and the char map of it when `map` is given.
fn push_recomposed(
    kind: &Recomposition,
    out: &mut String,
    map: &mut Vec<(u8, u8)>,
    v: &[char],
    from: usize,
    to: usize,
)
    requires
        from <= to <= v@.len(),
    ensures
        final(out)@ == old(out)@ + spec_recompose(*kind, v@.subrange(from as int, to as int)),
        final(map)@ == old(map)@ + spec_recompose_map(*kind, v@.subrange(from as int, to as int)),
{
    let ghost whole = v@.subrange(from as int, to as int);
    let mut i = from;
    assert(whole.skip(0) =~= whole);
    while i < to
        invariant
            from <= i <= to <= v@.len(),
            whole == v@.subrange(from as int, to as int),
            out@ + spec_recompose(*kind, whole.skip(i - from)) == old(out)@ + spec_recompose(*kind, whole),
            map@ + spec_recompose_map(*kind, whole.skip(i - from)) == old(map)@ + spec_recompose_map(*kind, whole),
        decreases to - i,
    {
        let ghost rest = whole.skip(i - from);
        let ghost out_before = out@;
        let ghost map_before = map@;
        let c = v[i];
        let next = if i + 1 < to {
            Some(v[i + 1])
        } else {
            None
        };
        let (folded, consumed) = fold(kind, c, next);
        push_char(out, folded);
        map.push((char_len_utf8(c) as u8, char_len_utf8(folded) as u8));
        if consumed {
            proof {
                assert(rest.skip(2) =~= whole.skip(i + 2 - from));
                assert(out@ + spec_recompose(*kind, rest.skip(2)) =~= out_before + (seq![folded] + spec_recompose(*kind, rest.skip(2))));
                assert(map@ + spec_recompose_map(*kind, rest.skip(2)) =~= map_before + (seq![(utf8_len(c) as u8, utf8_len(folded) as u8)] + spec_recompose_map(*kind, rest.skip(2))));
            }
            i += 2;
        } else {
            proof {
                assert(rest.drop_first() =~= whole.skip(i + 1 - from));
                assert(out@ + spec_recompose(*kind, rest.drop_first()) =~= out_before + (seq![c] + spec_recompose(*kind, rest.drop_first())));
                assert(map@ + spec_recompose_map(*kind, rest.drop_first()) =~= map_before + (seq![(utf8_len(c) as u8, utf8_len(c) as u8)] + spec_recompose_map(*kind, rest.drop_first())));
            }
            i += 1;
        }
    }
    assert(whole.skip(i - from) =~= Seq::<char>::empty());
    assert(out@ + Seq::<char>::empty() =~= out@);
    assert(map@ + Seq::<(u8, u8)>::empty() =~= map@);
}

/// The number of leading characters of `v[from..]` that take exactly `target` bytes.
fn cut_at(v: &[char], from: usize, target: u8) -> (end: usize)
    requires
        from <= v@.len(),
        has_byte_cut(v@.skip(from as int), target as int),
    ensures
        from <= end <= v@.len(),
        byte_cut(v@.skip(from as int), target as int) == end - from,
{
    let ghost t = v@.skip(from as int);
    let ghost k = byte_cut(t, target as int);
    let mut acc: usize = 0;
    let mut j: usize = from;
    while acc < target as usize
        invariant
            from <= j <= v@.len(),
            t == v@.skip(from as int),
            0 <= k <= t.len(),
            utf8_len_seq(t.take(k)) == target,
            acc == utf8_len_seq(t.take(j - from)),
            j - from <= k,
        decreases v@.len() - j,
    {
        proof {
            lemma_utf8_len_take_step(t, (j - from) as int);
            lemma_utf8_len_bound(t.take(k));
        }
        acc = acc + char_len_utf8(v[j]);
        j += 1;
    }
    proof {
        if j - from < k {
            lemma_utf8_len_take_increasing(t, (j - from) as int, k);
        }
        lemma_byte_cut_unique(t, target as int, (j - from) as int);
    }
    j
}

/// Rewrites a token with a recomposition.
///
/// A token with a char map has each group of its lemma recomposed on its own and the
/// normalized lengths of its map updated. A token without one gets its lemma recomposed, and a
/// char map when `create_char_map` is set.
pub fn recompose_token(kind: &Recomposition, token: Token, options: &NormalizerOption) -> (result: Token)
    requires
        recompose_fits(*kind, token),
    ensures
        spec_recomposed_token(*kind, token, options.create_char_map, result),
{
    let mut token = token;
    let old_map = token.char_map.take();
    let v = chars_of(token.lemma.as_str());
    match old_map {
        Some(map) => {
            let mut lemma = String::new();
            let mut new_map: Vec<(u8, u8)> = Vec::new();
            let mut pos: usize = 0;
            let mut i: usize = 0;
            let ghost s = v@;
            let ghost total = recompose_groups(*kind, s, map@).unwrap();
            assert(s.skip(0) =~= s);
            assert(map@.skip(0) =~= map@);
            assert(total.0 =~= lemma@ + total.0);
            assert(total.1 =~= new_map@ + total.1);
            while i < map.len()
                invariant
                    v@ == s,
                    pos <= s.len(),
                    i <= map@.len(),
                    recompose_groups(*kind, s, map@) == Some(total),
                    recompose_groups(*kind, s.skip(pos as int), map@.skip(i as int)) is Some,
                    total.0 == lemma@ + recompose_groups(*kind, s.skip(pos as int), map@.skip(i as int)).unwrap().0,
                    total.1 == new_map@ + recompose_groups(*kind, s.skip(pos as int), map@.skip(i as int)).unwrap().1,
                decreases map@.len() - i,
            {
                let (orig_len, normalized_len) = map[i];
                let ghost rest = s.skip(pos as int);
                assert(map@.skip(i as int)[0] == map@[i as int]);
                let end = cut_at(v.as_slice(), pos, normalized_len);
                let mut chunk = String::new();
                let mut unused: Vec<(u8, u8)> = Vec::new();
                push_recomposed(kind, &mut chunk, &mut unused, v.as_slice(), pos, end);
                let len = byte_len_u8(chunk.as_str());
                proof {
                    assert(rest.take(end - pos) =~= s.subrange(pos as int, end as int));
                    assert(rest.skip(end - pos) =~= s.skip(end as int));
                    assert(map@.skip(i as int).drop_first() =~= map@.skip(i + 1));
                }
                lemma.append(chunk.as_str());
                new_map.push((orig_len, len));
                pos = end;
                i += 1;
            }
            assert(map@.skip(i as int) =~= Seq::<(u8, u8)>::empty());
            assert(lemma@ =~= total.0);
            assert(new_map@ =~= total.1);
            token.lemma = lemma;
            token.char_map = Some(new_map);
        },
        None => {
            let mut lemma = String::new();
            let mut new_map: Vec<(u8, u8)> = Vec::new();
            push_recomposed(kind, &mut lemma, &mut new_map, v.as_slice(), 0, v.len());
            assert(v@.subrange(0, v@.len() as int) =~= v@);
            assert(Seq::<char>::empty() + spec_recompose(*kind, v@) =~= spec_recompose(*kind, v@));
            assert(Seq::<(u8, u8)>::empty() + spec_recompose_map(*kind, v@) =~= spec_recompose_map(*kind, v@));
            token.lemma = lemma;
            if options.create_char_map {
                token.char_map = Some(new_map);
            }
        },
    }
    token
}

} // verus!
