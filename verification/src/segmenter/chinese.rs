//! The Chinese segmenter: the words that `jieba` cuts, each word of more than two characters cut
//! again into the bigrams and trigrams that its dictionary knows.
use vstd::prelude::*;
use vstd::seq_lib::lemma_flatten_concat;

use crate::segmenter::Segmenter;
use crate::segmenter::pieces::{
    all_nonempty, append_pieces, lemma_count_le_flatten, no_pieces, push_piece, strs,
};
use crate::text::{chars_of, string_from_chars};

verus! {

/// The `jieba` segmenter, with its dictionary.
#[verifier::external_type_specification]
#[verifier::external_body]
pub struct ExJieba(jieba_rs::Jieba);

/// The dictionary of a `jieba` segmenter: each word with its frequency.
pub uninterp spec fn jieba_entries(dict: jieba_rs::Jieba) -> Map<Seq<char>, usize>;

/// The words that `jieba` cuts a text into (without its hidden Markov model), for a dictionary.
pub uninterp spec fn jieba_cut(entries: Map<Seq<char>, usize>, text: Seq<char>) -> Seq<Seq<char>>;

/// `Jieba::new`: a segmenter with the dictionary that the crate embeds. Nothing is stated of
/// the dictionary's words.
#[verifier::external_body]
fn jieba_new() -> (dict: jieba_rs::Jieba) {
    jieba_rs::Jieba::new()
}

/// `Jieba::has_word`: whether the dictionary holds `word`.
#[verifier::external_body]
fn jieba_has_word(dict: &jieba_rs::Jieba, word: &str) -> (b: bool)
    ensures
        b == jieba_entries(*dict).contains_key(word@),
{
    dict.has_word(word)
}

/// `Jieba::cut` without the hidden Markov model: the words of `text`. The source shows that
/// the words are the consecutive parts of the text, none empty, so that they concatenate to
/// it; which words come out is named, not stated.
#[verifier::external_body]
fn jieba_cut_words(dict: &jieba_rs::Jieba, text: &str) -> (words: Vec<String>)
    ensures
        strs(words@) == jieba_cut(jieba_entries(*dict), text@),
        strs(words@).flatten() == text@,
        all_nonempty(strs(words@)),
{
    dict.cut(text, false).into_iter().map(|w| w.to_string()).collect()
}

/// The first `n` characters of `s`, if it has that many.
pub open spec fn spec_next_gram(s: Seq<char>, n: int) -> Option<Seq<char>> {
    if s.len() >= n {
        Some(s.take(n))
    } else {
        None
    }
}

/// The first `n` characters of `s[from..]`, if it has that many.
pub fn next_gram(s: &[char], from: usize, n: usize) -> (gram: Option<Vec<char>>)
    requires
        from <= s@.len(),
    ensures
        match gram {
            Some(g) => spec_next_gram(s@.skip(from as int), n as int) == Some(g@),
            None => spec_next_gram(s@.skip(from as int), n as int) is None,
        },
{
    if s.len() - from < n {
        return None;
    }
    let mut g: Vec<char> = Vec::new();
    let mut i: usize = 0;
    while i < n
        invariant
            from + n <= s@.len(),
            s@.len() == s.len(),
            i <= n,
            g@ == s@.skip(from as int).take(i as int),
        decreases n - i,
    {
        g.push(s[from + i]);
        assert(s@.skip(from as int).take(i + 1) =~= s@.skip(from as int).take(i as int).push(
            s@[from + i],
        ));
        i += 1;
    }
    Some(g)
}

/// The pieces that the search cut makes of `s`, greedily from the left: a bigram the
/// dictionary knows, else a trigram it knows, else one character.
pub open spec fn search_pieces(entries: Map<Seq<char>, usize>, s: Seq<char>) -> Seq<Seq<char>>
    decreases s.len(),
{
    if s.len() == 0 {
        Seq::empty()
    } else if s.len() >= 2 && entries.contains_key(s.take(2)) {
        seq![s.take(2)] + search_pieces(entries, s.skip(2))
    } else if s.len() >= 3 && entries.contains_key(s.take(3)) {
        seq![s.take(3)] + search_pieces(entries, s.skip(3))
    } else {
        seq![s.take(1)] + search_pieces(entries, s.skip(1))
    }
}

/// The text that remains after the first `k` search pieces.
pub open spec fn rest_after(p: Seq<Seq<char>>, s: Seq<char>, k: int) -> Seq<char> {
    s.skip(p.take(k).flatten().len() as int)
}

/// Whether `piece` is what the greedy search cut takes at the start of a non-empty `r`: the
/// bigram there if the dictionary knows it, else the trigram there if it knows that, else the
/// first character.
pub open spec fn greedy_piece(entries: Map<Seq<char>, usize>, r: Seq<char>, piece: Seq<char>) -> bool {
    &&& r.len() > 0
    &&& if r.len() >= 2 && entries.contains_key(r.take(2)) {
        piece == r.take(2)
    } else if r.len() >= 3 && entries.contains_key(r.take(3)) {
        piece == r.take(3)
    } else {
        piece == r.take(1)
    }
}

/// The search cut is greedy from the left, bigrams first: its pieces concatenate to the text;
/// each takes one, two or three characters of what remains; where what remains starts with a
/// bigram of the dictionary the piece is that bigram, else where it starts with a trigram of
/// the dictionary the piece is that trigram, else the piece is one character.
pub proof fn lemma_search_pieces_greedy(entries: Map<Seq<char>, usize>, s: Seq<char>)
    ensures
        search_pieces(entries, s).flatten() == s,
        forall|k: int|
            0 <= k < search_pieces(entries, s).len() ==> greedy_piece(
                entries,
                rest_after(search_pieces(entries, s), s, k),
                #[trigger] search_pieces(entries, s)[k],
            ),
    decreases s.len(),
{
    let p = search_pieces(entries, s);
    if s.len() > 0 {
        let n: int = if s.len() >= 2 && entries.contains_key(s.take(2)) {
            2
        } else if s.len() >= 3 && entries.contains_key(s.take(3)) {
            3
        } else {
            1
        };
        let tail = search_pieces(entries, s.skip(n));
        lemma_search_pieces_greedy(entries, s.skip(n));
        assert(p == seq![s.take(n)] + tail);
        vstd::seq_lib::lemma_flatten_concat(seq![s.take(n)], tail);
        seq![s.take(n)].lemma_flatten_one_element();
        assert(s.take(n) + s.skip(n) =~= s);
        assert forall|k: int| 0 <= k < p.len() implies greedy_piece(entries, rest_after(p, s, k), #[trigger] p[k]) by {
            if k == 0 {
                assert(p.take(0) =~= Seq::<Seq<char>>::empty());
                assert(rest_after(p, s, 0) =~= s);
            } else {
                assert(p[k] == tail[k - 1]);
                assert(p.take(k) =~= seq![s.take(n)] + tail.take(k - 1));
                vstd::seq_lib::lemma_flatten_concat(seq![s.take(n)], tail.take(k - 1));
                crate::tokenizer::lemma_prefix_len_bound(tail, k - 1);
                let l = tail.take(k - 1).flatten().len() as int;
                assert(p.take(k).flatten() == s.take(n) + tail.take(k - 1).flatten());
                assert(p.take(k).flatten().len() == n + l);
                assert(l <= s.skip(n).len());
                assert(s.skip(n + l) =~= s.skip(n).skip(l));
                assert(rest_after(p, s, k) =~= rest_after(tail, s.skip(n), k - 1));
            }
        }
    } else {
        assert(p =~= Seq::<Seq<char>>::empty());
    }
}

/// Where a word of more than two characters starts with a bigram of the dictionary, its search
/// cut starts with that bigram, even where a trigram of the dictionary starts there too; and no
/// piece of the cut is a trigram whose first two characters are a word of the dictionary.
pub proof fn lemma_cut_for_search_bigram_first(entries: Map<Seq<char>, usize>, s: Seq<char>)
    ensures
        s.len() > 2 && entries.contains_key(s.take(2)) ==> spec_cut_for_search(entries, s).len() > 0
            && spec_cut_for_search(entries, s)[0] == s.take(2),
        s.len() > 2 ==> forall|k: int|
            0 <= k < spec_cut_for_search(entries, s).len() && (#[trigger] spec_cut_for_search(entries, s)[k]).len()
                == 3 ==> !entries.contains_key(spec_cut_for_search(entries, s)[k].take(2)),
        s.len() > 2 ==> forall|k: int|
            0 <= k < spec_cut_for_search(entries, s).len() && (#[trigger] spec_cut_for_search(entries, s)[k]).len()
                >= 2 ==> entries.contains_key(spec_cut_for_search(entries, s)[k]),
{
    lemma_search_pieces_greedy(entries, s);
    if s.len() > 2 {
        let p = search_pieces(entries, s);
        assert forall|k: int| 0 <= k < p.len() && (#[trigger] p[k]).len() >= 2 implies entries.contains_key(p[k])
            && (p[k].len() == 3 ==> !entries.contains_key(p[k].take(2))) by {
            let r = rest_after(p, s, k);
            assert(greedy_piece(entries, r, p[k]));
            if r.len() >= 2 && entries.contains_key(r.take(2)) {
            } else if r.len() >= 3 && entries.contains_key(r.take(3)) {
                assert(p[k].take(2) =~= r.take(2));
            } else {
            }
        }
        if entries.contains_key(s.take(2)) {
            assert(p.take(0) =~= Seq::<Seq<char>>::empty());
            assert(rest_after(p, s, 0) =~= s);
            assert(p.len() > 0);
            assert(greedy_piece(entries, rest_after(p, s, 0), p[0]));
        }
    }
}

/// The search cut of a word: a word of at most two characters stays whole.
pub open spec fn spec_cut_for_search(entries: Map<Seq<char>, usize>, s: Seq<char>) -> Seq<Seq<char>> {
    if s.len() <= 2 {
        seq![s]
    } else {
        search_pieces(entries, s)
    }
}

/// Cuts a word into the bigrams and trigrams of the dictionary, greedily from the left, and
/// single characters elsewhere; a word of at most two characters stays whole.
pub fn cut_for_search(dict: &jieba_rs::Jieba, s: &str) -> (pieces: Vec<String>)
    ensures
        strs(pieces@) == spec_cut_for_search(jieba_entries(*dict), s@),
        strs(pieces@).flatten() == s@,
        s@.len() > 0 ==> all_nonempty(strs(pieces@)),
{
    let v = chars_of(s);
    let ghost entries = jieba_entries(*dict);
    let mut out = no_pieces();
    if v.len() <= 2 {
        push_piece(&mut out, string_from_chars(&v));
        assert(strs(out@) =~= seq![s@]);
        proof {
            seq![s@].lemma_flatten_one_element();
        }
        return out;
    }
    let mut index: usize = 0;
    assert(v@.skip(0) =~= v@);
    assert(v@.take(0) =~= Seq::<char>::empty());
    assert(strs(out@) + search_pieces(entries, v@) =~= search_pieces(entries, v@));
    while index < v.len()
        invariant
            entries == jieba_entries(*dict),
            index <= v@.len(),
            strs(out@) + search_pieces(entries, v@.skip(index as int)) == search_pieces(entries, v@),
            strs(out@).flatten() == v@.take(index as int),
            all_nonempty(strs(out@)),
        decreases v@.len() - index,
    {
        let ghost rest = v@.skip(index as int);
        let ghost before = strs(out@);
        let bigram = next_gram(&v, index, 2);
        let mut taken: usize = 0;
        match bigram {
            Some(g) => {
                let g_str = string_from_chars(&g);
                if jieba_has_word(dict, g_str.as_str()) {
                    push_piece(&mut out, g_str);
                    taken = 2;
                }
            },
            None => {},
        }
        if taken == 0 {
            let trigram = next_gram(&v, index, 3);
            match trigram {
                Some(g) => {
                    let g_str = string_from_chars(&g);
                    if jieba_has_word(dict, g_str.as_str()) {
                        push_piece(&mut out, g_str);
                        taken = 3;
                    }
                },
                None => {},
            }
        }
        if taken == 0 {
            let single = next_gram(&v, index, 1);
            match single {
                Some(g) => {
                    push_piece(&mut out, string_from_chars(&g));
                    taken = 1;
                },
                None => {},
            }
        }
        proof {
            assert(rest.len() > 0);
            assert(taken >= 1);
            assert(rest.skip(taken as int) =~= v@.skip(index + taken));
            assert(search_pieces(entries, rest) == seq![rest.take(taken as int)] + search_pieces(
                entries,
                rest.skip(taken as int),
            ));
            assert(strs(out@) == before.push(rest.take(taken as int)));
            assert(all_nonempty(strs(out@))) by {
                assert forall|k: int| 0 <= k < strs(out@).len() implies #[trigger] strs(out@)[k].len()
                    > 0 by {
                    if k < before.len() {
                        assert(strs(out@)[k] == before[k]);
                    }
                }
            }
            before.lemma_flatten_push(rest.take(taken as int));
            assert(v@.take(index + taken) =~= v@.take(index as int) + rest.take(taken as int));
            assert(before + search_pieces(entries, rest) =~= strs(out@) + search_pieces(
                entries,
                rest.skip(taken as int),
            ));
        }
        index = index + taken;
    }
    assert(v@.skip(index as int) =~= Seq::<char>::empty());
    assert(strs(out@) + Seq::<Seq<char>>::empty() =~= strs(out@));
    assert(v@.take(index as int) =~= v@);
    out
}

/// What the Chinese segmenter makes of a list of `jieba` words.
pub open spec fn search_pieces_of(entries: Map<Seq<char>, usize>, words: Seq<Seq<char>>) -> Seq<
    Seq<char>,
>
    decreases words.len(),
{
    if words.len() == 0 {
        Seq::empty()
    } else {
        spec_cut_for_search(entries, words[0]) + search_pieces_of(entries, words.drop_first())
    }
}

/// What the Chinese segmenter makes of `s` with a dictionary.
pub open spec fn spec_chinese_pieces(entries: Map<Seq<char>, usize>, s: Seq<char>) -> Seq<Seq<char>> {
    search_pieces_of(entries, jieba_cut(entries, s))
}

/// The segmenter of Chinese texts, with its `jieba` dictionary.
pub struct ChineseSegmenter {
    dict: jieba_rs::Jieba,
}

impl ChineseSegmenter {
    /// The dictionary of the segmenter.
    pub closed spec fn entries(&self) -> Map<Seq<char>, usize> {
        jieba_entries(self.dict)
    }

    /// A segmenter with the dictionary that `jieba` embeds.
    pub fn new() -> (segmenter: Self) {
        ChineseSegmenter { dict: jieba_new() }
    }

}

impl Segmenter for ChineseSegmenter {
    open spec fn spec_segment(&self, s: Seq<char>) -> Seq<Seq<char>> {
        spec_chinese_pieces(self.entries(), s)
    }

    /// Cuts `s` into the words of `jieba`, then each word into the bigrams and trigrams of the
    /// dictionary.
    fn segment_str(&self, s: &str) -> (pieces: Vec<String>)
        ensures
            strs(pieces@).flatten() == s@,
            pieces@.len() <= s@.len(),
    {
        let words = jieba_cut_words(&self.dict, s);
        let ghost w = strs(words@);
        let ghost entries = self.entries();
        let mut out = no_pieces();
        let mut i: usize = 0;
        assert(w.skip(0) =~= w);
        assert(w.take(0) =~= Seq::<Seq<char>>::empty());
        assert(strs(out@) + search_pieces_of(entries, w) =~= search_pieces_of(entries, w));
        while i < words.len()
            invariant
                w == strs(words@),
                entries == jieba_entries(self.dict),
                w == jieba_cut(entries, s@),
                i <= words@.len(),
                strs(out@) + search_pieces_of(entries, w.skip(i as int)) == search_pieces_of(
                    entries,
                    w,
                ),
                w.flatten() == s@,
                strs(out@).flatten() == w.take(i as int).flatten(),
                all_nonempty(w),
                all_nonempty(strs(out@)),
            decreases words@.len() - i,
        {
            let ghost before = strs(out@);
            let parts = cut_for_search(&self.dict, words[i].as_str());
            let ghost pp = strs(parts@);
            append_pieces(&mut out, parts);
            proof {
                assert(w[i as int].len() > 0);
                assert(all_nonempty(strs(out@))) by {
                    assert forall|k: int| 0 <= k < strs(out@).len() implies #[trigger] strs(out@)[k].len()
                        > 0 by {
                        if k < before.len() {
                            assert(strs(out@)[k] == before[k]);
                        } else {
                            assert(strs(out@)[k] == pp[k - before.len()]);
                        }
                    }
                }
                lemma_flatten_concat(before, pp);
                assert(w.take(i + 1) =~= w.take(i as int).push(w[i as int]));
                w.take(i as int).lemma_flatten_push(w[i as int]);
                assert(w.skip(i as int)[0] == w[i as int]);
                assert(w.skip(i as int).drop_first() =~= w.skip(i + 1));
            }
            i += 1;
        }
        assert(w.skip(i as int) =~= Seq::<Seq<char>>::empty());
        assert(w.take(i as int) =~= w);
        proof {
            lemma_count_le_flatten(strs(out@));
        }
        out
    }
}

} // verus!
