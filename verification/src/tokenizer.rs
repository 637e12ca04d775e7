//! The tokenizer: segmentation followed by normalization, with the settings of a builder.
use vstd::prelude::*;

use crate::detection::{allow_view, Language};
use crate::kvariants::KVariants;
use crate::normalizer::classify::{fst_set_copy, ClassifierOption};
use crate::normalizer::pipeline::{lemma_normalize_keeps, normalize_token_with, spec_normalize_with};
use crate::normalizer::NormalizerOption;
use crate::segmenter::aho::{aho_builds, patterns_nonempty, str_views, PatternMatcher};
use crate::segmenter::chinese::ChineseSegmenter;
use crate::segmenter::pieces::strs;
use crate::segmenter::{
    lemma_segment_some, lemma_segment_tokens_tile, single_script, segment_fits, tokens_tile, segment_texts, segment_token_view, segment_token_views, segment_views, segment_with_matcher, spec_segment,
    token_views, tokens_from_segments, SegmentView,
};
use crate::separators::{default_patterns, nonempty_texts, push_nonempty, DEFAULT_SEPARATORS};
use crate::text::{chars_of, utf8_len_seq};
use crate::token::{Token, TokenView};

verus! {

/// The tokens after normalization, `None` where one of them cannot be normalized.
pub open spec fn normalize_views(ts: Seq<TokenView>, options: NormalizerOption) -> Option<Seq<TokenView>>
    decreases ts.len(),
{
    if ts.len() == 0 {
        Some(Seq::empty())
    } else {
        match (spec_normalize_with(ts[0], options), normalize_views(ts.drop_first(), options)) {
            (Some(a), Some(b)) => Some(seq![a] + b),
            _ => None,
        }
    }
}

/// The tokens of a text: its pieces as tokens, each normalized.
pub open spec fn spec_tokenize(
    text: Seq<char>,
    patterns: Seq<Seq<char>>,
    allow: Option<Seq<Language>>,
    entries: Map<Seq<char>, usize>,
    options: NormalizerOption,
) -> Option<Seq<TokenView>> {
    match spec_segment(text, patterns, allow, entries) {
        None => None,
        Some(v) => normalize_views(segment_token_views(v), options),
    }
}

/// The tokens of a text as they come out of segmentation, not normalized.
pub open spec fn spec_segment_tokens(
    text: Seq<char>,
    patterns: Seq<Seq<char>>,
    allow: Option<Seq<Language>>,
    entries: Map<Seq<char>, usize>,
) -> Option<Seq<TokenView>> {
    match spec_segment(text, patterns, allow, entries) {
        None => None,
        Some(v) => Some(segment_token_views(v)),
    }
}

/// Normalizes each token in turn.
#[verifier::spinoff_prover]
#[verifier::rlimit(40)]
fn normalize_all(tokens: Vec<Token>, options: &NormalizerOption) -> (result: Option<Vec<Token>>)
    ensures
        match result {
            Some(v) => normalize_views(token_views(tokens@), *options) == Some(token_views(v@)),
            None => normalize_views(token_views(tokens@), *options) is None,
        },
{
    let ghost all = token_views(tokens@);
    let mut pending = tokens;
    let mut rev: Vec<Token> = Vec::new();
    // Take the tokens from the back so that each is moved out once.
    while pending.len() > 0
        invariant
            token_views(pending@) + token_views(rev@).reverse() == all,
            all == token_views(tokens@),
        decreases pending.len(),
    {
        let ghost before_tokens = token_views(pending@);
        let ghost before_rev = token_views(rev@);
        let t = pending.pop().unwrap();
        rev.push(t);
        proof {
            assert(token_views(pending@) =~= before_tokens.drop_last());
            assert(token_views(rev@) =~= before_rev.push(before_tokens.last()));
            assert(token_views(rev@).reverse() =~= seq![before_tokens.last()] + before_rev.reverse());
            assert(token_views(pending@) + token_views(rev@).reverse() =~= before_tokens
                + before_rev.reverse());
        }
    }
    assert(token_views(pending@) =~= Seq::<TokenView>::empty());
    assert(token_views(rev@).reverse() =~= all);
    let mut out: Vec<Token> = Vec::new();
    let ghost mut done: Seq<TokenView> = Seq::empty();
    assert(all.skip(0) =~= all);
    while rev.len() > 0
        invariant
            token_views(rev@).reverse() == all.skip(done.len() as int),
            all == token_views(tokens@),
            done.len() <= all.len(),
            normalize_views(all, *options) is Some <==> normalize_views(
                all.skip(done.len() as int),
                *options,
            ) is Some,
            normalize_views(all.skip(done.len() as int), *options) is Some ==> normalize_views(
                all,
                *options,
            ).unwrap() == token_views(out@) + normalize_views(
                all.skip(done.len() as int),
                *options,
            ).unwrap(),
        decreases rev.len(),
    {
        let ghost rest = all.skip(done.len() as int);
        let ghost before_rev = token_views(rev@);
        let t = rev.pop().unwrap();
        proof {
            assert(token_views(rev@) =~= before_rev.drop_last());
            assert(rest[0] == t@) by {
                assert(before_rev.reverse()[0] == before_rev.last());
            }
            assert(rest.drop_first() =~= all.skip(done.len() as int + 1));
            assert(token_views(rev@).reverse() =~= rest.drop_first());
        }
        let ghost tv = t@;
        match normalize_token_with(t, options) {
            None => {
                assert(spec_normalize_with(rest[0], *options) is None);
                assert(normalize_views(rest, *options) is None);
                return None;
            },
            Some(n) => {
                let ghost before_out = token_views(out@);
                out.push(n);
                proof {
                    assert(token_views(out@) =~= before_out.push(n@));
                    if normalize_views(all.skip(done.len() as int + 1), *options) is Some {
                        assert(token_views(out@) + normalize_views(all.skip(done.len() as int + 1), *options).unwrap()
                            =~= before_out + normalize_views(rest, *options).unwrap());
                    }
                    done = done.push(n@);
                }
            },
        }
    }
    proof {
        assert(all.skip(done.len() as int).len() == 0);
        assert(all.skip(done.len() as int) =~= Seq::<TokenView>::empty());
        assert(token_views(out@) + Seq::<TokenView>::empty() =~= token_views(out@));
    }
    Some(out)
}

/// The tokens of a list of pairs.
pub open spec fn pair_tokens(v: Seq<(String, Token)>) -> Seq<TokenView> {
    Seq::new(v.len(), |i: int| v[i].1@)
}

/// The texts of a list of pairs.
pub open spec fn pair_texts(v: Seq<(String, Token)>) -> Seq<Seq<char>> {
    Seq::new(v.len(), |i: int| v[i].0@)
}

/// Normalization keeps the offsets of a token.
pub proof fn lemma_normalize_keeps_offsets(t: TokenView, options: NormalizerOption)
    ensures
        spec_normalize_with(t, options) matches Some(r) ==> r.char_start == t.char_start
            && r.char_end == t.char_end && r.byte_start == t.byte_start && r.byte_end == t.byte_end,
{
    lemma_normalize_keeps(t, options);
}

/// Without char maps asked for, a token that has none is always normalized.
pub proof fn lemma_normalize_without_char_map(t: TokenView, options: NormalizerOption)
    requires
        t.char_map is None,
        !options.create_char_map,
    ensures
        spec_normalize_with(t, options) is Some,
{
    lemma_normalize_keeps(t, options);
}

/// Without char maps asked for, a list of tokens that have none is always normalized.
pub proof fn lemma_normalize_views_without_char_map(ts: Seq<TokenView>, options: NormalizerOption)
    requires
        forall|i: int| 0 <= i < ts.len() ==> (#[trigger] ts[i]).char_map is None,
        !options.create_char_map,
    ensures
        normalize_views(ts, options) is Some,
    decreases ts.len(),
{
    if ts.len() > 0 {
        lemma_normalize_without_char_map(ts[0], options);
        assert forall|i: int| 0 <= i < ts.drop_first().len() implies (#[trigger] ts.drop_first()[i]).char_map
            is None by {
            assert(ts.drop_first()[i] == ts[i + 1]);
        }
        lemma_normalize_views_without_char_map(ts.drop_first(), options);
    }
}

/// Without char maps asked for, a text is tokenized exactly when it is segmented.
pub proof fn lemma_tokenize_some(
    text: Seq<char>,
    patterns: Seq<Seq<char>>,
    allow: Option<Seq<Language>>,
    entries: Map<Seq<char>, usize>,
    options: NormalizerOption,
)
    requires
        !options.create_char_map,
    ensures
        spec_tokenize(text, patterns, allow, entries, options) is Some <==> segment_fits(text, patterns),
{
    lemma_segment_some(text, patterns, allow, entries);
    if let Some(v) = spec_segment(text, patterns, allow, entries) {
        let ts = segment_token_views(v);
        assert forall|i: int| 0 <= i < ts.len() implies (#[trigger] ts[i]).char_map is None by {
            assert(ts[i] == segment_token_view(v, i));
        }
        lemma_normalize_views_without_char_map(ts, options);
    }
}

/// The normalization of a list of tokens normalizes each token.
pub proof fn lemma_normalize_views_each(ts: Seq<TokenView>, options: NormalizerOption)
    ensures
        normalize_views(ts, options) matches Some(ns) ==> ns.len() == ts.len() && forall|i: int|
            0 <= i < ts.len() ==> spec_normalize_with(ts[i], options) == Some(#[trigger] ns[i]),
    decreases ts.len(),
{
    if ts.len() > 0 {
        lemma_normalize_views_each(ts.drop_first(), options);
        if normalize_views(ts, options) is Some {
            let ns = normalize_views(ts, options).unwrap();
            let rest = normalize_views(ts.drop_first(), options).unwrap();
            assert forall|i: int| 0 <= i < ts.len() implies spec_normalize_with(ts[i], options)
                == Some(#[trigger] ns[i]) by {
                if i > 0 {
                    assert(ts[i] == ts.drop_first()[i - 1]);
                    assert(ns[i] == rest[i - 1]);
                }
            }
        }
    }
}

/// The piece at position `i` stands in the concatenation of the pieces right after the
/// pieces before it.
pub proof fn lemma_piece_in_text(texts: Seq<Seq<char>>, i: int)
    requires
        0 <= i < texts.len(),
    ensures
        texts.flatten().subrange(
            texts.take(i).flatten().len() as int,
            (texts.take(i).flatten().len() + texts[i].len()) as int,
        ) == texts[i],
{
    let a = texts.take(i);
    let b = texts.skip(i + 1);
    assert(texts =~= a.push(texts[i]) + b);
    vstd::seq_lib::lemma_flatten_concat(a.push(texts[i]), b);
    a.lemma_flatten_push(texts[i]);
    assert(texts.flatten() =~= a.flatten() + texts[i] + b.flatten());
}

/// The bytes of each piece are the bytes of the text between the byte offsets of its token,
/// once normalized.
proof fn lemma_normalized_pieces_bytes(v: Seq<SegmentView>, nv: Seq<TokenView>, options: NormalizerOption)
    requires
        utf8_len_seq(segment_texts(v).flatten()) <= usize::MAX,
        nv.len() == v.len(),
        forall|i: int|
            0 <= i < v.len() ==> spec_normalize_with(#[trigger] segment_token_views(v)[i], options) == Some(nv[i]),
    ensures
        forall|i: int|
            0 <= i < v.len() ==> vstd::utf8::encode_utf8((#[trigger] v[i]).0) == vstd::utf8::encode_utf8(
                segment_texts(v).flatten(),
            ).subrange(nv[i].byte_start as int, nv[i].byte_end as int),
{
    let tv = segment_token_views(v);
    assert forall|i: int| 0 <= i < v.len() implies vstd::utf8::encode_utf8((#[trigger] v[i]).0)
        == vstd::utf8::encode_utf8(segment_texts(v).flatten()).subrange(
        nv[i].byte_start as int,
        nv[i].byte_end as int,
    ) by {
        crate::segmenter::lemma_segment_token_in_text(v, i);
        assert(tv[i] == segment_token_view(v, i));
        assert(spec_normalize_with(tv[i], options) == Some(nv[i]));
        lemma_normalize_keeps_offsets(tv[i], options);
        assert(tv[i] == segment_token_view(v, i));
    }
}

/// A prefix of the pieces is no longer than all of them.
pub proof fn lemma_prefix_len_bound(texts: Seq<Seq<char>>, i: int)
    requires
        0 <= i < texts.len(),
    ensures
        texts.take(i).flatten().len() + texts[i].len() <= texts.flatten().len(),
{
    lemma_piece_in_text(texts, i);
    let a = texts.take(i);
    let b = texts.skip(i + 1);
    assert(texts =~= a.push(texts[i]) + b);
    vstd::seq_lib::lemma_flatten_concat(a.push(texts[i]), b);
    a.lemma_flatten_push(texts[i]);
}

/// The options of the segmentation: a custom automaton of patterns, and the languages allowed
/// during detection.
pub struct SegmenterOption<'tb> {
    pub aho: Option<PatternMatcher>,
    pub allow_list: Option<&'tb [Language]>,
}

/// A tokenizer with its settings: the patterns that cut texts before the segmenters (the
/// separators, and the words of a dictionary), the allowed languages, the Chinese dictionary
/// and the options of the normalization.
pub struct Tokenizer<'tb> {
    normalizer_option: NormalizerOption<'tb>,
    matcher: PatternMatcher,
    allow_list: Option<&'tb [Language]>,
    chinese: ChineseSegmenter,
}

impl<'tb> Tokenizer<'tb> {
    /// No pattern of a tokenizer is empty.
    #[verifier::type_invariant]
    spec fn patterns_are_nonempty(&self) -> bool {
        patterns_nonempty(self.matcher.patterns())
    }

    /// The patterns that cut a text before its segmenter.
    pub closed spec fn patterns(&self) -> Seq<Seq<char>> {
        self.matcher.patterns()
    }

    /// The languages allowed during detection, if restricted.
    pub closed spec fn allowed(&self) -> Option<Seq<Language>> {
        allow_view(self.allow_list)
    }

    /// The dictionary of the Chinese segmenter.
    pub closed spec fn entries(&self) -> Map<Seq<char>, usize> {
        self.chinese.entries()
    }

    /// The options of the normalization.
    pub closed spec fn options(&self) -> NormalizerOption<'tb> {
        self.normalizer_option
    }

    /// The tokens of `original`, normalized and classified. `None` only where a char map stops
    /// grouping a lemma, which cannot happen without char maps: the patterns of a tokenizer are
    /// never empty, so their matches fall between two characters.
    pub fn tokenize(&self, original: &str) -> (tokens: Option<Vec<Token>>)
        ensures
            match tokens {
                Some(v) => spec_tokenize(original@, self.patterns(), self.allowed(), self.entries(), self.options())
                    == Some(token_views(v@)),
                None => spec_tokenize(original@, self.patterns(), self.allowed(), self.entries(), self.options()) is None,
            },
            tokens matches Some(v) ==> v@.len() <= original@.len(),
            !self.options().create_char_map ==> tokens is Some,
    {
        proof {
            use_type_invariant(self);
        }
        self.tokenize_with_allow_list(original, self.allow_list)
    }

    /// The tokens of `original`, with the given languages allowed during detection.
    pub fn tokenize_with_allow_list(&self, original: &str, allow_list: Option<&[Language]>) -> (tokens:
        Option<Vec<Token>>)
        ensures
            match tokens {
                Some(v) => spec_tokenize(original@, self.patterns(), allow_view(allow_list), self.entries(), self.options())
                    == Some(token_views(v@)),
                None => spec_tokenize(original@, self.patterns(), allow_view(allow_list), self.entries(), self.options()) is None,
            },
            tokens matches Some(v) ==> v@.len() <= original@.len(),
            !self.options().create_char_map ==> tokens is Some,
    {
        proof {
            use_type_invariant(self);
            if !self.options().create_char_map {
                lemma_tokenize_some(original@, self.patterns(), allow_view(allow_list), self.entries(), self.options());
                lemma_segment_some(original@, self.patterns(), allow_view(allow_list), self.entries());
            }
        }
        crate::text::str_len_fits(original);
        let segmented = match self.segment_with_allow_list(original, allow_list) {
            Some(t) => t,
            None => {
                return None;
            },
        };
        let ghost ts = token_views(segmented@);
        let normalized = normalize_all(segmented, &self.normalizer_option);
        proof {
            lemma_normalize_views_each(ts, self.normalizer_option);
            if normalized is Some {
                assert(token_views(normalized.unwrap()@).len() == ts.len());
            }
        }
        normalized
    }

    /// The tokens of `original` as segmentation makes them, not normalized nor classified.
    pub fn segment(&self, original: &str) -> (tokens: Option<Vec<Token>>)
        ensures
            match tokens {
                Some(v) => spec_segment_tokens(original@, self.patterns(), self.allowed(), self.entries())
                    == Some(token_views(v@)),
                None => spec_segment_tokens(original@, self.patterns(), self.allowed(), self.entries()) is None,
            },
            tokens matches Some(v) ==> tokens_tile(token_views(v@), original@),
            tokens matches Some(v) ==> v@.len() <= original@.len(),
            tokens is Some,
    {
        proof {
            use_type_invariant(self);
        }
        self.segment_with_allow_list(original, self.allow_list)
    }

    /// The tokens of `original` as segmentation makes them, with the given languages allowed
    /// during detection.
    pub fn segment_with_allow_list(&self, original: &str, allow_list: Option<&[Language]>) -> (tokens:
        Option<Vec<Token>>)
        ensures
            match tokens {
                Some(v) => spec_segment_tokens(original@, self.patterns(), allow_view(allow_list), self.entries())
                    == Some(token_views(v@)),
                None => spec_segment_tokens(original@, self.patterns(), allow_view(allow_list), self.entries()) is None,
            },
            tokens matches Some(v) ==> v@.len() <= original@.len(),
            tokens matches Some(v) ==> tokens_tile(token_views(v@), original@),
            tokens is Some,
    {
        proof {
            use_type_invariant(self);
        }
        crate::text::str_len_fits(original);
        match segment_with_matcher(original, &self.matcher, allow_list, &self.chinese) {
            None => None,
            Some(segments) => {
                let ghost n = segments@.len();
                proof {
                    lemma_segment_tokens_tile(segment_views(segments@));
                }
                let tokens = tokens_from_segments(segments);
                assert(token_views(tokens@).len() == n);
                Some(tokens)
            },
        }
    }

    /// The pieces of `original` as segmentation cuts them; they concatenate to `original`.
    pub fn segment_str(&self, original: &str) -> (pieces: Option<Vec<String>>)
        ensures
            match pieces {
                Some(v) => spec_segment(original@, self.patterns(), self.allowed(), self.entries()) matches Some(s)
                    && strs(v@) == segment_texts(s),
                None => spec_segment(original@, self.patterns(), self.allowed(), self.entries()) is None,
            },
            pieces matches Some(v) ==> strs(v@).flatten() == original@,
            pieces matches Some(v) ==> forall|k: int| 0 <= k < v@.len() ==> single_script(#[trigger] strs(v@)[k]),
            pieces is Some,
    {
        proof {
            use_type_invariant(self);
        }
        match segment_with_matcher(original, &self.matcher, self.allow_list, &self.chinese) {
            None => None,
            Some(segments) => {
                let ghost v = segment_views(segments@);
                let mut out: Vec<String> = Vec::new();
                let mut i: usize = 0;
                while i < segments.len()
                    invariant
                        v == segment_views(segments@),
                        i <= segments@.len(),
                        strs(out@) == segment_texts(v).take(i as int),
                    decreases segments@.len() - i,
                {
                    let ghost before = strs(out@);
                    let piece = segments[i].0.clone();
                    out.push(piece);
                    proof {
                        assert(piece@ == v[i as int].0);
                        assert(strs(out@) =~= before.push(piece@));
                        assert(segment_texts(v).take(i + 1) =~= segment_texts(v).take(i as int).push(v[i as int].0));
                        assert(strs(out@) =~= segment_texts(v).take(i + 1));
                    }
                    i += 1;
                }
                assert forall|k: int| 0 <= k < out@.len() implies single_script(#[trigger] strs(out@)[k]) by {
                    assert(strs(out@)[k] == segment_texts(v)[k]);
                }
                assert(segment_texts(v).take(i as int) =~= segment_texts(v));
                Some(out)
            },
        }
    }

    /// The tokens of `original`, each with the part of `original` that it comes from: the
    /// parts are the pieces of the segmentation, so that each is `original` between the
    /// token's character offsets and they concatenate to `original`.
    pub fn reconstruct(&self, original: &str) -> (pairs: Option<Vec<(String, Token)>>)
        ensures
            match pairs {
                Some(v) => spec_tokenize(original@, self.patterns(), self.allowed(), self.entries(), self.options())
                    == Some(pair_tokens(v@)),
                None => spec_tokenize(original@, self.patterns(), self.allowed(), self.entries(), self.options()) is None,
            },
            pairs matches Some(v) ==> pair_texts(v@).flatten() == original@,
            pairs matches Some(v) ==> forall|i: int|
                0 <= i < v@.len() ==> (#[trigger] v@[i]).0@ == original@.subrange(
                    v@[i].1.char_start as int,
                    v@[i].1.char_end as int,
                ),
            pairs matches Some(v) ==> forall|i: int|
                0 <= i < v@.len() ==> vstd::utf8::encode_utf8((#[trigger] v@[i]).0@) == vstd::utf8::encode_utf8(
                    original@,
                ).subrange(v@[i].1.byte_start as int, v@[i].1.byte_end as int),
            !self.options().create_char_map ==> pairs is Some,
    {
        proof {
            use_type_invariant(self);
        }
        crate::text::str_len_fits(original);
        let segments = match segment_with_matcher(original, &self.matcher, self.allow_list, &self.chinese) {
            Some(s) => s,
            None => {
                return None;
            },
        };
        let ghost v = segment_views(segments@);
        let mut pieces: Vec<String> = Vec::new();
        let mut i: usize = 0;
        while i < segments.len()
            invariant
                v == segment_views(segments@),
                i <= segments@.len(),
                pieces@.len() == i,
                forall|j: int| 0 <= j < i ==> (#[trigger] pieces@[j])@ == v[j].0,
            decreases segments@.len() - i,
        {
            pieces.push(segments[i].0.clone());
            i += 1;
        }
        let tokens = tokens_from_segments(segments);
        let ghost tv = token_views(tokens@);
        let normalized = match normalize_all(tokens, &self.normalizer_option) {
            Some(n) => n,
            None => {
                proof {
                    if !self.options().create_char_map {
                        lemma_tokenize_some(original@, self.patterns(), self.allowed(), self.entries(), self.options());
                        lemma_segment_some(original@, self.patterns(), self.allowed(), self.entries());
                    }
                }
                return None;
            },
        };
        proof {
            lemma_normalize_views_each(tv, self.normalizer_option);
        }
        let ghost nv = token_views(normalized@);
        let mut out: Vec<(String, Token)> = Vec::new();
        let mut pieces = pieces;
        let mut normalized = normalized;
        // Pair them from the back, then put the pairs in order.
        let mut rev: Vec<(String, Token)> = Vec::new();
        while pieces.len() > 0
            invariant
                pieces@.len() == normalized@.len(),
                pieces@.len() + rev@.len() == v.len(),
                nv.len() == v.len(),
                forall|j: int| 0 <= j < pieces@.len() ==> (#[trigger] pieces@[j])@ == v[j].0,
                forall|j: int| 0 <= j < normalized@.len() ==> (#[trigger] normalized@[j])@ == nv[j],
                forall|j: int|
                    0 <= j < rev@.len() ==> (#[trigger] rev@[j]).0@ == v[v.len() - 1 - j].0
                        && rev@[j].1@ == nv[v.len() - 1 - j],
            decreases pieces@.len(),
        {
            let p = pieces.pop().unwrap();
            let t = normalized.pop().unwrap();
            rev.push((p, t));
        }
        while rev.len() > 0
            invariant
                rev@.len() + out@.len() == v.len(),
                nv.len() == v.len(),
                forall|j: int|
                    0 <= j < rev@.len() ==> (#[trigger] rev@[j]).0@ == v[v.len() - 1 - j].0
                        && rev@[j].1@ == nv[v.len() - 1 - j],
                forall|j: int|
                    0 <= j < out@.len() ==> (#[trigger] out@[j]).0@ == v[j].0 && out@[j].1@ == nv[j],
            decreases rev@.len(),
        {
            let pair = rev.pop().unwrap();
            out.push(pair);
        }
        proof {
            assert(pair_tokens(out@) =~= nv);
            assert(pair_texts(out@) =~= segment_texts(v));
            assert forall|i: int| 0 <= i < out@.len() implies (#[trigger] out@[i]).0@
                == original@.subrange(out@[i].1.char_start as int, out@[i].1.char_end as int) by {
                let texts = segment_texts(v);
                lemma_piece_in_text(texts, i);
                lemma_prefix_len_bound(texts, i);
                crate::text::lemma_utf8_len_bound(original@);
                assert(texts.flatten() == original@);
                assert(tv[i] == segment_token_view(v, i));
                assert(spec_normalize_with(tv[i], self.normalizer_option) == Some(nv[i]));
                lemma_normalize_keeps_offsets(tv[i], self.normalizer_option);
                assert(out@[i].1@ == nv[i]);
                assert(nv[i].char_start == tv[i].char_start);
                assert(tv[i].char_start == texts.take(i).flatten().len());
                assert(tv[i].char_end == texts.take(i).flatten().len() + texts[i].len());
            }
            lemma_normalized_pieces_bytes(v, nv, self.normalizer_option);
            assert forall|i: int| 0 <= i < out@.len() implies vstd::utf8::encode_utf8((#[trigger] out@[i]).0@)
                == vstd::utf8::encode_utf8(original@).subrange(
                out@[i].1.byte_start as int,
                out@[i].1.byte_end as int,
            ) by {
                assert(out@[i].1@ == nv[i]);
                assert(out@[i].0@ == v[i].0);
            }
        }
        Some(out)
    }
}

} // verus!

verus! {


/// The patterns of a builder's settings: with separators alone, those; with a dictionary of
/// words, the words then the separators (the default ones when none are configured); the empty
/// texts left out. `None` when neither is configured.
pub open spec fn custom_patterns<'a>(separators: Option<Seq<&'a str>>, words: Option<Seq<&'a str>>) -> Option<
    Seq<&'a str>,
> {
    match (separators, words) {
        (Some(seps), None) => Some(nonempty_texts(seps)),
        (seps, Some(ws)) => Some(
            nonempty_texts(
                ws + match seps {
                    Some(x) => x,
                    None => DEFAULT_SEPARATORS@,
                },
            ),
        ),
        (None, None) => None,
    }
}

/// The patterns that a tokenizer built with these settings cuts texts at: the custom ones when
/// there are any, else the default separators.
pub open spec fn effective_patterns(separators: Option<Seq<&str>>, words: Option<Seq<&str>>) -> Seq<
    Seq<char>,
> {
    match custom_patterns(separators, words) {
        Some(p) => if p.len() > 0 {
            str_views(p)
        } else {
            default_patterns()
        },
        None => default_patterns(),
    }
}


/// Builds a tokenizer with custom settings.
pub struct TokenizerBuilder<'tb> {
    words_dict: Option<&'tb [&'tb str]>,
    normalizer_option: NormalizerOption<'tb>,
    allow_list: Option<&'tb [Language]>,
}

impl<'tb> TokenizerBuilder<'tb> {
    /// The configured separators, if any.
    pub closed spec fn separators_view(&self) -> Option<Seq<&'tb str>> {
        match self.normalizer_option.classifier.separators {
            Some(list) => Some(list@),
            None => None,
        }
    }

    /// The configured dictionary of words, if any.
    pub closed spec fn words_view(&self) -> Option<Seq<&'tb str>> {
        match self.words_dict {
            Some(list) => Some(list@),
            None => None,
        }
    }

    /// The configured allowed languages, if any.
    pub closed spec fn allowed(&self) -> Option<Seq<Language>> {
        allow_view(self.allow_list)
    }

    /// The options of the normalization.
    pub closed spec fn options(&self) -> NormalizerOption<'tb> {
        self.normalizer_option
    }

    /// A builder with the default settings: no stop words, the default separators, no
    /// dictionary, no char map, lossy normalization, no restriction of languages.
    pub fn new() -> (builder: Self)
        ensures
            builder.separators_view() is None,
            builder.words_view() is None,
            builder.allowed() is None,
            builder.options().classifier.stop_words is None,
            builder.options().classifier.separators is None,
            !builder.options().create_char_map,
            builder.options().lossy,
            builder.options().kvariants is None,
    {
        TokenizerBuilder {
            words_dict: None,
            normalizer_option: NormalizerOption {
                create_char_map: false,
                classifier: ClassifierOption { stop_words: None, separators: None },
                lossy: true,
                kvariants: None,
            },
            allow_list: None,
        }
    }

    /// The words that will be classified as stop words.
    pub fn stop_words(&mut self, stop_words: &'tb fst::Set<Vec<u8>>) -> (builder: &mut Self)
        ensures
            builder.options().classifier.stop_words matches Some(set)
                && crate::normalizer::classify::fst_set_keys(set)
                == crate::normalizer::classify::fst_set_keys(*stop_words),
            builder.options().classifier.separators == old(self).options().classifier.separators,
            builder.options().create_char_map == old(self).options().create_char_map,
            builder.options().lossy == old(self).options().lossy,
            builder.separators_view() == old(self).separators_view(),
            builder.words_view() == old(self).words_view(),
            builder.allowed() == old(self).allowed(),
            builder.options().kvariants == old(self).options().kvariants,
            *final(self) == *final(builder),
    {
        self.normalizer_option.classifier.stop_words = Some(fst_set_copy(stop_words));
        self
    }

    /// The texts that separate words and are classified as separators.
    pub fn separators(&mut self, separators: &'tb [&'tb str]) -> (builder: &mut Self)
        ensures
            builder.separators_view() == Some(separators@),
            builder.options().classifier.separators == Some(separators),
            builder.options().classifier.stop_words == old(self).options().classifier.stop_words,
            builder.options().create_char_map == old(self).options().create_char_map,
            builder.options().lossy == old(self).options().lossy,
            builder.words_view() == old(self).words_view(),
            builder.allowed() == old(self).allowed(),
            builder.options().kvariants == old(self).options().kvariants,
            *final(self) == *final(builder),
    {
        self.normalizer_option.classifier.separators = Some(separators);
        self
    }

    /// The words that are found (and kept whole) before any segmentation by language.
    pub fn words_dict(&mut self, words: &'tb [&'tb str]) -> (builder: &mut Self)
        ensures
            builder.words_view() == Some(words@),
            builder.options() == old(self).options(),
            builder.separators_view() == old(self).separators_view(),
            builder.allowed() == old(self).allowed(),
            *final(self) == *final(builder),
    {
        self.words_dict = Some(words);
        self
    }

    /// Whether tokens get a char map.
    pub fn create_char_map(&mut self, create_char_map: bool) -> (builder: &mut Self)
        ensures
            builder.options().create_char_map == create_char_map,
            builder.options().classifier == old(self).options().classifier,
            builder.options().lossy == old(self).options().lossy,
            builder.separators_view() == old(self).separators_view(),
            builder.words_view() == old(self).words_view(),
            builder.allowed() == old(self).allowed(),
            builder.options().kvariants == old(self).options().kvariants,
            *final(self) == *final(builder),
    {
        self.normalizer_option.create_char_map = create_char_map;
        self
    }

    /// Whether the lossy normalizers run.
    pub fn lossy_normalization(&mut self, lossy: bool) -> (builder: &mut Self)
        ensures
            builder.options().lossy == lossy,
            builder.options().classifier == old(self).options().classifier,
            builder.options().create_char_map == old(self).options().create_char_map,
            builder.separators_view() == old(self).separators_view(),
            builder.words_view() == old(self).words_view(),
            builder.allowed() == old(self).allowed(),
            builder.options().kvariants == old(self).options().kvariants,
            *final(self) == *final(builder),
    {
        self.normalizer_option.lossy = lossy;
        self
    }

    /// The table of ideograph variants that the Chinese normalizer uses.
    pub fn kvariants(&mut self, kvariants: &'tb KVariants) -> (builder: &mut Self)
        ensures
            builder.options().kvariants == Some(kvariants),
            builder.options().classifier == old(self).options().classifier,
            builder.options().create_char_map == old(self).options().create_char_map,
            builder.options().lossy == old(self).options().lossy,
            builder.separators_view() == old(self).separators_view(),
            builder.words_view() == old(self).words_view(),
            builder.allowed() == old(self).allowed(),
            *final(self) == *final(builder),
    {
        self.normalizer_option.kvariants = Some(kvariants);
        self
    }

    /// The languages that detection may choose from.
    pub fn allow_list(&mut self, allow_list: &'tb [Language]) -> (builder: &mut Self)
        ensures
            builder.allowed() == Some(allow_list@),
            builder.options() == old(self).options(),
            builder.separators_view() == old(self).separators_view(),
            builder.words_view() == old(self).words_view(),
            *final(self) == *final(builder),
    {
        self.allow_list = Some(allow_list);
        self
    }

    /// The tokenizer of these settings: its patterns are the custom separators and words when
    /// some are configured (and not all empty), else the default separators. `None` where an
    /// automaton of the patterns cannot be built.
    pub fn build(&self) -> (tokenizer: Option<Tokenizer<'tb>>)
        ensures
            tokenizer is Some <==> aho_builds(effective_patterns(self.separators_view(), self.words_view())),
            tokenizer matches Some(t) ==> {
                &&& t.patterns() == effective_patterns(self.separators_view(), self.words_view())
                &&& t.allowed() == self.allowed()
                &&& t.options().create_char_map == self.options().create_char_map
                &&& t.options().lossy == self.options().lossy
                &&& t.options().kvariants == self.options().kvariants
                &&& t.options().classifier.separators == self.options().classifier.separators
                &&& crate::normalizer::classify::option_stop_words(t.options().classifier)
                    == crate::normalizer::classify::option_stop_words(self.options().classifier)
            },
    {
        let mut patterns: Vec<&str> = Vec::new();
        let custom = match (self.normalizer_option.classifier.separators, self.words_dict) {
            (Some(separators), None) => {
                push_nonempty(&mut patterns, separators);
                true
            },
            (separators, Some(words)) => {
                push_nonempty(&mut patterns, words);
                match separators {
                    Some(list) => push_nonempty(&mut patterns, list),
                    None => push_nonempty(&mut patterns, DEFAULT_SEPARATORS.as_slice()),
                }
                true
            },
            (None, None) => false,
        };
        proof {
            Seq::filter_distributes_over_add(
                self.words_dict.unwrap_or(&[])@,
                match self.normalizer_option.classifier.separators {
                    Some(x) => x@,
                    None => DEFAULT_SEPARATORS@,
                },
                |p: &str| p@.len() > 0,
            );
        }
        let matcher = if custom && patterns.len() > 0 {
            PatternMatcher::new(patterns.as_slice())
        } else {
            let mut defaults: Vec<&str> = Vec::new();
            push_nonempty(&mut defaults, DEFAULT_SEPARATORS.as_slice());
            PatternMatcher::new(defaults.as_slice())
        };
        let matcher = match matcher {
            Some(m) => m,
            None => {
                return None;
            },
        };
        assert(patterns_nonempty(matcher.patterns()));
        let stop_words = match &self.normalizer_option.classifier.stop_words {
            Some(set) => Some(fst_set_copy(set)),
            None => None,
        };
        Some(
            Tokenizer {
                normalizer_option: NormalizerOption {
                    create_char_map: self.normalizer_option.create_char_map,
                    classifier: ClassifierOption {
                        stop_words,
                        separators: self.normalizer_option.classifier.separators,
                    },
                    lossy: self.normalizer_option.lossy,
                    kvariants: self.normalizer_option.kvariants,
                },
                matcher,
                allow_list: self.allow_list,
                chinese: ChineseSegmenter::new(),
            },
        )
    }

    /// The tokenizer of these settings, consuming the builder.
    pub fn into_tokenizer(self) -> (tokenizer: Option<Tokenizer<'tb>>)
        ensures
            tokenizer is Some <==> aho_builds(effective_patterns(self.separators_view(), self.words_view())),
            tokenizer matches Some(t) ==> {
                &&& t.patterns() == effective_patterns(self.separators_view(), self.words_view())
                &&& t.allowed() == self.allowed()
                &&& t.options().create_char_map == self.options().create_char_map
                &&& t.options().lossy == self.options().lossy
                &&& t.options().kvariants == self.options().kvariants
                &&& t.options().classifier.separators == self.options().classifier.separators
                &&& crate::normalizer::classify::option_stop_words(t.options().classifier)
                    == crate::normalizer::classify::option_stop_words(self.options().classifier)
            },
    {
        self.build()
    }
}

impl<'tb> Default for TokenizerBuilder<'tb> {
    fn default() -> (builder: Self)
        ensures
            builder.separators_view() is None,
            builder.words_view() is None,
            builder.allowed() is None,
            builder.options().classifier.stop_words is None,
            builder.options().classifier.separators is None,
            !builder.options().create_char_map,
            builder.options().lossy,
            builder.options().kvariants is None,
    {
        Self::new()
    }
}

} // verus!

verus! {

/// The options of the default normalization: no char map, lossy normalization, no stop words,
/// the default separators.
pub open spec fn default_normalizer_option<'a>() -> NormalizerOption<'a> {
    NormalizerOption {
        create_char_map: false,
        classifier: ClassifierOption { stop_words: None, separators: None },
        lossy: true,
        kvariants: None,
    }
}

/// Tokenization of a text with the default settings.
pub trait Tokenize {
    /// The tokens of the text, normalized and classified.
    fn tokenize(&self) -> Option<Vec<Token>>;

    /// The tokens of the text, each with the part of the text that it comes from.
    fn reconstruct(&self) -> Option<Vec<(String, Token)>>;
}

impl<'o> Tokenize for &'o str {
    /// The tokens are what [`spec_tokenize`] says with the default separators and options and
    /// the embedded dictionary of `jieba`. `None` exactly where the automaton of the default
    /// separators cannot be built.
    fn tokenize(&self) -> (tokens: Option<Vec<Token>>)
        ensures
            aho_builds(default_patterns()) ==> tokens is Some,
            tokens is Some <==> aho_builds(default_patterns()) && segment_fits(
                (*self)@,
                default_patterns(),
            ),
            tokens matches Some(v) ==> v@.len() <= (*self)@.len() && v@.len() <= utf8_len_seq(
                (*self)@,
            ),
            tokens matches Some(v) ==> exists|entries: Map<Seq<char>, usize>|
                #[trigger] spec_tokenize(
                    (*self)@,
                    default_patterns(),
                    None,
                    entries,
                    default_normalizer_option(),
                ) == Some(token_views(v@)),
    {
        let tokenizer = match TokenizerBuilder::default().build() {
            Some(t) => t,
            None => {
                return None;
            },
        };
        assert(tokenizer.options() == default_normalizer_option());
        let tokens = tokenizer.tokenize(*self);
        proof {
            lemma_tokenize_some((*self)@, tokenizer.patterns(), tokenizer.allowed(), tokenizer.entries(), tokenizer.options());
            crate::text::lemma_utf8_len_bound((*self)@);
            if tokens is Some {
                assert(spec_tokenize(
                    (*self)@,
                    default_patterns(),
                    None,
                    tokenizer.entries(),
                    default_normalizer_option(),
                ) == Some(token_views(tokens.unwrap()@)));
            }
        }
        tokens
    }

    /// The tokens with the parts of the text they come from; the parts concatenate to the
    /// text.
    fn reconstruct(&self) -> (pairs: Option<Vec<(String, Token)>>)
        ensures
            aho_builds(default_patterns()) ==> pairs is Some,
            pairs is Some <==> aho_builds(default_patterns()) && segment_fits(
                (*self)@,
                default_patterns(),
            ),
            pairs matches Some(v) ==> pair_texts(v@).flatten() == (*self)@,
            pairs matches Some(v) ==> forall|i: int|
                0 <= i < v@.len() ==> (#[trigger] v@[i]).0@ == (*self)@.subrange(
                    v@[i].1.char_start as int,
                    v@[i].1.char_end as int,
                ) && vstd::utf8::encode_utf8(v@[i].0@) == vstd::utf8::encode_utf8((*self)@).subrange(
                    v@[i].1.byte_start as int,
                    v@[i].1.byte_end as int,
                ),
            pairs matches Some(v) ==> exists|entries: Map<Seq<char>, usize>|
                #[trigger] spec_tokenize(
                    (*self)@,
                    default_patterns(),
                    None,
                    entries,
                    default_normalizer_option(),
                ) == Some(pair_tokens(v@)),
    {
        let tokenizer = match TokenizerBuilder::default().build() {
            Some(t) => t,
            None => {
                return None;
            },
        };
        assert(tokenizer.options() == default_normalizer_option());
        let pairs = tokenizer.reconstruct(*self);
        proof {
            lemma_tokenize_some((*self)@, tokenizer.patterns(), tokenizer.allowed(), tokenizer.entries(), tokenizer.options());
            if pairs is Some {
                assert(spec_tokenize(
                    (*self)@,
                    default_patterns(),
                    None,
                    tokenizer.entries(),
                    default_normalizer_option(),
                ) == Some(pair_tokens(pairs.unwrap()@)));
            }
        }
        pairs
    }
}

} // verus!
