//! The normalization pipeline: the normalizers that every token goes through, in order, and
//! the lossy ones that follow when lossy normalization is on.
use vstd::prelude::*;

use super::classify::{option_separators, option_stop_words, spec_classify, Classifier};
use super::character_converter::CharacterConverterNormalizer;
use super::chinese::ChineseNormalizer;
use super::control_char::ControlCharNormalizer;
use super::japanese::{may_be_japanese, JapaneseNormalizer};
use super::nonspacing_mark::NonspacingMarkNormalizer;
use super::compatibility_decomposition::CompatibilityDecompositionNormalizer;
use super::greek::{spec_greek, GreekNormalizer};
use super::recompose::{
    recompose_fits, recompose_groups, spec_recompose, spec_recompose_map, spec_recomposed_token,
    Recomposition,
};
use super::swedish_recomposition::{has_decomposed_swedish_letter, SwedishRecompositionNormalizer};
use super::thai::{has_decomposed_sara_am, spec_recompose_sara_am, ThaiNormalizer};
use super::{byte_cut, fresh_char_map, has_byte_cut, lemma_byte_cut_unique, normalize_token, normalized_chars, remap_groups, spec_char_normalized_token, CharNormalizer, NormalizerOption};
use crate::detection::{Language, Script};
use crate::kvariants::KVariants;
use crate::unicode::{spec_str_is_hiragana, spec_to_hiragana};
use crate::text::{
    char_len_utf8, chars_of, lemma_utf8_len_take_increasing, lemma_utf8_len_take_step, utf8_len_seq,
};
use crate::token::{Token, TokenKind, TokenView};

verus! {

// ---------------------------------------------------------------------------------------------
// Whether a char map groups a lemma.
// ---------------------------------------------------------------------------------------------

/// Whether the normalized lengths of a char map cut `s` into groups that each end between two
/// characters.
pub open spec fn groups_fit(s: Seq<char>, map: Seq<(u8, u8)>) -> bool
    decreases map.len(),
{
    if map.len() == 0 {
        true
    } else {
        has_byte_cut(s, map[0].1 as int) && groups_fit(
            s.skip(byte_cut(s, map[0].1 as int)),
            map.drop_first(),
        )
    }
}

/// A char normalizer can regroup a lemma exactly when the char map groups it.
pub proof fn lemma_remap_groups_fit<N: CharNormalizer>(n: &N, s: Seq<char>, map: Seq<(u8, u8)>)
    ensures
        remap_groups(n, s, map) is Some <==> groups_fit(s, map),
    decreases map.len(),
{
    if map.len() > 0 && has_byte_cut(s, map[0].1 as int) {
        lemma_remap_groups_fit(n, s.skip(byte_cut(s, map[0].1 as int)), map.drop_first());
    }
}

/// The groups of `s` that the normalized lengths of a char map cut it into, in order.
pub open spec fn map_groups(s: Seq<char>, map: Seq<(u8, u8)>) -> Seq<Seq<char>>
    decreases map.len(),
{
    if map.len() == 0 {
        Seq::empty()
    } else {
        let k = byte_cut(s, map[0].1 as int);
        seq![s.take(k)] + map_groups(s.skip(k), map.drop_first())
    }
}

/// The sum of the normalized lengths of a char map.
pub open spec fn map_normalized_len(map: Seq<(u8, u8)>) -> int
    decreases map.len(),
{
    if map.len() == 0 {
        0
    } else {
        map[0].1 + map_normalized_len(map.drop_first())
    }
}

/// The char map that regrouping gives: each pair keeps its original length and gets the byte
/// length (modulo 256) of its normalized group.
pub open spec fn regrouped_map<N: CharNormalizer>(n: &N, s: Seq<char>, map: Seq<(u8, u8)>) -> Seq<(u8, u8)> {
    Seq::new(
        map.len(),
        |i: int| (map[i].0, (utf8_len_seq(normalized_chars(n, map_groups(s, map)[i])) % 256) as u8),
    )
}

/// The normalized groups, concatenated.
pub open spec fn regrouped_lemma<N: CharNormalizer>(n: &N, s: Seq<char>, map: Seq<(u8, u8)>) -> Seq<char> {
    map_groups(s, map).map_values(|g: Seq<char>| normalized_chars(n, g)).flatten()
}

/// Regrouping with a char map that groups the lemma: the lemma is cut into one group per pair,
/// each group taking the pair's normalized length in bytes; the new lemma is the concatenation
/// of the normalized groups, and the new map keeps each original length and records the byte
/// length of each normalized group. When the normalized lengths add up to the lemma's byte
/// length, the groups cover the whole lemma.
pub proof fn lemma_remap_groups<N: CharNormalizer>(n: &N, s: Seq<char>, map: Seq<(u8, u8)>)
    requires
        groups_fit(s, map),
    ensures
        remap_groups(n, s, map) == Some((regrouped_lemma(n, s, map), regrouped_map(n, s, map))),
        map_groups(s, map).len() == map.len(),
        forall|i: int| 0 <= i < map.len() ==> utf8_len_seq(#[trigger] map_groups(s, map)[i]) == map[i].1,
        map_normalized_len(map) == utf8_len_seq(s) ==> map_groups(s, map).flatten() == s,
    decreases map.len(),
{
    if map.len() > 0 {
        let k = byte_cut(s, map[0].1 as int);
        let rest = s.skip(k);
        let tail = map.drop_first();
        lemma_remap_groups(n, rest, tail);
        let groups = map_groups(s, map);
        let rgroups = map_groups(rest, tail);
        assert(groups == seq![s.take(k)] + rgroups);
        assert(0 <= k <= s.len());
        let f = |g: Seq<char>| normalized_chars(n, g);
        assert(groups.map_values(f) =~= seq![f(s.take(k))] + rgroups.map_values(f));
        vstd::seq_lib::lemma_flatten_concat(seq![f(s.take(k))], rgroups.map_values(f));
        seq![f(s.take(k))].lemma_flatten_one_element();
        assert(regrouped_map(n, s, map) =~= seq![(map[0].0, (utf8_len_seq(normalized_chars(n, s.take(k))) % 256) as u8)]
            + regrouped_map(n, rest, tail)) by {
            assert forall|i: int| 0 < i < map.len() implies groups[i] == rgroups[i - 1] by {}
        }
        assert forall|i: int| 0 <= i < map.len() implies utf8_len_seq(#[trigger] groups[i]) == map[i].1 by {
            if i > 0 {
                assert(groups[i] == rgroups[i - 1]);
                assert(tail[i - 1] == map[i]);
            }
        }
        if map_normalized_len(map) == utf8_len_seq(s) {
            assert(s =~= s.take(k) + rest);
            crate::text::lemma_utf8_len_concat(s.take(k), rest);
            vstd::seq_lib::lemma_flatten_concat(seq![s.take(k)], rgroups);
            seq![s.take(k)].lemma_flatten_one_element();
        }
    } else {
        assert(regrouped_lemma(n, s, map) =~= Seq::<char>::empty()) by {
            assert(map_groups(s, map).map_values(|g: Seq<char>| normalized_chars(n, g)) =~= Seq::<Seq<char>>::empty());
        }
        assert(regrouped_map(n, s, map) =~= Seq::<(u8, u8)>::empty());
        if map_normalized_len(map) == utf8_len_seq(s) {
            crate::text::lemma_utf8_len_bound(s);
            assert(s =~= Seq::<char>::empty());
        }
    }
}

/// The char-map regrouping law of a char normalizer: with char maps asked for, a token whose
/// char map groups its lemma gets, as lemma, the concatenation of the normalized groups, and as
/// char map one pair per pair of the old map, with the same original length and the byte
/// length of the normalized group; every other field is kept.
pub proof fn lemma_char_map_regrouping<N: CharNormalizer>(n: &N, t: TokenView, map: Seq<(u8, u8)>)
    requires
        t.char_map == Some(map),
        groups_fit(t.lemma, map),
    ensures
        char_normalized_view(n, t, true) == Some(
            t.with_lemma(regrouped_lemma(n, t.lemma, map)).with_char_map(
                Some(regrouped_map(n, t.lemma, map)),
            ),
        ),
        regrouped_map(n, t.lemma, map).len() == map.len(),
        forall|i: int| 0 <= i < map.len() ==> (#[trigger] regrouped_map(n, t.lemma, map)[i]).0 == map[i].0,
        map_normalized_len(map) == utf8_len_seq(t.lemma) ==> map_groups(t.lemma, map).flatten() == t.lemma,
{
    lemma_remap_groups(n, t.lemma, map);
}

/// A recomposition can regroup a lemma exactly when the char map groups it.
pub proof fn lemma_recompose_groups_fit(kind: Recomposition, s: Seq<char>, map: Seq<(u8, u8)>)
    ensures
        recompose_groups(kind, s, map) is Some <==> groups_fit(s, map),
    decreases map.len(),
{
    if map.len() > 0 && has_byte_cut(s, map[0].1 as int) {
        lemma_recompose_groups_fit(kind, s.skip(byte_cut(s, map[0].1 as int)), map.drop_first());
    }
}

/// The position after the leading characters of `v[from..]` that take exactly `target` bytes,
/// if there is one.
fn try_byte_cut(v: &[char], from: usize, target: u8) -> (end: Option<usize>)
    requires
        from <= v@.len(),
    ensures
        match end {
            Some(e) => from <= e <= v@.len() && has_byte_cut(v@.skip(from as int), target as int)
                && byte_cut(v@.skip(from as int), target as int) == e - from,
            None => !has_byte_cut(v@.skip(from as int), target as int),
        },
{
    let ghost t = v@.skip(from as int);
    let mut k = from;
    let mut gap: u8 = target;
    let ghost mut taken: int = 0;
    assert(t.take(0) =~= Seq::<char>::empty());
    while gap > 0 && k < v.len()
        invariant
            t == v@.skip(from as int),
            from <= k <= v@.len(),
            taken == utf8_len_seq(t.take(k - from)),
            taken + gap == target,
        decreases v@.len() - k,
    {
        proof {
            lemma_utf8_len_take_step(t, k - from);
            assert(t[k - from] == v@[k as int]);
        }
        let l = char_len_utf8(v[k]);
        if l > gap as usize {
            proof {
                if has_byte_cut(t, target as int) {
                    let c = byte_cut(t, target as int);
                    if c < k - from {
                        lemma_utf8_len_take_increasing(t, c, k - from);
                    } else if c > k - from + 1 {
                        lemma_utf8_len_take_increasing(t, k - from + 1, c);
                    }
                }
            }
            return None;
        }
        gap = gap - l as u8;
        k = k + 1;
        proof {
            taken = taken + l;
        }
    }
    if gap == 0 {
        proof {
            lemma_byte_cut_unique(t, target as int, k - from);
        }
        Some(k)
    } else {
        proof {
            assert(t.take(k - from) =~= t);
            if has_byte_cut(t, target as int) {
                let c = byte_cut(t, target as int);
                if c < t.len() {
                    lemma_utf8_len_take_increasing(t, c, t.len() as int);
                }
            }
        }
        None
    }
}

/// Whether the char map `map` groups `lemma`: each normalized length, taken in turn, ends
/// between two characters.
pub fn char_map_groups_fit(lemma: &str, map: &[(u8, u8)]) -> (b: bool)
    ensures
        b == groups_fit(lemma@, map@),
{
    let v = chars_of(lemma);
    let mut pos: usize = 0;
    let mut i: usize = 0;
    assert(v@.skip(0) =~= v@);
    assert(map@.skip(0) =~= map@);
    while i < map.len()
        invariant
            v@ == lemma@,
            pos <= v@.len(),
            i <= map@.len(),
            groups_fit(v@, map@) == groups_fit(v@.skip(pos as int), map@.skip(i as int)),
        decreases map@.len() - i,
    {
        let ghost s = v@.skip(pos as int);
        let ghost m = map@.skip(i as int);
        assert(m[0] == map@[i as int]);
        match try_byte_cut(&v, pos, map[i].1) {
            None => {
                return false;
            },
            Some(end) => {
                proof {
                    assert(s.skip(end - pos) =~= v@.skip(end as int));
                    assert(m.drop_first() =~= map@.skip(i + 1));
                }
                pos = end;
            },
        }
        i += 1;
    }
    assert(map@.skip(i as int) =~= Seq::<(u8, u8)>::empty());
    true
}

// ---------------------------------------------------------------------------------------------
// Each stage as a function of the token's content.
// ---------------------------------------------------------------------------------------------

/// What a char normalizer makes of a token, `None` where its char map does not group its
/// lemma.
pub open spec fn char_normalized_view<N: CharNormalizer>(n: &N, t: TokenView, create_char_map: bool) -> Option<
    TokenView,
> {
    if !create_char_map {
        Some(t.with_lemma(normalized_chars(n, t.lemma)))
    } else {
        match t.char_map {
            None => Some(
                t.with_lemma(normalized_chars(n, t.lemma)).with_char_map(
                    Some(fresh_char_map(n, t.lemma)),
                ),
            ),
            Some(map) => match remap_groups(n, t.lemma, map) {
                None => None,
                Some(r) => Some(t.with_lemma(r.0).with_char_map(Some(r.1))),
            },
        }
    }
}

/// What a recomposition makes of a token, `None` where its char map does not group its lemma.
pub open spec fn recomposed_view(kind: Recomposition, t: TokenView, create_char_map: bool) -> Option<
    TokenView,
> {
    match t.char_map {
        Some(map) => match recompose_groups(kind, t.lemma, map) {
            None => None,
            Some(r) => Some(t.with_lemma(r.0).with_char_map(Some(r.1))),
        },
        None => Some(
            t.with_lemma(spec_recompose(kind, t.lemma)).with_char_map(
                if create_char_map {
                    Some(spec_recompose_map(kind, t.lemma))
                } else {
                    None
                },
            ),
        ),
    }
}

/// Applies a char normalizer to a token, as [`char_normalized_view`] says.
pub fn apply_char_normalizer<N: CharNormalizer>(n: &N, token: Token, options: &NormalizerOption) -> (result: Option<Token>)
    ensures
        match result {
            Some(t) => char_normalized_view(n, token@, options.create_char_map) == Some(t@),
            None => char_normalized_view(n, token@, options.create_char_map) is None,
        },
{
    if options.create_char_map {
        let fits = match &token.char_map {
            Some(map) => char_map_groups_fit(token.lemma.as_str(), map.as_slice()),
            None => true,
        };
        proof {
            if token.char_map is Some {
                lemma_remap_groups_fit(n, token.lemma@, token.char_map.unwrap()@);
            }
        }
        if !fits {
            return None;
        }
    }
    let ghost before = token;
    let result = normalize_token(n, token, options);
    proof {
        assert(spec_char_normalized_token(n, before, options.create_char_map, result));
        assert(result@ =~~= char_normalized_view(n, before@, options.create_char_map).unwrap());
    }
    Some(result)
}

/// Applies the Swedish recomposition to a token, as [`recomposed_view`] says.
fn apply_swedish(token: Token, options: &NormalizerOption) -> (result: Option<Token>)
    ensures
        match result {
            Some(t) => recomposed_view(Recomposition::Swedish, token@, options.create_char_map) == Some(t@),
            None => recomposed_view(Recomposition::Swedish, token@, options.create_char_map) is None,
        },
{
    let fits = match &token.char_map {
        Some(map) => char_map_groups_fit(token.lemma.as_str(), map.as_slice()),
        None => true,
    };
    proof {
        if token.char_map is Some {
            lemma_recompose_groups_fit(Recomposition::Swedish, token.lemma@, token.char_map.unwrap()@);
        }
    }
    if !fits {
        return None;
    }
    let ghost before = token;
    let result = SwedishRecompositionNormalizer.normalize(token, options);
    proof {
        assert(spec_recomposed_token(Recomposition::Swedish, before, options.create_char_map, result));
        assert(result@ =~~= recomposed_view(Recomposition::Swedish, before@, options.create_char_map).unwrap());
    }
    Some(result)
}

// ---------------------------------------------------------------------------------------------
// The pipeline.
// ---------------------------------------------------------------------------------------------

/// The compatibility decomposition stage.
pub open spec fn stage_decompose(t: TokenView, create_char_map: bool) -> Option<TokenView> {
    if CompatibilityDecompositionNormalizer.spec_should_normalize(t) {
        char_normalized_view(&CompatibilityDecompositionNormalizer, t, create_char_map)
    } else {
        Some(t)
    }
}

/// The Thai stage: Thai tokens get their Sara Am put back together (their char map dropped
/// when that changes the lemma).
pub open spec fn stage_thai(t: TokenView) -> TokenView {
    if t.script == Script::Thai {
        t.with_lemma(spec_recompose_sara_am(t.lemma)).with_char_map(
            if has_decomposed_sara_am(t.lemma) {
                None
            } else {
                t.char_map
            },
        )
    } else {
        t
    }
}

/// The Swedish recomposition stage: Swedish tokens with a decomposed Swedish letter.
pub open spec fn stage_swedish(t: TokenView, create_char_map: bool) -> Option<TokenView> {
    if t.language == Some(Language::Swe) && has_decomposed_swedish_letter(t.lemma) {
        recomposed_view(Recomposition::Swedish, t, create_char_map)
    } else {
        Some(t)
    }
}

/// The control character stage: control characters that are not whitespace are removed.
pub open spec fn stage_control(t: TokenView, create_char_map: bool) -> Option<TokenView> {
    if ControlCharNormalizer.spec_should_normalize(t) {
        char_normalized_view(&ControlCharNormalizer, t, create_char_map)
    } else {
        Some(t)
    }
}

/// The Chinese stage (lossy): ideographs of Chinese tokens become their kVariants.
pub open spec fn stage_chinese(t: TokenView, kvariants: Option<&KVariants>, create_char_map: bool) -> Option<
    TokenView,
> {
    if (ChineseNormalizer { kvariants }).spec_should_normalize(t) {
        char_normalized_view(&ChineseNormalizer { kvariants }, t, create_char_map)
    } else {
        Some(t)
    }
}

/// The Japanese stage (lossy): Japanese tokens that are not Hiragana are converted to it (the
/// number of characters stays, so the char map is kept).
pub open spec fn stage_japanese(t: TokenView) -> TokenView {
    if t.script == Script::Cj && may_be_japanese(t.language) && !spec_str_is_hiragana(t.lemma) {
        t.with_lemma(spec_to_hiragana(t.lemma))
    } else {
        t
    }
}

/// The nonspacing mark stage (lossy): nonspacing marks are removed, but for Thai tokens.
pub open spec fn stage_nonspacing(t: TokenView, create_char_map: bool) -> Option<TokenView> {
    if NonspacingMarkNormalizer.spec_should_normalize(t) {
        char_normalized_view(&NonspacingMarkNormalizer, t, create_char_map)
    } else {
        Some(t)
    }
}

/// The lossy stages, in order: character conversion, Chinese, Japanese, Greek and nonspacing
/// marks.
pub open spec fn spec_lossy(t: TokenView, create_char_map: bool, kvariants: Option<&KVariants>) -> Option<
    TokenView,
> {
    match stage_convert(t, create_char_map) {
        None => None,
        Some(t4) => match stage_chinese(t4, kvariants, create_char_map) {
            None => None,
            Some(t5) => stage_nonspacing(stage_greek(stage_japanese(t5)), create_char_map),
        },
    }
}

/// The classification stage: tokens not classified yet.
pub open spec fn stage_classify(
    t: TokenView,
    stop_words: Option<Set<Seq<u8>>>,
    separators: Option<Seq<&str>>,
) -> TokenView {
    if t.kind == TokenKind::Unknown {
        t.with_kind(spec_classify(t.lemma, stop_words, separators))
    } else {
        t
    }
}

/// The character conversion stage (lossy).
pub open spec fn stage_convert(t: TokenView, create_char_map: bool) -> Option<TokenView> {
    if CharacterConverterNormalizer.spec_should_normalize(t) {
        char_normalized_view(&CharacterConverterNormalizer, t, create_char_map)
    } else {
        Some(t)
    }
}

/// The Greek stage (lossy): Greek tokens lose their final sigmas.
pub open spec fn stage_greek(t: TokenView) -> TokenView {
    if t.script == Script::Greek {
        t.with_lemma(spec_greek(t.lemma))
    } else {
        t
    }
}

/// What the normalization makes of a token: decomposition, Thai recomposition, Swedish
/// recomposition, control characters and classification, then, when `lossy` holds, the lossy
/// stages ([`spec_lossy`]). `None` where a char map stops grouping the lemma.
pub open spec fn spec_normalize(
    t: TokenView,
    create_char_map: bool,
    lossy: bool,
    stop_words: Option<Set<Seq<u8>>>,
    separators: Option<Seq<&str>>,
    kvariants: Option<&KVariants>,
) -> Option<TokenView> {
    match stage_decompose(t, create_char_map) {
        None => None,
        Some(t0) => match stage_swedish(stage_thai(t0), create_char_map) {
            None => None,
            Some(t1) => match stage_control(t1, create_char_map) {
                None => None,
                Some(t2) => {
                    let t3 = stage_classify(t2, stop_words, separators);
                    if !lossy {
                        Some(t3)
                    } else {
                        spec_lossy(t3, create_char_map, kvariants)
                    }
                },
            },
        },
    }
}

/// Whether two tokens stand at the same place with the same script and language.
pub open spec fn same_place(a: TokenView, b: TokenView) -> bool {
    &&& a.char_start == b.char_start
    &&& a.char_end == b.char_end
    &&& a.byte_start == b.byte_start
    &&& a.byte_end == b.byte_end
    &&& a.script == b.script
    &&& a.language == b.language
}

/// A char normalizer keeps a token's place, and without char maps asked for it keeps a token
/// without one as it is and never fails.
pub proof fn lemma_char_normalized_keeps<N: CharNormalizer>(n: &N, t: TokenView, create_char_map: bool)
    ensures
        char_normalized_view(n, t, create_char_map) matches Some(r) ==> same_place(t, r),
        !create_char_map ==> (char_normalized_view(n, t, create_char_map) matches Some(r) && r.char_map
            == t.char_map),
{
}

/// The lossy stages keep a token's place, and without char maps asked for they never fail on a
/// token without one.
pub proof fn lemma_lossy_keeps(t: TokenView, create_char_map: bool, kvariants: Option<&KVariants>)
    ensures
        spec_lossy(t, create_char_map, kvariants) matches Some(r) ==> same_place(t, r),
        (!create_char_map && t.char_map is None) ==> spec_lossy(t, create_char_map, kvariants) is Some,
{
    lemma_char_normalized_keeps(&CharacterConverterNormalizer, t, create_char_map);
    if let Some(t4) = stage_convert(t, create_char_map) {
        lemma_char_normalized_keeps(&ChineseNormalizer { kvariants }, t4, create_char_map);
        if let Some(t5) = stage_chinese(t4, kvariants, create_char_map) {
            let t7 = stage_greek(stage_japanese(t5));
            lemma_char_normalized_keeps(&NonspacingMarkNormalizer, t7, create_char_map);
        }
    }
}

/// Normalization keeps a token's place, and without char maps asked for it never fails on a
/// token without one.
pub proof fn lemma_normalize_keeps(t: TokenView, options: NormalizerOption)
    ensures
        spec_normalize_with(t, options) matches Some(r) ==> same_place(t, r),
        (!options.create_char_map && t.char_map is None) ==> spec_normalize_with(t, options) is Some,
{
    let ccm = options.create_char_map;
    lemma_char_normalized_keeps(&CompatibilityDecompositionNormalizer, t, ccm);
    if let Some(t0) = stage_decompose(t, ccm) {
        let th = stage_thai(t0);
        if let Some(t1) = stage_swedish(th, ccm) {
            lemma_char_normalized_keeps(&ControlCharNormalizer, t1, ccm);
            if let Some(t2) = stage_control(t1, ccm) {
                let t3 = stage_classify(t2, option_stop_words(options.classifier), option_separators(options.classifier));
                lemma_lossy_keeps(t3, ccm, options.kvariants);
            }
        }
    }
}

/// What the normalization makes of a token under some options.
pub open spec fn spec_normalize_with(t: TokenView, options: NormalizerOption) -> Option<TokenView> {
    spec_normalize(
        t,
        options.create_char_map,
        options.lossy,
        option_stop_words(options.classifier),
        option_separators(options.classifier),
        options.kvariants,
    )
}

/// The lossy stages on a token, as [`spec_lossy`] says.
fn normalize_lossy(token: Token, options: &NormalizerOption) -> (result: Option<Token>)
    ensures
        match result {
            Some(t) => spec_lossy(token@, options.create_char_map, options.kvariants) == Some(t@),
            None => spec_lossy(token@, options.create_char_map, options.kvariants) is None,
        },
{
    let ghost t3 = token@;
    let mut token = token;
    if CharacterConverterNormalizer.should_normalize(&token) {
        token = match apply_char_normalizer(&CharacterConverterNormalizer, token, options) {
            Some(t) => t,
            None => {
                return None;
            },
        };
    }
    let ghost t4 = token@;
    assert(stage_convert(t3, options.create_char_map) == Some(t4));
    let chinese = ChineseNormalizer { kvariants: options.kvariants };
    if chinese.should_normalize(&token) {
        token = match apply_char_normalizer(&chinese, token, options) {
            Some(t) => t,
            None => {
                return None;
            },
        };
    }
    let ghost t5 = token@;
    assert(stage_chinese(t4, options.kvariants, options.create_char_map) == Some(t5));
    if JapaneseNormalizer.should_normalize(&token) {
        let ghost before = token;
        token = JapaneseNormalizer.normalize(token, options);
        assert(token@ =~~= before@.with_lemma(spec_to_hiragana(before.lemma@)));
    }
    let ghost t6 = token@;
    assert(stage_japanese(t5) == t6);
    if GreekNormalizer.should_normalize(&token) {
        let ghost before = token;
        token = GreekNormalizer.normalize(token, options);
        assert(token@ =~~= before@.with_lemma(spec_greek(before.lemma@)));
    }
    let ghost t7 = token@;
    assert(stage_greek(t6) == t7);
    if NonspacingMarkNormalizer.should_normalize(&token) {
        token = match apply_char_normalizer(&NonspacingMarkNormalizer, token, options) {
            Some(t) => t,
            None => {
                return None;
            },
        };
    }
    assert(stage_nonspacing(t7, options.create_char_map) == Some(token@));
    Some(token)
}

/// Normalizes a token with every normalizer that applies to it, in order: compatibility
/// decomposition, Thai recomposition, Swedish recomposition, control characters,
/// classification, and when `lossy` is set, character conversion, Chinese, Japanese, Greek
/// and nonspacing marks. `None` where a char map stops grouping the lemma.
pub fn normalize_token_with(token: Token, options: &NormalizerOption) -> (result: Option<Token>)
    ensures
        match result {
            Some(t) => spec_normalize_with(token@, *options) == Some(t@),
            None => spec_normalize_with(token@, *options) is None,
        },
{
    let ghost t0 = token@;
    let mut token = token;
    if CompatibilityDecompositionNormalizer.should_normalize(&token) {
        token = match apply_char_normalizer(&CompatibilityDecompositionNormalizer, token, options) {
            Some(t) => t,
            None => {
                return None;
            },
        };
    }
    let ghost td = token@;
    assert(stage_decompose(t0, options.create_char_map) == Some(td));
    if ThaiNormalizer.should_normalize(&token) {
        let ghost before = token;
        token = ThaiNormalizer.normalize(token, options);
        assert(token@ =~~= stage_thai(before@));
    }
    let ghost t1 = token@;
    assert(stage_thai(td) == t1);
    if SwedishRecompositionNormalizer.should_normalize(&token) {
        token = match apply_swedish(token, options) {
            Some(t) => t,
            None => {
                return None;
            },
        };
    }
    let ghost t2 = token@;
    assert(stage_swedish(t1, options.create_char_map) == Some(t2));
    if ControlCharNormalizer.should_normalize(&token) {
        token = match apply_char_normalizer(&ControlCharNormalizer, token, options) {
            Some(t) => t,
            None => {
                return None;
            },
        };
    }
    let ghost tc = token@;
    assert(stage_control(t2, options.create_char_map) == Some(tc));
    if Classifier.should_normalize(&token) {
        let ghost before = token;
        token = Classifier.normalize(token, options);
        assert(token@ =~= before@.with_kind(token.kind));
    }
    let ghost t3 = token@;
    assert(stage_classify(tc, option_stop_words(options.classifier), option_separators(options.classifier)) == t3);
    if options.lossy {
        return normalize_lossy(token, options);
    }
    Some(token)
}

/// What the normalization of a bare text makes of it: every stage applies, whatever the token
/// it makes of the text. `None` where a char map stops grouping the lemma.
pub open spec fn spec_normalize_str(
    s: Seq<char>,
    create_char_map: bool,
    lossy: bool,
    stop_words: Option<Set<Seq<u8>>>,
    separators: Option<Seq<&str>>,
    kvariants: Option<&KVariants>,
) -> Option<Seq<char>> {
    let t = TokenView {
        kind: TokenKind::Unknown,
        lemma: s,
        char_start: 0,
        char_end: 0,
        byte_start: 0,
        byte_end: 0,
        char_map: None,
        script: Script::Other,
        language: None,
    };
    match char_normalized_view(&CompatibilityDecompositionNormalizer, t, create_char_map) {
        None => None,
        Some(t0) => match recomposed_view(
            Recomposition::Swedish,
            t0.with_lemma(spec_recompose_sara_am(t0.lemma)).with_char_map(
                if has_decomposed_sara_am(t0.lemma) {
                    None
                } else {
                    t0.char_map
                },
            ),
            create_char_map,
        ) {
            None => None,
            Some(t2) => match char_normalized_view(&ControlCharNormalizer, t2, create_char_map) {
                None => None,
                Some(tc) => if !lossy {
                    Some(tc.lemma)
                } else {
                    match char_normalized_view(&CharacterConverterNormalizer, tc, create_char_map) {
                        None => None,
                        Some(t4) => match char_normalized_view(
                            &ChineseNormalizer { kvariants },
                            t4,
                            create_char_map,
                        ) {
                            None => None,
                            Some(t5) => match char_normalized_view(
                                &NonspacingMarkNormalizer,
                                t5.with_lemma(spec_greek(spec_to_hiragana(t5.lemma))),
                                create_char_map,
                            ) {
                                None => None,
                                Some(t8) => Some(t8.lemma),
                            },
                        },
                    }
                },
            },
        },
    }
}

/// Normalization of a token, or of a bare text.
pub trait Normalize {
    type Item;

    /// Normalizes `self` with the given options.
    fn normalize(self, options: &NormalizerOption) -> Self::Item;
}

impl Normalize for Token {
    type Item = Option<Token>;

    /// Normalizes a token with every normalizer that applies to it (see
    /// [`normalize_token_with`]).
    fn normalize(self, options: &NormalizerOption) -> (result: Option<Token>)
        ensures
            match result {
                Some(t) => spec_normalize_with(self@, *options) == Some(t@),
                None => spec_normalize_with(self@, *options) is None,
            },
    {
        normalize_token_with(self, options)
    }
}

impl<'o> Normalize for &'o str {
    type Item = Option<String>;

    /// Normalizes a bare text: every normalizer of the pipeline rewrites it in turn, whether or
    /// not it would apply to a token of it. `None` where a char map stops grouping the lemma.
    fn normalize(self, options: &NormalizerOption) -> (result: Option<String>)
        ensures
            match result {
                Some(s) => spec_normalize_str(
                    self@,
                    options.create_char_map,
                    options.lossy,
                    option_stop_words(options.classifier),
                    option_separators(options.classifier),
                    options.kvariants,
                ) == Some(s@),
                None => spec_normalize_str(
                    self@,
                    options.create_char_map,
                    options.lossy,
                    option_stop_words(options.classifier),
                    option_separators(options.classifier),
                    options.kvariants,
                ) is None,
            },
    {
        let token = Token::from_lemma(crate::text::string_from_chars(&chars_of(self)));
        let ghost t0 = token@;
        let token = match apply_char_normalizer(&CompatibilityDecompositionNormalizer, token, options) {
            Some(t) => t,
            None => {
                return None;
            },
        };
        let token = ThaiNormalizer.normalize(token, options);
        let token = match apply_swedish(token, options) {
            Some(t) => t,
            None => {
                return None;
            },
        };
        let token = match apply_char_normalizer(&ControlCharNormalizer, token, options) {
            Some(t) => t,
            None => {
                return None;
            },
        };
        let token = Classifier.normalize(token, options);
        if !options.lossy {
            return Some(token.lemma);
        }
        let token = match apply_char_normalizer(&CharacterConverterNormalizer, token, options) {
            Some(t) => t,
            None => {
                return None;
            },
        };
        let token = match apply_char_normalizer(&ChineseNormalizer { kvariants: options.kvariants }, token, options) {
            Some(t) => t,
            None => {
                return None;
            },
        };
        let token = JapaneseNormalizer.normalize(token, options);
        let token = GreekNormalizer.normalize(token, options);
        let token = match apply_char_normalizer(&NonspacingMarkNormalizer, token, options) {
            Some(t) => t,
            None => {
                return None;
            },
        };
        Some(token.lemma)
    }
}

} // verus!
