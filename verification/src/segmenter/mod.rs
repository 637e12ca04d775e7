//! Segmentation: cutting a text into pieces by script, by separators and by the rules of the
//! segmenter of each script.
//!
//! A text is first cut into runs of one script; each run gets its script and language
//! detected, which picks its segmenter. The separators (or a custom list of patterns) are
//! then found in the run and kept whole, and the text between them is cut by the segmenter.
pub mod aho;
pub mod arabic;
pub mod chinese;
pub mod latin;
pub mod matches;
pub mod persian;
pub mod utils;
pub mod pieces;

use vstd::prelude::*;
use vstd::seq_lib::lemma_flatten_concat;

use crate::detection::script_language::spec_script_of_char;
use crate::detection::{
    allow_view, spec_choose_language, spec_detect_script, Detect, Language, Script, StrDetection,
};
use crate::normalizer::has_byte_cut;
use crate::segmenter::aho::{
    leftmost_longest_matches, matches_are_patterns, matches_in_order, patterns_nonempty, PatternMatcher,
};
use crate::segmenter::matches::{
    matches_fit, spec_split_at_matches, split_at_matches, typed_texts, typed_views, MatchType,
};
use crate::segmenter::pieces::{
    all_nonempty, extend_pieces, lemma_split_prefix, no_pieces, push_piece, push_piece_char,
    split_prefix, strs,
};
use crate::separators::{default_patterns, push_nonempty, DEFAULT_SEPARATORS};
use crate::text::{
    chars_of, lemma_utf8_len_bound, lemma_utf8_len_concat, string_from_chars, utf8_len_seq,
};
use crate::token::{Token, TokenKind, TokenView};

pub use self::arabic::ArabicSegmenter;
pub use self::chinese::ChineseSegmenter;
pub use self::latin::LatinSegmenter;
pub use self::persian::PersianSegmenter;

verus! {

/// A segmenter: the rules that cut a text of one script into pieces.
pub trait Segmenter {
    /// The pieces that the segmenter makes of a text.
    spec fn spec_segment(&self, s: Seq<char>) -> Seq<Seq<char>>;

    /// Cuts `s` into pieces.
    fn segment_str(&self, s: &str) -> (pieces: Vec<String>)
        ensures
            strs(pieces@) == self.spec_segment(s@),
    ;
}

// ---------------------------------------------------------------------------------------------
// Runs of one script.
// ---------------------------------------------------------------------------------------------

/// The script of the last character of `s` that has one (`Other` when none has).
pub open spec fn last_script(s: Seq<char>) -> Script
    decreases s.len(),
{
    if s.len() == 0 {
        Script::Other
    } else if spec_script_of_char(s.last()) != Script::Other {
        spec_script_of_char(s.last())
    } else {
        last_script(s.drop_last())
    }
}

/// Whether a new run of script starts at position `i`: the character there has a script, and
/// it differs from the last script met before it (characters without script stay with the
/// run they are in).
pub open spec fn script_bound(s: Seq<char>, i: int) -> bool {
    let script = spec_script_of_char(s[i]);
    let previous = last_script(s.take(i));
    script != Script::Other && previous != Script::Other && script != previous
}

/// The runs of one script of `s`.
pub open spec fn spec_script_groups(s: Seq<char>) -> Seq<Seq<char>> {
    script_groups_prefix(s, s.len() as int)
}

/// The runs of one script of the first `n` characters of `s`.
pub open spec fn script_groups_prefix(s: Seq<char>, n: int) -> Seq<Seq<char>> {
    split_prefix(s, |i: int| script_bound(s, i), n)
}

/// Whether the characters of `p` that have a script all have the same one.
pub open spec fn single_script(p: Seq<char>) -> bool {
    forall|i: int, j: int|
        0 <= i < p.len() && 0 <= j < p.len() && spec_script_of_char(#[trigger] p[i]) != Script::Other
            && spec_script_of_char(#[trigger] p[j]) != Script::Other ==> spec_script_of_char(p[i])
            == spec_script_of_char(p[j])
}

/// The characters of `p` that have a script have `script`.
pub open spec fn all_of_script(p: Seq<char>, script: Script) -> bool {
    forall|i: int| 0 <= i < p.len() && spec_script_of_char(#[trigger] p[i]) != Script::Other
        ==> spec_script_of_char(p[i]) == script
}

/// The runs of a prefix are of one script each, the last one of the last script met.
proof fn lemma_script_groups_prefix(s: Seq<char>, n: int)
    requires
        0 <= n <= s.len(),
    ensures
        forall|k: int|
            0 <= k < script_groups_prefix(s, n).len() ==> single_script(
                #[trigger] script_groups_prefix(s, n)[k],
            ),
        n > 0 ==> all_of_script(script_groups_prefix(s, n).last(), last_script(s.take(n))),
    decreases n,
{
    let cut = |i: int| script_bound(s, i);
    if n > 0 {
        lemma_script_groups_prefix(s, n - 1);
        lemma_split_prefix(s, cut, n - 1);
        let p = split_prefix(s, cut, n - 1);
        let c = s[n - 1];
        let new_piece = n - 1 > 0 && cut(n - 1);
        let q = extend_pieces(p, c, new_piece);
        assert(s.take(n).drop_last() =~= s.take(n - 1));
        assert(s.take(n).last() == c);
        let before = last_script(s.take(n - 1));
        let now = last_script(s.take(n));
        if new_piece || p.len() == 0 {
            assert(q.last() =~= seq![c]);
            assert forall|k: int| 0 <= k < q.len() implies single_script(#[trigger] q[k]) by {
                if k < p.len() {
                    assert(q[k] == p[k]);
                }
            }
        } else {
            let last = p.last();
            assert(q.last() == last.push(c));
            assert(all_of_script(last, before));
            assert(all_of_script(last.push(c), now)) by {
                assert forall|i: int|
                    0 <= i < last.push(c).len() && spec_script_of_char(#[trigger] last.push(c)[i])
                        != Script::Other implies spec_script_of_char(last.push(c)[i]) == now by {
                    if i < last.len() {
                        assert(last.push(c)[i] == last[i]);
                        if spec_script_of_char(c) != Script::Other {
                            // No new run: the script of `c` is the one met before.
                            assert(!script_bound(s, n - 1));
                            assert(s.take(n - 1) == s.take(n - 1));
                        }
                    }
                }
            }
            assert forall|k: int| 0 <= k < q.len() implies single_script(#[trigger] q[k]) by {
                if k < p.len() - 1 {
                    assert(q[k] == p[k]);
                } else {
                    assert(q[k] == last.push(c));
                }
            }
        }
    }
}

/// The runs of `s` are of one script each.
pub proof fn lemma_script_groups_single_script(s: Seq<char>)
    ensures
        forall|k: int|
            0 <= k < spec_script_groups(s).len() ==> single_script(#[trigger] spec_script_groups(s)[k]),
{
    lemma_script_groups_prefix(s, s.len() as int);
}

/// Cuts `s` into runs of one script. The runs concatenate to `s` and none is empty.
pub fn script_groups(s: &[char]) -> (groups: Vec<String>)
    ensures
        strs(groups@) == spec_script_groups(s@),
        strs(groups@).flatten() == s@,
        all_nonempty(strs(groups@)),
{
    let mut groups = no_pieces();
    let ghost cut = |i: int| script_bound(s@, i);
    let mut current = Script::Other;
    let mut i: usize = 0;
    assert(s@.take(0) =~= Seq::<char>::empty());
    while i < s.len()
        invariant
            i <= s@.len(),
            cut == (|i: int| script_bound(s@, i)),
            strs(groups@) == split_prefix(s@, cut, i as int),
            current == last_script(s@.take(i as int)),
        decreases s@.len() - i,
    {
        let c = s[i];
        let script = Script::from_char(c);
        let bound = script != Script::Other && current != Script::Other && script != current;
        push_piece_char(&mut groups, c, bound);
        proof {
            assert(s@.take(i + 1).drop_last() =~= s@.take(i as int));
            assert(s@.take(i + 1).last() == c);
        }
        if script != Script::Other {
            current = script;
        }
        i += 1;
    }
    proof {
        lemma_split_prefix(s@, cut, s@.len() as int);
        assert(s@.take(s@.len() as int) =~= s@);
    }
    groups
}

// ---------------------------------------------------------------------------------------------
// The choice of a segmenter.
// ---------------------------------------------------------------------------------------------

/// The segmenters that the tokenizer picks from.
#[derive(Debug, Clone, Copy, PartialEq, Eq, Structural)]
pub enum SegmenterKind {
    Latin,
    Arabic,
    Chinese,
}

/// The segmenter registered for a script and a language (`None`: for any language of the
/// script).
///
/// The German segmenter (a dictionary of German words held in a transducer) and the Japanese and
/// Korean segmenters (dictionaries of `lindera`) are not registered: their dictionaries are not
/// part of this library, so German text goes to the Latin segmenter and Japanese and Korean
/// text to the default one. [`utils::FstSegmenter`] segments with a dictionary given by the
/// caller.
pub open spec fn registered(script: Script, language: Option<Language>) -> Option<SegmenterKind> {
    match (script, language) {
        (Script::Latin, None) => Some(SegmenterKind::Latin),
        (Script::Latin, Some(Language::Swe)) => Some(SegmenterKind::Latin),
        (Script::Cj, Some(Language::Cmn)) => Some(SegmenterKind::Chinese),
        (Script::Cj, Some(Language::Zho)) => Some(SegmenterKind::Chinese),
        (Script::Arabic, Some(Language::Ara)) => Some(SegmenterKind::Arabic),
        _ => None,
    }
}

/// The number of segmenters registered for a script.
pub open spec fn registered_count(script: Script) -> nat {
    match script {
        Script::Latin => 2,
        Script::Cj => 2,
        Script::Arabic => 1,
        _ => 0,
    }
}

/// The segmenter of a script that has a single one registered.
pub open spec fn only_registered(script: Script) -> SegmenterKind {
    match script {
        Script::Arabic => SegmenterKind::Arabic,
        _ => SegmenterKind::Latin,
    }
}

/// The segmenter picked for a text and the language detected on the way: the script decides
/// when it has at most one segmenter (the Latin one when it has none); otherwise the language
/// is detected, and the segmenter registered for it (or for the script) is picked.
pub open spec fn spec_choose_segmenter(text: Seq<char>, allow: Option<Seq<Language>>) -> (
    SegmenterKind,
    Option<Language>,
) {
    let script = spec_detect_script(text);
    if registered_count(script) == 0 {
        (SegmenterKind::Latin, None)
    } else if registered_count(script) == 1 {
        (only_registered(script), None)
    } else {
        let language = spec_choose_language(text, allow);
        let kind = match registered(script, language) {
            Some(k) => k,
            None => match registered(script, None) {
                Some(k) => k,
                None => SegmenterKind::Latin,
            },
        };
        (kind, language)
    }
}

/// The registry of segmenters: a run of Chinese and Japanese script (`Cj`) whose language is
/// Mandarin or Chinese is cut by the Chinese segmenter and keeps that language; an Arabic run
/// is cut by the Arabic segmenter and a Latin run by the Latin one, without asking for the
/// language of an Arabic run; a run of any other script goes to the Latin segmenter, without a
/// language. The Chinese segmenter cuts with the `jieba` words, the Latin one at camel case
/// and the Arabic one at its article and punctuation.
pub proof fn lemma_segmenter_registry(
    text: Seq<char>,
    allow: Option<Seq<Language>>,
    entries: Map<Seq<char>, usize>,
    s: Seq<char>,
)
    ensures
        spec_detect_script(text) == Script::Cj && (spec_choose_language(text, allow) == Some(Language::Cmn)
            || spec_choose_language(text, allow) == Some(Language::Zho)) ==> spec_choose_segmenter(text, allow)
            == (SegmenterKind::Chinese, spec_choose_language(text, allow)),
        spec_detect_script(text) == Script::Arabic ==> spec_choose_segmenter(text, allow) == (
            SegmenterKind::Arabic,
            None::<Language>,
        ),
        spec_detect_script(text) == Script::Latin ==> spec_choose_segmenter(text, allow).0 == SegmenterKind::Latin,
        spec_detect_script(text) != Script::Cj && spec_detect_script(text) != Script::Arabic
            && spec_detect_script(text) != Script::Latin ==> spec_choose_segmenter(text, allow) == (
            SegmenterKind::Latin,
            None::<Language>,
        ),
        spec_segment_with(SegmenterKind::Chinese, entries, s) == chinese::spec_chinese_pieces(entries, s),
        spec_segment_with(SegmenterKind::Latin, entries, s) == latin::spec_camel_case_pieces(s),
        spec_segment_with(SegmenterKind::Arabic, entries, s) == arabic::spec_arabic_pieces(s),
{
}

/// A run of `Cj` script whose language is Mandarin or Chinese is cut, between the matches of
/// the patterns, by the Chinese segmenter: its pieces are the matches and the `jieba` search
/// pieces of the text between them, each with the run's script and language.
pub proof fn lemma_chinese_runs_use_jieba(
    g: Seq<char>,
    patterns: Seq<Seq<char>>,
    allow: Option<Seq<Language>>,
    entries: Map<Seq<char>, usize>,
)
    requires
        spec_detect_script(g) == Script::Cj,
        spec_choose_language(g, allow) == Some(Language::Cmn) || spec_choose_language(g, allow) == Some(
            Language::Zho,
        ),
    ensures
        spec_segment_group(g, patterns, allow, entries) matches Some(v) ==> {
            &&& segment_texts(v) == segment_typed(
                SegmenterKind::Chinese,
                entries,
                spec_split_at_matches(g, leftmost_longest_matches(patterns, g)),
            )
            &&& forall|k: int|
                0 <= k < v.len() ==> (#[trigger] v[k]).1 == Script::Cj && v[k].2 == spec_choose_language(
                    g,
                    allow,
                )
        },
{
    lemma_segmenter_registry(g, allow, entries, g);
    if let Some(v) = spec_segment_group(g, patterns, allow, entries) {
        let p = segment_typed(
            SegmenterKind::Chinese,
            entries,
            spec_split_at_matches(g, leftmost_longest_matches(patterns, g)),
        );
        assert(segment_texts(v) =~= p);
    }
}

/// The segmenter registered for a script and a language.
fn registered_segmenter(script: Script, language: Option<Language>) -> (kind: Option<SegmenterKind>)
    ensures
        kind == registered(script, language),
{
    match (script, language) {
        (Script::Latin, None) => Some(SegmenterKind::Latin),
        (Script::Latin, Some(Language::Swe)) => Some(SegmenterKind::Latin),
        (Script::Cj, Some(Language::Cmn)) => Some(SegmenterKind::Chinese),
        (Script::Cj, Some(Language::Zho)) => Some(SegmenterKind::Chinese),
        (Script::Arabic, Some(Language::Ara)) => Some(SegmenterKind::Arabic),
        _ => None,
    }
}

/// The segmenter registered for a script and a language, else for the script, else the Latin
/// one.
pub open spec fn spec_segmenter_for(script: Script, language: Option<Language>) -> SegmenterKind {
    match registered(script, language) {
        Some(k) => k,
        None => match registered(script, None) {
            Some(k) => k,
            None => SegmenterKind::Latin,
        },
    }
}

/// The script of a text under detection: the one known, else the one detected.
pub open spec fn script_after(detector: StrDetection) -> Script {
    match detector.known_script() {
        Some(s) => s,
        None => spec_detect_script(detector.text()),
    }
}

/// The language of a text under detection once asked for: the one known, else the one chosen.
pub open spec fn language_after(detector: StrDetection) -> Option<Language> {
    match detector.known_language() {
        Some(l) => Some(l),
        None => spec_choose_language(detector.text(), detector.allowed()),
    }
}

/// Picks the segmenter of the text under detection: takes its script (detecting it if not
/// known yet), and its language (detecting it if not known yet) only when the script has
/// several segmenters.
pub fn segmenter(detector: &mut StrDetection) -> (kind: SegmenterKind)
    ensures
        final(detector).text() == old(detector).text(),
        final(detector).allowed() == old(detector).allowed(),
        final(detector).known_script() == Some(script_after(*old(detector))),
        registered_count(script_after(*old(detector))) == 0 ==> kind == SegmenterKind::Latin
            && final(detector).known_language() == old(detector).known_language(),
        registered_count(script_after(*old(detector))) == 1 ==> kind == only_registered(
            script_after(*old(detector)),
        ) && final(detector).known_language() == old(detector).known_language(),
        registered_count(script_after(*old(detector))) >= 2 ==> final(detector).known_language()
            == language_after(*old(detector)) && kind == spec_segmenter_for(
            script_after(*old(detector)),
            language_after(*old(detector)),
        ),
        old(detector).known_script() is None && old(detector).known_language() is None ==> (
        kind,
        final(detector).known_language(),
        ) == spec_choose_segmenter(old(detector).text(), old(detector).allowed()),
{
    let script = detector.script();
    let count: usize = match script {
        Script::Latin => 2,
        Script::Cj => 2,
        Script::Arabic => 1,
        _ => 0,
    };
    if count == 0 {
        SegmenterKind::Latin
    } else if count == 1 {
        match script {
            Script::Arabic => SegmenterKind::Arabic,
            _ => SegmenterKind::Latin,
        }
    } else {
        let language = detector.language();
        match registered_segmenter(script, language) {
            Some(k) => k,
            None => match registered_segmenter(script, None) {
                Some(k) => k,
                None => SegmenterKind::Latin,
            },
        }
    }
}

/// What a segmenter makes of a text, the Chinese one with the dictionary `entries`.
pub open spec fn spec_segment_with(kind: SegmenterKind, entries: Map<Seq<char>, usize>, s: Seq<
    char,
>) -> Seq<Seq<char>> {
    match kind {
        SegmenterKind::Latin => latin::spec_camel_case_pieces(s),
        SegmenterKind::Arabic => arabic::spec_arabic_pieces(s),
        SegmenterKind::Chinese => chinese::spec_chinese_pieces(entries, s),
    }
}

/// Cuts `s` with the segmenter `kind`.
fn segment_with(kind: SegmenterKind, chinese: &ChineseSegmenter, s: &str) -> (pieces: Vec<String>)
    ensures
        strs(pieces@) == spec_segment_with(kind, chinese.entries(), s@),
        strs(pieces@).flatten() == s@,
        pieces@.len() <= s@.len(),
{
    match kind {
        SegmenterKind::Latin => LatinSegmenter.segment_str(s),
        SegmenterKind::Arabic => ArabicSegmenter.segment_str(s),
        SegmenterKind::Chinese => chinese.segment_str(s),
    }
}

// ---------------------------------------------------------------------------------------------
// The whole segmentation.
// ---------------------------------------------------------------------------------------------

/// The pieces of a run cut at the matches: a match (or a number) stays whole, the text between
/// matches is cut by the segmenter.
pub open spec fn segment_typed(
    kind: SegmenterKind,
    entries: Map<Seq<char>, usize>,
    t: Seq<(Seq<char>, MatchType)>,
) -> Seq<Seq<char>>
    decreases t.len(),
{
    if t.len() == 0 {
        Seq::empty()
    } else {
        let head = if t[0].1 == MatchType::Match {
            seq![t[0].0]
        } else {
            spec_segment_with(kind, entries, t[0].0)
        };
        head + segment_typed(kind, entries, t.drop_first())
    }
}

/// A piece of a segmented text: its characters, and the script and language of its run.
pub type SegmentView = (Seq<char>, Script, Option<Language>);

/// The pieces of one run of one script, `None` where a match does not fall between characters.
pub open spec fn spec_segment_group(
    g: Seq<char>,
    patterns: Seq<Seq<char>>,
    allow: Option<Seq<Language>>,
    entries: Map<Seq<char>, usize>,
) -> Option<Seq<SegmentView>> {
    let m = leftmost_longest_matches(patterns, g);
    if !matches_fit(g, m) {
        None
    } else {
        let (kind, language) = spec_choose_segmenter(g, allow);
        let script = spec_detect_script(g);
        let p = segment_typed(kind, entries, spec_split_at_matches(g, m));
        Some(p.map_values(|x: Seq<char>| (x, script, language)))
    }
}

/// The pieces of a list of runs, in order.
pub open spec fn spec_segment_groups(
    groups: Seq<Seq<char>>,
    patterns: Seq<Seq<char>>,
    allow: Option<Seq<Language>>,
    entries: Map<Seq<char>, usize>,
) -> Option<Seq<SegmentView>>
    decreases groups.len(),
{
    if groups.len() == 0 {
        Some(Seq::empty())
    } else {
        match (
            spec_segment_group(groups[0], patterns, allow, entries),
            spec_segment_groups(groups.drop_first(), patterns, allow, entries),
        ) {
            (Some(a), Some(b)) => Some(a + b),
            _ => None,
        }
    }
}

/// The pieces of a text: its runs of one script, each cut at the matches of the patterns and
/// by its segmenter.
pub open spec fn spec_segment(
    s: Seq<char>,
    patterns: Seq<Seq<char>>,
    allow: Option<Seq<Language>>,
    entries: Map<Seq<char>, usize>,
) -> Option<Seq<SegmentView>> {
    spec_segment_groups(spec_script_groups(s), patterns, allow, entries)
}

/// Whether, in each run, every match of the patterns falls between two characters.
pub open spec fn groups_matches_fit(groups: Seq<Seq<char>>, patterns: Seq<Seq<char>>) -> bool
    decreases groups.len(),
{
    if groups.len() == 0 {
        true
    } else {
        matches_fit(groups[0], leftmost_longest_matches(patterns, groups[0])) && groups_matches_fit(
            groups.drop_first(),
            patterns,
        )
    }
}

/// Whether a text can be segmented: in each of its runs of one script, every match of the
/// patterns falls between two characters.
pub open spec fn segment_fits(s: Seq<char>, patterns: Seq<Seq<char>>) -> bool {
    groups_matches_fit(spec_script_groups(s), patterns)
}

/// The segmentation of a list of runs succeeds exactly when every match fits, whatever the
/// allowed languages and the dictionary.
pub proof fn lemma_segment_groups_some(
    groups: Seq<Seq<char>>,
    patterns: Seq<Seq<char>>,
    allow: Option<Seq<Language>>,
    entries: Map<Seq<char>, usize>,
)
    ensures
        spec_segment_groups(groups, patterns, allow, entries) is Some <==> groups_matches_fit(
            groups,
            patterns,
        ),
    decreases groups.len(),
{
    if groups.len() > 0 {
        lemma_segment_groups_some(groups.drop_first(), patterns, allow, entries);
    }
}

/// The segmentation of a text succeeds exactly when [`segment_fits`] holds.
pub proof fn lemma_segment_some(
    s: Seq<char>,
    patterns: Seq<Seq<char>>,
    allow: Option<Seq<Language>>,
    entries: Map<Seq<char>, usize>,
)
    ensures
        spec_segment(s, patterns, allow, entries) is Some <==> segment_fits(s, patterns),
{
    lemma_segment_groups_some(spec_script_groups(s), patterns, allow, entries);
}

/// The texts of a list of pieces.
pub open spec fn segment_texts(v: Seq<SegmentView>) -> Seq<Seq<char>> {
    Seq::new(v.len(), |i: int| v[i].0)
}

/// The characters, script and language of each piece.
pub open spec fn segment_views(v: Seq<(String, Script, Option<Language>)>) -> Seq<SegmentView> {
    Seq::new(v.len(), |i: int| (v[i].0@, v[i].1, v[i].2))
}

/// Cuts the typed pieces of a run: matches stay whole, the rest goes to the segmenter.
fn segment_pieces(
    kind: SegmenterKind,
    chinese: &ChineseSegmenter,
    typed: &Vec<(String, MatchType)>,
    script: Script,
    language: Option<Language>,
) -> (out: Vec<(String, Script, Option<Language>)>)
    requires
        all_nonempty(typed_texts(typed_views(typed@))),
    ensures
        out@.len() <= typed_texts(typed_views(typed@)).flatten().len(),
        segment_views(out@) == segment_typed(kind, chinese.entries(), typed_views(typed@)).map_values(
            |x: Seq<char>| (x, script, language),
        ),
        segment_texts(segment_views(out@)).flatten() == typed_texts(typed_views(typed@)).flatten(),
{
    let ghost t = typed_views(typed@);
    let ghost entries = chinese.entries();
    let mut out: Vec<(String, Script, Option<Language>)> = Vec::new();
    let mut i: usize = 0;
    assert(t.skip(0) =~= t);
    assert(typed_texts(t).take(0) =~= Seq::<Seq<char>>::empty());
    assert(segment_texts(segment_views(out@)) =~= Seq::<Seq<char>>::empty());
    while i < typed.len()
        invariant
            t == typed_views(typed@),
            entries == chinese.entries(),
            i <= typed@.len(),
            segment_views(out@) + segment_typed(kind, entries, t.skip(i as int)).map_values(
                |x: Seq<char>| (x, script, language),
            ) == segment_typed(kind, entries, t).map_values(|x: Seq<char>| (x, script, language)),
            segment_texts(segment_views(out@)).flatten() == typed_texts(t).take(i as int).flatten(),
            out@.len() <= typed_texts(t).take(i as int).flatten().len(),
            all_nonempty(typed_texts(t)),
        decreases typed@.len() - i,
    {
        let ghost before = segment_views(out@);
        let ghost rest = t.skip(i as int);
        assert(typed_texts(t)[i as int].len() > 0);
        let pieces = if typed[i].1 == MatchType::Match {
            let mut one = no_pieces();
            push_piece(&mut one, typed[i].0.clone());
            proof {
                seq![typed[i as int].0@].lemma_flatten_one_element();
            }
            one
        } else {
            segment_with(kind, chinese, typed[i].0.as_str())
        };
        let ghost p = strs(pieces@);
        let mut j: usize = 0;
        assert(p.take(0) =~= Seq::<Seq<char>>::empty());
        assert(before + p.take(0).map_values(|x: Seq<char>| (x, script, language)) =~= before);
        while j < pieces.len()
            invariant
                p == strs(pieces@),
                j <= pieces@.len(),
                segment_views(out@) == before + p.take(j as int).map_values(
                    |x: Seq<char>| (x, script, language),
                ),
                segment_texts(segment_views(out@)).flatten() == segment_texts(before).flatten()
                    + p.take(j as int).flatten(),
                out@.len() == before.len() + j,
            decreases pieces@.len() - j,
        {
            let ghost old_out = segment_views(out@);
            out.push((pieces[j].clone(), script, language));
            proof {
                assert(segment_views(out@) =~= old_out.push((p[j as int], script, language)));
                assert(segment_texts(segment_views(out@)) =~= segment_texts(old_out).push(p[j as int]));
                segment_texts(old_out).lemma_flatten_push(p[j as int]);
                p.take(j as int).lemma_flatten_push(p[j as int]);
                assert(p.take(j + 1) =~= p.take(j as int).push(p[j as int]));
                assert(segment_views(out@) =~= before + p.take(j + 1).map_values(
                    |x: Seq<char>| (x, script, language),
                ));
            }
            j += 1;
        }
        proof {
            assert(p.take(j as int) =~= p);
            assert(typed_texts(t).take(i + 1) =~= typed_texts(t).take(i as int).push(t[i as int].0));
            typed_texts(t).take(i as int).lemma_flatten_push(t[i as int].0);
            assert(rest[0] == t[i as int]);
            assert(rest.drop_first() =~= t.skip(i + 1));
            let f = |x: Seq<char>| (x, script, language);
            let head = if rest[0].1 == MatchType::Match {
                seq![rest[0].0]
            } else {
                spec_segment_with(kind, entries, rest[0].0)
            };
            assert(head =~= p);
            assert(segment_typed(kind, entries, rest) == head + segment_typed(
                kind,
                entries,
                t.skip(i + 1),
            ));
            assert((head + segment_typed(kind, entries, t.skip(i + 1))).map_values(f) =~= head.map_values(
                f,
            ) + segment_typed(kind, entries, t.skip(i + 1)).map_values(f));
            assert(segment_views(out@) + segment_typed(kind, entries, t.skip(i + 1)).map_values(f)
                =~= before + segment_typed(kind, entries, rest).map_values(f));
        }
        i += 1;
    }
    proof {
        assert(typed_texts(t).take(i as int) =~= typed_texts(t));
        assert(t.skip(i as int) =~= Seq::<(Seq<char>, MatchType)>::empty());
        assert(segment_typed(kind, entries, t.skip(i as int)).map_values(
            |x: Seq<char>| (x, script, language),
        ) =~= Seq::<SegmentView>::empty());
        assert(segment_views(out@) + Seq::<SegmentView>::empty() =~= segment_views(out@));
    }
    out
}

/// Whether each piece is of one script.
pub open spec fn pieces_single_script(v: Seq<SegmentView>) -> bool {
    forall|k: int| 0 <= k < v.len() ==> single_script(#[trigger] v[k].0)
}

/// The pieces of a text of one script are of one script each.
pub proof fn lemma_pieces_single_script(pieces: Seq<Seq<char>>, g: Seq<char>)
    requires
        pieces.flatten() == g,
        single_script(g),
    ensures
        forall|k: int| 0 <= k < pieces.len() ==> single_script(#[trigger] pieces[k]),
{
    assert forall|k: int| 0 <= k < pieces.len() implies single_script(#[trigger] pieces[k]) by {
        crate::tokenizer::lemma_piece_in_text(pieces, k);
        crate::tokenizer::lemma_prefix_len_bound(pieces, k);
        let a = pieces.take(k).flatten().len() as int;
        let p = pieces[k];
        assert forall|x: int| 0 <= x < p.len() implies #[trigger] p[x] == g[a + x] by {
            assert(g.subrange(a, a + p.len())[x] == g[a + x]);
        }
        assert forall|i: int, j: int|
            0 <= i < p.len() && 0 <= j < p.len() && spec_script_of_char(#[trigger] p[i]) != Script::Other
                && spec_script_of_char(#[trigger] p[j]) != Script::Other implies spec_script_of_char(p[i])
            == spec_script_of_char(p[j]) by {
            assert(p[i] == g[a + i]);
            assert(p[j] == g[a + j]);
        }
    }
}

/// Where no pattern is empty, every match of a pattern falls between two characters.
pub proof fn lemma_pattern_matches_fit(s: Seq<char>, m: Seq<(usize, usize)>, patterns: Seq<Seq<char>>)
    requires
        matches_in_order(m, utf8_len_seq(s) as int),
        matches_are_patterns(m, patterns, s),
        patterns_nonempty(patterns),
    ensures
        matches_fit(s, m),
{
    crate::text::lemma_encode_utf8_len(s);
    assert forall|i: int| 0 <= i < m.len() implies has_byte_cut(s, (#[trigger] m[i]).0 as int) && has_byte_cut(
        s,
        m[i].1 as int,
    ) by {
        let k = choose|k: int|
            0 <= k < patterns.len() && vstd::utf8::encode_utf8(s).subrange(m[i].0 as int, m[i].1 as int)
                == vstd::utf8::encode_utf8(patterns[k]);
        crate::text::lemma_encoded_run_on_chars(s, m[i].0 as int, m[i].1 as int, patterns[k]);
    }
}

/// Cuts one run of one script: detects its script (and language when needed), picks its
/// segmenter, cuts it at the matches and cuts the rest with the segmenter.
fn segment_group(
    g: &str,
    matcher: &PatternMatcher,
    allow_list: Option<&[Language]>,
    chinese: &ChineseSegmenter,
) -> (out: Option<Vec<(String, Script, Option<Language>)>>)
    ensures
        match out {
            Some(v) => spec_segment_group(g@, matcher.patterns(), allow_view(allow_list), chinese.entries())
                == Some(segment_views(v@)),
            None => spec_segment_group(g@, matcher.patterns(), allow_view(allow_list), chinese.entries()) is None,
        },
        out matches Some(v) ==> segment_texts(segment_views(v@)).flatten() == g@,
        out matches Some(v) ==> v@.len() <= g@.len(),
        patterns_nonempty(matcher.patterns()) ==> out is Some,
        single_script(g@) ==> (out matches Some(v) ==> pieces_single_script(segment_views(v@))),
{
    let chars = chars_of(g);
    let m = matcher.find_matches(g);
    let typed = match split_at_matches(&chars, &m) {
        None => {
            proof {
                if patterns_nonempty(matcher.patterns()) {
                    lemma_pattern_matches_fit(g@, m@, matcher.patterns());
                }
            }
            return None;
        },
        Some(t) => t,
    };
    let mut detector = StrDetection::new(g, allow_list);
    let kind = segmenter(&mut detector);
    let script = detector.script();
    let language = detector.detected_language();
    let out = segment_pieces(kind, chinese, &typed, script, language);
    proof {
        if single_script(g@) {
            let v = segment_views(out@);
            lemma_pieces_single_script(segment_texts(v), g@);
            assert forall|k: int| 0 <= k < v.len() implies single_script(#[trigger] v[k].0) by {
                assert(segment_texts(v)[k] == v[k].0);
            }
        }
    }
    Some(out)
}

/// Cuts `text` into pieces, each with the script and the language of its run: the text is cut
/// into runs of one script, each run at the matches of `matcher` (kept whole), and the text
/// between matches by the segmenter picked for the run. `None` where a match does not fall
/// between two characters.
pub fn segment_with_matcher(
    text: &str,
    matcher: &PatternMatcher,
    allow_list: Option<&[Language]>,
    chinese: &ChineseSegmenter,
) -> (out: Option<Vec<(String, Script, Option<Language>)>>)
    ensures
        match out {
            Some(v) => spec_segment(text@, matcher.patterns(), allow_view(allow_list), chinese.entries())
                == Some(segment_views(v@)),
            None => spec_segment(text@, matcher.patterns(), allow_view(allow_list), chinese.entries()) is None,
        },
        out matches Some(v) ==> segment_texts(segment_views(v@)).flatten() == text@,
        out matches Some(v) ==> v@.len() <= text@.len(),
        patterns_nonempty(matcher.patterns()) ==> out is Some,
        out matches Some(v) ==> pieces_single_script(segment_views(v@)),
{
    let chars = chars_of(text);
    let groups = script_groups(&chars);
    let ghost gs = strs(groups@);
    proof {
        lemma_script_groups_single_script(chars@);
    }
    let ghost patterns = matcher.patterns();
    let ghost allow = allow_view(allow_list);
    let ghost entries = chinese.entries();
    let mut out: Vec<(String, Script, Option<Language>)> = Vec::new();
    let mut i: usize = 0;
    assert(gs.skip(0) =~= gs);
    assert(gs.take(0) =~= Seq::<Seq<char>>::empty());
    assert(segment_texts(segment_views(out@)) =~= Seq::<Seq<char>>::empty());
    assert(Seq::<SegmentView>::empty() + spec_segment_groups(gs, patterns, allow, entries).unwrap_or(Seq::empty())
        =~= spec_segment_groups(gs, patterns, allow, entries).unwrap_or(Seq::empty()));
    while i < groups.len()
        invariant
            gs == strs(groups@),
            gs == spec_script_groups(text@),
            patterns == matcher.patterns(),
            allow == allow_view(allow_list),
            entries == chinese.entries(),
            i <= groups@.len(),
            spec_segment_groups(gs, patterns, allow, entries) is Some <==> spec_segment_groups(
                gs.skip(i as int),
                patterns,
                allow,
                entries,
            ) is Some,
            spec_segment_groups(gs.skip(i as int), patterns, allow, entries) is Some
                ==> segment_views(out@) + spec_segment_groups(gs.skip(i as int), patterns, allow, entries).unwrap()
                == spec_segment_groups(gs, patterns, allow, entries).unwrap(),
            gs.flatten() == text@,
            segment_texts(segment_views(out@)).flatten() == gs.take(i as int).flatten(),
            out@.len() <= gs.take(i as int).flatten().len(),
            forall|k: int| 0 <= k < gs.len() ==> single_script(#[trigger] gs[k]),
            pieces_single_script(segment_views(out@)),
        decreases groups@.len() - i,
    {
        let ghost rest = gs.skip(i as int);
        proof {
            assert(rest[0] == gs[i as int]);
            assert(rest.drop_first() =~= gs.skip(i + 1));
        }
        let part = segment_group(groups[i].as_str(), matcher, allow_list, chinese);
        match part {
            None => {
                return None;
            },
            Some(mut v) => {
                let ghost before = segment_views(out@);
                let ghost pv = segment_views(v@);
                out.append(&mut v);
                proof {
                    assert(segment_views(out@) =~= before + pv);
                    assert(single_script(gs[i as int]));
                    assert forall|k: int| 0 <= k < segment_views(out@).len() implies single_script(
                        #[trigger] segment_views(out@)[k].0,
                    ) by {
                        if k < before.len() {
                            assert(segment_views(out@)[k] == before[k]);
                        } else {
                            assert(segment_views(out@)[k] == pv[k - before.len()]);
                        }
                    }
                    assert(segment_texts(segment_views(out@)) =~= segment_texts(before) + segment_texts(pv));
                    lemma_flatten_concat(segment_texts(before), segment_texts(pv));
                    assert(gs.take(i + 1) =~= gs.take(i as int).push(gs[i as int]));
                    gs.take(i as int).lemma_flatten_push(gs[i as int]);
                    if spec_segment_groups(gs.skip(i + 1), patterns, allow, entries) is Some {
                        assert(segment_views(out@) + spec_segment_groups(gs.skip(i + 1), patterns, allow, entries).unwrap()
                            =~= before + spec_segment_groups(rest, patterns, allow, entries).unwrap());
                    }
                }
            },
        }
        i += 1;
    }
    proof {
        assert(gs.take(i as int) =~= gs);
        assert(gs.skip(i as int) =~= Seq::<Seq<char>>::empty());
        assert(segment_views(out@) + Seq::<SegmentView>::empty() =~= segment_views(out@));
    }
    Some(out)
}

} // verus!

verus! {

/// The token of the piece at position `i` of `v`: its lemma is the piece, with the script and
/// language of its run, and its character and byte range in the text is where the piece stands
/// (right after the pieces before it). Nothing is classified yet.
pub open spec fn segment_token_view(v: Seq<SegmentView>, i: int) -> TokenView {
    let before = segment_texts(v).take(i).flatten();
    TokenView {
        kind: TokenKind::Unknown,
        lemma: v[i].0,
        char_start: before.len() as usize,
        char_end: (before.len() + v[i].0.len()) as usize,
        byte_start: utf8_len_seq(before) as usize,
        byte_end: (utf8_len_seq(before) + utf8_len_seq(v[i].0)) as usize,
        char_map: None,
        script: v[i].1,
        language: v[i].2,
    }
}

/// The tokens of the pieces `v`.
pub open spec fn segment_token_views(v: Seq<SegmentView>) -> Seq<TokenView> {
    Seq::new(v.len(), |i: int| segment_token_view(v, i))
}

/// The contents of a list of tokens.
pub open spec fn token_views(t: Seq<Token>) -> Seq<TokenView> {
    Seq::new(t.len(), |i: int| t[i]@)
}

/// Makes tokens of segmented pieces, numbering their characters and bytes from the start.
pub fn tokens_from_segments(segments: Vec<(String, Script, Option<Language>)>) -> (tokens: Vec<
    Token,
>)
    requires
        utf8_len_seq(segment_texts(segment_views(segments@)).flatten()) <= usize::MAX,
    ensures
        token_views(tokens@) == segment_token_views(segment_views(segments@)),
{
    let ghost v = segment_views(segments@);
    let ghost texts = segment_texts(v);
    let mut tokens: Vec<Token> = Vec::new();
    let mut char_index: usize = 0;
    let mut byte_index: usize = 0;
    let mut i: usize = 0;
    assert(texts.take(0) =~= Seq::<Seq<char>>::empty());
    while i < segments.len()
        invariant
            v == segment_views(segments@),
            texts == segment_texts(v),
            utf8_len_seq(texts.flatten()) <= usize::MAX,
            i <= segments@.len(),
            tokens@.len() == i,
            char_index == texts.take(i as int).flatten().len(),
            byte_index == utf8_len_seq(texts.take(i as int).flatten()),
            forall|j: int|
                0 <= j < i ==> {
                    let before = texts.take(j).flatten();
                    &&& (#[trigger] tokens@[j]).lemma@ == v[j].0
                    &&& tokens@[j].kind == TokenKind::Unknown
                    &&& tokens@[j].char_start == before.len()
                    &&& tokens@[j].char_end == before.len() + v[j].0.len()
                    &&& tokens@[j].byte_start == utf8_len_seq(before)
                    &&& tokens@[j].byte_end == utf8_len_seq(before) + utf8_len_seq(v[j].0)
                    &&& tokens@[j].char_map is None
                    &&& tokens@[j].script == v[j].1
                    &&& tokens@[j].language == v[j].2
                },
        decreases segments@.len() - i,
    {
        let lemma = segments[i].0.clone();
        let script = segments[i].1;
        let language = segments[i].2;
        let chars = chars_of(lemma.as_str());
        let ghost piece = texts[i as int];
        proof {
            assert(piece == lemma@);
            assert(texts.take(i + 1) =~= texts.take(i as int).push(piece));
            texts.take(i as int).lemma_flatten_push(piece);
            lemma_utf8_len_concat(texts.take(i as int).flatten(), piece);
            lemma_utf8_len_bound(texts.take(i + 1).flatten());
            lemma_prefix_flatten_bound(texts, i + 1);
        }
        let n_chars = chars.len();
        let n_bytes = crate::text::str_byte_len(lemma.as_str());
        let char_start = char_index;
        let byte_start = byte_index;
        char_index = char_index + n_chars;
        byte_index = byte_index + n_bytes;
        tokens.push(
            Token {
                kind: TokenKind::Unknown,
                lemma,
                char_start,
                char_end: char_index,
                byte_start,
                byte_end: byte_index,
                char_map: None,
                script,
                language,
            },
        );
        i += 1;
    }
    proof {
        assert forall|j: int| 0 <= j < tokens@.len() implies token_views(tokens@)[j]
            == segment_token_views(v)[j] by {
            let before = texts.take(j).flatten();
            lemma_prefix_flatten_bound(texts, j + 1);
            assert(texts.take(j + 1) =~= texts.take(j).push(texts[j]));
            texts.take(j).lemma_flatten_push(texts[j]);
            lemma_utf8_len_concat(before, texts[j]);
            lemma_utf8_len_bound(texts.take(j + 1).flatten());
            assert(tokens@[j]@ =~~= segment_token_view(v, j));
        }
        assert(token_views(tokens@) =~= segment_token_views(v));
    }
    tokens
}

/// A prefix of the pieces takes at most as many bytes as all of them.
proof fn lemma_prefix_flatten_bound(texts: Seq<Seq<char>>, k: int)
    requires
        0 <= k <= texts.len(),
    ensures
        utf8_len_seq(texts.take(k).flatten()) <= utf8_len_seq(texts.flatten()),
{
    assert(texts.take(k) + texts.skip(k) =~= texts);
    lemma_flatten_concat(texts.take(k), texts.skip(k));
    lemma_utf8_len_concat(texts.take(k).flatten(), texts.skip(k).flatten());
}

} // verus!

verus! {

/// The patterns of an optional matcher, the default separators (without empty ones) without
/// one.
pub open spec fn patterns_or_default(aho: Option<&PatternMatcher>) -> Seq<Seq<char>> {
    match aho {
        Some(m) => m.patterns(),
        None => default_patterns(),
    }
}

/// The matcher of the default separators, or `None` where its automaton cannot be built.
pub fn default_separator_matcher() -> (matcher: Option<PatternMatcher>)
    ensures
        matcher is Some <==> aho::aho_builds(default_patterns()),
        matcher matches Some(m) ==> m.patterns() == default_patterns(),
        matcher matches Some(m) ==> patterns_nonempty(m.patterns()),
{
    let mut defaults: Vec<&str> = Vec::new();
    push_nonempty(&mut defaults, DEFAULT_SEPARATORS.as_slice());
    PatternMatcher::new(defaults.as_slice())
}

/// Segmentation of a text with the Chinese dictionary that `jieba` embeds.
pub trait Segment {
    /// The pieces of the text, cut at the matches of `aho` (the default separators without
    /// one) and by the segmenters, with the given languages allowed during detection.
    fn segment_str_with_option(&self, aho: Option<&PatternMatcher>, allow_list: Option<&[Language]>) -> Option<Vec<String>>;

    /// The pieces of the text as tokens, not normalized nor classified.
    fn segment_with_option(&self, aho: Option<&PatternMatcher>, allow_list: Option<&[Language]>) -> Option<Vec<Token>>;

    /// The pieces of the text with the default separators.
    fn segment_str(&self) -> Option<Vec<String>>;

    /// The tokens of the text with the default separators, not normalized nor classified.
    fn segment(&self) -> Option<Vec<Token>>;
}

impl<'o> Segment for &'o str {
    /// The pieces concatenate to the text; they are what [`spec_segment`] says for the
    /// embedded dictionary of `jieba`. `None` where a match does not fall between two
    /// characters (which a matcher without empty patterns rules out), or where the automaton
    /// of the default separators cannot be built.
    fn segment_str_with_option(&self, aho: Option<&PatternMatcher>, allow_list: Option<&[Language]>) -> (pieces: Option<Vec<String>>)
        ensures
            pieces matches Some(v) ==> forall|k: int| 0 <= k < v@.len() ==> single_script(#[trigger] strs(v@)[k]),
            (aho matches Some(m) ==> patterns_nonempty(m.patterns())) && (aho is Some || aho::aho_builds(default_patterns())) ==> pieces is Some,
            pieces is Some <==> (aho is Some || aho::aho_builds(default_patterns()))
                && segment_fits((*self)@, patterns_or_default(aho)),
            pieces matches Some(v) ==> strs(v@).flatten() == (*self)@,
            pieces matches Some(v) ==> exists|entries: Map<Seq<char>, usize>|
                #[trigger] spec_segment((*self)@, patterns_or_default(aho), allow_view(allow_list), entries) matches Some(s)
                    && strs(v@) == segment_texts(s),
    {
        let chinese = ChineseSegmenter::new();
        let default_matcher;
        let matcher = match aho {
            Some(m) => m,
            None => {
                default_matcher = match default_separator_matcher() {
                    Some(m) => m,
                    None => {
                        return None;
                    },
                };
                &default_matcher
            },
        };
        assert(matcher.patterns() == patterns_or_default(aho));
        proof {
            lemma_segment_some((*self)@, patterns_or_default(aho), allow_view(allow_list), chinese.entries());
        }
        let segments = match segment_with_matcher(*self, matcher, allow_list, &chinese) {
            Some(s) => s,
            None => {
                return None;
            },
        };
        let ghost v = segment_views(segments@);
        let ghost entries = chinese.entries();
        let mut out: Vec<String> = Vec::new();
        let mut i: usize = 0;
        while i < segments.len()
            invariant
                v == segment_views(segments@),
                i <= segments@.len(),
                strs(out@) == segment_texts(v).take(i as int),
            decreases segments@.len() - i,
        {
            let ghost before = strs(out@);
            let piece = segments[i].0.clone();
            out.push(piece);
            proof {
                assert(strs(out@) =~= before.push(piece@));
                assert(segment_texts(v).take(i + 1) =~= segment_texts(v).take(i as int).push(v[i as int].0));
            }
            i += 1;
        }
        assert forall|k: int| 0 <= k < out@.len() implies single_script(#[trigger] strs(out@)[k]) by {
            assert(strs(out@)[k] == segment_texts(v)[k]);
        }
        assert(segment_texts(v).take(i as int) =~= segment_texts(v));
        assert(strs(out@) == segment_texts(v));
        assert(spec_segment((*self)@, patterns_or_default(aho), allow_view(allow_list), entries) == Some(v));
        Some(out)
    }

    /// The tokens of the pieces, numbered from the start of the text.
    fn segment_with_option(&self, aho: Option<&PatternMatcher>, allow_list: Option<&[Language]>) -> (tokens: Option<Vec<Token>>)
        ensures
            tokens matches Some(v) ==> tokens_tile(token_views(v@), (*self)@),
            (aho matches Some(m) ==> patterns_nonempty(m.patterns())) && (aho is Some || aho::aho_builds(default_patterns())) ==> tokens is Some,
            tokens is Some <==> (aho is Some || aho::aho_builds(default_patterns()))
                && segment_fits((*self)@, patterns_or_default(aho)),
            tokens matches Some(v) ==> exists|entries: Map<Seq<char>, usize>|
                #[trigger] spec_segment((*self)@, patterns_or_default(aho), allow_view(allow_list), entries) matches Some(s)
                    && token_views(v@) == segment_token_views(s),
    {
        crate::text::str_len_fits(*self);
        let chinese = ChineseSegmenter::new();
        let default_matcher;
        let matcher = match aho {
            Some(m) => m,
            None => {
                default_matcher = match default_separator_matcher() {
                    Some(m) => m,
                    None => {
                        return None;
                    },
                };
                &default_matcher
            },
        };
        assert(matcher.patterns() == patterns_or_default(aho));
        proof {
            lemma_segment_some((*self)@, patterns_or_default(aho), allow_view(allow_list), chinese.entries());
        }
        match segment_with_matcher(*self, matcher, allow_list, &chinese) {
            Some(s) => {
                let ghost v = segment_views(s@);
                proof {
                    lemma_segment_tokens_tile(v);
                }
                let tokens = tokens_from_segments(s);
                assert(spec_segment((*self)@, patterns_or_default(aho), allow_view(allow_list), chinese.entries()) == Some(v));
                Some(tokens)
            },
            None => None,
        }
    }

    fn segment_str(&self) -> (pieces: Option<Vec<String>>)
        ensures
            pieces matches Some(v) ==> forall|k: int| 0 <= k < v@.len() ==> single_script(#[trigger] strs(v@)[k]),
            aho::aho_builds(default_patterns()) ==> pieces is Some,
            pieces is Some <==> aho::aho_builds(default_patterns()) && segment_fits(
                (*self)@,
                default_patterns(),
            ),
            pieces matches Some(v) ==> strs(v@).flatten() == (*self)@,
            pieces matches Some(v) ==> exists|entries: Map<Seq<char>, usize>|
                #[trigger] spec_segment((*self)@, default_patterns(), None, entries) matches Some(s)
                    && strs(v@) == segment_texts(s),
    {
        self.segment_str_with_option(None, None)
    }

    fn segment(&self) -> (tokens: Option<Vec<Token>>)
        ensures
            tokens matches Some(v) ==> tokens_tile(token_views(v@), (*self)@),
            aho::aho_builds(default_patterns()) ==> tokens is Some,
            tokens is Some <==> aho::aho_builds(default_patterns()) && segment_fits(
                (*self)@,
                default_patterns(),
            ),
            tokens matches Some(v) ==> exists|entries: Map<Seq<char>, usize>|
                #[trigger] spec_segment((*self)@, default_patterns(), None, entries) matches Some(s)
                    && token_views(v@) == segment_token_views(s),
    {
        self.segment_with_option(None, None)
    }
}

} // verus!

verus! {

/// The offsets of the token of the piece at position `i`.
#[verifier::spinoff_prover]
proof fn lemma_token_at(v: Seq<SegmentView>, i: int)
    requires
        utf8_len_seq(segment_texts(v).flatten()) <= usize::MAX,
        0 <= i < v.len(),
    ensures
        segment_token_view(v, i).char_end == segment_texts(v).take(i + 1).flatten().len(),
        segment_token_view(v, i).byte_end == utf8_len_seq(segment_texts(v).take(i + 1).flatten()),
        segment_token_view(v, i).char_start == segment_texts(v).take(i).flatten().len(),
        segment_token_view(v, i).byte_start == utf8_len_seq(segment_texts(v).take(i).flatten()),
{
    let texts = segment_texts(v);
    assert(texts.take(i + 1) =~= texts.take(i).push(texts[i]));
    texts.take(i).lemma_flatten_push(texts[i]);
    lemma_utf8_len_concat(texts.take(i).flatten(), texts[i]);
    lemma_prefix_flatten_bound(texts, i + 1);
    lemma_utf8_len_bound(texts.take(i + 1).flatten());
}

/// The tokens of the pieces follow each other: the first starts at the start of the text, each
/// starts where the one before ends (in characters and in bytes), and the last ends at the end
/// of the text.
#[verifier::spinoff_prover]
#[verifier::rlimit(40)]
pub proof fn lemma_token_offsets(v: Seq<SegmentView>)
    requires
        utf8_len_seq(segment_texts(v).flatten()) <= usize::MAX,
    ensures
        v.len() > 0 ==> segment_token_views(v)[0].char_start == 0 && segment_token_views(v)[0].byte_start
            == 0,
        forall|i: int|
            0 <= i < v.len() - 1 ==> (#[trigger] segment_token_views(v)[i]).char_end
                == segment_token_views(v)[i + 1].char_start && segment_token_views(v)[i].byte_end
                == segment_token_views(v)[i + 1].byte_start,
        v.len() > 0 ==> segment_token_views(v).last().char_end == segment_texts(v).flatten().len()
            && segment_token_views(v).last().byte_end == utf8_len_seq(segment_texts(v).flatten()),
{
    let texts = segment_texts(v);
    let t = segment_token_views(v);
    if v.len() > 0 {
        lemma_token_at(v, 0);
        assert(texts.take(0) =~= Seq::<Seq<char>>::empty());
        lemma_token_at(v, v.len() - 1);
        assert(texts.take(v.len() as int) =~= texts);
    }
    assert forall|i: int| 0 <= i < v.len() - 1 implies (#[trigger] t[i]).char_end == t[i + 1].char_start
        && t[i].byte_end == t[i + 1].byte_start by {
        lemma_token_at(v, i);
        lemma_token_at(v, i + 1);
    }
}

/// Whether tokens tile a text: the first starts at its start and the last ends at its end (in
/// characters and in bytes), each starts where the one before ends, and each holds, unclassified
/// and without char map, exactly the characters (and so the bytes) of the text between its
/// offsets. No token means an empty text.
#[verifier::opaque]
pub open spec fn tokens_tile(ts: Seq<TokenView>, text: Seq<char>) -> bool {
    &&& ts.len() == 0 ==> text.len() == 0
    &&& ts.len() > 0 ==> ts[0].char_start == 0 && ts[0].byte_start == 0
    &&& ts.len() > 0 ==> ts.last().char_end == text.len() && ts.last().byte_end == utf8_len_seq(text)
    &&& forall|i: int|
        0 <= i < ts.len() - 1 ==> (#[trigger] ts[i]).char_end == ts[i + 1].char_start && ts[i].byte_end
            == ts[i + 1].byte_start
    &&& forall|i: int| 0 <= i < ts.len() ==> token_in_text(#[trigger] ts[i], text)
}

/// Whether a token holds, unclassified and without char map, exactly the characters (and so
/// the bytes) of `text` between its offsets.
pub open spec fn token_in_text(t: TokenView, text: Seq<char>) -> bool {
    &&& t.char_start <= t.char_end <= text.len()
    &&& t.char_end - t.char_start == t.lemma.len()
    &&& t.byte_end - t.byte_start == utf8_len_seq(t.lemma)
    &&& text.subrange(t.char_start as int, t.char_end as int) == t.lemma
    &&& vstd::utf8::encode_utf8(text).subrange(t.byte_start as int, t.byte_end as int)
        == vstd::utf8::encode_utf8(t.lemma)
    &&& t.kind == TokenKind::Unknown
    &&& t.char_map is None
}

/// The token of the piece at position `i` holds the characters and bytes of the text between
/// its offsets.
#[verifier::spinoff_prover]
#[verifier::rlimit(40)]
pub proof fn lemma_segment_token_in_text(v: Seq<SegmentView>, i: int)
    requires
        utf8_len_seq(segment_texts(v).flatten()) <= usize::MAX,
        0 <= i < v.len(),
    ensures
        token_in_text(segment_token_view(v, i), segment_texts(v).flatten()),
{
    let texts = segment_texts(v);
    let text = texts.flatten();
    let t = segment_token_view(v, i);
    lemma_token_at(v, i);
    crate::tokenizer::lemma_piece_in_text(texts, i);
    crate::tokenizer::lemma_prefix_len_bound(texts, i);
    let a = texts.take(i).flatten();
    let b = texts.skip(i + 1).flatten();
    assert(texts =~= texts.take(i).push(texts[i]) + texts.skip(i + 1));
    lemma_flatten_concat(texts.take(i).push(texts[i]), texts.skip(i + 1));
    texts.take(i).lemma_flatten_push(texts[i]);
    assert(texts.take(i + 1) =~= texts.take(i).push(texts[i]));
    assert(text =~= a + texts[i] + b);
    crate::text::lemma_utf8_len_concat(a, texts[i]);
    assert(t.byte_start == utf8_len_seq(a));
    assert(t.byte_end == utf8_len_seq(a) + utf8_len_seq(texts[i]));
    crate::text::lemma_encode_utf8_concat(a + texts[i], b);
    crate::text::lemma_encode_utf8_concat(a, texts[i]);
    crate::text::lemma_encode_utf8_len(a);
    crate::text::lemma_encode_utf8_len(texts[i]);
    assert(texts[i] == v[i].0);
    assert(vstd::utf8::encode_utf8(text) =~= vstd::utf8::encode_utf8(a) + vstd::utf8::encode_utf8(texts[i])
        + vstd::utf8::encode_utf8(b));
    assert(vstd::utf8::encode_utf8(text).subrange(t.byte_start as int, t.byte_end as int)
        =~= vstd::utf8::encode_utf8(texts[i]));
}

/// The tokens of the pieces of a text tile it.
#[verifier::spinoff_prover]
#[verifier::rlimit(60)]
pub proof fn lemma_segment_tokens_tile(v: Seq<SegmentView>)
    requires
        utf8_len_seq(segment_texts(v).flatten()) <= usize::MAX,
    ensures
        tokens_tile(segment_token_views(v), segment_texts(v).flatten()),
{
    reveal(tokens_tile);
    let texts = segment_texts(v);
    let t = segment_token_views(v);
    lemma_token_offsets(v);
    if v.len() == 0 {
        assert(texts =~= Seq::<Seq<char>>::empty());
    }
    assert forall|i: int| 0 <= i < t.len() implies token_in_text(#[trigger] t[i], texts.flatten()) by {
        lemma_segment_token_in_text(v, i);
        assert(t[i] == segment_token_view(v, i));
    }
}

} // verus!
