//! The automaton that finds separators (and dictionary words) in a text, from `aho_corasick`.
use aho_corasick::{AhoCorasick, MatchKind};
use vstd::prelude::*;

use vstd::utf8::encode_utf8;

use crate::text::utf8_len_seq;

verus! {

/// An automaton of `aho_corasick`.
#[verifier::external_type_specification]
#[verifier::external_body]
pub struct ExAhoCorasick(aho_corasick::AhoCorasick);

/// The patterns of an automaton, in the order they were given.
pub uninterp spec fn aho_patterns(aho: aho_corasick::AhoCorasick) -> Seq<Seq<char>>;

/// Whether `aho_corasick` builds a leftmost-longest automaton of the given patterns. Its source
/// refuses only where an index of the automaton would pass its internal limits, which depends
/// on the patterns alone.
pub uninterp spec fn aho_builds(patterns: Seq<Seq<char>>) -> bool;

/// Whether an automaton was built to report leftmost-longest matches.
pub uninterp spec fn aho_is_leftmost_longest(aho: aho_corasick::AhoCorasick) -> bool;

/// The leftmost-longest, non-overlapping matches of some patterns in a text, as byte ranges.
pub uninterp spec fn leftmost_longest_matches(patterns: Seq<Seq<char>>, text: Seq<char>) -> Seq<
    (usize, usize),
>;

/// The characters of each text of a list.
pub open spec fn str_views(v: Seq<&str>) -> Seq<Seq<char>> {
    Seq::new(v.len(), |i: int| v[i]@)
}

/// Whether the bytes of `text` in each range are the bytes of one of the patterns.
pub open spec fn matches_are_patterns(m: Seq<(usize, usize)>, patterns: Seq<Seq<char>>, text: Seq<char>) -> bool {
    forall|i: int|
        0 <= i < m.len() ==> exists|k: int|
            0 <= k < patterns.len() && encode_utf8(text).subrange(#[trigger] m[i].0 as int, m[i].1 as int)
                == encode_utf8(#[trigger] patterns[k])
}

/// Whether no pattern is empty.
pub open spec fn patterns_nonempty(patterns: Seq<Seq<char>>) -> bool {
    forall|k: int| 0 <= k < patterns.len() ==> #[trigger] patterns[k].len() > 0
}

/// Whether byte ranges lie in a text of `len` bytes, each before the next without overlap.
pub open spec fn matches_in_order(m: Seq<(usize, usize)>, len: int) -> bool {
    &&& forall|i: int| 0 <= i < m.len() ==> #[trigger] m[i].0 <= m[i].1 && m[i].1 <= len
    &&& forall|i: int, j: int| 0 <= i < j < m.len() ==> #[trigger] m[i].1 <= #[trigger] m[j].0
}

/// `AhoCorasick::builder().match_kind(MatchKind::LeftmostLongest).build(patterns)`: an
/// automaton of the given patterns, or `None` where the crate refuses to build one (it does
/// so when the automaton would exceed its internal limits: whether it does is named, not
/// stated).
#[verifier::external_body]
fn build_leftmost_longest(patterns: &[&str]) -> (aho: Option<AhoCorasick>)
    ensures
        aho is Some <==> aho_builds(str_views(patterns@)),
        aho matches Some(a) ==> aho_patterns(a) == str_views(patterns@) && aho_is_leftmost_longest(
            a,
        ),
{
    AhoCorasick::builder().match_kind(MatchKind::LeftmostLongest).build(patterns).ok()
}

/// `AhoCorasick::patterns_len`: the number of patterns of the automaton.
#[verifier::external_body]
fn patterns_len(aho: &AhoCorasick) -> (n: usize)
    ensures
        n == aho_patterns(*aho).len(),
{
    aho.patterns_len()
}

/// `AhoCorasick::find_iter`, collected as byte ranges: the matches of the automaton's
/// patterns in the text. The crate documents them as non-overlapping and reports them from
/// left to right inside the text, each over bytes that are those of one of the patterns; which
/// matches they are is named, not stated.
#[verifier::external_body]
fn find_matches(aho: &AhoCorasick, text: &str) -> (matches: Vec<(usize, usize)>)
    requires
        aho_is_leftmost_longest(*aho),
    ensures
        matches@ == leftmost_longest_matches(aho_patterns(*aho), text@),
        matches_in_order(matches@, utf8_len_seq(text@) as int),
        matches_are_patterns(matches@, aho_patterns(*aho), text@),
{
    aho.find_iter(text).map(|m| (m.start(), m.end())).collect()
}

/// An automaton that finds the leftmost-longest matches of a list of patterns.
pub struct PatternMatcher {
    aho: AhoCorasick,
}

impl PatternMatcher {
    /// The patterns of the matcher.
    pub closed spec fn patterns(&self) -> Seq<Seq<char>> {
        aho_patterns(self.aho)
    }

    /// The automaton of a matcher reports leftmost-longest matches.
    #[verifier::type_invariant]
    spec fn leftmost_longest(&self) -> bool {
        aho_is_leftmost_longest(self.aho)
    }

    /// A matcher of `patterns`, or `None` where the automaton cannot be built.
    pub fn new(patterns: &[&str]) -> (matcher: Option<PatternMatcher>)
        ensures
            matcher is Some <==> aho_builds(str_views(patterns@)),
            matcher matches Some(m) ==> m.patterns() == str_views(patterns@),
    {
        match build_leftmost_longest(patterns) {
            Some(aho) => Some(PatternMatcher { aho }),
            None => None,
        }
    }

    /// The number of patterns.
    pub fn patterns_len(&self) -> (n: usize)
        ensures
            n == self.patterns().len(),
    {
        patterns_len(&self.aho)
    }

    /// The matches of the patterns in `text`, as byte ranges, from left to right; the bytes of
    /// each are those of one of the patterns.
    pub fn find_matches(&self, text: &str) -> (matches: Vec<(usize, usize)>)
        ensures
            matches@ == leftmost_longest_matches(self.patterns(), text@),
            matches_in_order(matches@, utf8_len_seq(text@) as int),
            matches_are_patterns(matches@, self.patterns(), text@),
    {
        proof {
            use_type_invariant(self);
        }
        find_matches(&self.aho, text)
    }
}

} // verus!
