//! Normalizers: the rewriting of a token's lemma, character by character or as a whole, and
//! the char map that relates the normalized bytes to the original ones.
use vstd::prelude::*;
use vstd::string::StringExecFns;

use crate::text::{
    byte_len_u8, char_len_utf8, chars_of, lemma_utf8_len_take_increasing,
    lemma_utf8_len_bound, lemma_utf8_len_take_step, push_char, string_from_chars, utf8_len, utf8_len_seq,
};
use crate::token::{Token, TokenView};

pub mod ae_oe_normalizer;
pub mod arabic;
pub mod character_converter;
pub mod chinese;
pub mod cjk;
pub mod classify;
pub mod compatibility_decomposition;
pub mod control_char;
pub mod dummy_example;
pub mod greek;
pub mod japanese;
pub mod lowercase;
pub mod nonspacing_mark;
pub mod oe_ae_normalizer;
pub mod persian;
pub mod pipeline;
pub mod quote;
pub mod recompose;
pub mod russian;
pub mod swedish_recomposition;
pub mod thai;
pub mod turkish;
pub mod vietnamese;

pub use ae_oe_normalizer::AeOeNormalizer;
pub use arabic::ArabicNormalizer;
pub use persian::PersianNormalizer;
pub use quote::QuoteNormalizer;
pub use thai::ThaiNormalizer;
pub use turkish::TurkishNormalizer;
pub use vietnamese::VietnameseNormalizer;
pub use character_converter::CharacterConverterNormalizer;
pub use chinese::ChineseNormalizer;
pub use cjk::CjkNormalizer;
pub use japanese::JapaneseNormalizer;
pub use classify::{Classifier, ClassifierOption};
pub use compatibility_decomposition::CompatibilityDecompositionNormalizer;
pub use control_char::ControlCharNormalizer;
pub use nonspacing_mark::NonspacingMarkNormalizer;
pub use dummy_example::DummyNormalizer;
pub use lowercase::LowercaseNormalizer;
pub use oe_ae_normalizer::OE_AE_Normalizer;
pub use greek::GreekNormalizer;
pub use russian::RussianNormalizer;
pub use swedish_recomposition::SwedishRecompositionNormalizer;

verus! {

/// The replacement of a character: a single character or a string.
pub enum CharOrStr {
    Char(char),
    Str(String),
}

impl CharOrStr {
    /// The characters that this replacement stands for.
    pub open spec fn chars(&self) -> Seq<char> {
        match self {
            CharOrStr::Char(c) => seq![*c],
            CharOrStr::Str(s) => s@,
        }
    }

    /// The concatenation of two replacements, as a string.
    pub fn merge(&self, other: &Self) -> (merged: Self)
        ensures
            merged is Str,
            merged.chars() == self.chars() + other.chars(),
    {
        let mut result = String::new();
        append_char_or_str(&mut result, self);
        append_char_or_str(&mut result, other);
        CharOrStr::Str(result)
    }
}

/// The characters that an optional replacement stands for; none for `None`.
pub open spec fn replacement(r: Option<CharOrStr>) -> Seq<char> {
    match r {
        Some(x) => x.chars(),
        None => Seq::empty(),
    }
}

/// Appends the characters of a replacement.
pub fn append_char_or_str(out: &mut String, r: &CharOrStr)
    ensures
        final(out)@ == old(out)@ + r.chars(),
{
    match r {
        CharOrStr::Char(c) => {
            push_char(out, *c);
            assert(old(out)@.push(*c) =~= old(out)@ + seq![*c]);
        },
        CharOrStr::Str(s) => out.append(s.as_str()),
    }
}

/// The form of an optional replacement: a removal, a single character, or a string.
pub enum ReplacementForm {
    Removed,
    Char,
    Str,
}

/// The form of an optional replacement.
pub open spec fn form_of(r: Option<CharOrStr>) -> ReplacementForm {
    match r {
        None => ReplacementForm::Removed,
        Some(CharOrStr::Char(_)) => ReplacementForm::Char,
        Some(CharOrStr::Str(_)) => ReplacementForm::Str,
    }
}

/// The form that a replacement takes when it is a removal for no character, a single
/// character for one, and a string for more.
pub open spec fn canonical_form(s: Seq<char>) -> ReplacementForm {
    if s.len() == 0 {
        ReplacementForm::Removed
    } else if s.len() == 1 {
        ReplacementForm::Char
    } else {
        ReplacementForm::Str
    }
}

/// A replacement of several characters, as a string.
pub fn str_replacement(v: &[char]) -> (r: CharOrStr)
    ensures
        r is Str,
        r.chars() == v@,
{
    CharOrStr::Str(crate::text::string_from_chars(v))
}

/// Options of the normalization. `kvariants` is the table of ideograph variants that the
/// Chinese normalizer uses; without one it leaves ideographs as they are.
pub struct NormalizerOption<'tb> {
    pub create_char_map: bool,
    pub classifier: ClassifierOption<'tb>,
    pub lossy: bool,
    pub kvariants: Option<&'tb crate::kvariants::KVariants>,
}

/// A normalizer that rewrites text character by character.
pub trait CharNormalizer {
    /// The characters that replace `c`; none when `c` is removed.
    spec fn spec_normalize_char(&self, c: char) -> Seq<char>;

    /// The form of the replacement of `c`: `Removed` exactly when `c` is removed.
    spec fn spec_form(&self, c: char) -> ReplacementForm;

    /// Whether the normalizer applies to a token.
    spec fn spec_should_normalize(&self, token: TokenView) -> bool;

    /// The replacement of `c`, `None` to remove it; its characters and its form are the ones
    /// that the spec functions give.
    fn normalize_char(&self, c: char) -> (r: Option<CharOrStr>)
        ensures
            replacement(r) == self.spec_normalize_char(c),
            form_of(r) == self.spec_form(c),
    ;

    /// Whether the normalizer applies to a token.
    fn should_normalize(&self, token: &Token) -> (b: bool)
        ensures
            b == self.spec_should_normalize(token@),
    ;
}

/// The text that a char normalizer makes of `s`: the replacements of its characters, in order.
pub open spec fn normalized_chars<N: CharNormalizer>(n: &N, s: Seq<char>) -> Seq<char>
    decreases s.len(),
{
    if s.len() == 0 {
        Seq::empty()
    } else {
        normalized_chars(n, s.drop_last()) + n.spec_normalize_char(s.last())
    }
}

/// Normalizing a concatenation is concatenating the normalized parts.
pub proof fn lemma_normalized_chars_concat<N: CharNormalizer>(n: &N, a: Seq<char>, b: Seq<char>)
    ensures
        normalized_chars(n, a + b) == normalized_chars(n, a) + normalized_chars(n, b),
    decreases b.len(),
{
    if b.len() == 0 {
        assert(a + b =~= a);
    } else {
        assert((a + b).drop_last() =~= a + b.drop_last());
        lemma_normalized_chars_concat(n, a, b.drop_last());
    }
}

/// Appends the normalized form of `v[from..to]`.
pub fn push_normalized<N: CharNormalizer>(n: &N, out: &mut String, v: &[char], from: usize, to: usize)
    requires
        from <= to <= v@.len(),
    ensures
        final(out)@ == old(out)@ + normalized_chars(n, v@.subrange(from as int, to as int)),
{
    let mut i = from;
    while i < to
        invariant
            from <= i <= to <= v@.len(),
            out@ == old(out)@ + normalized_chars(n, v@.subrange(from as int, i as int)),
        decreases to - i,
    {
        let r = n.normalize_char(v[i]);
        match r {
            Some(x) => append_char_or_str(out, &x),
            None => {},
        }
        assert(v@.subrange(from as int, i + 1).drop_last() =~= v@.subrange(from as int, i as int));
        i += 1;
    }
}

/// Normalizes a text character by character.
pub fn normalize_str<N: CharNormalizer>(n: &N, s: &str) -> (r: String)
    ensures
        r@ == normalized_chars(n, s@),
{
    let v = chars_of(s);
    let mut out = String::new();
    push_normalized(n, &mut out, v.as_slice(), 0, v.len());
    assert(v@.subrange(0, v@.len() as int) =~= s@);
    out
}

/// Whether `s` starts with characters that take exactly `n` bytes.
pub open spec fn has_byte_cut(s: Seq<char>, n: int) -> bool {
    exists|k: int| 0 <= k <= s.len() && utf8_len_seq(s.take(k)) == n
}

/// The number of leading characters of `s` that take exactly `n` bytes.
pub open spec fn byte_cut(s: Seq<char>, n: int) -> int {
    choose|k: int| 0 <= k <= s.len() && utf8_len_seq(s.take(k)) == n
}

/// At most one prefix takes a given number of bytes.
pub proof fn lemma_byte_cut_unique(s: Seq<char>, n: int, k: int)
    requires
        0 <= k <= s.len(),
        utf8_len_seq(s.take(k)) == n,
    ensures
        has_byte_cut(s, n),
        byte_cut(s, n) == k,
{
    let c = byte_cut(s, n);
    if c < k {
        lemma_utf8_len_take_increasing(s, c, k);
    } else if k < c {
        lemma_utf8_len_take_increasing(s, k, c);
    }
}

/// The lemma and char map that a char normalizer makes from a lemma whose characters are
/// grouped by an existing char map: each group, of the number of bytes that the map gives
/// as its normalized length, is normalized on its own. `None` where a group does not end on
/// a character of the lemma.
pub open spec fn remap_groups<N: CharNormalizer>(n: &N, s: Seq<char>, map: Seq<(u8, u8)>) -> Option<
    (Seq<char>, Seq<(u8, u8)>),
>
    decreases map.len(),
{
    if map.len() == 0 {
        Some((Seq::empty(), Seq::empty()))
    } else if !has_byte_cut(s, map[0].1 as int) {
        None
    } else {
        let k = byte_cut(s, map[0].1 as int);
        match remap_groups(n, s.skip(k), map.drop_first()) {
            None => None,
            Some(rest) => {
                let head = normalized_chars(n, s.take(k));
                Some(
                    (
                        head + rest.0,
                        seq![(map[0].0, (utf8_len_seq(head) % 256) as u8)] + rest.1,
                    ),
                )
            },
        }
    }
}

/// The char map that a char normalizer creates for a lemma: for each character, its byte
/// length and the byte length (modulo 256) of its normalized form.
pub open spec fn fresh_char_map<N: CharNormalizer>(n: &N, s: Seq<char>) -> Seq<(u8, u8)> {
    Seq::new(
        s.len(),
        |i: int| (utf8_len(s[i]) as u8, (utf8_len_seq(n.spec_normalize_char(s[i])) % 256) as u8),
    )
}

/// Whether a char normalizer can rewrite a token with the given options: an existing char map
/// must group the lemma's characters.
pub open spec fn char_map_fits<N: CharNormalizer>(n: &N, token: Token, create_char_map: bool) -> bool {
    create_char_map ==> match token.char_map {
        Some(map) => remap_groups(n, token.lemma@, map@) is Some,
        None => true,
    }
}

/// What a char normalizer makes of a token: the lemma and char map after normalization, every
/// other field unchanged.
pub open spec fn spec_char_normalized_token<N: CharNormalizer>(
    n: &N,
    token: Token,
    create_char_map: bool,
    result: Token,
) -> bool {
    &&& result.kind == token.kind
    &&& result.char_start == token.char_start
    &&& result.char_end == token.char_end
    &&& result.byte_start == token.byte_start
    &&& result.byte_end == token.byte_end
    &&& result.script == token.script
    &&& result.language == token.language
    &&& if !create_char_map {
        &&& result.lemma@ == normalized_chars(n, token.lemma@)
        &&& result.char_map == token.char_map
    } else {
        match token.char_map {
            None => {
                &&& result.lemma@ == normalized_chars(n, token.lemma@)
                &&& result.char_map matches Some(m) && m@ == fresh_char_map(n, token.lemma@)
            },
            Some(map) => {
                let r = remap_groups(n, token.lemma@, map@).unwrap();
                &&& result.lemma@ == r.0
                &&& result.char_map matches Some(m) && m@ == r.1
            },
        }
    }
}

/// The number of leading characters of `v[from..]` that take exactly `target` bytes.
fn cut_at_bytes(v: &[char], from: usize, target: u8) -> (end: usize)
    requires
        from <= v@.len(),
        has_byte_cut(v@.skip(from as int), target as int),
    ensures
        from <= end <= v@.len(),
        byte_cut(v@.skip(from as int), target as int) == end - from,
{
    let ghost t = v@.skip(from as int);
    let ghost k = byte_cut(t, target as int);
    let mut acc: usize = 0;
    let mut j: usize = from;
    while acc < target as usize
        invariant
            from <= j <= v@.len(),
            t == v@.skip(from as int),
            0 <= k <= t.len(),
            utf8_len_seq(t.take(k)) == target,
            acc == utf8_len_seq(t.take(j - from)),
            j - from <= k,
        decreases v@.len() - j,
    {
        proof {
            lemma_utf8_len_take_step(t, (j - from) as int);
            lemma_utf8_len_bound(t.take(k));
        }
        acc = acc + char_len_utf8(v[j]);
        j += 1;
    }
    proof {
        if j - from < k {
            lemma_utf8_len_take_increasing(t, (j - from) as int, k);
        }
        lemma_byte_cut_unique(t, target as int, (j - from) as int);
    }
    j
}

/// Rewrites a token with a char normalizer (the `Normalizer` implementation of char
/// normalizers).
///
/// Without `create_char_map`, only the lemma is rewritten. With it, a token without char map
/// gets one; a token with one has each group of its lemma normalized on its own and the
/// normalized lengths of its map updated.
pub fn normalize_token<N: CharNormalizer>(n: &N, token: Token, options: &NormalizerOption) -> (result: Token)
    requires
        char_map_fits(n, token, options.create_char_map),
    ensures
        spec_char_normalized_token(n, token, options.create_char_map, result),
{
    let mut token = token;
    if options.create_char_map {
        let old_map = token.char_map.take();
        match old_map {
            Some(map) => {
                let v = chars_of(token.lemma.as_str());
                let mut lemma = String::new();
                let mut new_map: Vec<(u8, u8)> = Vec::new();
                let mut pos: usize = 0;
                let mut i: usize = 0;
                let ghost s = v@;
                let ghost total = remap_groups(n, s, map@).unwrap();
                assert(s.skip(0) =~= s);
                assert(map@.skip(0) =~= map@);
                assert(total.0 =~= lemma@ + total.0);
                assert(total.1 =~= new_map@ + total.1);
                while i < map.len()
                    invariant
                        v@ == s,
                        pos <= s.len(),
                        i <= map@.len(),
                        remap_groups(n, s, map@) == Some(total),
                        remap_groups(n, s.skip(pos as int), map@.skip(i as int)) is Some,
                        total.0 == lemma@ + remap_groups(n, s.skip(pos as int), map@.skip(i as int)).unwrap().0,
                        total.1 == new_map@ + remap_groups(n, s.skip(pos as int), map@.skip(i as int)).unwrap().1,
                    decreases map@.len() - i,
                {
                    let (orig_len, normalized_len) = map[i];
                    let ghost rest = s.skip(pos as int);
                    assert(map@.skip(i as int)[0] == map@[i as int]);
                    let end = cut_at_bytes(v.as_slice(), pos, normalized_len);
                    let mut chunk = String::new();
                    push_normalized(n, &mut chunk, v.as_slice(), pos, end);
                    let len = byte_len_u8(chunk.as_str());
                    proof {
                        assert(rest.take(end - pos) =~= s.subrange(pos as int, end as int));
                        assert(rest.skip(end - pos) =~= s.skip(end as int));
                        assert(map@.skip(i as int).drop_first() =~= map@.skip(i + 1));
                    }
                    lemma.append(chunk.as_str());
                    new_map.push((orig_len, len));
                    pos = end;
                    i += 1;
                }
                assert(map@.skip(i as int) =~= Seq::<(u8, u8)>::empty());
                assert(lemma@ =~= total.0);
                assert(new_map@ =~= total.1);
                token.lemma = lemma;
                token.char_map = Some(new_map);
            },
            None => {
                let v = chars_of(token.lemma.as_str());
                let mut lemma = String::new();
                let mut new_map: Vec<(u8, u8)> = Vec::new();
                let mut i: usize = 0;
                while i < v.len()
                    invariant
                        i <= v@.len(),
                        lemma@ == normalized_chars(n, v@.take(i as int)),
                        new_map@ == fresh_char_map(n, v@).take(i as int),
                    decreases v@.len() - i,
                {
                    let c = v[i];
                    let mut normalized = String::new();
                    push_normalized(n, &mut normalized, v.as_slice(), i, i + 1);
                    let len = byte_len_u8(normalized.as_str());
                    proof {
                        let one = v@.subrange(i as int, i + 1);
                        assert(one.drop_last() =~= Seq::<char>::empty());
                        assert(normalized_chars(n, one.drop_last()) == Seq::<char>::empty());
                        assert(one.last() == c);
                        assert(normalized_chars(n, one) =~= n.spec_normalize_char(c));
                        assert(v@.take(i + 1).drop_last() =~= v@.take(i as int));
                    }
                    lemma.append(normalized.as_str());
                    new_map.push((char_len_utf8(c) as u8, len));
                    assert(new_map@ =~= fresh_char_map(n, v@).take(i + 1));
                    i += 1;
                }
                assert(v@.take(v@.len() as int) =~= v@);
                assert(fresh_char_map(n, v@).take(v@.len() as int) =~= fresh_char_map(n, v@));
                token.lemma = lemma;
                token.char_map = Some(new_map);
            },
        }
    } else {
        token.lemma = normalize_str(n, token.lemma.as_str());
    }
    token
}

} // verus!
