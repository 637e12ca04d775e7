//! Characters and strings: UTF-8 lengths, and the few `String` operations that the rest of the
//! library builds on.
use vstd::prelude::*;
use vstd::arithmetic::div_mod::{lemma_add_mod_noop, lemma_small_mod};
use vstd::utf8::{
    char_is_scalar, encode_scalar, encode_utf8, encode_utf8_first_scalar, encode_utf8_valid_utf8,
    is_char_boundary, is_char_boundary_iff_not_is_continuation_byte,
    is_char_boundary_start_end_of_seq, length_of_first_scalar, pop_first_scalar, valid_utf8,
    valid_utf8_split,
};

verus! {

/// Number of bytes that the UTF-8 encoding of `c` takes.
pub open spec fn utf8_len(c: char) -> nat {
    if (c as u32) < 0x80 {
        1
    } else if (c as u32) < 0x800 {
        2
    } else if (c as u32) < 0x10000 {
        3
    } else {
        4
    }
}

/// Number of bytes that the UTF-8 encoding of `s` takes.
pub open spec fn utf8_len_seq(s: Seq<char>) -> nat
    decreases s.len(),
{
    if s.len() == 0 {
        0
    } else {
        utf8_len(s[0]) + utf8_len_seq(s.drop_first())
    }
}

/// The byte length of a concatenation is the sum of the byte lengths.
pub proof fn lemma_utf8_len_concat(a: Seq<char>, b: Seq<char>)
    ensures
        utf8_len_seq(a + b) == utf8_len_seq(a) + utf8_len_seq(b),
    decreases a.len(),
{
    if a.len() == 0 {
        assert(a + b =~= b);
    } else {
        assert((a + b).drop_first() =~= a.drop_first() + b);
        lemma_utf8_len_concat(a.drop_first(), b);
    }
}

/// Adding a character to a prefix adds its byte length.
pub proof fn lemma_utf8_len_take_step(s: Seq<char>, j: int)
    requires
        0 <= j < s.len(),
    ensures
        utf8_len_seq(s.take(j + 1)) == utf8_len_seq(s.take(j)) + utf8_len(s[j]),
{
    let one = seq![s[j]];
    assert(s.take(j + 1) =~= s.take(j) + one);
    lemma_utf8_len_concat(s.take(j), one);
    assert(one.drop_first() =~= Seq::<char>::empty());
    assert(utf8_len_seq(one) == utf8_len(s[j]) + utf8_len_seq(one.drop_first()));
}

/// Longer prefixes take strictly more bytes.
pub proof fn lemma_utf8_len_take_increasing(s: Seq<char>, j: int, k: int)
    requires
        0 <= j < k <= s.len(),
    ensures
        utf8_len_seq(s.take(j)) < utf8_len_seq(s.take(k)),
    decreases k - j,
{
    lemma_utf8_len_take_step(s, k - 1);
    if j < k - 1 {
        lemma_utf8_len_take_increasing(s, j, k - 1);
    }
}

/// A sequence takes at most four bytes per character.
pub proof fn lemma_utf8_len_bound(s: Seq<char>)
    ensures
        s.len() <= utf8_len_seq(s) <= 4 * s.len(),
    decreases s.len(),
{
    if s.len() > 0 {
        lemma_utf8_len_bound(s.drop_first());
    }
}

/// `utf8_len_seq` is the length of vstd's UTF-8 encoding.
pub proof fn lemma_encode_utf8_len(s: Seq<char>)
    ensures
        encode_utf8(s).len() == utf8_len_seq(s),
    decreases s.len(),
{
    if s.len() > 0 {
        char_is_scalar(s[0]);
        assert(encode_scalar(s[0] as u32).len() == utf8_len(s[0]));
        lemma_encode_utf8_len(s.drop_first());
    }
}

/// Whether the first `n` bytes of the encoding of `s` are the encoding of some of its first
/// characters.
pub open spec fn starts_on_char(s: Seq<char>, n: int) -> bool {
    exists|k: int| 0 <= k <= s.len() && utf8_len_seq(s.take(k)) == n
}

/// The encoding of a sequence starts with the encoding of its first character, which takes
/// `utf8_len` bytes.
proof fn lemma_encode_utf8_head(s: Seq<char>)
    requires
        s.len() > 0,
    ensures
        valid_utf8(encode_utf8(s)),
        length_of_first_scalar(encode_utf8(s)) == utf8_len(s[0]),
        pop_first_scalar(encode_utf8(s)) == encode_utf8(s.drop_first()),
{
    encode_utf8_valid_utf8(s);
    encode_utf8_first_scalar(s);
    lemma_encode_utf8_len(s);
    lemma_encode_utf8_len(s.drop_first());
    assert(encode_utf8(s) == encode_scalar(s[0] as u32) + encode_utf8(s.drop_first()));
    assert(pop_first_scalar(encode_utf8(s)) =~= encode_utf8(s.drop_first()));
}

/// A boundary between characters of the encoding of `s` is where some of its first characters
/// end.
pub proof fn lemma_char_boundary_starts_on_char(s: Seq<char>, n: int)
    requires
        is_char_boundary(encode_utf8(s), n),
    ensures
        starts_on_char(s, n),
    decreases s.len(),
{
    encode_utf8_valid_utf8(s);
    if n == 0 {
        assert(s.take(0) =~= Seq::<char>::empty());
        assert(utf8_len_seq(s.take(0)) == 0);
    } else {
        lemma_encode_utf8_len(s);
        if s.len() == 0 {
            assert(false);
        } else {
            lemma_encode_utf8_head(s);
            let l = utf8_len(s[0]);
            lemma_char_boundary_starts_on_char(s.drop_first(), n - l);
            let k = choose|k: int|
                0 <= k <= s.drop_first().len() && utf8_len_seq(s.drop_first().take(k)) == n - l;
            assert(s.take(k + 1) =~= seq![s[0]] + s.drop_first().take(k));
            lemma_utf8_len_concat(seq![s[0]], s.drop_first().take(k));
            assert(seq![s[0]].drop_first() =~= Seq::<char>::empty());
            assert(utf8_len_seq(seq![s[0]]) == utf8_len(s[0]) + utf8_len_seq(seq![s[0]].drop_first()));
            assert(utf8_len_seq(s.take(k + 1)) == n);
        }
    }
}

/// Where the bytes of a valid text from a boundary on are a valid encoding, they end on a
/// boundary too.
proof fn lemma_valid_run_ends_on_boundary(b: Seq<u8>, i: int, p: Seq<u8>)
    requires
        valid_utf8(b),
        valid_utf8(p),
        is_char_boundary(b, i),
        0 <= i,
        i + p.len() <= b.len(),
        b.subrange(i, i + p.len()) == p,
    ensures
        is_char_boundary(b, i + p.len()),
    decreases p.len(),
{
    if p.len() > 0 {
        let l = length_of_first_scalar(p);
        let rest_b = b.subrange(i, b.len() as int);
        valid_utf8_split(b, i);
        assert(rest_b[0] == p[0]);
        assert(length_of_first_scalar(rest_b) == l);
        let after = pop_first_scalar(rest_b);
        assert(after =~= b.subrange(i + l, b.len() as int));
        is_char_boundary_start_end_of_seq(b);
        assert(valid_utf8(rest_b));
        assert(valid_utf8(after));
        if i + l < b.len() {
            assert(after[0] == b[i + l]);
            assert(vstd::utf8::valid_first_scalar(after));
            assert(!vstd::utf8::is_continuation_byte(after[0]));
            is_char_boundary_iff_not_is_continuation_byte(b, i + l);
        }
        let p2 = pop_first_scalar(p);
        assert(b.subrange(i + l, i + l + p2.len()) =~= p2);
        lemma_valid_run_ends_on_boundary(b, i + l, p2);
        assert(i + l + p2.len() == i + p.len());
    }
}

/// Where the bytes of a text between `a` and `b` encode a non-empty text, both ends fall
/// between two of its characters.
pub proof fn lemma_encoded_run_on_chars(s: Seq<char>, a: int, b: int, p: Seq<char>)
    requires
        p.len() > 0,
        0 <= a <= b <= encode_utf8(s).len(),
        encode_utf8(s).subrange(a, b) == encode_utf8(p),
    ensures
        starts_on_char(s, a),
        starts_on_char(s, b),
{
    let bytes = encode_utf8(s);
    let pb = encode_utf8(p);
    encode_utf8_valid_utf8(s);
    encode_utf8_valid_utf8(p);
    lemma_encode_utf8_head(p);
    assert(pb.len() > 0);
    assert(bytes[a] == pb[0]);
    assert(!vstd::utf8::is_continuation_byte(pb[0]));
    is_char_boundary_iff_not_is_continuation_byte(bytes, a);
    lemma_valid_run_ends_on_boundary(bytes, a, pb);
    lemma_char_boundary_starts_on_char(s, a);
    lemma_char_boundary_starts_on_char(s, b);
}

/// The encoding of a concatenation is the concatenation of the encodings.
pub proof fn lemma_encode_utf8_concat(a: Seq<char>, b: Seq<char>)
    ensures
        encode_utf8(a + b) == encode_utf8(a) + encode_utf8(b),
    decreases a.len(),
{
    if a.len() == 0 {
        assert(a + b =~= b);
        assert(encode_utf8(a) =~= Seq::<u8>::empty());
        assert(encode_utf8(a) + encode_utf8(b) =~= encode_utf8(b));
    } else {
        assert((a + b).drop_first() =~= a.drop_first() + b);
        assert((a + b)[0] == a[0]);
        lemma_encode_utf8_concat(a.drop_first(), b);
        assert(encode_utf8(a + b) =~= encode_utf8(a) + encode_utf8(b));
    }
}

/// Byte length of the UTF-8 encoding of `c` (`char::len_utf8`).
pub fn char_len_utf8(c: char) -> (n: usize)
    ensures
        n == utf8_len(c),
{
    let u = c as u32;
    if u < 0x80 {
        1
    } else if u < 0x800 {
        2
    } else if u < 0x10000 {
        3
    } else {
        4
    }
}

/// Byte length of the UTF-8 encoding of `s` (`str::len`).
pub fn str_byte_len(s: &str) -> (n: usize)
    ensures
        n == utf8_len_seq(s@) as usize,
{
    proof {
        lemma_encode_utf8_len(s@);
    }
    s.len()
}

/// A text takes at most `usize::MAX` bytes: its bytes are a slice in memory.
pub fn str_len_fits(s: &str)
    ensures
        utf8_len_seq(s@) <= usize::MAX,
{
    let bytes = s.as_bytes();
    let n = bytes.len();
    proof {
        lemma_encode_utf8_len(s@);
    }
}

/// Appends `c` to `s` (`String::push`).
#[verifier::external_body]
pub(crate) fn push_char(s: &mut String, c: char)
    ensures
        final(s)@ == old(s)@.push(c),
{
    s.push(c);
}

/// Appends the characters of `v` to `s`.
pub fn push_chars(s: &mut String, v: &[char])
    ensures
        final(s)@ == old(s)@ + v@,
{
    let mut i: usize = 0;
    while i < v.len()
        invariant
            i <= v@.len(),
            s@ == old(s)@ + v@.take(i as int),
        decreases v@.len() - i,
    {
        push_char(s, v[i]);
        assert(v@.take(i + 1) =~= v@.take(i as int).push(v@[i as int]));
        i += 1;
    }
    assert(v@.take(v@.len() as int) =~= v@);
}

/// A `String` holding the characters of `v`.
pub fn string_from_chars(v: &[char]) -> (s: String)
    ensures
        s@ == v@,
{
    let mut s = String::new();
    push_chars(&mut s, v);
    s
}

/// The characters of `s`, in order.
pub fn chars_of(s: &str) -> (v: Vec<char>)
    ensures
        v@ == s@,
{
    let mut v: Vec<char> = Vec::new();
    for c in it: s.chars()
        invariant
            v@ == it.seq().take(it.index() as int),
    {
        v.push(c);
    }
    v
}

/// Whether `a` and `b` hold the same characters.
pub fn str_eq(a: &str, b: &str) -> (r: bool)
    ensures
        r == (a@ == b@),
{
    let va = chars_of(a);
    let vb = chars_of(b);
    chars_eq(&va, &vb)
}

/// Whether two character slices are equal.
pub fn chars_eq(va: &[char], vb: &[char]) -> (r: bool)
    ensures
        r == (va@ == vb@),
{
    if va.len() != vb.len() {
        return false;
    }
    let mut i: usize = 0;
    while i < va.len()
        invariant
            va.len() == vb.len(),
            i <= va.len(),
            forall|j: int| 0 <= j < i ==> va@[j] == vb@[j],
        decreases va.len() - i,
    {
        if va[i] != vb[i] {
            return false;
        }
        i += 1;
    }
    assert(va@ =~= vb@);
    true
}

/// The byte length of the UTF-8 encoding of `s`, modulo 256 (`str::len() as u8`).
pub fn byte_len_u8(s: &str) -> (n: u8)
    ensures
        n == utf8_len_seq(s@) % 256,
{
    let v = chars_of(s);
    let mut acc: u8 = 0;
    let mut i: usize = 0;
    while i < v.len()
        invariant
            v@ == s@,
            i <= v@.len(),
            acc == utf8_len_seq(v@.take(i as int)) % 256,
        decreases v@.len() - i,
    {
        let l = char_len_utf8(v[i]);
        proof {
            lemma_utf8_len_take_step(v@, i as int);
            lemma_add_mod_noop(utf8_len_seq(v@.take(i as int)) as int, l as int, 256);
            lemma_small_mod(l as nat, 256);
        }
        acc = ((acc as u16 + l as u16) % 256) as u8;
        i += 1;
    }
    assert(v@.take(v@.len() as int) =~= v@);
    acc
}

/// Whether `p` occurs in `t` as a run of consecutive characters.
pub open spec fn occurs_in(p: Seq<char>, t: Seq<char>) -> bool {
    exists|i: int| 0 <= i <= t.len() - p.len() && #[trigger] t.subrange(i, i + p.len()) == p
}

/// Whether `p` occurs in `t` starting at position `i`.
pub open spec fn occurs_at(p: Seq<char>, t: Seq<char>, i: int) -> bool {
    0 <= i <= t.len() - p.len() && t.subrange(i, i + p.len()) == p
}

/// Whether `p` occurs in `t` at position `i`.
fn matches_at(p: &[char], t: &[char], i: usize) -> (b: bool)
    requires
        i <= t@.len(),
    ensures
        b == occurs_at(p@, t@, i as int),
{
    if p.len() > t.len() - i {
        return false;
    }
    let mut j: usize = 0;
    while j < p.len()
        invariant
            i + p@.len() <= t@.len(),
            j <= p@.len(),
            forall|k: int| 0 <= k < j ==> t@[i + k] == p@[k],
        decreases p@.len() - j,
    {
        assert(i + j < t.len());
        if t[i + j] != p[j] {
            assert(t@.subrange(i as int, i + p@.len())[j as int] != p@[j as int]);
            return false;
        }
        j += 1;
    }
    assert(t@.subrange(i as int, i + p@.len()) =~= p@);
    true
}

/// Whether `p` occurs in `t`.
pub fn occurs(p: &[char], t: &[char]) -> (b: bool)
    ensures
        b == occurs_in(p@, t@),
{
    let n = t.len();
    let mut i: usize = 0;
    loop
        invariant
            n == t@.len(),
            i <= n,
            forall|k: int| 0 <= k < i ==> !occurs_at(p@, t@, k),
        decreases n - i,
    {
        if matches_at(p, t, i) {
            assert(t@.subrange(i as int, i + p@.len()) == p@);
            return true;
        }
        if i == n {
            assert forall|k: int| 0 <= k <= t@.len() - p@.len() implies #[trigger] t@.subrange(k, k + p@.len()) != p@ by {
                assert(!occurs_at(p@, t@, k));
            }
            return false;
        }
        i += 1;
    }
}

} // verus!
