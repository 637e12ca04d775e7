//! A segmenter driven by a dictionary of words held in a finite state transducer: at each
//! position the longest word of the dictionary that starts there is cut off; text that starts
//! no word is buffered until the next word (or until the buffer is full).
use vstd::prelude::*;

use crate::segmenter::pieces::{all_nonempty, push_piece, strs};
use crate::text::{
    char_len_utf8, chars_of, lemma_utf8_len_take_increasing, lemma_utf8_len_take_step, string_from_chars, utf8_len_seq,
};

verus! {

/// A finite state transducer of `fst`, over some bytes.
#[verifier::external_type_specification]
#[verifier::external_body]
#[verifier::reject_recursive_types(D)]
pub struct ExFst<D>(fst::raw::Fst<D>);

/// The keys of a transducer, each with its value.
pub uninterp spec fn fst_map(f: fst::raw::Fst<Vec<u8>>) -> Map<Seq<u8>, u64>;

/// `fst::raw::Fst::get`: the value of `key` in the transducer, if it is a key.
#[verifier::external_body]
fn fst_get(f: &fst::raw::Fst<Vec<u8>>, key: &[u8]) -> (value: Option<u64>)
    ensures
        value == (if fst_map(*f).contains_key(key@) {
            Some(fst_map(*f)[key@])
        } else {
            None
        }),
{
    f.get(key).map(|output| output.value())
}

/// The length of the longest prefix of `bytes`, among its first `n`, that is a key of `keys`.
pub open spec fn longest_prefix(keys: Map<Seq<u8>, u64>, bytes: Seq<u8>, n: int) -> Option<int>
    decreases n,
{
    if n <= 0 {
        None
    } else if keys.contains_key(bytes.take(n)) {
        Some(n)
    } else {
        longest_prefix(keys, bytes, n - 1)
    }
}

/// A longest prefix is not empty and not longer than the bound.
pub proof fn lemma_longest_prefix_bounds(keys: Map<Seq<u8>, u64>, bytes: Seq<u8>, n: int)
    ensures
        longest_prefix(keys, bytes, n) matches Some(m) ==> 1 <= m <= n,
    decreases n,
{
    if n > 0 {
        lemma_longest_prefix_bounds(keys, bytes, n - 1);
    }
}

/// The value and the length of the longest non-empty key of the transducer that is a prefix
/// of `value`.
pub fn find_longest_prefix(f: &fst::raw::Fst<Vec<u8>>, value: &[u8]) -> (found: Option<(u64, usize)>)
    ensures
        match found {
            Some((v, n)) => longest_prefix(fst_map(*f), value@, value@.len() as int) == Some(n as int)
                && fst_map(*f)[value@.take(n as int)] == v,
            None => longest_prefix(fst_map(*f), value@, value@.len() as int) is None,
        },
{
    let mut prefix: Vec<u8> = Vec::new();
    let mut last: Option<(u64, usize)> = None;
    let mut i: usize = 0;
    while i < value.len()
        invariant
            i <= value@.len(),
            prefix@ == value@.take(i as int),
            match last {
                Some((v, n)) => longest_prefix(fst_map(*f), value@, i as int) == Some(n as int)
                    && fst_map(*f)[value@.take(n as int)] == v,
                None => longest_prefix(fst_map(*f), value@, i as int) is None,
            },
        decreases value@.len() - i,
    {
        prefix.push(value[i]);
        assert(prefix@ =~= value@.take(i + 1));
        match fst_get(f, prefix.as_slice()) {
            Some(v) => {
                last = Some((v, i + 1));
            },
            None => {},
        }
        i += 1;
    }
    last
}

/// The number of leading characters of `s` that fit in `length` bytes, counting from `k` on:
/// the characters after the first `k` are taken as long as they fit.
pub open spec fn floor_char(s: Seq<char>, length: int, k: int) -> int
    decreases s.len() - k,
{
    if k < s.len() && utf8_len_seq(s.take(k + 1)) <= length {
        floor_char(s, length, k + 1)
    } else {
        k
    }
}

/// `floor_char` stays between its start and the end.
pub proof fn lemma_floor_char_bounds(s: Seq<char>, length: int, k: int)
    requires
        0 <= k <= s.len(),
    ensures
        k <= floor_char(s, length, k) <= s.len(),
    decreases s.len() - k,
{
    if k < s.len() && utf8_len_seq(s.take(k + 1)) <= length {
        lemma_floor_char_bounds(s, length, k + 1);
    }
}

/// Counting from the first character on takes that character, and otherwise the same ones as
/// counting from the start.
pub proof fn lemma_floor_char_from_one(s: Seq<char>, length: int)
    requires
        s.len() > 0,
    ensures
        floor_char(s, length, 1) == if floor_char(s, length, 0) == 0 {
            1
        } else {
            floor_char(s, length, 0)
        },
{
    lemma_floor_char_bounds(s, length, 1);
    if utf8_len_seq(s.take(1)) > length && 1 < s.len() {
        lemma_utf8_len_take_increasing(s, 1, 2);
    }
}

/// The number of leading characters of `s` that fit in `length` bytes: a byte length rounded
/// down to a boundary between characters.
pub fn floor_char_boundary(s: &[char], length: usize) -> (k: usize)
    ensures
        k == floor_char(s@, length as int, 0),
        k <= s@.len(),
        utf8_len_seq(s@.take(k as int)) <= length,
        k < s@.len() ==> utf8_len_seq(s@.take(k + 1)) > length,
{
    let mut k: usize = 0;
    let mut bytes: usize = 0;
    assert(s@.take(0) =~= Seq::<char>::empty());
    while k < s.len()
        invariant
            k <= s@.len(),
            bytes == utf8_len_seq(s@.take(k as int)),
            bytes <= length,
            floor_char(s@, length as int, 0) == floor_char(s@, length as int, k as int),
        decreases s@.len() - k,
    {
        proof {
            lemma_utf8_len_take_step(s@, k as int);
        }
        let l = char_len_utf8(s[k]);
        if l > length - bytes {
            return k;
        }
        bytes = bytes + l;
        k += 1;
    }
    k
}

/// Whether a buffer of `s` has reached the most characters allowed, if a limit is set.
pub fn is_max_char_count_reached(s: &[char], max_char_count: Option<usize>) -> (b: bool)
    ensures
        b == (max_char_count matches Some(m) && s@.len() >= m),
{
    match max_char_count {
        Some(m) => s.len() >= m,
        None => false,
    }
}

/// What the segmenter does with text that starts no word of its dictionary.
#[derive(Debug, Clone, Copy, PartialEq, Eq)]
pub enum BufferingStrategy {
    /// Buffer characters until the next word, or until `max_char_count` characters are
    /// buffered (a limit of zero behaves as a limit of one).
    UntilNextMatch { max_char_count: Option<usize> },
}

/// Whether the buffer is full after one more character.
pub enum BufferState {
    Full,
    Buffering,
}

impl BufferState {
    /// Whether the buffer is full.
    pub fn is_full(&self) -> (b: bool)
        ensures
            b == (*self is Full),
    {
        match self {
            BufferState::Full => true,
            BufferState::Buffering => false,
        }
    }
}

/// The pieces that the dictionary segmenter makes of `rest`, with `buffer` buffered before it:
/// at the end the buffer (if any); where a word starts, the buffer first (if any), else the
/// word (rounded down to a boundary between characters, and at least one character); elsewhere one more character is
/// buffered, and the buffer comes out when it is full.
pub open spec fn fst_pieces(
    keys: Map<Seq<u8>, u64>,
    max_char_count: Option<usize>,
    rest: Seq<char>,
    buffer: Seq<char>,
) -> Seq<Seq<char>>
    decreases rest.len(), buffer.len(),
{
    if rest.len() == 0 {
        if buffer.len() > 0 {
            seq![buffer]
        } else {
            Seq::empty()
        }
    } else {
        let bytes = vstd::utf8::encode_utf8(rest);
        match longest_prefix(keys, bytes, bytes.len() as int) {
            Some(n) => if buffer.len() > 0 {
                seq![buffer] + fst_pieces(keys, max_char_count, rest, Seq::empty())
            } else {
                let k = floor_char(rest, n, 1);
                proof {
                    lemma_floor_char_bounds(rest, n, 1);
                }
                seq![rest.take(k)] + fst_pieces(keys, max_char_count, rest.skip(k), Seq::empty())
            },
            None => {
                let grown = buffer.push(rest[0]);
                if max_char_count matches Some(m) && grown.len() >= m {
                    seq![grown] + fst_pieces(keys, max_char_count, rest.skip(1), Seq::empty())
                } else {
                    fst_pieces(keys, max_char_count, rest.skip(1), grown)
                }
            },
        }
    }
}

/// The dictionary segmentation loses and repeats nothing: its pieces concatenate to the
/// buffered characters followed by the rest of the text, and none is empty.
pub proof fn lemma_fst_pieces(
    keys: Map<Seq<u8>, u64>,
    max_char_count: Option<usize>,
    rest: Seq<char>,
    buffer: Seq<char>,
)
    ensures
        fst_pieces(keys, max_char_count, rest, buffer).flatten() == buffer + rest,
        all_nonempty(fst_pieces(keys, max_char_count, rest, buffer)),
    decreases rest.len(), buffer.len(),
{
    let p = fst_pieces(keys, max_char_count, rest, buffer);
    if rest.len() == 0 {
        if buffer.len() > 0 {
            seq![buffer].lemma_flatten_one_element();
        }
        assert(buffer + rest =~= buffer);
    } else {
        let bytes = vstd::utf8::encode_utf8(rest);
        match longest_prefix(keys, bytes, bytes.len() as int) {
            Some(n) => {
                if buffer.len() > 0 {
                    let q = fst_pieces(keys, max_char_count, rest, Seq::empty());
                    lemma_fst_pieces(keys, max_char_count, rest, Seq::empty());
                    vstd::seq_lib::lemma_flatten_concat(seq![buffer], q);
                    seq![buffer].lemma_flatten_one_element();
                    assert(Seq::<char>::empty() + rest =~= rest);
                    assert forall|i: int| 0 <= i < p.len() implies #[trigger] p[i].len() > 0 by {
                        if i > 0 {
                            assert(p[i] == q[i - 1]);
                        }
                    }
                } else {
                    let k = floor_char(rest, n, 1);
                    lemma_floor_char_bounds(rest, n, 1);
                    let q = fst_pieces(keys, max_char_count, rest.skip(k), Seq::empty());
                    lemma_fst_pieces(keys, max_char_count, rest.skip(k), Seq::empty());
                    vstd::seq_lib::lemma_flatten_concat(seq![rest.take(k)], q);
                    seq![rest.take(k)].lemma_flatten_one_element();
                    assert(Seq::<char>::empty() + rest.skip(k) =~= rest.skip(k));
                    assert(rest.take(k) + rest.skip(k) =~= rest);
                    assert(buffer + rest =~= rest);
                    assert forall|i: int| 0 <= i < p.len() implies #[trigger] p[i].len() > 0 by {
                        if i > 0 {
                            assert(p[i] == q[i - 1]);
                        }
                    }
                }
            },
            None => {
                let grown = buffer.push(rest[0]);
                lemma_fst_pieces(keys, max_char_count, rest.skip(1), if max_char_count matches Some(m)
                    && grown.len() >= m {
                    Seq::empty()
                } else {
                    grown
                });
                assert(grown + rest.skip(1) =~= buffer + rest);
                if max_char_count matches Some(m) && grown.len() >= m {
                    let q = fst_pieces(keys, max_char_count, rest.skip(1), Seq::empty());
                    vstd::seq_lib::lemma_flatten_concat(seq![grown], q);
                    seq![grown].lemma_flatten_one_element();
                    assert(Seq::<char>::empty() + rest.skip(1) =~= rest.skip(1));
                    assert forall|i: int| 0 <= i < p.len() implies #[trigger] p[i].len() > 0 by {
                        if i > 0 {
                            assert(p[i] == q[i - 1]);
                        }
                    }
                }
            },
        }
    }
}

/// Where the segmentation of a text stands: the text, the start of the buffered characters
/// (if any) and the position of the first character not segmented yet.
struct SegmentationCursor {
    to_segment: Vec<char>,
    buffer_head_offset: Option<usize>,
    offset: usize,
}

impl SegmentationCursor {
    /// Whether the cursor is consistent: its positions lie in the text, the buffer before the
    /// position.
    spec fn wf(&self) -> bool {
        &&& self.offset <= self.to_segment@.len()
        &&& self.buffer_head_offset matches Some(h) ==> h < self.offset
    }

    /// The characters not segmented yet.
    spec fn rest(&self) -> Seq<char> {
        self.to_segment@.skip(self.offset as int)
    }

    /// The buffered characters.
    spec fn buffer(&self) -> Seq<char> {
        match self.buffer_head_offset {
            Some(h) => self.to_segment@.subrange(h as int, self.offset as int),
            None => Seq::empty(),
        }
    }

    /// A cursor at the start of `to_segment`.
    fn new(to_segment: &str) -> (cursor: Self)
        ensures
            cursor.wf(),
            cursor.to_segment@ == to_segment@,
            cursor.offset == 0,
            cursor.buffer_head_offset is None,
    {
        SegmentationCursor { to_segment: chars_of(to_segment), buffer_head_offset: None, offset: 0 }
    }

    /// The characters not segmented yet, if there are any.
    fn tail(&self) -> (tail: Option<Vec<char>>)
        requires
            self.wf(),
        ensures
            match tail {
                Some(t) => t@ == self.rest() && t@.len() > 0,
                None => self.rest().len() == 0,
            },
    {
        if self.offset >= self.to_segment.len() {
            return None;
        }
        let mut t: Vec<char> = Vec::new();
        let mut i = self.offset;
        while i < self.to_segment.len()
            invariant
                self.offset <= i <= self.to_segment@.len(),
                t@ == self.to_segment@.subrange(self.offset as int, i as int),
            decreases self.to_segment@.len() - i,
        {
            t.push(self.to_segment[i]);
            i += 1;
        }
        Some(t)
    }

    /// Takes the buffered characters out, if there are any.
    fn take_buffered_segment(&mut self) -> (segment: Option<String>)
        requires
            old(self).wf(),
        ensures
            final(self).wf(),
            final(self).to_segment == old(self).to_segment,
            final(self).offset == old(self).offset,
            final(self).buffer_head_offset is None,
            match segment {
                Some(s) => s@ == old(self).buffer() && s@.len() > 0,
                None => old(self).buffer().len() == 0,
            },
    {
        match self.buffer_head_offset.take() {
            None => None,
            Some(head) => {
                let mut v: Vec<char> = Vec::new();
                let mut i = head;
                while i < self.offset
                    invariant
                        head <= i <= self.offset <= self.to_segment@.len(),
                        v@ == self.to_segment@.subrange(head as int, i as int),
                    decreases self.offset - i,
                {
                    v.push(self.to_segment[i]);
                    i += 1;
                }
                Some(string_from_chars(&v))
            },
        }
    }

    /// The byte length of the next character.
    fn next_character_length(&self) -> (n: usize)
        requires
            self.offset < self.to_segment@.len(),
        ensures
            n == crate::text::utf8_len(self.to_segment@[self.offset as int]),
    {
        char_len_utf8(self.to_segment[self.offset])
    }

    /// Buffers the next character; the buffer is full when it reaches `max_char_count`
    /// characters.
    fn buffer_next_character(&mut self, max_char_count: Option<usize>) -> (state: BufferState)
        requires
            old(self).wf(),
            old(self).offset < old(self).to_segment@.len(),
        ensures
            final(self).wf(),
            final(self).to_segment == old(self).to_segment,
            final(self).offset == old(self).offset + 1,
            final(self).buffer_head_offset is Some,
            final(self).buffer() == old(self).buffer().push(old(self).to_segment@[old(self).offset as int]),
            state is Full == (max_char_count matches Some(m) && final(self).buffer().len() >= m),
    {
        let head = match self.buffer_head_offset {
            Some(h) => h,
            None => self.offset,
        };
        self.buffer_head_offset = Some(head);
        let _length = self.next_character_length();
        let n = self.to_segment.len();
        assert(self.offset < n);
        self.offset = self.offset + 1;
        let count = self.offset - head;
        assert(self.buffer() =~= old(self).buffer().push(old(self).to_segment@[old(self).offset as int]));
        let full = match max_char_count {
            Some(m) => count >= m,
            None => false,
        };
        if full {
            BufferState::Full
        } else {
            BufferState::Buffering
        }
    }

    /// The next piece where a word of `next_segment_length` bytes starts: the buffer if there
    /// is one, else the word rounded down to a boundary between characters (at least one
    /// character, so that the segmentation moves on).
    fn compute_next_segment(&mut self, next_segment_length: usize) -> (segment: Option<String>)
        requires
            old(self).wf(),
            old(self).offset < old(self).to_segment@.len(),
            next_segment_length >= 1,
        ensures
            final(self).wf(),
            final(self).to_segment == old(self).to_segment,
            final(self).buffer_head_offset is None,
            old(self).buffer().len() > 0 ==> (segment matches Some(s) && s@ == old(self).buffer()
                && final(self).offset == old(self).offset),
            old(self).buffer().len() == 0 ==> {
                let k = floor_char(old(self).rest(), next_segment_length as int, 1);
                &&& final(self).offset == old(self).offset + k
                &&& segment matches Some(s) && s@ == old(self).rest().take(k)
            },
    {
        if let Some(buffered) = self.take_buffered_segment() {
            return Some(buffered);
        }
        match self.tail() {
            Some(tail) => {
                proof {
                    lemma_floor_char_bounds(tail@, next_segment_length as int, 1);
                    lemma_floor_char_from_one(tail@, next_segment_length as int);
                }
                let floor = floor_char_boundary(&tail, next_segment_length);
                let length = if floor == 0 {
                    1
                } else {
                    floor
                };
                let n = self.to_segment.len();
                assert(self.offset + length <= n);
                self.offset = self.offset + length;
                let mut v: Vec<char> = Vec::new();
                let mut i: usize = 0;
                while i < length
                    invariant
                        i <= length <= tail@.len(),
                        v@ == tail@.take(i as int),
                    decreases length - i,
                {
                    v.push(tail[i]);
                    assert(tail@.take(i + 1) =~= tail@.take(i as int).push(tail@[i as int]));
                    i += 1;
                }
                Some(string_from_chars(&v))
            },
            None => None,
        }
    }
}

/// A segmenter that cuts texts at the words of a dictionary held in a transducer.
pub struct FstSegmenter<'fst> {
    words_fst: &'fst fst::raw::Fst<Vec<u8>>,
    buffering_strategy: BufferingStrategy,
}

impl<'fst> FstSegmenter<'fst> {
    /// The keys of the dictionary.
    pub closed spec fn keys(&self) -> Map<Seq<u8>, u64> {
        fst_map(*self.words_fst)
    }

    /// The limit of the buffer.
    pub closed spec fn max_char_count(&self) -> Option<usize> {
        match self.buffering_strategy {
            BufferingStrategy::UntilNextMatch { max_char_count } => max_char_count,
        }
    }

    /// A segmenter of the words of `words_fst`, with a buffering strategy.
    pub fn new(words_fst: &'fst fst::raw::Fst<Vec<u8>>, buffering_strategy: BufferingStrategy) -> (segmenter: Self)
        ensures
            segmenter.keys() == fst_map(*words_fst),
            buffering_strategy matches BufferingStrategy::UntilNextMatch { max_char_count }
                && segmenter.max_char_count() == max_char_count,
    {
        FstSegmenter { words_fst, buffering_strategy }
    }

    /// Cuts `to_segment` at the words of the dictionary, as [`fst_pieces`] says.
    pub fn segment_str(&self, to_segment: &str) -> (pieces: Vec<String>)
        ensures
            strs(pieces@) == fst_pieces(self.keys(), self.max_char_count(), to_segment@, Seq::empty()),
            strs(pieces@).flatten() == to_segment@,
            all_nonempty(strs(pieces@)),
    {
        proof {
            lemma_fst_pieces(self.keys(), self.max_char_count(), to_segment@, Seq::empty());
            assert(Seq::<char>::empty() + to_segment@ =~= to_segment@);
        }
        let max_char_count = match self.buffering_strategy {
            BufferingStrategy::UntilNextMatch { max_char_count } => max_char_count,
        };
        let ghost keys = self.keys();
        let mut cursor = SegmentationCursor::new(to_segment);
        let mut out: Vec<String> = Vec::new();
        let ghost total = fst_pieces(keys, max_char_count, to_segment@, Seq::empty());
        assert(cursor.rest() =~= to_segment@);
        assert(strs(out@) + total =~= total);
        loop
            invariant
                cursor.wf(),
                cursor.to_segment@ == to_segment@,
                keys == fst_map(*self.words_fst),
                max_char_count == self.max_char_count(),
                total == fst_pieces(keys, max_char_count, to_segment@, Seq::empty()),
                strs(out@) + fst_pieces(keys, max_char_count, cursor.rest(), cursor.buffer()) == total,
            ensures
                strs(out@) == total,
            decreases cursor.rest().len(), cursor.buffer().len(),
        {
            let ghost before = strs(out@);
            let ghost rest = cursor.rest();
            let ghost buffer = cursor.buffer();
            let tail = match cursor.tail() {
                Some(t) => t,
                None => {
                    let last = cursor.take_buffered_segment();
                    match last {
                        Some(s) => {
                            push_piece(&mut out, s);
                            assert(strs(out@) =~= before + seq![buffer]);
                        },
                        None => {
                            assert(strs(out@) =~= before + Seq::<Seq<char>>::empty());
                        },
                    }
                    break;
                },
            };
            let tail_str = string_from_chars(&tail);
            let bytes = tail_str.as_str().as_bytes();
            let next_match = find_longest_prefix(self.words_fst, bytes);
            match next_match {
                Some((_, length)) => {
                    proof {
                        assert(bytes@ == vstd::utf8::encode_utf8(rest));
                        lemma_longest_prefix_bounds(keys, bytes@, bytes@.len() as int);
                    }
                    let segment = cursor.compute_next_segment(length);
                    match segment {
                        Some(s) => {
                            let ghost piece = s@;
                            push_piece(&mut out, s);
                            proof {
                                if buffer.len() > 0 {
                                    assert(cursor.rest() =~= rest);
                                    assert(cursor.buffer() =~= Seq::<char>::empty());
                                } else {
                                    let k = floor_char(rest, length as int, 1);
                                    lemma_floor_char_bounds(rest, length as int, 1);
                                    assert(cursor.rest() =~= rest.skip(k));
                                    assert(cursor.buffer() =~= Seq::<char>::empty());
                                }
                                assert(strs(out@) =~= before.push(piece));
                            }
                        },
                        None => {
                            assert(false);
                        },
                    }
                },
                None => {
                    proof {
                        assert(bytes@ == vstd::utf8::encode_utf8(rest));
                    }
                    let state = cursor.buffer_next_character(max_char_count);
                    proof {
                        assert(cursor.rest() =~= rest.skip(1));
                    }
                    if state.is_full() {
                        let segment = cursor.take_buffered_segment();
                        match segment {
                            Some(s) => {
                                let ghost piece = s@;
                                push_piece(&mut out, s);
                                assert(strs(out@) =~= before.push(piece));
                                assert(cursor.buffer() =~= Seq::<char>::empty());
                            },
                            None => {
                                assert(false);
                            },
                        }
                    }
                },
            }
        }
        out
    }
}

} // verus!
