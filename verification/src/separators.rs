use vstd::prelude::*;

use crate::segmenter::aho::str_views;

verus! {

/// The texts that separate words when no list of separators is configured.
pub const DEFAULT_SEPARATORS: [&'static str; 109] = [
    "\u{0009}",
    "\u{000a}",
    "\u{000b}",
    "\u{000c}",
    "\u{000d}",
    " ",
    "\u{0085}",
    "\u{00a0}",
    "\u{1680}",
    "\u{2000}",
    "\u{2001}",
    "\u{2002}",
    "\u{2003}",
    "\u{2004}",
    "\u{2005}",
    "\u{2006}",
    "\u{2007}",
    "\u{2008}",
    "\u{2009}",
    "\u{200a}",
    "\u{2028}",
    "\u{2029}",
    "\u{202f}",
    "\u{205f}",
    "\u{3000}",
    "!",
    "\"",
    "#",
    "$",
    "%",
    "&",
    "'",
    "(",
    ")",
    "*",
    "+",
    ",",
    "-",
    ".",
    "/",
    ":",
    ";",
    "<",
    "=",
    ">",
    "?",
    "@",
    "[",
    "\\",
    "]",
    "^",
    "_",
    "`",
    "{",
    "|",
    "}",
    "~",
    ". ",
    ", ",
    "; ",
    ": ",
    "...",
    "\u{3002}",
    "\u{3001}",
    "\u{ff0c}",
    "\u{ff1a}",
    "\u{ff1b}",
    "\u{ff01}",
    "\u{ff1f}",
    "\u{ff08}",
    "\u{ff09}",
    "\u{300c}",
    "\u{300d}",
    "\u{300e}",
    "\u{300f}",
    "\u{300a}",
    "\u{300b}",
    "\u{3010}",
    "\u{3011}",
    "\u{201c}",
    "\u{201d}",
    "\u{2018}",
    "\u{2019}",
    "\u{201b}",
    "\u{201e}",
    "\u{201f}",
    "\u{00ab}",
    "\u{00bb}",
    "\u{2039}",
    "\u{203a}",
    "\u{2013}",
    "\u{2014}",
    "\u{2026}",
    "\u{00b7}",
    "\u{00a1}",
    "\u{00bf}",
    "\u{060c}",
    "\u{061b}",
    "\u{061f}",
    "\u{06d4}",
    "\u{0964}",
    "\u{0965}",
    "\u{fe50}",
    "\u{fe51}",
    "\u{fe52}",
    "\u{fe54}",
    "\u{fe55}",
    "\u{fe56}",
    "\u{fe57}",
];

/// The separators that end a context (`SeparatorKind::Hard`); the others separate words
/// inside a context.
pub const CONTEXT_SEPARATORS: [&'static str; 22] = [
    "\u{000a}",
    "\u{000b}",
    "\u{000c}",
    "\u{000d}",
    "\u{0085}",
    "\u{2028}",
    "\u{2029}",
    ". ",
    "! ",
    "? ",
    "...",
    "\u{3002}",
    "\u{ff01}",
    "\u{ff1f}",
    "\u{2026}",
    "\u{061f}",
    "\u{06d4}",
    "\u{0964}",
    "\u{0965}",
    "\u{fe52}",
    "\u{fe56}",
    "\u{fe57}",
];

/// The non-empty texts of a list.
pub open spec fn nonempty_texts<'a>(list: Seq<&'a str>) -> Seq<&'a str> {
    list.filter(|p: &str| p@.len() > 0)
}

/// The patterns that cut a text when none are configured: the default separators, without
/// empty ones.
pub open spec fn default_patterns() -> Seq<Seq<char>> {
    str_views(nonempty_texts(DEFAULT_SEPARATORS@))
}

/// Appends the non-empty texts of `list` to `out`.
pub(crate) fn push_nonempty<'a>(out: &mut Vec<&'a str>, list: &[&'a str])
    ensures
        final(out)@ == old(out)@ + nonempty_texts(list@),
        (forall|k: int| 0 <= k < old(out)@.len() ==> (#[trigger] old(out)@[k])@.len() > 0) ==> forall|k: int|
            0 <= k < final(out)@.len() ==> (#[trigger] final(out)@[k])@.len() > 0,
{
    let mut i: usize = 0;
    assert(list@.take(0) =~= Seq::<&str>::empty());
    proof {
        reveal(Seq::filter);
        assert(nonempty_texts(list@.take(0)) =~= Seq::<&str>::empty());
    }
    while i < list.len()
        invariant
            i <= list@.len(),
            out@ == old(out)@ + nonempty_texts(list@.take(i as int)),
            (forall|k: int| 0 <= k < old(out)@.len() ==> (#[trigger] old(out)@[k])@.len() > 0) ==> forall|k: int|
                0 <= k < out@.len() ==> (#[trigger] out@[k])@.len() > 0,
        decreases list@.len() - i,
    {
        let p = list[i];
        proof {
            reveal(Seq::filter);
            assert(list@.take(i + 1).drop_last() =~= list@.take(i as int));
            assert(list@.take(i + 1).last() == p);
        }
        if !p.is_empty() {
            out.push(p);
        }
        assert(out@ =~= old(out)@ + nonempty_texts(list@.take(i + 1)));
        i += 1;
    }
    assert(list@.take(i as int) =~= list@);
}

} // verus!
