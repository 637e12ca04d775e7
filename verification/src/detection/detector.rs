//! The calls into the language detector (`whatlang`).
//!
//! Languages and scripts cross this boundary as their positions in the detector's own lists
//! (`whatlang::Lang::all()`, `whatlang::Script::all()`), which is the order of their
//! declarations.
use vstd::prelude::*;

verus! {

/// What the detector's `Script::name` gives for the script at a position of its list.
pub uninterp spec fn detector_script_name(index: int) -> Seq<char>;

/// What the detector's `Script::from_str` gives for a text, as a position of its list.
pub uninterp spec fn detector_script_parsed(text: Seq<char>) -> Option<usize>;

/// What the detector's `Lang::code` gives for the language at a position of its list.
pub uninterp spec fn detector_language_code(index: int) -> Seq<char>;

/// What the detector's `Lang::from_code` gives for a text, as a position of its list.
pub uninterp spec fn detector_language_of_code(code: Seq<char>) -> Option<usize>;

/// What the detector's `detect_script` gives for a text, as a position of its list.
pub uninterp spec fn detector_main_script(text: Seq<char>) -> Option<usize>;

/// What a default `whatlang::Detector` gives from `detect_lang` for a text.
pub uninterp spec fn detector_language(text: Seq<char>) -> Option<usize>;

/// What a `whatlang::Detector` built with `with_allowlist` from the given languages gives from
/// `detect_lang` for a text.
pub uninterp spec fn detector_language_among(text: Seq<char>, allowed: Seq<usize>) -> Option<usize>;

/// `whatlang::Script::name` of the script at position `index`; the result is the name that
/// the detector gives that script, a function of the script alone. The source shows that
/// `Script::from_str` reads each name back as its script.
#[verifier::external_body]
pub(crate) fn script_name(index: usize) -> (name: &'static str)
    requires
        index < 25,
    ensures
        name@ == detector_script_name(index as int),
        detector_script_parsed(name@) == Some(index),
{
    whatlang::Script::all()[index].name()
}

/// `whatlang::Script::from_str`: the position of the script that the text names, if any;
/// positions are below 25, the length of `whatlang::Script::all()`. The source shows that
/// `"other"` names no script.
#[verifier::external_body]
pub(crate) fn script_from_name(text: &str) -> (index: Option<usize>)
    ensures
        index == detector_script_parsed(text@),
        text@ == seq!['o', 't', 'h', 'e', 'r'] ==> index is None,
        index matches Some(i) ==> i < 25,
{
    text.parse::<whatlang::Script>().ok().map(|script| script as usize)
}

/// `whatlang::Lang::code` of the language at position `index`. The source shows that
/// `Lang::from_code` reads each code back as its language, and that no code is `"zho"`.
#[verifier::external_body]
pub(crate) fn language_code(index: usize) -> (code: &'static str)
    requires
        index < 69,
    ensures
        code@ == detector_language_code(index as int),
        detector_language_of_code(code@) == Some(index),
        code@ != seq!['z', 'h', 'o'],
{
    whatlang::Lang::all()[index].code()
}

/// `whatlang::Lang::from_code`: the position of the language that the code names, if any;
/// positions are below 69, the length of `whatlang::Lang::all()`.
#[verifier::external_body]
pub(crate) fn language_from_code(code: &str) -> (index: Option<usize>)
    ensures
        index == detector_language_of_code(code@),
        index matches Some(i) ==> i < 69,
{
    whatlang::Lang::from_code(code).map(|lang| lang as usize)
}

/// `whatlang::detect_script`: the script with the most characters of the text, if any.
#[verifier::external_body]
pub(crate) fn main_script(text: &str) -> (index: Option<usize>)
    ensures
        index == detector_main_script(text@),
        index matches Some(i) ==> i < 25,
{
    whatlang::detect_script(text).map(|script| script as usize)
}

/// `whatlang::Detector::new().detect_lang(text)`.
#[verifier::external_body]
pub(crate) fn detect_language(text: &str) -> (index: Option<usize>)
    ensures
        index == detector_language(text@),
        index matches Some(i) ==> i < 69,
{
    whatlang::Detector::new().detect_lang(text).map(|lang| lang as usize)
}

/// `whatlang::Detector::with_allowlist(allowed).detect_lang(text)`, the allowed languages given
/// by their positions. The result is not stated to be among the allowed ones: the detector
/// answers the single language of a one-language script whatever the list holds.
#[verifier::external_body]
pub(crate) fn detect_language_among(text: &str, allowed: &[usize]) -> (index: Option<usize>)
    requires
        forall|i: int| 0 <= i < allowed@.len() ==> allowed@[i] < 69,
    ensures
        index == detector_language_among(text@, allowed@),
        index matches Some(i) ==> i < 69,
{
    let all = whatlang::Lang::all();
    let allowed = allowed.iter().map(|i| all[*i]).collect();
    whatlang::Detector::with_allowlist(allowed).detect_lang(text).map(|lang| lang as usize)
}

} // verus!
