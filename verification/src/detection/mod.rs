use vstd::prelude::*;

use self::detector::{
    detect_language, detect_language_among, detector_language, detector_language_among,
    detector_main_script, main_script,
};
use self::script_language::{spec_detector_index, spec_language_at, spec_script_of_detector};

pub mod chars;
pub mod detector;
pub mod script_language;

pub use script_language::{Language, Script};

verus! {

/// The script that the detector finds most present in a text, `Other` when it finds none.
pub open spec fn spec_detect_script(text: Seq<char>) -> Script {
    match detector_main_script(text) {
        Some(i) => spec_script_of_detector(i as int),
        None => Script::Other,
    }
}

/// The languages of an optional allow list.
pub open spec fn allow_view(allow_list: Option<&[Language]>) -> Option<Seq<Language>> {
    match allow_list {
        Some(list) => Some(list@),
        None => None,
    }
}

/// The positions in the detector's list of the languages of an allow list.
pub open spec fn detector_indices(list: Seq<Language>) -> Seq<usize> {
    list.map_values(
        |lang: Language|
            if lang == Language::Zho {
                spec_detector_index(Language::Cmn) as usize
            } else {
                spec_detector_index(lang) as usize
            },
    )
}

/// The language that the detector finds for a text, restricted to an allow list when one
/// is given.
pub open spec fn spec_detect_lang(text: Seq<char>, allow_list: Option<Seq<Language>>) -> Option<
    Language,
> {
    let found = match allow_list {
        Some(list) => detector_language_among(text, detector_indices(list)),
        None => detector_language(text),
    };
    match found {
        Some(i) => Some(spec_language_at(i as int)),
        None => None,
    }
}

/// The language that `StrDetection::language` settles on when none is known yet.
pub open spec fn spec_choose_language(text: Seq<char>, allow_list: Option<Seq<Language>>) -> Option<
    Language,
> {
    match allow_list {
        Some(list) => if list.len() == 1 {
            Some(list[0])
        } else {
            spec_detect_lang(text, Some(list))
        },
        None => if spec_detect_script(text) == Script::Latin {
            None
        } else {
            spec_detect_lang(text, None)
        },
    }
}

/// Detects the script of a text; `Other` if no script is detected.
fn detect_script(text: &str) -> (script: Script)
    ensures
        script == spec_detect_script(text@),
        script == Script::Other <==> detector_main_script(text@) is None,
{
    match main_script(text) {
        Some(index) => {
            proof {
                script_language::lemma_detector_scripts_are_known(index as int);
            }
            Script::from_detector_index(index)
        },
        None => Script::Other,
    }
}

/// Detects the language of a text, among the languages of `allow_list` when one is given.
fn detect_lang(text: &str, allow_list: Option<&[Language]>) -> (lang: Option<Language>)
    ensures
        lang == spec_detect_lang(text@, allow_view(allow_list)),
{
    let found = match allow_list {
        Some(list) => {
            let mut indices: Vec<usize> = Vec::new();
            let mut i: usize = 0;
            while i < list.len()
                invariant
                    i <= list@.len(),
                    indices@ == detector_indices(list@).take(i as int),
                    forall|j: int| 0 <= j < indices@.len() ==> indices@[j] < 69,
                decreases list@.len() - i,
            {
                indices.push(list[i].detector_index());
                i += 1;
            }
            assert(indices@ =~= detector_indices(list@));
            detect_language_among(text, indices.as_slice())
        },
        None => detect_language(text),
    };
    match found {
        Some(index) => Some(Language::from_detector_index(index)),
        None => None,
    }
}

/// A text with the script and language detected for it so far.
pub struct StrDetection<'o> {
    inner: &'o str,
    pub script: Option<Script>,
    pub language: Option<Language>,
    allow_list: Option<&'o [Language]>,
}

impl<'o> StrDetection<'o> {
    /// The text under detection.
    pub closed spec fn text(&self) -> Seq<char> {
        self.inner@
    }

    /// The script detected so far.
    pub closed spec fn known_script(&self) -> Option<Script> {
        self.script
    }

    /// The language detected so far.
    pub closed spec fn known_language(&self) -> Option<Language> {
        self.language
    }

    /// The languages that the detection may choose from, if restricted.
    pub closed spec fn allowed(&self) -> Option<Seq<Language>> {
        match self.allow_list {
            Some(list) => Some(list@),
            None => None,
        }
    }

    /// Starts the detection of a text, with nothing detected yet.
    pub fn new(inner: &'o str, allow_list: Option<&'o [Language]>) -> (detection: Self)
        ensures
            detection.text() == inner@,
            detection.allowed() == allow_view(allow_list),
            detection.known_script() is None,
            detection.known_language() is None,
    {
        StrDetection { inner, script: None, language: None, allow_list }
    }

    /// The language detected so far, without detecting one.
    pub fn detected_language(&self) -> (lang: Option<Language>)
        ensures
            lang == self.known_language(),
    {
        self.language
    }

    /// The script of the text, detected on the first call and kept for the next ones.
    pub fn script(&mut self) -> (script: Script)
        ensures
            final(self).text() == old(self).text(),
            final(self).allowed() == old(self).allowed(),
            final(self).known_language() == old(self).known_language(),
            final(self).known_script() == Some(script),
            old(self).known_script() matches Some(known) ==> script == known,
            old(self).known_script() is None ==> script == spec_detect_script(old(self).text()),
            old(self).known_script() is None ==> (script == Script::Other <==> detector_main_script(
                old(self).text(),
            ) is None),
    {
        match self.script {
            Some(script) => script,
            None => {
                let script = detect_script(self.inner);
                self.script = Some(script);
                script
            },
        }
    }

    /// The language of the text, detected on the first call that finds one.
    ///
    /// An allow list of a single language gives that language; a longer (or empty) one
    /// restricts the detector. Without an allow list, a Latin text gets no language.
    pub fn language(&mut self) -> (lang: Option<Language>)
        ensures
            final(self).text() == old(self).text(),
            final(self).allowed() == old(self).allowed(),
            final(self).known_script() == old(self).known_script(),
            final(self).known_language() == lang,
            old(self).known_language() matches Some(known) ==> lang == Some(known),
            old(self).known_language() is None ==> lang == spec_choose_language(
                old(self).text(),
                old(self).allowed(),
            ),
    {
        let lang = match self.language {
            Some(lang) => Some(lang),
            None => match self.allow_list {
                Some(list) => {
                    if list.len() == 1 {
                        Some(list[0])
                    } else {
                        detect_lang(self.inner, Some(list))
                    }
                },
                None => {
                    if detect_script(self.inner) == Script::Latin {
                        None
                    } else {
                        detect_lang(self.inner, None)
                    }
                },
            },
        };
        self.language = lang;
        lang
    }
}

/// Starting the detection of script and language on a text.
pub trait Detect<'o> {
    fn detect(&'o self, allow_list: Option<&'o [Language]>) -> StrDetection<'o>;
}

impl<'o> Detect<'o> for &'o str {
    fn detect(&'o self, allow_list: Option<&'o [Language]>) -> (detection: StrDetection<'o>)
        ensures
            detection.text() == (*self)@,
            detection.allowed() == allow_view(allow_list),
            detection.known_script() is None,
            detection.known_language() is None,
    {
        StrDetection::new(*self, allow_list)
    }
}

} // verus!
