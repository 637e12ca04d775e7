use vstd::prelude::*;

use crate::text::str_eq;

use super::detector::{
    detector_language_code, detector_language_of_code, detector_script_name, detector_script_parsed,
    language_code, language_from_code, script_from_name, script_name,
};
use super::chars::{
    is_arabic,
    is_bengali,
    is_cyrillic,
    is_devanagari,
    is_ethiopic,
    is_georgian,
    is_greek,
    is_gujarati,
    is_gurmukhi,
    is_hangul,
    is_hebrew,
    is_hiragana,
    is_kannada,
    is_katakana,
    is_khmer,
    is_latin,
    is_malayalam,
    is_mandarin,
    is_myanmar,
    is_oriya,
    is_sinhala,
    is_tamil,
    is_telugu,
    is_thai,
    spec_is_arabic,
    spec_is_bengali,
    spec_is_cyrillic,
    spec_is_devanagari,
    spec_is_ethiopic,
    spec_is_georgian,
    spec_is_greek,
    spec_is_gujarati,
    spec_is_gurmukhi,
    spec_is_hangul,
    spec_is_hebrew,
    spec_is_hiragana,
    spec_is_kannada,
    spec_is_katakana,
    spec_is_khmer,
    spec_is_latin,
    spec_is_malayalam,
    spec_is_mandarin,
    spec_is_myanmar,
    spec_is_oriya,
    spec_is_sinhala,
    spec_is_tamil,
    spec_is_telugu,
    spec_is_thai,
};

verus! {

/// Number of languages that the language detector knows.
pub const DETECTOR_LANGUAGE_COUNT: usize = 69;

/// Number of scripts that the language detector knows.
pub const DETECTOR_SCRIPT_COUNT: usize = 25;

/// A language, by its ISO 639-3 code.
///
/// Apart from `Zho`, each language is one of the languages that the language detector knows,
/// in the detector's own order.
#[derive(Debug, PartialEq, Eq, Structural, Hash, Clone, Copy, PartialOrd, Ord)]
pub enum Language {
    Zho,
    Epo,
    Eng,
    Rus,
    Cmn,
    Spa,
    Por,
    Ita,
    Ben,
    Fra,
    Deu,
    Ukr,
    Kat,
    Ara,
    Hin,
    Jpn,
    Heb,
    Yid,
    Pol,
    Amh,
    Jav,
    Kor,
    Nob,
    Dan,
    Swe,
    Fin,
    Tur,
    Nld,
    Hun,
    Ces,
    Ell,
    Bul,
    Bel,
    Mar,
    Kan,
    Ron,
    Slv,
    Hrv,
    Srp,
    Mkd,
    Lit,
    Lav,
    Est,
    Tam,
    Vie,
    Urd,
    Tha,
    Guj,
    Uzb,
    Pan,
    Aze,
    Ind,
    Tel,
    Pes,
    Mal,
    Ori,
    Mya,
    Nep,
    Sin,
    Khm,
    Tuk,
    Aka,
    Zul,
    Sna,
    Afr,
    Lat,
    Slk,
    Cat,
    Tgl,
    Hye,
}

/// A writing system.
///
/// The scripts of the language detector, where Hiragana, Katakana and Mandarin are merged into
/// `Cj`, and `Other` for any text of none of them.
#[derive(Debug, PartialEq, Eq, Structural, Hash, Clone, Copy, PartialOrd, Ord)]
pub enum Script {
    Arabic,
    Armenian,
    Bengali,
    Cyrillic,
    Devanagari,
    Ethiopic,
    Georgian,
    Greek,
    Gujarati,
    Gurmukhi,
    Hangul,
    Hebrew,
    Kannada,
    Khmer,
    Latin,
    Malayalam,
    Myanmar,
    Oriya,
    Sinhala,
    Tamil,
    Telugu,
    Thai,
    Cj,
    Other,
}

/// The position of a language other than `Zho` in the language detector's list of languages.
pub open spec fn spec_detector_index(lang: Language) -> int {
    match lang {
        Language::Zho => -1,
        Language::Epo => 0,
        Language::Eng => 1,
        Language::Rus => 2,
        Language::Cmn => 3,
        Language::Spa => 4,
        Language::Por => 5,
        Language::Ita => 6,
        Language::Ben => 7,
        Language::Fra => 8,
        Language::Deu => 9,
        Language::Ukr => 10,
        Language::Kat => 11,
        Language::Ara => 12,
        Language::Hin => 13,
        Language::Jpn => 14,
        Language::Heb => 15,
        Language::Yid => 16,
        Language::Pol => 17,
        Language::Amh => 18,
        Language::Jav => 19,
        Language::Kor => 20,
        Language::Nob => 21,
        Language::Dan => 22,
        Language::Swe => 23,
        Language::Fin => 24,
        Language::Tur => 25,
        Language::Nld => 26,
        Language::Hun => 27,
        Language::Ces => 28,
        Language::Ell => 29,
        Language::Bul => 30,
        Language::Bel => 31,
        Language::Mar => 32,
        Language::Kan => 33,
        Language::Ron => 34,
        Language::Slv => 35,
        Language::Hrv => 36,
        Language::Srp => 37,
        Language::Mkd => 38,
        Language::Lit => 39,
        Language::Lav => 40,
        Language::Est => 41,
        Language::Tam => 42,
        Language::Vie => 43,
        Language::Urd => 44,
        Language::Tha => 45,
        Language::Guj => 46,
        Language::Uzb => 47,
        Language::Pan => 48,
        Language::Aze => 49,
        Language::Ind => 50,
        Language::Tel => 51,
        Language::Pes => 52,
        Language::Mal => 53,
        Language::Ori => 54,
        Language::Mya => 55,
        Language::Nep => 56,
        Language::Sin => 57,
        Language::Khm => 58,
        Language::Tuk => 59,
        Language::Aka => 60,
        Language::Zul => 61,
        Language::Sna => 62,
        Language::Afr => 63,
        Language::Lat => 64,
        Language::Slk => 65,
        Language::Cat => 66,
        Language::Tgl => 67,
        Language::Hye => 68,
    }
}

/// The language at position `index` of the language detector's list of languages.
pub open spec fn spec_language_at(index: int) -> Language
    recommends
        0 <= index < 69,
{
    if index == 0 {
        Language::Epo
    }
 else if index == 1 {
        Language::Eng
    }
 else if index == 2 {
        Language::Rus
    }
 else if index == 3 {
        Language::Cmn
    }
 else if index == 4 {
        Language::Spa
    }
 else if index == 5 {
        Language::Por
    }
 else if index == 6 {
        Language::Ita
    }
 else if index == 7 {
        Language::Ben
    }
 else if index == 8 {
        Language::Fra
    }
 else if index == 9 {
        Language::Deu
    }
 else if index == 10 {
        Language::Ukr
    }
 else if index == 11 {
        Language::Kat
    }
 else if index == 12 {
        Language::Ara
    }
 else if index == 13 {
        Language::Hin
    }
 else if index == 14 {
        Language::Jpn
    }
 else if index == 15 {
        Language::Heb
    }
 else if index == 16 {
        Language::Yid
    }
 else if index == 17 {
        Language::Pol
    }
 else if index == 18 {
        Language::Amh
    }
 else if index == 19 {
        Language::Jav
    }
 else if index == 20 {
        Language::Kor
    }
 else if index == 21 {
        Language::Nob
    }
 else if index == 22 {
        Language::Dan
    }
 else if index == 23 {
        Language::Swe
    }
 else if index == 24 {
        Language::Fin
    }
 else if index == 25 {
        Language::Tur
    }
 else if index == 26 {
        Language::Nld
    }
 else if index == 27 {
        Language::Hun
    }
 else if index == 28 {
        Language::Ces
    }
 else if index == 29 {
        Language::Ell
    }
 else if index == 30 {
        Language::Bul
    }
 else if index == 31 {
        Language::Bel
    }
 else if index == 32 {
        Language::Mar
    }
 else if index == 33 {
        Language::Kan
    }
 else if index == 34 {
        Language::Ron
    }
 else if index == 35 {
        Language::Slv
    }
 else if index == 36 {
        Language::Hrv
    }
 else if index == 37 {
        Language::Srp
    }
 else if index == 38 {
        Language::Mkd
    }
 else if index == 39 {
        Language::Lit
    }
 else if index == 40 {
        Language::Lav
    }
 else if index == 41 {
        Language::Est
    }
 else if index == 42 {
        Language::Tam
    }
 else if index == 43 {
        Language::Vie
    }
 else if index == 44 {
        Language::Urd
    }
 else if index == 45 {
        Language::Tha
    }
 else if index == 46 {
        Language::Guj
    }
 else if index == 47 {
        Language::Uzb
    }
 else if index == 48 {
        Language::Pan
    }
 else if index == 49 {
        Language::Aze
    }
 else if index == 50 {
        Language::Ind
    }
 else if index == 51 {
        Language::Tel
    }
 else if index == 52 {
        Language::Pes
    }
 else if index == 53 {
        Language::Mal
    }
 else if index == 54 {
        Language::Ori
    }
 else if index == 55 {
        Language::Mya
    }
 else if index == 56 {
        Language::Nep
    }
 else if index == 57 {
        Language::Sin
    }
 else if index == 58 {
        Language::Khm
    }
 else if index == 59 {
        Language::Tuk
    }
 else if index == 60 {
        Language::Aka
    }
 else if index == 61 {
        Language::Zul
    }
 else if index == 62 {
        Language::Sna
    }
 else if index == 63 {
        Language::Afr
    }
 else if index == 64 {
        Language::Lat
    }
 else if index == 65 {
        Language::Slk
    }
 else if index == 66 {
        Language::Cat
    }
 else if index == 67 {
        Language::Tgl
    }
 else {
        Language::Hye
    }
}

impl Language {
    /// The position of this language in the language detector's list of languages;
    /// `Zho`, which the detector does not know, is detected as `Cmn`.
    pub fn detector_index(&self) -> (index: usize)
        ensures
            index < DETECTOR_LANGUAGE_COUNT,
            *self != Language::Zho ==> index == spec_detector_index(*self),
            *self == Language::Zho ==> index == spec_detector_index(Language::Cmn),
    {
        match self {
            Language::Zho => 3,
            Language::Epo => 0,
            Language::Eng => 1,
            Language::Rus => 2,
            Language::Cmn => 3,
            Language::Spa => 4,
            Language::Por => 5,
            Language::Ita => 6,
            Language::Ben => 7,
            Language::Fra => 8,
            Language::Deu => 9,
            Language::Ukr => 10,
            Language::Kat => 11,
            Language::Ara => 12,
            Language::Hin => 13,
            Language::Jpn => 14,
            Language::Heb => 15,
            Language::Yid => 16,
            Language::Pol => 17,
            Language::Amh => 18,
            Language::Jav => 19,
            Language::Kor => 20,
            Language::Nob => 21,
            Language::Dan => 22,
            Language::Swe => 23,
            Language::Fin => 24,
            Language::Tur => 25,
            Language::Nld => 26,
            Language::Hun => 27,
            Language::Ces => 28,
            Language::Ell => 29,
            Language::Bul => 30,
            Language::Bel => 31,
            Language::Mar => 32,
            Language::Kan => 33,
            Language::Ron => 34,
            Language::Slv => 35,
            Language::Hrv => 36,
            Language::Srp => 37,
            Language::Mkd => 38,
            Language::Lit => 39,
            Language::Lav => 40,
            Language::Est => 41,
            Language::Tam => 42,
            Language::Vie => 43,
            Language::Urd => 44,
            Language::Tha => 45,
            Language::Guj => 46,
            Language::Uzb => 47,
            Language::Pan => 48,
            Language::Aze => 49,
            Language::Ind => 50,
            Language::Tel => 51,
            Language::Pes => 52,
            Language::Mal => 53,
            Language::Ori => 54,
            Language::Mya => 55,
            Language::Nep => 56,
            Language::Sin => 57,
            Language::Khm => 58,
            Language::Tuk => 59,
            Language::Aka => 60,
            Language::Zul => 61,
            Language::Sna => 62,
            Language::Afr => 63,
            Language::Lat => 64,
            Language::Slk => 65,
            Language::Cat => 66,
            Language::Tgl => 67,
            Language::Hye => 68,
        }
    }

    /// The language at position `index` of the language detector's list of languages.
    pub fn from_detector_index(index: usize) -> (lang: Language)
        requires
            index < DETECTOR_LANGUAGE_COUNT,
        ensures
            lang == spec_language_at(index as int),
            spec_detector_index(lang) == index,
    {
        if index == 0 {
            Language::Epo
        }
 else if index == 1 {
            Language::Eng
        }
 else if index == 2 {
            Language::Rus
        }
 else if index == 3 {
            Language::Cmn
        }
 else if index == 4 {
            Language::Spa
        }
 else if index == 5 {
            Language::Por
        }
 else if index == 6 {
            Language::Ita
        }
 else if index == 7 {
            Language::Ben
        }
 else if index == 8 {
            Language::Fra
        }
 else if index == 9 {
            Language::Deu
        }
 else if index == 10 {
            Language::Ukr
        }
 else if index == 11 {
            Language::Kat
        }
 else if index == 12 {
            Language::Ara
        }
 else if index == 13 {
            Language::Hin
        }
 else if index == 14 {
            Language::Jpn
        }
 else if index == 15 {
            Language::Heb
        }
 else if index == 16 {
            Language::Yid
        }
 else if index == 17 {
            Language::Pol
        }
 else if index == 18 {
            Language::Amh
        }
 else if index == 19 {
            Language::Jav
        }
 else if index == 20 {
            Language::Kor
        }
 else if index == 21 {
            Language::Nob
        }
 else if index == 22 {
            Language::Dan
        }
 else if index == 23 {
            Language::Swe
        }
 else if index == 24 {
            Language::Fin
        }
 else if index == 25 {
            Language::Tur
        }
 else if index == 26 {
            Language::Nld
        }
 else if index == 27 {
            Language::Hun
        }
 else if index == 28 {
            Language::Ces
        }
 else if index == 29 {
            Language::Ell
        }
 else if index == 30 {
            Language::Bul
        }
 else if index == 31 {
            Language::Bel
        }
 else if index == 32 {
            Language::Mar
        }
 else if index == 33 {
            Language::Kan
        }
 else if index == 34 {
            Language::Ron
        }
 else if index == 35 {
            Language::Slv
        }
 else if index == 36 {
            Language::Hrv
        }
 else if index == 37 {
            Language::Srp
        }
 else if index == 38 {
            Language::Mkd
        }
 else if index == 39 {
            Language::Lit
        }
 else if index == 40 {
            Language::Lav
        }
 else if index == 41 {
            Language::Est
        }
 else if index == 42 {
            Language::Tam
        }
 else if index == 43 {
            Language::Vie
        }
 else if index == 44 {
            Language::Urd
        }
 else if index == 45 {
            Language::Tha
        }
 else if index == 46 {
            Language::Guj
        }
 else if index == 47 {
            Language::Uzb
        }
 else if index == 48 {
            Language::Pan
        }
 else if index == 49 {
            Language::Aze
        }
 else if index == 50 {
            Language::Ind
        }
 else if index == 51 {
            Language::Tel
        }
 else if index == 52 {
            Language::Pes
        }
 else if index == 53 {
            Language::Mal
        }
 else if index == 54 {
            Language::Ori
        }
 else if index == 55 {
            Language::Mya
        }
 else if index == 56 {
            Language::Nep
        }
 else if index == 57 {
            Language::Sin
        }
 else if index == 58 {
            Language::Khm
        }
 else if index == 59 {
            Language::Tuk
        }
 else if index == 60 {
            Language::Aka
        }
 else if index == 61 {
            Language::Zul
        }
 else if index == 62 {
            Language::Sna
        }
 else if index == 63 {
            Language::Afr
        }
 else if index == 64 {
            Language::Lat
        }
 else if index == 65 {
            Language::Slk
        }
 else if index == 66 {
            Language::Cat
        }
 else if index == 67 {
            Language::Tgl
        }
 else {
            Language::Hye
        }
    }
}

/// The script of the language detector at position `index` of its list of scripts,
/// with Hiragana, Katakana and Mandarin merged into `Cj`.
pub open spec fn spec_script_of_detector(index: int) -> Script {
    if index == 0 {
        Script::Arabic
    }
 else if index == 1 {
        Script::Armenian
    }
 else if index == 2 {
        Script::Bengali
    }
 else if index == 3 {
        Script::Cyrillic
    }
 else if index == 4 {
        Script::Devanagari
    }
 else if index == 5 {
        Script::Ethiopic
    }
 else if index == 6 {
        Script::Georgian
    }
 else if index == 7 {
        Script::Greek
    }
 else if index == 8 {
        Script::Gujarati
    }
 else if index == 9 {
        Script::Gurmukhi
    }
 else if index == 10 {
        Script::Hangul
    }
 else if index == 11 {
        Script::Hebrew
    }
 else if index == 12 {
        Script::Cj
    }
 else if index == 13 {
        Script::Kannada
    }
 else if index == 14 {
        Script::Cj
    }
 else if index == 15 {
        Script::Khmer
    }
 else if index == 16 {
        Script::Latin
    }
 else if index == 17 {
        Script::Malayalam
    }
 else if index == 18 {
        Script::Cj
    }
 else if index == 19 {
        Script::Myanmar
    }
 else if index == 20 {
        Script::Oriya
    }
 else if index == 21 {
        Script::Sinhala
    }
 else if index == 22 {
        Script::Tamil
    }
 else if index == 23 {
        Script::Telugu
    }
 else if index == 24 {
        Script::Thai
    }
 else {
        Script::Other
    }
}

/// The position in the language detector's list of scripts that names a script other than
/// `Cj` and `Other`; `Cj` takes the name of Mandarin.
pub open spec fn spec_script_detector_index(script: Script) -> int {
    match script {
        Script::Arabic => 0,
        Script::Armenian => 1,
        Script::Bengali => 2,
        Script::Cyrillic => 3,
        Script::Devanagari => 4,
        Script::Ethiopic => 5,
        Script::Georgian => 6,
        Script::Greek => 7,
        Script::Gujarati => 8,
        Script::Gurmukhi => 9,
        Script::Hangul => 10,
        Script::Hebrew => 11,
        Script::Kannada => 13,
        Script::Khmer => 15,
        Script::Latin => 16,
        Script::Malayalam => 17,
        Script::Myanmar => 19,
        Script::Oriya => 20,
        Script::Sinhala => 21,
        Script::Tamil => 22,
        Script::Telugu => 23,
        Script::Thai => 24,
        Script::Cj => 18,
        Script::Other => -1,
    }
}

/// Every script of the language detector is a script of the library: none becomes `Other`.
pub proof fn lemma_detector_scripts_are_known(index: int)
    requires
        0 <= index < DETECTOR_SCRIPT_COUNT,
    ensures
        spec_script_of_detector(index) != Script::Other,
{
}

/// Two scripts of the language detector become the same script only when they are merged into
/// `Cj` (Hiragana, Katakana and Mandarin); every script of the library but `Other` comes from
/// one of them, and each comes back from the position that names it.
pub proof fn lemma_detector_scripts_merge_only_into_cj(i: int, j: int, script: Script)
    requires
        0 <= i < DETECTOR_SCRIPT_COUNT,
        0 <= j < DETECTOR_SCRIPT_COUNT,
    ensures
        i != j && spec_script_of_detector(i) == spec_script_of_detector(j) ==> spec_script_of_detector(i)
            == Script::Cj,
        script != Script::Other ==> 0 <= spec_script_detector_index(script) < DETECTOR_SCRIPT_COUNT
            && spec_script_of_detector(spec_script_detector_index(script)) == script,
{
}

/// Exactly three scripts of the language detector become `Cj`: Hiragana, Katakana and
/// Mandarin, at positions 12, 14 and 18 of its list (the order of their declarations).
pub proof fn lemma_three_detector_scripts_are_cj(k: int)
    requires
        0 <= k < DETECTOR_SCRIPT_COUNT,
    ensures
        spec_script_of_detector(12) == Script::Cj,
        spec_script_of_detector(14) == Script::Cj,
        spec_script_of_detector(18) == Script::Cj,
        spec_script_of_detector(k) == Script::Cj ==> (k == 12 || k == 14 || k == 18),
{
}

/// The script of a single character: the first of a fixed list of scripts whose ranges hold it.
pub open spec fn spec_script_of_char(c: char) -> Script {
    if spec_is_latin(c) {
        Script::Latin
    } else if spec_is_cyrillic(c) {
        Script::Cyrillic
    } else if spec_is_arabic(c) {
        Script::Arabic
    } else if spec_is_devanagari(c) {
        Script::Devanagari
    } else if spec_is_hebrew(c) {
        Script::Hebrew
    } else if spec_is_ethiopic(c) {
        Script::Ethiopic
    } else if spec_is_georgian(c) {
        Script::Georgian
    } else if spec_is_bengali(c) {
        Script::Bengali
    } else if spec_is_hangul(c) {
        Script::Hangul
    } else if spec_is_hiragana(c) || spec_is_katakana(c) || spec_is_mandarin(c) {
        Script::Cj
    } else if spec_is_greek(c) {
        Script::Greek
    } else if spec_is_kannada(c) {
        Script::Kannada
    } else if spec_is_tamil(c) {
        Script::Tamil
    } else if spec_is_thai(c) {
        Script::Thai
    } else if spec_is_gujarati(c) {
        Script::Gujarati
    } else if spec_is_gurmukhi(c) {
        Script::Gurmukhi
    } else if spec_is_telugu(c) {
        Script::Telugu
    } else if spec_is_malayalam(c) {
        Script::Malayalam
    } else if spec_is_oriya(c) {
        Script::Oriya
    } else if spec_is_myanmar(c) {
        Script::Myanmar
    } else if spec_is_sinhala(c) {
        Script::Sinhala
    } else if spec_is_khmer(c) {
        Script::Khmer
    } else {
        Script::Other
    }
}

impl Script {
    /// The script of a single character (`From<char>`).
    pub fn from_char(c: char) -> (script: Script)
        ensures
            script == spec_script_of_char(c),
    {
        if is_latin(c) {
            Script::Latin
        } else if is_cyrillic(c) {
            Script::Cyrillic
        } else if is_arabic(c) {
            Script::Arabic
        } else if is_devanagari(c) {
            Script::Devanagari
        } else if is_hebrew(c) {
            Script::Hebrew
        } else if is_ethiopic(c) {
            Script::Ethiopic
        } else if is_georgian(c) {
            Script::Georgian
        } else if is_bengali(c) {
            Script::Bengali
        } else if is_hangul(c) {
            Script::Hangul
        } else if is_hiragana(c) || is_katakana(c) || is_mandarin(c) {
            Script::Cj
        } else if is_greek(c) {
            Script::Greek
        } else if is_kannada(c) {
            Script::Kannada
        } else if is_tamil(c) {
            Script::Tamil
        } else if is_thai(c) {
            Script::Thai
        } else if is_gujarati(c) {
            Script::Gujarati
        } else if is_gurmukhi(c) {
            Script::Gurmukhi
        } else if is_telugu(c) {
            Script::Telugu
        } else if is_malayalam(c) {
            Script::Malayalam
        } else if is_oriya(c) {
            Script::Oriya
        } else if is_myanmar(c) {
            Script::Myanmar
        } else if is_sinhala(c) {
            Script::Sinhala
        } else if is_khmer(c) {
            Script::Khmer
        } else {
            Script::Other
        }
    }

    /// The script at position `index` of the language detector's list of scripts
    /// (`From<whatlang::Script>`): Hiragana, Katakana and Mandarin become `Cj`.
    pub fn from_detector_index(index: usize) -> (script: Script)
        requires
            index < DETECTOR_SCRIPT_COUNT,
        ensures
            script == spec_script_of_detector(index as int),
    {
        if index == 0 {
            Script::Arabic
        } else if index == 1 {
            Script::Armenian
        } else if index == 2 {
            Script::Bengali
        } else if index == 3 {
            Script::Cyrillic
        } else if index == 4 {
            Script::Devanagari
        } else if index == 5 {
            Script::Ethiopic
        } else if index == 6 {
            Script::Georgian
        } else if index == 7 {
            Script::Greek
        } else if index == 8 {
            Script::Gujarati
        } else if index == 9 {
            Script::Gurmukhi
        } else if index == 10 {
            Script::Hangul
        } else if index == 11 {
            Script::Hebrew
        } else if index == 12 {
            Script::Cj
        } else if index == 13 {
            Script::Kannada
        } else if index == 14 {
            Script::Cj
        } else if index == 15 {
            Script::Khmer
        } else if index == 16 {
            Script::Latin
        } else if index == 17 {
            Script::Malayalam
        } else if index == 18 {
            Script::Cj
        } else if index == 19 {
            Script::Myanmar
        } else if index == 20 {
            Script::Oriya
        } else if index == 21 {
            Script::Sinhala
        } else if index == 22 {
            Script::Tamil
        } else if index == 23 {
            Script::Telugu
        } else {
            Script::Thai
        }
    }

    /// The position in the language detector's list of scripts whose name this script takes,
    /// if it has one.
    pub fn detector_index(&self) -> (index: Option<usize>)
        ensures
            index matches Some(i) ==> i < DETECTOR_SCRIPT_COUNT && i == spec_script_detector_index(*self),
            index is None <==> *self == Script::Other,
    {
        match self {
            Script::Arabic => Some(0),
            Script::Armenian => Some(1),
            Script::Bengali => Some(2),
            Script::Cyrillic => Some(3),
            Script::Devanagari => Some(4),
            Script::Ethiopic => Some(5),
            Script::Georgian => Some(6),
            Script::Greek => Some(7),
            Script::Gujarati => Some(8),
            Script::Gurmukhi => Some(9),
            Script::Hangul => Some(10),
            Script::Hebrew => Some(11),
            Script::Kannada => Some(13),
            Script::Khmer => Some(15),
            Script::Latin => Some(16),
            Script::Malayalam => Some(17),
            Script::Myanmar => Some(19),
            Script::Oriya => Some(20),
            Script::Sinhala => Some(21),
            Script::Tamil => Some(22),
            Script::Telugu => Some(23),
            Script::Thai => Some(24),
            Script::Cj => Some(18),
            Script::Other => None,
        }
    }
}

/// The script that `Script::from_name` gives for a text.
pub open spec fn spec_script_from_name(text: Seq<char>) -> Script {
    match detector_script_parsed(text) {
        Some(i) => spec_script_of_detector(i as int),
        None => Script::Other,
    }
}

/// The code that `Language::code` gives for a language.
pub open spec fn spec_language_code(lang: Language) -> Seq<char> {
    if lang == Language::Zho {
        seq!['z', 'h', 'o']
    } else {
        detector_language_code(spec_detector_index(lang))
    }
}

/// The language that `Language::from_code` gives for a code.
pub open spec fn spec_language_from_code(code: Seq<char>) -> Option<Language> {
    if code == seq!['z', 'h', 'o'] {
        Some(Language::Zho)
    } else {
        match detector_language_of_code(code) {
            Some(i) => Some(spec_language_at(i as int)),
            None => None,
        }
    }
}

impl Script {
    /// The name of the script: the detector's name for it (Mandarin's for `Cj`),
    /// and `"other"` for `Other`.
    pub fn name(&self) -> (name: &'static str)
        ensures
            *self == Script::Other ==> name@ == seq!['o', 't', 'h', 'e', 'r'],
            *self != Script::Other ==> name@ == detector_script_name(spec_script_detector_index(*self)),
            *self != Script::Other ==> spec_script_from_name(name@) == *self,
    {
        match self.detector_index() {
            Some(index) => script_name(index),
            None => {
                let other = "other";
                proof {
                    reveal_strlit("other");
                }
                other
            },
        }
    }

    /// The script that a name designates, as the detector reads names; `Other` when it
    /// names none.
    pub fn from_name(code: &str) -> (script: Script)
        ensures
            script == spec_script_from_name(code@),
            code@ == seq!['o', 't', 'h', 'e', 'r'] ==> script == Script::Other,
    {
        match script_from_name(code) {
            Some(index) => Script::from_detector_index(index),
            None => Script::Other,
        }
    }
}

impl Default for Script {
    fn default() -> (script: Script)
        ensures
            script == Script::Other,
    {
        Script::Other
    }
}

impl Language {
    /// The ISO 639-3 code of the language: `"zho"` for `Zho`, otherwise the detector's code.
    pub fn code(&self) -> (code: &'static str)
        ensures
            code@ == spec_language_code(*self),
            spec_language_from_code(code@) == Some(*self),
    {
        match self {
            Language::Zho => {
                let zho = "zho";
                proof {
                    reveal_strlit("zho");
                }
                zho
            },
            _ => language_code(self.detector_index()),
        }
    }

    /// The language of an ISO 639-3 code: `"zho"` gives `Zho`, any other code goes to the
    /// detector.
    pub fn from_code(code: &str) -> (lang: Option<Language>)
        ensures
            lang == spec_language_from_code(code@),
    {
        let zho = "zho";
        proof {
            reveal_strlit("zho");
            assert(zho@ =~= seq!['z', 'h', 'o']);
        }
        if str_eq(code, zho) {
            Some(Language::Zho)
        } else {
            match language_from_code(code) {
                Some(index) => Some(Language::from_detector_index(index)),
                None => None,
            }
        }
    }
}

} // verus!
