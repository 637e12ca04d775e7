use charabia::detection::{Detect, StrDetection};
use charabia::{Language, Script};

#[test]
fn from_into_language() {
    assert_eq!(Language::Eng.code(), "eng");
    assert_eq!(Language::from_code("eng"), Some(Language::Eng));
    assert_eq!(Language::Jpn.code(), "jpn");
    assert_eq!(Language::from_code("jpn"), Some(Language::Jpn));
    assert_eq!(Language::Cmn.code(), "cmn");
    assert_eq!(Language::from_code("cmn"), Some(Language::Cmn));
}

#[test]
fn from_into_script() {
    assert_eq!(Script::Latin.name(), "Latin");
    assert_eq!(Script::from_name("Latin"), Script::Latin);
    assert_eq!(Script::Cj.name(), "Mandarin");
    assert_eq!(Script::from_name("Mandarin"), Script::Cj);
}

#[test]
fn every_language_code_reads_back() {
    for index in 0..69 {
        let lang = Language::from_detector_index(index);
        assert_eq!(Language::from_code(lang.code()), Some(lang));
    }
    assert_eq!(Language::Zho.code(), "zho");
    assert_eq!(Language::from_code("zho"), Some(Language::Zho));
    assert_eq!(Language::from_code("xyz"), None);
}

#[test]
fn every_script_name_reads_back() {
    for index in 0..25 {
        let script = Script::from_detector_index(index);
        assert_eq!(Script::from_name(script.name()), script);
    }
    assert_eq!(Script::Other.name(), "other");
    assert_eq!(Script::from_name("other"), Script::Other);
}

#[test]
fn script_of_characters() {
    assert_eq!(Script::from_char('a'), Script::Latin);
    assert_eq!(Script::from_char('ж'), Script::Cyrillic);
    assert_eq!(Script::from_char('人'), Script::Cj);
    assert_eq!(Script::from_char('ひ'), Script::Cj);
    assert_eq!(Script::from_char('ب'), Script::Arabic);
    assert_eq!(Script::from_char('1'), Script::Other);
    assert_eq!(Script::from_char(' '), Script::Other);
}

#[test]
fn detection_with_a_single_allowed_language() {
    let text = "The quick brown fox";
    let allow = [Language::Eng];
    let mut detection: StrDetection = text.detect(Some(&allow));
    assert_eq!(detection.script(), Script::Latin);
    assert_eq!(detection.language(), Some(Language::Eng));
    assert_eq!(detection.detected_language(), Some(Language::Eng));
}

#[test]
fn latin_text_without_allow_list_gets_no_language() {
    let text = "The quick brown fox jumps over the lazy dog";
    let mut detection = StrDetection::new(text, None);
    assert_eq!(detection.script(), Script::Latin);
    assert_eq!(detection.language(), None);
}

#[test]
fn chinese_text_is_detected() {
    let text = "人人生而自由，在尊嚴和權利上一律平等。";
    let mut detection = StrDetection::new(text, None);
    assert_eq!(detection.script(), Script::Cj);
    assert_eq!(detection.language(), Some(Language::Cmn));
}
