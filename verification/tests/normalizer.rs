use charabia::normalizer::character_converter::CharacterConverterNormalizer;
use charabia::normalizer::classify::{Classifier, ClassifierOption};
use charabia::normalizer::compatibility_decomposition::CompatibilityDecompositionNormalizer;
use charabia::normalizer::greek::GreekNormalizer;
use charabia::normalizer::lowercase::LowercaseNormalizer;
use charabia::normalizer::pipeline::apply_char_normalizer;
use charabia::normalizer::quote::QuoteNormalizer;
use charabia::normalizer::thai::{recompose_sara_am, ThaiNormalizer};
use charabia::normalizer::arabic::ArabicNormalizer;
use charabia::normalizer::control_char::ControlCharNormalizer;
use charabia::normalizer::dummy_example::DummyNormalizer;
use charabia::normalizer::nonspacing_mark::NonspacingMarkNormalizer;
use charabia::normalizer::persian::PersianNormalizer;
use charabia::normalizer::turkish::TurkishNormalizer;
use charabia::normalizer::ae_oe_normalizer::AeOeNormalizer;
use charabia::normalizer::chinese::ChineseNormalizer;
use charabia::kvariants::load_kvariants;
use charabia::normalizer::{CharNormalizer, CharOrStr, NormalizerOption};
use charabia::{Language, Normalize, Script, SeparatorKind, Token, TokenKind};

fn options(create_char_map: bool, lossy: bool) -> NormalizerOption<'static> {
    NormalizerOption {
        create_char_map,
        lossy,
        classifier: ClassifierOption { stop_words: None, separators: None },
        kvariants: None,
    }
}

#[test]
fn stop_words() {
    let stop_words = fst::Set::from_iter(["the"].iter()).unwrap();
    let stop_words = stop_words.as_fst().as_bytes().to_vec();
    let stop_words = fst::Set::new(stop_words).unwrap();
    let options = NormalizerOption {
        create_char_map: true,
        classifier: ClassifierOption { stop_words: Some(stop_words), separators: None },
        lossy: false,
        kvariants: None,
    };

    let token =
        Classifier.normalize(Token { lemma: "the".to_string(), ..Default::default() }, &options);
    assert!(token.is_stopword());

    let token =
        Classifier.normalize(Token { lemma: "The".to_string(), ..Default::default() }, &options);
    assert!(token.is_word());

    let token = Classifier
        .normalize(Token { lemma: "foobar".to_string(), ..Default::default() }, &options);
    assert!(token.is_word());
}

#[test]
fn separators_are_classified_by_context() {
    let options = options(false, false);
    let token = Classifier.normalize(Token { lemma: " ".to_string(), ..Default::default() }, &options);
    assert_eq!(token.kind, TokenKind::Separator(SeparatorKind::Soft));
    let token =
        Classifier.normalize(Token { lemma: ". ".to_string(), ..Default::default() }, &options);
    assert_eq!(token.kind, TokenKind::Separator(SeparatorKind::Hard));
    let token =
        Classifier.normalize(Token { lemma: "。".to_string(), ..Default::default() }, &options);
    assert_eq!(token.separator_kind(), Some(SeparatorKind::Hard));
    let separators = ["x"];
    let custom = NormalizerOption {
        create_char_map: false,
        lossy: false,
        classifier: ClassifierOption { stop_words: None, separators: Some(&separators) },
        kvariants: None,
    };
    let token = Classifier.normalize(Token { lemma: "x".to_string(), ..Default::default() }, &custom);
    assert!(token.is_separator());
    let token = Classifier.normalize(Token { lemma: " ".to_string(), ..Default::default() }, &custom);
    assert!(token.is_word());
}

#[test]
fn normalize_sigma_in_every_position() {
    let token = Token {
        lemma: "ςοφόςς".to_string(),
        char_end: 6,
        byte_end: 12,
        script: Script::Greek,
        ..Default::default()
    };

    assert_eq!(GreekNormalizer.normalize(token, &options(true, true)).lemma(), "σοφόσσ");
}

#[test]
fn split_at() {
    fn display_token(token: &Token, name: &str) {
        println!("{} with {}", token.lemma(), name);
        if let Some(char_map) = token.char_map.as_ref() {
            let mut s = &token.lemma[..];
            for (start, len) in char_map {
                match s.get((*len as usize)..) {
                    Some(n) => {
                        println!("{} - {:?}", &s[..(*len as usize)], (start, len));
                        s = n;
                    }
                    None => println!("⚠ - {:?}", (start, len)),
                }
            }
        }
    }

    let options = options(true, true);

    let string = "0÷IÖꞪz";
    let mut normalized = Token { lemma: string.to_string(), ..Default::default() };
    display_token(&normalized, "()");
    normalized =
        apply_char_normalizer(&CompatibilityDecompositionNormalizer, normalized, &options).unwrap();
    display_token(&normalized, "CompatibilityDecompositionNormalizer");
    normalized = apply_char_normalizer(&LowercaseNormalizer, normalized, &options).unwrap();
    display_token(&normalized, "LowercaseNormalizer");
    normalized = apply_char_normalizer(&QuoteNormalizer, normalized, &options).unwrap();
    display_token(&normalized, "QuoteNormalizer");
    let _ = normalized;
}

fn thai_normalize(token: Token) -> Token {
    if ThaiNormalizer.should_normalize(&token) {
        ThaiNormalizer.normalize(token, &options(true, true))
    } else {
        token
    }
}

#[test]
fn recompose_sara_am_trailing() {
    let token = Token { lemma: "วิทยุ".to_string(), script: Script::Thai, ..Default::default() };
    let result = thai_normalize(token);
    assert_eq!(result.lemma(), "วิทยุ");
}

#[test]
fn recompose_sara_am_decomposed() {
    let decomposed = "\u{e19}\u{e49}\u{e4d}\u{e32}";
    let token = Token { lemma: decomposed.to_string(), script: Script::Thai, ..Default::default() };
    let result = thai_normalize(token);
    assert_eq!(result.lemma(), "\u{e19}\u{e49}\u{e33}");
}

#[test]
fn recompose_sara_am_in_word() {
    let decomposed = "\u{e19}\u{e49}\u{e4d}\u{e32}\u{e22}\u{e32}";
    let token = Token { lemma: decomposed.to_string(), script: Script::Thai, ..Default::default() };
    let result = thai_normalize(token);
    assert_eq!(result.lemma(), "\u{e19}\u{e49}\u{e33}\u{e22}\u{e32}");
}

#[test]
fn test_sara_am_recomposition_with_existing_char_map() {
    let decomposed = "\u{e19}\u{e49}\u{e4d}\u{e32}";
    let token = Token {
        lemma: decomposed.to_string(),
        char_end: decomposed.chars().count(),
        byte_end: decomposed.len(),
        script: Script::Thai,
        language: Some(Language::Tha),
        char_map: Some(vec![(3, 3), (3, 3), (3, 3), (3, 3)]),
        ..Default::default()
    };

    let result = thai_normalize(token);

    assert_eq!(result.lemma(), "\u{e19}\u{e49}\u{e33}");
    assert!(result.char_map.is_none(), "stale char_map must be cleared after recomposition");
}

fn thai_token(text: &str) -> Token {
    Token {
        lemma: text.to_string(),
        char_end: text.chars().count(),
        byte_end: text.len(),
        script: Script::Thai,
        language: Some(Language::Tha),
        ..Default::default()
    }
}

#[test]
fn full_pipeline_preserves_thai_marks() {
    let options = options(false, true);

    let normalized = thai_token("วิทยุ").normalize(&options).unwrap();
    assert_eq!(normalized.lemma(), "วิทยุ", "trailing sara u (ุ) must be preserved");

    let normalized = thai_token("ธาตุ").normalize(&options).unwrap();
    assert_eq!(normalized.lemma(), "ธาตุ", "trailing sara u (ุ) must be preserved");

    let normalized = thai_token("มนุษย์").normalize(&options).unwrap();
    assert_eq!(normalized.lemma(), "มนุษย์", "thanthakhat (์) must be preserved");

    let normalized = thai_token("ง่าย").normalize(&options).unwrap();
    assert_eq!(normalized.lemma(), "ง่าย", "tone mark (่) must be preserved");

    let normalized = thai_token("น้ำ").normalize(&options).unwrap();
    assert_eq!(normalized.lemma(), "น้ำ", "Sara Am (ำ) must not be decomposed");
}

#[test]
fn full_pipeline_preserves_thai_marks_with_char_map() {
    let options = options(true, true);

    let normalized = thai_token("น้ำ").normalize(&options).unwrap();
    assert_eq!(normalized.lemma(), "น้ำ", "Sara Am (ำ) must not be decomposed (char_map path)");

    let normalized = thai_token("วิทยุ").normalize(&options).unwrap();
    assert_eq!(
        normalized.lemma(),
        "วิทยุ",
        "trailing sara u (ุ) must be preserved (char_map path)"
    );

    let normalized = thai_token("มนุษย์").normalize(&options).unwrap();
    assert_eq!(
        normalized.lemma(),
        "มนุษย์",
        "thanthakhat (์) must be preserved (char_map path)"
    );
}

#[test]
fn recomposition_of_sara_am_is_stable() {
    assert_eq!(recompose_sara_am("abc"), None);
    let once = recompose_sara_am("\u{e4d}\u{e32}\u{e4d}\u{e32}").unwrap();
    assert_eq!(once, "\u{e33}\u{e33}");
    assert_eq!(recompose_sara_am(&once), None);
}

fn latin(text: &str, char_end: usize, byte_end: usize) -> Token {
    Token { lemma: text.to_string(), char_end, byte_end, script: Script::Latin, ..Default::default() }
}

#[test]
fn character_converter_rewrites_ligatures() {
    let options = options(true, true);
    let cases = [("œ", "oe"), ("Œ", "oe"), ("æ", "ae"), ("Æ", "ae")];
    for (input, expected) in cases {
        let token = latin(input, 2, 2);
        assert!(CharacterConverterNormalizer.should_normalize(&token));
        let result = apply_char_normalizer(&CharacterConverterNormalizer, token, &options).unwrap();
        assert_eq!(result.lemma(), expected);
        assert_eq!(result.char_map, Some(vec![(2, 2)]));
        assert_eq!(result.char_end, 2);
        assert_eq!(result.byte_end, 2);
    }
    let arabic = Token {
        lemma: "النهاردة".to_string(),
        char_end: 8,
        byte_end: 16,
        script: Script::Arabic,
        ..Default::default()
    };
    let result = apply_char_normalizer(&CharacterConverterNormalizer, arabic, &options).unwrap();
    assert_eq!(result.lemma(), "النهارده");
    assert_eq!(result.char_map, Some(vec![(2, 2); 8]));
}

#[test]
fn pipeline_classifies_and_keeps_offsets() {
    let options = options(true, true);
    let token = latin("Œ", 2, 2).normalize(&options).unwrap();
    assert_eq!(token.lemma(), "oe");
    assert_eq!(token.kind, TokenKind::Word);
    assert_eq!(token.char_map, Some(vec![(2, 2)]));
    assert_eq!((token.char_start, token.char_end, token.byte_start, token.byte_end), (0, 2, 0, 2));
    assert_eq!(token.script, Script::Latin);
}

#[test]
fn pipeline_without_lossy_keeps_case() {
    let token = latin("Hello", 0, 5).normalize(&options(false, false)).unwrap();
    assert_eq!(token.lemma(), "Hello");
    assert_eq!(token.kind, TokenKind::Word);
    let token = latin("Hello", 0, 5).normalize(&options(false, true)).unwrap();
    assert_eq!(token.lemma(), "hello");
}

#[test]
fn greek_pipeline_is_idempotent() {
    let options = options(false, true);
    let token = Token { lemma: "ΚΌΣΜΟΣ".to_string(), script: Script::Greek, ..Default::default() };
    let once = token.normalize(&options).unwrap();
    let again = Token { lemma: once.lemma.clone(), script: Script::Greek, ..Default::default() }
        .normalize(&options)
        .unwrap();
    assert_eq!(once.lemma(), again.lemma());
    assert!(!once.lemma().contains('ς'));
}

#[test]
fn decomposition_creates_a_char_map() {
    let token = Token { lemma: "ṩ".to_string(), script: Script::Latin, ..Default::default() };
    let result =
        apply_char_normalizer(&CompatibilityDecompositionNormalizer, token, &options(true, true))
            .unwrap();
    assert_eq!(result.lemma(), "s\u{323}\u{307}");
    assert_eq!(result.char_map, Some(vec![(3, 5)]));
}

#[test]
fn bare_text_normalization() {
    assert_eq!("Hello".normalize(&options(false, true)), Some("hello".to_string()));
    assert_eq!("Hello".normalize(&options(false, false)), Some("Hello".to_string()));
    assert_eq!("ςσ".normalize(&options(false, true)), Some("σσ".to_string()));
}

#[test]
fn merging_replacements() {
    let merged = CharOrStr::Char('a').merge(&CharOrStr::Str("bc".to_string()));
    match merged {
        CharOrStr::Str(s) => assert_eq!(s, "abc"),
        CharOrStr::Char(_) => panic!("a merge is a string"),
    }
}

#[test]
fn normalize_final_sigma_followed_by_nonspacing_mark() {
    let marked = Token {
        lemma: "κοσμος\u{0301}".to_string(),
        char_end: 7,
        byte_end: 14,
        script: Script::Greek,
        ..Default::default()
    };
    let unmarked = Token {
        lemma: "κοσμος".to_string(),
        char_end: 6,
        byte_end: 12,
        script: Script::Greek,
        ..Default::default()
    };
    let options = options(true, true);
    assert_eq!(
        marked.normalize(&options).unwrap().lemma(),
        unmarked.normalize(&options).unwrap().lemma()
    );
}

#[test]
fn lossy_normalization_removes_marks() {
    let token = Token {
        lemma: "maïs".to_string(),
        char_end: 4,
        byte_end: 5,
        script: Script::Latin,
        ..Default::default()
    };
    assert_eq!(token.clone().normalize(&options(false, true)).unwrap().lemma(), "mais");
    assert_eq!(token.normalize(&options(false, false)).unwrap().lemma(), "mai\u{0308}s");
    let thai = Token { lemma: "วิทยุ".to_string(), script: Script::Thai, ..Default::default() };
    assert!(!NonspacingMarkNormalizer.should_normalize(&thai));
}

#[test]
fn control_characters_are_removed() {
    assert!(ControlCharNormalizer.normalize_char('\u{0007}').is_none());
    assert!(matches!(ControlCharNormalizer.normalize_char('\n'), Some(CharOrStr::Char('\n'))));
    let token = Token { lemma: "a\u{0007}b".to_string(), ..Default::default() };
    assert_eq!(token.normalize(&options(false, false)).unwrap().lemma(), "ab");
}

#[test]
fn replacement_forms() {
    assert!(ArabicNormalizer.normalize_char('\u{0640}').is_none());
    for c in ['\u{0623}', '\u{0625}', '\u{0622}', '\u{0671}'] {
        assert!(matches!(ArabicNormalizer.normalize_char(c), Some(CharOrStr::Char('\u{0627}'))));
    }
    assert!(matches!(ArabicNormalizer.normalize_char('\u{0629}'), Some(CharOrStr::Char('\u{0647}'))));
    assert!(PersianNormalizer.normalize_char('\u{0640}').is_none());
    assert!(matches!(PersianNormalizer.normalize_char('\u{0629}'), Some(CharOrStr::Char('\u{0647}'))));
    assert!(matches!(PersianNormalizer.normalize_char('\u{FDFC}'), Some(CharOrStr::Str(ref s)) if s == "RIAL"));
    assert!(matches!(QuoteNormalizer.normalize_char('\u{2019}'), Some(CharOrStr::Char('\''))));
    assert!(matches!(AeOeNormalizer.normalize_char('Œ'), Some(CharOrStr::Str(ref s)) if s == "oe"));
    assert!(matches!(AeOeNormalizer.normalize_char('x'), Some(CharOrStr::Char('x'))));
    assert!(matches!(TurkishNormalizer.normalize_char('\u{0131}'), Some(CharOrStr::Str(ref s)) if s == "i"));
    assert!(DummyNormalizer.normalize_char(' ').is_none());
    assert!(matches!(DummyNormalizer.normalize_char('A'), Some(CharOrStr::Str(ref s)) if s == "a"));
}

#[test]
fn dummy_normalizer_applies_to_latin_and_cyrillic() {
    let token = Token {
        lemma: "Pascal Case".to_string(),
        char_end: 10,
        byte_end: 10,
        script: Script::Latin,
        ..Default::default()
    };
    assert!(DummyNormalizer.should_normalize(&token));
    let result = apply_char_normalizer(&DummyNormalizer, token, &options(false, false)).unwrap();
    assert_eq!(result.lemma(), "pascalcase");
}

#[test]
fn chinese_stage_uses_the_given_table() {
    let table = load_kvariants("澚,sem,澳\n").unwrap();
    let mut with_table = options(false, true);
    with_table.kvariants = Some(&table);
    let token = Token {
        lemma: "澚".to_string(),
        char_end: 1,
        byte_end: 3,
        script: Script::Cj,
        language: Some(Language::Cmn),
        ..Default::default()
    };
    assert_eq!(token.clone().normalize(&with_table).unwrap().lemma(), "澳");
    assert_eq!(token.normalize(&options(false, true)).unwrap().lemma(), "澚");
    let chinese = ChineseNormalizer { kvariants: Some(&table) };
    assert!(matches!(chinese.normalize_char('澚'), Some(CharOrStr::Char('澳'))));
}
