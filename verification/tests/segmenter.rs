use charabia::segmenter::arabic::split_after_punctuation;
use charabia::segmenter::chinese::{cut_for_search, next_gram};
use charabia::segmenter::latin::{split_camel_case_bounds, split_snake_case_bounds};
use charabia::segmenter::matches::{maybe_number, split_at_matches, MatchType};
use charabia::segmenter::utils::{
    find_longest_prefix, floor_char_boundary, is_max_char_count_reached, BufferingStrategy,
    FstSegmenter,
};
use charabia::segmenter::{
    script_groups, ArabicSegmenter, LatinSegmenter, PersianSegmenter, Segmenter,
};
use charabia::segmenter::aho::PatternMatcher;
use charabia::Segment;
use charabia::{Language, Script};

fn chars(s: &str) -> Vec<char> {
    s.chars().collect()
}

fn camel(text: &str) -> Vec<String> {
    split_camel_case_bounds(text)
}

fn snake(text: &str) -> Vec<String> {
    split_snake_case_bounds(text)
}

#[test]
fn camel_case_one_letter_is_preserved() {
    assert_eq!(camel("a"), ["a"]);
}

#[test]
fn camel_case_two_letter_boundary_is_split() {
    assert_eq!(camel("aB"), ["a", "B"]);
}

#[test]
fn camel_case_is_split() {
    assert_eq!(camel("camelCase"), ["camel", "Case"]);
}

#[test]
fn camel_case_all_caps_is_not_split() {
    assert_eq!(camel("SCREAMING"), ["SCREAMING"]);
}

#[test]
fn camel_case_non_ascii_boundaries() {
    assert_eq!(camel("resuméWriter"), ["resumé", "Writer"]);
    assert_eq!(camel("KarelČapek"), ["Karel", "Čapek"]);
}

#[test]
fn camel_case_non_spacing_marks_are_respected() {
    assert_eq!(camel("resume\u{0301}Writer"), ["resume\u{0301}", "Writer"]);
    assert_eq!(camel("a\u{0301}B"), ["a\u{0301}", "B"]);
}

#[test]
fn camel_case_consecutive_uppercase() {
    assert_eq!(camel("openSSL"), ["open", "SSL"]);
    assert_eq!(camel("MongoDBDatabase"), ["Mongo", "DB", "Database"]);
    assert_eq!(camel(""), Vec::<String>::new());
}

#[test]
fn snake_case_single_pieces_are_preserved() {
    assert_eq!(snake("a"), ["a"]);
    assert_eq!(snake("_"), ["_"]);
    assert_eq!(snake("__"), ["__"]);
    assert_eq!(snake("kebab-case"), ["kebab-case"]);
}

#[test]
fn snake_case_is_split() {
    assert_eq!(snake("snake_case"), ["snake", "_", "case"]);
    assert_eq!(snake("SCREAMING_SNAKE_CASE"), ["SCREAMING", "_", "SNAKE", "_", "CASE"]);
    assert_eq!(snake("resumé_writer"), ["resumé", "_", "writer"]);
    assert_eq!(snake("Karel_Čapek"), ["Karel", "_", "Čapek"]);
}

#[test]
fn snake_case_non_spacing_marks() {
    assert_eq!(snake("a\u{0301}_b"), ["a\u{0301}", "_", "b"]);
    assert_eq!(snake("a_\u{0301}b"), ["a", "_\u{0301}", "b"]);
    assert_eq!(snake("a\u{0301}_\u{0301}b"), ["a\u{0301}", "_\u{0301}", "b"]);
    assert_eq!(snake("_\u{0301}_"), ["_\u{0301}_"]);
    assert_eq!(snake("a\u{0301}_"), ["a\u{0301}", "_"]);
    assert_eq!(snake("_\u{0301}b"), ["_\u{0301}", "b"]);
}

#[test]
fn snake_case_leading_and_trailing_underscores() {
    assert_eq!(
        snake("__double_leading_underscore"),
        ["__", "double", "_", "leading", "_", "underscore"]
    );
    assert_eq!(
        snake("__double_leading_and_trailing_underscore__"),
        ["__", "double", "_", "leading", "_", "and", "_", "trailing", "_", "underscore", "__"]
    );
}

#[test]
fn latin_segmenter_splits_camel_case() {
    assert_eq!(LatinSegmenter.segment_str("camelCase"), ["camel", "Case"]);
}

#[test]
fn persian_segmenter_drops_zero_width_non_joiners() {
    assert_eq!(PersianSegmenter.segment_str("کتاب\u{200c}ها"), ["کتاب", "ها"]);
    assert_eq!(PersianSegmenter.segment_str("\u{200c}\u{200c}را\u{200c}"), ["را"]);
    assert_eq!(PersianSegmenter.segment_str("را"), ["را"]);
    assert_eq!(PersianSegmenter.segment_str(""), [""]);
}

#[test]
fn arabic_segmenter_cuts_the_article() {
    assert_eq!(ArabicSegmenter.segment_str("السلام"), ["ال", "سلام"]);
    assert_eq!(ArabicSegmenter.segment_str("كيف"), ["كيف"]);
    assert_eq!(ArabicSegmenter.segment_str("ال"), ["ال", ""]);
    assert_eq!(ArabicSegmenter.segment_str("(أتمنى"), ["(", "أتمنى"]);
}

#[test]
fn punctuation_ends_pieces() {
    assert_eq!(split_after_punctuation("a,b.c"), ["a,", "b.", "c"]);
    assert_eq!(split_after_punctuation("a,"), ["a,"]);
    assert_eq!(split_after_punctuation(""), Vec::<String>::new());
}

#[test]
fn grams_of_a_text() {
    let text = chars("人人生而");
    assert_eq!(next_gram(&text, 0, 2), Some(chars("人人")));
    assert_eq!(next_gram(&text, 2, 3), None);
    assert_eq!(next_gram(&text, 3, 1), Some(chars("而")));
    assert_eq!(next_gram(&text, 4, 1), None);
}

#[test]
fn search_cut_of_chinese_words() {
    let segmenter = charabia::segmenter::chinese::ChineseSegmenter::new();
    let pieces = segmenter.segment_str("人人生而自由");
    assert_eq!(pieces.concat(), "人人生而自由");
    assert_eq!(pieces, ["人人", "生", "而", "自由"]);
    let jieba = jieba_rs::Jieba::new();
    assert_eq!(cut_for_search(&jieba, "中国"), ["中国"]);
    let cut = cut_for_search(&jieba, "中华人民共和国");
    assert_eq!(cut.concat(), "中华人民共和国");
}

#[test]
fn numbers_may_be_kept_whole() {
    assert!(maybe_number(&chars("12.3")));
    assert!(maybe_number(&chars("-12")));
    assert!(maybe_number(&chars("۱۲۳")));
    assert!(!maybe_number(&chars("12a")));
    assert!(maybe_number(&chars("")));
}

#[test]
fn cut_at_matches() {
    let text = chars("ab, cd");
    let pieces = split_at_matches(&text, &[(2, 4)]).unwrap();
    assert_eq!(
        pieces,
        vec![
            ("ab".to_string(), MatchType::Interleave),
            (", ".to_string(), MatchType::Match),
            ("cd".to_string(), MatchType::Interleave)
        ]
    );
    let pieces = split_at_matches(&chars("12 x"), &[(2, 3)]).unwrap();
    assert_eq!(
        pieces,
        vec![
            ("12".to_string(), MatchType::Match),
            (" ".to_string(), MatchType::Match),
            ("x".to_string(), MatchType::Interleave)
        ]
    );
    // A match that ends inside a character is refused.
    assert!(split_at_matches(&chars("é"), &[(0, 1)]).is_none());
    assert_eq!(split_at_matches(&chars(""), &[]).unwrap(), vec![]);
}

#[test]
fn matcher_finds_leftmost_longest() {
    let matcher = PatternMatcher::new(&[",", ", ", " "]).unwrap();
    assert_eq!(matcher.patterns_len(), 3);
    assert_eq!(matcher.find_matches("a, b c"), vec![(1, 3), (4, 5)]);
}

#[test]
fn runs_of_one_script() {
    let groups = script_groups(&chars("abc 人人 def"));
    assert_eq!(groups, ["abc ", "人人 ", "def"]);
    assert_eq!(groups.concat(), "abc 人人 def");
    assert_eq!(script_groups(&chars("123 abc")), ["123 abc"]);
    assert_eq!(script_groups(&chars("")), Vec::<String>::new());
}

#[test]
fn latin_text_segmentation() {
    let text = "The quick (\"brown\") fox can’t jump 32.3 feet, right? Brr, it's 29.3°F! camelCase kebab-case snake_case 123 456";
    let segmented = text.segment_str_with_option(None, Some(&[Language::Eng])).unwrap();
    let expected: &[&str] = &[
        "The", " ", "quick", " ", "(", "\"", "brown", "\"", ")", " ", "fox", " ", "can", "’", "t",
        " ", "jump", " ", "32", ".", "3", " ", "feet", ", ", "right", "?", " ", "Brr", ", ", "it",
        "'", "s", " ", "29", ".", "3°F", "!", " ", "camel", "Case", " ", "kebab", "-", "case", " ",
        "snake", "_", "case", " ", "123", " ", "456",
    ];
    assert_eq!(segmented, expected);
    assert_eq!(segmented.concat(), text);
}

#[test]
fn segmentation_with_a_custom_matcher() {
    let matcher = PatternMatcher::new(&[" "]).unwrap();
    let text = "123 -123 +123 12.3 -12.3 +12.3";
    let segmented = text.segment_str_with_option(Some(&matcher), Some(&[Language::Eng])).unwrap();
    assert_eq!(
        segmented,
        ["123", " ", "-123", " ", "+123", " ", "12.3", " ", "-12.3", " ", "+12.3"]
    );
}

#[test]
fn segmented_tokens_follow_each_other() {
    let text = "Hello wörld, 人人生而自由";
    let tokens = text.segment().unwrap();
    let mut char_index = 0;
    let mut byte_index = 0;
    for token in &tokens {
        assert_eq!(token.char_start, char_index);
        assert_eq!(token.byte_start, byte_index);
        assert_eq!(&text[token.byte_start..token.byte_end], token.lemma());
        char_index = token.char_end;
        byte_index = token.byte_end;
    }
    assert_eq!(byte_index, text.len());
    assert_eq!(char_index, text.chars().count());
    assert_eq!(tokens[0].script, Script::Latin);
    assert_eq!(tokens.last().unwrap().script, Script::Cj);
}

#[test]
fn longest_key_prefix() {
    let fst = fst::raw::Fst::from_iter_map(vec![("ab", 1u64), ("abcd", 2u64), ("b", 3u64)]).unwrap();
    assert_eq!(find_longest_prefix(&fst, b"abcx"), Some((1, 2)));
    assert_eq!(find_longest_prefix(&fst, b"abcde"), Some((2, 4)));
    assert_eq!(find_longest_prefix(&fst, b"xyz"), None);
}

#[test]
fn boundaries_and_limits() {
    let text = chars("aéb");
    assert_eq!(floor_char_boundary(&text, 0), 0);
    assert_eq!(floor_char_boundary(&text, 1), 1);
    assert_eq!(floor_char_boundary(&text, 2), 1);
    assert_eq!(floor_char_boundary(&text, 3), 2);
    assert_eq!(floor_char_boundary(&text, 9), 3);
    assert!(is_max_char_count_reached(&text, Some(3)));
    assert!(!is_max_char_count_reached(&text, Some(4)));
    assert!(!is_max_char_count_reached(&text, None));
}

#[test]
fn dictionary_segmentation() {
    let fst = fst::raw::Fst::from_iter_set(vec!["dampf", "kapitän", "schiff"]).unwrap();
    let segmenter =
        FstSegmenter::new(&fst, BufferingStrategy::UntilNextMatch { max_char_count: None });
    assert_eq!(segmenter.segment_str("dampfschiffxkapitän"), ["dampf", "schiff", "x", "kapitän"]);
    assert_eq!(segmenter.segment_str("xyz"), ["xyz"]);
    let limited =
        FstSegmenter::new(&fst, BufferingStrategy::UntilNextMatch { max_char_count: Some(2) });
    assert_eq!(limited.segment_str("xyzdampf"), ["xy", "z", "dampf"]);
    assert_eq!(limited.segment_str(""), Vec::<String>::new());
}
