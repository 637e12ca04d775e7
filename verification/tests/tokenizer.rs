use charabia::{Language, SeparatorKind, Token, TokenKind, Tokenize, TokenizerBuilder};

#[test]
fn check_lifetimes() {
    let text = "Hello world! Pleased to see you.";

    let tokens: Vec<Token> = { text.tokenize().unwrap() };
    assert_eq!(tokens.iter().last().map(|t| t.lemma()), Some("."));

    let tokens: Vec<Token> = {
        let builder = TokenizerBuilder::default();
        let tokens = {
            let tokenizer = builder.build().unwrap();
            tokenizer.tokenize(text).unwrap()
        };
        tokens
    };
    assert_eq!(tokens.iter().last().map(|t| t.lemma()), Some("."));

    let tokens: Vec<Token> = {
        let stop_words: fst::Set<Vec<u8>> = fst::Set::from_iter(["to"].iter()).unwrap();
        let mut builder = TokenizerBuilder::new();
        let builder = builder.stop_words(&stop_words);
        let tokens = {
            let tokenizer = builder.build().unwrap();
            tokenizer.tokenize(text).unwrap()
        };
        tokens
    };
    assert_eq!(tokens.iter().last().map(|t| t.lemma()), Some("."));
}

#[test]
fn tokenize_classifies_words_and_separators() {
    let orig = "The quick (\"brown\") fox can't jump 32.3 feet, right? Brr, it's 29.3°F!";
    let tokens = orig.tokenize().unwrap();
    assert_eq!(tokens[0].lemma(), "the");
    assert_eq!(tokens[0].kind, TokenKind::Word);
    assert_eq!(tokens[1].lemma(), " ");
    assert_eq!(tokens[1].kind, TokenKind::Separator(SeparatorKind::Soft));
    assert_eq!(tokens[2].lemma(), "quick");
    assert_eq!(tokens[2].kind, TokenKind::Word);
}

#[test]
fn reconstruct_attaches_the_original_text() {
    let orig = "The quick (\"brown\") fox can't jump 32.3 feet, right? Brr, it's 29.3°F!";
    let pairs = orig.reconstruct().unwrap();
    assert_eq!(pairs[0].0, "The");
    assert_eq!(pairs[0].1.lemma(), "the");
    assert_eq!(pairs[0].1.kind, TokenKind::Word);
    assert_eq!(pairs[1].0, " ");
    assert_eq!(pairs[1].1.kind, TokenKind::Separator(SeparatorKind::Soft));
    assert_eq!(pairs[2].0, "quick");
    let parts: Vec<&str> = pairs.iter().map(|(s, _)| s.as_str()).collect();
    assert_eq!(parts.concat(), orig);
    for (part, token) in &pairs {
        assert_eq!(&orig[token.byte_start..token.byte_end], part);
    }
}

#[test]
fn custom_separators() {
    let mut builder = TokenizerBuilder::default();
    let separators = [" ", ", ", ". ", "?", "!"];
    builder.separators(&separators);
    let tokenizer = builder.build().unwrap();
    let orig = "The quick (\"brown\") fox can't jump 32.3 feet, right? Brr, it's 29.3°F!";
    let output = tokenizer.segment_str(orig).unwrap();
    assert_eq!(
        &output,
        &["The", " ", "quick", " ", "(\"brown\")", " ", "fox", " ", "can't", " ", "jump", " ", "32.3", " ", "feet", ", ", "right", "?", " ", "Brr", ", ", "it's", " ", "29.3°F", "!"]
    );
}

#[test]
fn words_dictionary() {
    let mut builder = TokenizerBuilder::default();
    let words = ["J. R. R.", "Dr.", "J. K."];
    builder.words_dict(&words);
    let tokenizer = builder.build().unwrap();
    let orig = "J. R. R. Tolkien. J. K. Rowling. Dr. Seuss";
    let output = tokenizer.segment_str(orig).unwrap();
    assert_eq!(
        &output,
        &["J. R. R.", " ", "Tolkien", ". ", "J. K.", " ", "Rowling", ". ", "Dr.", " ", "Seuss"]
    );
}

#[test]
fn empty_separators_fall_back_to_the_default_ones() {
    let mut builder = TokenizerBuilder::default();
    let separators = [""];
    builder.separators(&separators);
    let tokenizer = builder.build().unwrap();
    assert_eq!(tokenizer.segment_str("a b").unwrap(), ["a", " ", "b"]);
}

#[test]
fn stop_words_are_classified() {
    let stop_words: fst::Set<Vec<u8>> = fst::Set::from_iter(["the"].iter()).unwrap();
    let mut builder = TokenizerBuilder::new();
    builder.stop_words(&stop_words);
    let tokenizer = builder.build().unwrap();
    let tokens = tokenizer.tokenize("the fox").unwrap();
    assert_eq!(tokens[0].lemma(), "the");
    assert!(tokens[0].is_stopword());
    assert!(tokens[2].is_word());
    // Stop words are matched before the lemma is lowercased.
    let tokens = tokenizer.tokenize("The fox").unwrap();
    assert_eq!(tokens[0].lemma(), "the");
    assert!(tokens[0].is_word());
}

#[test]
fn char_maps_on_request() {
    let mut builder = TokenizerBuilder::new();
    builder.create_char_map(true);
    let tokenizer = builder.build().unwrap();
    let tokens = tokenizer.tokenize("Œ x").unwrap();
    assert_eq!(tokens[0].lemma(), "oe");
    assert_eq!(tokens[0].char_map, Some(vec![(2, 2)]));
    let mut builder = TokenizerBuilder::new();
    builder.lossy_normalization(false);
    let tokenizer = builder.build().unwrap();
    let tokens = tokenizer.tokenize("Œ x").unwrap();
    assert_eq!(tokens[0].lemma(), "Œ");
    assert_eq!(tokens[0].char_map, None);
}

#[test]
fn allowed_languages() {
    let allow = [Language::Eng];
    let mut builder = TokenizerBuilder::new();
    builder.allow_list(&allow);
    let tokenizer = builder.build().unwrap();
    let tokens = tokenizer.tokenize("The fox").unwrap();
    assert_eq!(tokens[0].language, Some(Language::Eng));
    let tokens = tokenizer.tokenize_with_allow_list("The fox", None).unwrap();
    assert_eq!(tokens[0].language, None);
}

#[test]
fn segment_keeps_the_lemmas_unnormalized() {
    let tokenizer = TokenizerBuilder::default().into_tokenizer().unwrap();
    let tokens = tokenizer.segment("The Fox").unwrap();
    assert_eq!(tokens[0].lemma(), "The");
    assert_eq!(tokens[0].kind, TokenKind::Unknown);
    assert_eq!(tokens[2].lemma(), "Fox");
    assert_eq!((tokens[2].char_start, tokens[2].char_end), (4, 7));
}

#[test]
fn lossy_tokenization_removes_diacritics() {
    let tokenizer = TokenizerBuilder::default().into_tokenizer().unwrap();
    let tokens = tokenizer.tokenize("maïs").unwrap();
    assert_eq!(tokens.len(), 1);
    assert_eq!(tokens[0].lemma(), "mais");
}

#[test]
fn reconstructed_parts_are_the_bytes_between_the_offsets() {
    let text = "Der Kapitän fährt, 中国人 say \"hi\".";
    let pairs = text.reconstruct().unwrap();
    let mut joined = String::new();
    for (part, token) in &pairs {
        assert_eq!(&text[token.byte_start..token.byte_end], part.as_str());
        joined.push_str(part);
    }
    assert_eq!(joined, text);
}

#[test]
fn segments_hold_a_single_script() {
    let tokenizer = TokenizerBuilder::default().into_tokenizer().unwrap();
    let pieces = tokenizer.segment_str("abcД中文xyz").unwrap();
    assert_eq!(pieces.concat(), "abcД中文xyz");
    assert!(pieces.iter().all(|p| {
        let latin = p.chars().any(|c| c.is_ascii_alphabetic());
        let cyrillic = p.chars().any(|c| ('\u{0400}'..='\u{04FF}').contains(&c));
        let han = p.chars().any(|c| ('\u{4E00}'..='\u{9FFF}').contains(&c));
        (latin as u8 + cyrillic as u8 + han as u8) <= 1
    }));
}
