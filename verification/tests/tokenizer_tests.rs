use worksentry::tokenizer::{
    clean_word_with, contains_chinese, split_words, tokenize_query, tokens_of_segments,
    trim_chars,
};

#[test]
fn test_tokenize_plain_words() {
    assert_eq!(tokenize_query("hello world"), vec!["hello", "world"]);
    assert_eq!(tokenize_query("  hello \t world\n"), vec!["hello", "world"]);
    assert_eq!(tokenize_query(""), Vec::<String>::new());
    assert_eq!(tokenize_query("   "), Vec::<String>::new());
}

#[test]
fn test_tokenize_strips_punctuation() {
    assert_eq!(tokenize_query("foo.bar, (baz)!"), vec!["foobar", "baz"]);
    assert_eq!(tokenize_query("snake_case kebab-case"), vec!["snake_case", "kebab-case"]);
    assert_eq!(tokenize_query("!!! ??? ..."), Vec::<String>::new());
    assert_eq!(tokenize_query("Grüße École"), vec!["Grüße", "École"]);
}

#[test]
fn test_tokenize_mixed_chinese() {
    let tokens = tokenize_query("你好 world");
    assert!(tokens.contains(&"world".to_string()));
    assert!(tokens.iter().any(|t| contains_chinese(t)));
    assert!(tokens.iter().all(|t| !t.is_empty()));
    assert!(tokens.iter().all(|t| t.trim() == t));
}

#[test]
fn test_tokenize_chinese_for_search_offers_the_parts_of_long_words() {
    let tokens = tokenize_query("中华人民共和国");
    assert!(tokens.contains(&"中华人民共和国".to_string()));
    assert!(tokens.len() > 1, "search mode cuts a long word into its words as well");
}

#[test]
fn test_cjk_ranges() {
    assert!(contains_chinese("\u{4E00}"));
    assert!(contains_chinese("\u{9FFF}"));
    assert!(contains_chinese("\u{3400}"));
    assert!(contains_chinese("\u{4DBF}"));
    assert!(contains_chinese("\u{20000}"));
    assert!(contains_chinese("\u{2A6DF}"));
    assert!(!contains_chinese("\u{33FF}"));
    assert!(!contains_chinese("\u{A000}"));
    assert!(!contains_chinese("\u{2A6E0}"));
    assert!(!contains_chinese("\u{1FFFF}"));
    assert!(!contains_chinese("かな カナ 한글"));
    assert!(!contains_chinese(""));
}

fn chars(s: &str) -> Vec<char> {
    s.chars().collect()
}

#[test]
fn test_white_space_is_what_the_standard_library_says() {
    let listed = |c: char| {
        let code = c as u32;
        (0x09..=0x0D).contains(&code)
            || [0x20, 0x85, 0xA0, 0x1680, 0x2028, 0x2029, 0x202F, 0x205F, 0x3000].contains(&code)
            || (0x2000..=0x200A).contains(&code)
    };
    let mut spaces = 0;
    for code in 0..=0x10FFFFu32 {
        if let Some(c) = char::from_u32(code) {
            assert_eq!(c.is_whitespace(), listed(c), "U+{:04X}", code);
            assert_eq!(worksentry::text::is_whitespace(c), c.is_whitespace(), "U+{:04X}", code);
            let split = split_words(&vec!['a', c, 'b']).len() == 2;
            assert_eq!(split, listed(c), "U+{:04X}", code);
            if split {
                spaces += 1;
                assert!(trim_chars(&vec![c, 'a', c]) == vec!['a']);
            }
        }
    }
    assert_eq!(spaces, 25);
}

#[test]
fn test_clean_word_for_given_classes() {
    let word = chars("a.b_c-d!");
    let none = vec![false; 8];
    assert_eq!(clean_word_with(&word, &none), chars("_-"));
    let letters = vec![true, false, true, false, true, false, true, false];
    assert_eq!(clean_word_with(&word, &letters), chars("ab_c-d"));
    // Were `.` a letter it would stay; flags that end early count as unset.
    assert_eq!(clean_word_with(&word, &vec![true, true]), chars("a._-"));
    assert_eq!(clean_word_with(&Vec::new(), &letters), Vec::<char>::new());
}

#[test]
fn test_tokens_of_segments() {
    let segments: Vec<String> =
        [" 你好 ", "", "  ", "world", "\tab\n"].iter().map(|s| s.to_string()).collect();
    let tokens: Vec<String> =
        tokens_of_segments(&segments).into_iter().map(|t| t.into_iter().collect()).collect();
    assert_eq!(tokens, vec!["你好", "world", "ab"]);
}
