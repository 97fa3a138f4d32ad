use heck::segment::segment;

fn words(input: &str, number_starts_word: bool) -> Vec<String> {
    segment(input, number_starts_word)
}

#[test]
fn segment_acronym() {
    assert_eq!(words("XMLHttpRequest", false), vec!["XML", "Http", "Request"]);
    assert_eq!(words("XMLHttpRequest", true), vec!["XML", "Http", "Request"]);
}

#[test]
fn segment_mixed_conventions() {
    assert_eq!(
        words("this-contains_ ALLKinds OfWord_Boundaries", false),
        vec!["this", "contains", "ALL", "Kinds", "Of", "Word", "Boundaries"]
    );
}

#[test]
fn segment_empty_input() {
    assert_eq!(words("", false), Vec::<String>::new());
    assert_eq!(words("", true), Vec::<String>::new());
}

#[test]
fn segment_separators_only() {
    assert_eq!(words("  --__..,, \t\n", false), Vec::<String>::new());
    assert_eq!(words("-", true), Vec::<String>::new());
}

#[test]
fn segment_single_character() {
    assert_eq!(words("a", false), vec!["a"]);
    assert_eq!(words("A", false), vec!["A"]);
    assert_eq!(words("7", false), vec!["7"]);
    assert_eq!(words("_a_", false), vec!["a"]);
}

#[test]
fn segment_all_digits() {
    assert_eq!(words("12345", false), vec!["12345"]);
    assert_eq!(words("12345", true), vec!["12345"]);
    assert_eq!(words("12 345", true), vec!["12", "345"]);
}

#[test]
fn segment_no_letters() {
    assert_eq!(words("1-2_3", false), vec!["1", "2", "3"]);
}

#[test]
fn segment_camel_case() {
    assert_eq!(words("camelCase", false), vec!["camel", "Case"]);
    assert_eq!(words("CamelCase", false), vec!["Camel", "Case"]);
    assert_eq!(words("aB", false), vec!["a", "B"]);
    assert_eq!(words("ABc", false), vec!["A", "Bc"]);
    assert_eq!(words("aBCd", false), vec!["a", "B", "Cd"]);
    assert_eq!(words("MixedUP", false), vec!["Mixed", "UP"]);
}

#[test]
fn segment_digits_stay_with_the_letters_before() {
    assert_eq!(words("abc123def", false), vec!["abc123", "def"]);
    assert_eq!(words("A1B", false), vec!["A1", "B"]);
    assert_eq!(words("HTTPServer2Go", false), vec!["HTTP", "Server2", "Go"]);
    assert_eq!(words("1a", false), vec!["1", "a"]);
    assert_eq!(words("a1", false), vec!["a1"]);
}

#[test]
fn segment_digits_start_a_word() {
    assert_eq!(words("abc123def", true), vec!["abc", "123", "def"]);
    assert_eq!(words("A1B", true), vec!["A", "1", "B"]);
    assert_eq!(words("HTTPServer2Go", true), vec!["HTTP", "Server", "2", "Go"]);
    assert_eq!(words("1a", true), vec!["1", "a"]);
    assert_eq!(words("a1", true), vec!["a", "1"]);
}

#[test]
fn segment_unicode() {
    assert_eq!(words("XΣXΣ baﬄe", false), vec!["XΣXΣ", "baﬄe"]);
    assert_eq!(words("αβγΔεζ", false), vec!["αβγ", "Δεζ"]);
    assert_eq!(words("中文Text", false), vec!["中文Text"]);
    assert_eq!(words("中文 text", false), vec!["中文", "text"]);
}

#[test]
fn segment_keeps_order_and_drops_punctuation() {
    assert_eq!(
        words("We have always lived in slums and holes in the wall.", false),
        vec!["We", "have", "always", "lived", "in", "slums", "and", "holes", "in", "the", "wall"]
    );
}

#[test]
fn segment_words_are_never_empty() {
    for input in ["", "_", "a__b", "__a", "a__", "aB_ _cD", "1_a_2", "..a..b.."] {
        for flag in [false, true] {
            for word in segment(input, flag) {
                assert!(!word.is_empty(), "{:?}", input);
            }
        }
    }
}

#[test]
fn segment_word_is_one_word() {
    for input in ["XMLHttpRequest", "abc123def", "this-contains_ ALLKinds", "XΣXΣ baﬄe"] {
        for flag in [false, true] {
            for word in segment(input, flag) {
                assert_eq!(segment(&word, flag), vec![word.clone()]);
            }
        }
    }
}

#[test]
fn segment_around_a_separator() {
    for flag in [false, true] {
        for (a, b) in [("fooBar", "bazQux"), ("XML", "http"), ("a1", "1a"), ("", "x"), ("AB", "c")] {
            let mut expected = segment(a, flag);
            expected.extend(segment(b, flag));
            assert_eq!(segment(&format!("{}_{}", a, b), flag), expected);
        }
    }
}

#[test]
fn segment_loses_no_word_character() {
    for input in [
        "",
        "XMLHttpRequest",
        "this-contains_ ALLKinds OfWord_Boundaries",
        "abc123def",
        "XΣXΣ baﬄe",
        "..a..b..",
        "中文 Text",
    ] {
        for flag in [false, true] {
            let together: String = segment(input, flag).concat();
            let kept: String = input.chars().filter(|c| c.is_alphanumeric()).collect();
            assert_eq!(together, kept, "{:?}", input);
        }
    }
}
