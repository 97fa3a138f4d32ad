use heck::segment::segment;
use heck::{to_shouty_kebab_case, to_title_case};

const INPUTS: [&str; 16] = [
    "",
    "a",
    "CamelCase",
    "This is Human case.",
    "MixedUP CamelCase, with some Spaces",
    "mixed_up_ snake_case, with some _spaces",
    "kebab-case",
    "SHOUTY_SNAKE_CASE",
    "this-contains_ ALLKinds OfWord_Boundaries",
    "XΣXΣ baﬄe",
    "XMLHttpRequest",
    "abc123def",
    "HTTPServer2Go",
    "12345",
    "  --__  ",
    "中文 Text αβγΔεζ",
];

#[test]
fn converting_twice_is_converting_once() {
    for input in INPUTS {
        for flag in [false, true] {
            let shouty = to_shouty_kebab_case(input, flag);
            assert_eq!(to_shouty_kebab_case(&shouty, flag), shouty, "{:?}", input);
            let title = to_title_case(input, flag);
            assert_eq!(to_title_case(&title, flag), title, "{:?}", input);
        }
    }
}

#[test]
fn shouty_kebab_of_its_own_output() {
    assert_eq!(
        to_shouty_kebab_case("THIS-CONTAINS-ALL-KINDS-OF-WORD-BOUNDARIES", false),
        "THIS-CONTAINS-ALL-KINDS-OF-WORD-BOUNDARIES"
    );
    assert_eq!(to_title_case("Xml Http Request", false), "Xml Http Request");
}

#[test]
fn converting_twice_differs_where_casing_makes_a_boundary() {
    // Capitalizing a sharp s gives two capitals before a small letter.
    assert_eq!(to_title_case("ßa", false), "SSa");
    assert_eq!(to_title_case("SSa", false), "S Sa");
    // The feminine ordinal is a small letter without a capital.
    assert_eq!(to_shouty_kebab_case("ªb", false), "ªB");
    assert_eq!(to_shouty_kebab_case("ªB", false), "ª-B");
}

#[test]
fn converting_twice_differs_where_casing_makes_a_separator() {
    // The capital of this letter is an iota with two combining marks, and a
    // combining mark is no word character.
    assert_eq!(to_shouty_kebab_case("ΐ", false), "\u{399}\u{308}\u{301}");
    assert_eq!(to_shouty_kebab_case("\u{399}\u{308}\u{301}", false), "\u{399}");
}

#[test]
fn word_count_is_the_same_in_every_convention() {
    for input in INPUTS {
        for flag in [false, true] {
            let count = segment(input, flag).len();
            let shouty = to_shouty_kebab_case(input, flag);
            let title = to_title_case(input, flag);
            assert_eq!(shouty.matches('-').count(), count.saturating_sub(1), "{:?}", input);
            assert_eq!(title.matches(' ').count(), count.saturating_sub(1), "{:?}", input);
            assert_eq!(segment(&shouty, flag).len(), count, "{:?}", input);
            assert_eq!(segment(&title, flag).len(), count, "{:?}", input);
        }
    }
}

#[test]
fn separators_stand_between_words_only() {
    for input in INPUTS {
        for flag in [false, true] {
            let shouty = to_shouty_kebab_case(input, flag);
            assert!(!shouty.starts_with('-'), "{:?}", input);
            assert!(!shouty.ends_with('-'), "{:?}", input);
            assert!(!shouty.contains("--"), "{:?}", input);
            let title = to_title_case(input, flag);
            assert!(!title.starts_with(' '), "{:?}", input);
            assert!(!title.ends_with(' '), "{:?}", input);
            assert!(!title.contains("  "), "{:?}", input);
        }
    }
}

#[test]
fn acronym_rule() {
    assert_eq!(segment("XMLHttpRequest", false), vec!["XML", "Http", "Request"]);
    assert_eq!(to_shouty_kebab_case("XMLHttpRequest", false), "XML-HTTP-REQUEST");
    assert_eq!(to_title_case("XMLHttpRequest", false), "Xml Http Request");
}

#[test]
fn mixed_conventions_normalize() {
    let input = "this-contains_ ALLKinds OfWord_Boundaries";
    assert_eq!(
        to_shouty_kebab_case(input, false),
        "THIS-CONTAINS-ALL-KINDS-OF-WORD-BOUNDARIES"
    );
    assert_eq!(to_title_case(input, false), "This Contains All Kinds Of Word Boundaries");
}

#[test]
fn unicode_handling() {
    assert_eq!(to_shouty_kebab_case("XΣXΣ baﬄe", false), "XΣXΣ-BAFFLE");
    assert_eq!(to_title_case("XΣXΣ baﬄe", false), "Xσxς Baﬄe");
}

#[test]
fn empty_input_gives_empty_output() {
    for flag in [false, true] {
        assert_eq!(to_shouty_kebab_case("", flag), "");
        assert_eq!(to_title_case("", flag), "");
    }
}

#[test]
fn separators_only_give_empty_output() {
    for input in [" ", "-", "_", "  --__  ", "...", "-_-_-", "\t\n", "!?#"] {
        for flag in [false, true] {
            assert_eq!(to_shouty_kebab_case(input, flag), "", "{:?}", input);
            assert_eq!(to_title_case(input, flag), "", "{:?}", input);
        }
    }
}

#[test]
fn single_character_inputs() {
    assert_eq!(to_shouty_kebab_case("a", false), "A");
    assert_eq!(to_title_case("a", false), "A");
    assert_eq!(to_shouty_kebab_case("7", false), "7");
    assert_eq!(to_title_case("Z", false), "Z");
}
