use heck::boundary::{classify, is_boundary, CharClass};

#[test]
fn classify_separators() {
    for c in [' ', '-', '_', '.', ',', '!', '\t', '\n', '/', '\u{2014}'] {
        assert_eq!(classify(c), CharClass::Separator, "{:?}", c);
    }
}

#[test]
fn classify_letters_by_case() {
    assert_eq!(classify('a'), CharClass::Lowercase);
    assert_eq!(classify('z'), CharClass::Lowercase);
    assert_eq!(classify('ß'), CharClass::Lowercase);
    assert_eq!(classify('σ'), CharClass::Lowercase);
    assert_eq!(classify('ﬄ'), CharClass::Lowercase);
    assert_eq!(classify('A'), CharClass::Uppercase);
    assert_eq!(classify('Z'), CharClass::Uppercase);
    assert_eq!(classify('Σ'), CharClass::Uppercase);
}

#[test]
fn classify_digits() {
    assert_eq!(classify('0'), CharClass::Digit);
    assert_eq!(classify('9'), CharClass::Digit);
    assert_eq!(classify('٣'), CharClass::Digit);
    assert_eq!(classify('¾'), CharClass::Digit);
}

#[test]
fn classify_numeric_before_case() {
    // The Roman numerals are numbers that also have a case.
    assert!('Ⅷ'.is_uppercase());
    assert_eq!(classify('Ⅷ'), CharClass::Digit);
    assert!('ⅷ'.is_lowercase());
    assert_eq!(classify('ⅷ'), CharClass::Digit);
}

#[test]
fn classify_letters_without_case() {
    assert_eq!(classify('中'), CharClass::Other);
    assert_eq!(classify('ǅ'), CharClass::Other);
}

#[test]
fn boundary_at_separator() {
    assert!(is_boundary('a', '_', Some('b'), false));
    assert!(is_boundary('_', 'b', None, false));
    assert!(is_boundary(' ', ' ', None, true));
}

#[test]
fn boundary_lower_to_upper() {
    assert!(is_boundary('a', 'B', None, false));
    assert!(is_boundary('a', 'B', Some('c'), false));
    assert!(!is_boundary('A', 'b', None, false));
    assert!(!is_boundary('a', 'b', Some('C'), false));
}

#[test]
fn boundary_acronym_needs_lookahead() {
    assert!(is_boundary('L', 'H', Some('t'), false));
    assert!(!is_boundary('L', 'H', Some('T'), false));
    assert!(!is_boundary('L', 'H', Some('1'), false));
    assert!(!is_boundary('L', 'H', Some(' '), false));
    assert!(!is_boundary('L', 'H', None, false));
}

#[test]
fn boundary_after_digit_always() {
    assert!(is_boundary('1', 'a', None, false));
    assert!(is_boundary('1', 'A', None, false));
    assert!(is_boundary('1', 'a', None, true));
    assert!(is_boundary('1', '中', None, false));
}

#[test]
fn boundary_before_digit_by_flag() {
    assert!(!is_boundary('a', '1', None, false));
    assert!(!is_boundary('A', '1', Some('b'), false));
    assert!(is_boundary('a', '1', None, true));
    assert!(is_boundary('A', '1', Some('b'), true));
    assert!(is_boundary('中', '1', None, true));
}

#[test]
fn no_boundary_inside_a_run() {
    assert!(!is_boundary('1', '2', Some('a'), true));
    assert!(!is_boundary('a', 'b', None, true));
    assert!(!is_boundary('A', 'B', Some('C'), true));
    assert!(!is_boundary('中', '文', Some('a'), true));
    assert!(!is_boundary('中', 'A', Some('a'), false));
    assert!(!is_boundary('a', '中', None, false));
}

#[test]
fn digit_rule_comes_before_acronym_rule() {
    // A Roman numeral is a digit, so no acronym boundary stands before it,
    // and after it there always is one.
    assert!(!is_boundary('X', 'Ⅷ', Some('a'), false));
    assert!(is_boundary('X', 'Ⅷ', Some('a'), true));
    assert!(is_boundary('Ⅷ', 'X', Some('a'), false));
}
