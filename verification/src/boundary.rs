//! The boundary classifier: where one word ends and the next begins.

use vstd::prelude::*;
use crate::unicode::{char_alphanumeric, char_lowercase, char_numeric, char_uppercase};

verus! {

/// The five classes a character can fall in. They are disjoint: a character
/// is tested for them in the order separator, digit, lowercase, uppercase, so
/// a numeric character counts as a digit even where Unicode also gives it a
/// case (as it does the Roman numerals).
#[derive(Clone, Copy, PartialEq, Eq, Debug, Structural)]
pub enum CharClass {
    /// Neither a letter nor a number: never part of a word.
    Separator,
    /// A cased letter in its small form.
    Lowercase,
    /// A cased letter in its capital form.
    Uppercase,
    /// A numeric character.
    Digit,
    /// A letter without case.
    Other,
}

/// The class of `c`.
pub open spec fn class_of(c: char) -> CharClass {
    if !char_alphanumeric(c) {
        CharClass::Separator
    } else if char_numeric(c) {
        CharClass::Digit
    } else if char_lowercase(c) {
        CharClass::Lowercase
    } else if char_uppercase(c) {
        CharClass::Uppercase
    } else {
        CharClass::Other
    }
}

/// Whether `c` is a separator: a character that is neither a letter nor a
/// number. Whitespace, hyphens, underscores and punctuation are separators.
pub open spec fn is_separator(c: char) -> bool {
    class_of(c) == CharClass::Separator
}

/// Whether a word boundary lies between two neighbouring characters, `prev`
/// and `cur`, given the character that follows `cur` (if any). There is one
/// where any of these holds:
///
/// - either character is a separator;
/// - `prev` is a digit and `cur` is not: a digit always ends its run;
/// - `cur` is a digit, `prev` is not, and `number_starts_word` is set;
/// - `prev` is a small letter and `cur` a capital (`camelCase`);
/// - both are capitals and a small letter follows, so that `cur` opens the
///   next word (`XMLHttp` is `XML` and `Http`).
///
/// The classes are disjoint, so no two of the rules can disagree.
pub open spec fn splits_between(
    prev: char,
    cur: char,
    next: Option<char>,
    number_starts_word: bool,
) -> bool {
    let p = class_of(prev);
    let c = class_of(cur);
    ||| p == CharClass::Separator || c == CharClass::Separator
    ||| p == CharClass::Digit && c != CharClass::Digit
    ||| p != CharClass::Digit && c == CharClass::Digit && number_starts_word
    ||| p == CharClass::Lowercase && c == CharClass::Uppercase
    ||| p == CharClass::Uppercase && c == CharClass::Uppercase && (next matches Some(n)
        && class_of(n) == CharClass::Lowercase)
}

/// Classifies one character.
pub fn classify(c: char) -> (class: CharClass)
    ensures
        class == class_of(c),
{
    if !c.is_alphanumeric() {
        CharClass::Separator
    } else if c.is_numeric() {
        CharClass::Digit
    } else if c.is_lowercase() {
        CharClass::Lowercase
    } else if c.is_uppercase() {
        CharClass::Uppercase
    } else {
        CharClass::Other
    }
}

/// Decides whether a word boundary lies between `prev` and `cur`. `next` is
/// the character after `cur`, or `None` where `cur` is the last one. The
/// rules are tried in turn: separators, then digits, then case.
pub fn is_boundary(prev: char, cur: char, next: Option<char>, number_starts_word: bool) -> (split:
    bool)
    ensures
        split == splits_between(prev, cur, next, number_starts_word),
{
    let p = classify(prev);
    let c = classify(cur);
    if p == CharClass::Separator || c == CharClass::Separator {
        true
    } else if p == CharClass::Digit || c == CharClass::Digit {
        p != c && (p == CharClass::Digit || number_starts_word)
    } else if p == CharClass::Lowercase && c == CharClass::Uppercase {
        true
    } else if p == CharClass::Uppercase && c == CharClass::Uppercase {
        match next {
            Some(n) => classify(n) == CharClass::Lowercase,
            None => false,
        }
    } else {
        false
    }
}

} // verus!
