//! What this library takes from the standard library's Unicode tables.
//!
//! Word boundaries and casing rest on six `char` methods of `std`. What they
//! answer for an ASCII character is written out here; for every other
//! character the answer is a lookup in the Unicode tables, which is given a
//! name and left uninterpreted. Nothing in this module is proved: each
//! contract below is taken on trust.

use vstd::prelude::*;

verus! {

/// `char::is_alphanumeric` for a character outside ASCII.
pub uninterp spec fn unicode_alphanumeric(c: char) -> bool;

/// `char::is_numeric` for a character outside ASCII.
pub uninterp spec fn unicode_numeric(c: char) -> bool;

/// `char::is_lowercase` for a character outside ASCII.
pub uninterp spec fn unicode_lowercase(c: char) -> bool;

/// `char::is_uppercase` for a character outside ASCII.
pub uninterp spec fn unicode_uppercase(c: char) -> bool;

/// The characters that `char::to_uppercase` yields, in order, for a character
/// outside ASCII.
pub uninterp spec fn unicode_upper_mapping(c: char) -> Seq<char>;

/// The characters that `char::to_lowercase` yields, in order, for a character
/// outside ASCII.
pub uninterp spec fn unicode_lower_mapping(c: char) -> Seq<char>;

/// Whether `c` is one of the 128 characters of ASCII.
pub open spec fn is_ascii_char(c: char) -> bool {
    c <= '\x7f'
}

/// Whether `c` is one of the letters `a` to `z`.
pub open spec fn is_ascii_lower(c: char) -> bool {
    'a' <= c && c <= 'z'
}

/// Whether `c` is one of the letters `A` to `Z`.
pub open spec fn is_ascii_upper(c: char) -> bool {
    'A' <= c && c <= 'Z'
}

/// Whether `c` is one of the digits `0` to `9`.
pub open spec fn is_ascii_digit(c: char) -> bool {
    '0' <= c && c <= '9'
}

/// The capital of an ASCII small letter; any other character unchanged.
pub open spec fn ascii_upper(c: char) -> char {
    if is_ascii_lower(c) {
        ((c as u32) - 32) as char
    } else {
        c
    }
}

/// The small form of an ASCII capital; any other character unchanged.
pub open spec fn ascii_lower(c: char) -> char {
    if is_ascii_upper(c) {
        ((c as u32) + 32) as char
    } else {
        c
    }
}

/// Whether `c` is a letter or a number, in ASCII or beyond.
pub open spec fn char_alphanumeric(c: char) -> bool {
    if is_ascii_char(c) {
        is_ascii_lower(c) || is_ascii_upper(c) || is_ascii_digit(c)
    } else {
        unicode_alphanumeric(c)
    }
}

/// Whether `c` is a number: a decimal digit, a letter-like number or any
/// other numeric character.
pub open spec fn char_numeric(c: char) -> bool {
    if is_ascii_char(c) {
        is_ascii_digit(c)
    } else {
        unicode_numeric(c)
    }
}

/// Whether `c` has the Unicode property `Lowercase`.
pub open spec fn char_lowercase(c: char) -> bool {
    if is_ascii_char(c) {
        is_ascii_lower(c)
    } else {
        unicode_lowercase(c)
    }
}

/// Whether `c` has the Unicode property `Uppercase`.
pub open spec fn char_uppercase(c: char) -> bool {
    if is_ascii_char(c) {
        is_ascii_upper(c)
    } else {
        unicode_uppercase(c)
    }
}

/// The uppercase form of `c`, which may be several characters long.
pub open spec fn upper_mapping(c: char) -> Seq<char> {
    if is_ascii_char(c) {
        seq![ascii_upper(c)]
    } else {
        unicode_upper_mapping(c)
    }
}

/// The lowercase form of `c`, which may be several characters long.
pub open spec fn lower_mapping(c: char) -> Seq<char> {
    if is_ascii_char(c) {
        seq![ascii_lower(c)]
    } else {
        unicode_lower_mapping(c)
    }
}

/// Trusted: `char::is_alphanumeric`. In ASCII it holds of exactly the letters
/// `a`-`z`, `A`-`Z` and the digits `0`-`9`; elsewhere it is the lookup named
/// [`unicode_alphanumeric`].
pub assume_specification[ char::is_alphanumeric ](c: char) -> (r: bool)
    ensures
        is_ascii_char(c) ==> r == (is_ascii_lower(c) || is_ascii_upper(c) || is_ascii_digit(c)),
        !is_ascii_char(c) ==> r == unicode_alphanumeric(c),
;

/// Trusted: `char::is_numeric`. In ASCII it holds of exactly the digits
/// `0`-`9`; elsewhere it is the lookup named [`unicode_numeric`].
pub assume_specification[ char::is_numeric ](c: char) -> (r: bool)
    ensures
        is_ascii_char(c) ==> r == is_ascii_digit(c),
        !is_ascii_char(c) ==> r == unicode_numeric(c),
;

/// Trusted: `char::is_lowercase`. In ASCII it holds of exactly the letters
/// `a`-`z`; elsewhere it is the lookup named [`unicode_lowercase`].
pub assume_specification[ char::is_lowercase ](c: char) -> (r: bool)
    ensures
        is_ascii_char(c) ==> r == is_ascii_lower(c),
        !is_ascii_char(c) ==> r == unicode_lowercase(c),
;

/// Trusted: `char::is_uppercase`. In ASCII it holds of exactly the letters
/// `A`-`Z`; elsewhere it is the lookup named [`unicode_uppercase`].
pub assume_specification[ char::is_uppercase ](c: char) -> (r: bool)
    ensures
        is_ascii_char(c) ==> r == is_ascii_upper(c),
        !is_ascii_char(c) ==> r == unicode_uppercase(c),
;

/// Trusted: `String::push`, which appends one character to the end of the
/// string and leaves the rest as it was.
pub assume_specification[ String::push ](s: &mut String, ch: char)
    ensures
        final(s)@ == old(s)@.push(ch),
;

/// Trusted: `char::to_uppercase`, collected into a vector. The mapping is
/// never empty. An ASCII small letter gives its capital and any other ASCII
/// character gives itself; elsewhere the result is the lookup named
/// [`unicode_upper_mapping`].
#[verifier::external_body]
pub(crate) fn uppercase_chars(c: char) -> (r: Vec<char>)
    ensures
        r@.len() >= 1,
        is_ascii_char(c) ==> r@ == seq![ascii_upper(c)],
        !is_ascii_char(c) ==> r@ == unicode_upper_mapping(c),
{
    c.to_uppercase().collect()
}

/// Trusted: `char::to_lowercase`, collected into a vector. The mapping is
/// never empty. An ASCII capital gives its small letter and any other ASCII
/// character gives itself; elsewhere the result is the lookup named
/// [`unicode_lower_mapping`].
#[verifier::external_body]
pub(crate) fn lowercase_chars(c: char) -> (r: Vec<char>)
    ensures
        r@.len() >= 1,
        is_ascii_char(c) ==> r@ == seq![ascii_lower(c)],
        !is_ascii_char(c) ==> r@ == unicode_lower_mapping(c),
{
    c.to_lowercase().collect()
}

} // verus!
