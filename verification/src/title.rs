//! `Title Case`.

use vstd::prelude::*;
use crate::convert_case::{convert_case, converted, transform, Case, ConvertCaseOpt};

verus! {

/// This trait defines a title case conversion.
///
/// In Title Case, word boundaries are indicated by spaces, and every word is
/// capitalized.
pub trait ToTitleCase: ToOwned {
    /// Convert this type to title case.
    fn to_title_case(&self) -> Self::Owned;
}

/// Converts `s` to title case: each of its words with a capital first and the
/// rest in small letters, joined by spaces. With `number_starts_word` a digit
/// after a letter opens a new word.
pub fn to_title_case(s: &str, number_starts_word: bool) -> (out: String)
    ensures
        out@ == converted(s@, Case::Title.config().with_number_starts_word(number_starts_word)),
{
    transform(s, Case::Title.config().with_number_starts_word(number_starts_word))
}

impl ToTitleCase for str {
    /// Title case as the table has it: a digit after a letter stays in the
    /// letter's word.
    fn to_title_case(&self) -> (out: String)
        ensures
            out@ == converted(self@, Case::Title.config()),
    {
        convert_case(self, ConvertCaseOpt { case: Case::Title, number_starts_word: false })
    }
}

} // verus!
