//! `SHOUTY-KEBAB-CASE`.

use vstd::prelude::*;
use crate::convert_case::{convert_case, converted, transform, Case, ConvertCaseOpt};

verus! {

/// This trait defines a shouty kebab case conversion.
///
/// In SHOUTY-KEBAB-CASE, word boundaries are indicated by hyphens and all
/// words are in uppercase.
pub trait ToShoutyKebabCase: ToOwned {
    /// Convert this type to shouty kebab case.
    fn to_shouty_kebab_case(&self) -> Self::Owned;
}

/// Converts `s` to shouty kebab case: its words in capitals, joined by
/// hyphens. With `number_starts_word` a digit after a letter opens a new
/// word.
pub fn to_shouty_kebab_case(s: &str, number_starts_word: bool) -> (out: String)
    ensures
        out@ == converted(
            s@,
            Case::ShoutyKebab.config().with_number_starts_word(number_starts_word),
        ),
{
    transform(s, Case::ShoutyKebab.config().with_number_starts_word(number_starts_word))
}

impl ToShoutyKebabCase for str {
    /// Shouty kebab case as the table has it: a digit after a letter stays in
    /// the letter's word.
    fn to_shouty_kebab_case(&self) -> (out: String)
        ensures
            out@ == converted(self@, Case::ShoutyKebab.config()),
    {
        convert_case(self, ConvertCaseOpt { case: Case::ShoutyKebab, number_starts_word: false })
    }
}

} // verus!
