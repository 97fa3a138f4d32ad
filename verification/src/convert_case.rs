//! The table of conventions, and the engine that every convention runs on.

use vstd::prelude::*;
use crate::join::{join, joined};
use crate::segment::{segment, segment_words};
use crate::word::{transform_word, transformed, WordTransform};

verus! {

/// The conventions this library converts to.
#[derive(Clone, Copy, PartialEq, Eq, Debug, Structural)]
pub enum Case {
    /// `SHOUTY-KEBAB-CASE`: words in capitals, joined by hyphens.
    ShoutyKebab,
    /// `Title Case`: words with a capital first, joined by spaces.
    Title,
}

/// What a conversion is made of: how a word is cased, what is written between
/// two words, and whether a digit after a letter opens a new word.
#[derive(Clone, Copy, PartialEq, Eq, Debug, Structural)]
pub struct CaseConfig {
    pub word_transform: WordTransform,
    pub separator: Option<char>,
    pub number_starts_word: bool,
}

/// The options of [`convert_case`].
#[derive(Clone, Copy, PartialEq, Eq, Debug, Structural)]
pub struct ConvertCaseOpt {
    pub case: Case,
    pub number_starts_word: bool,
}

impl Case {
    /// The row of the table for this convention. In every row a digit after a
    /// letter stays in the letter's word.
    pub open spec fn spec_config(self) -> CaseConfig {
        match self {
            Case::ShoutyKebab => CaseConfig {
                word_transform: WordTransform::Uppercase,
                separator: Some('-'),
                number_starts_word: false,
            },
            Case::Title => CaseConfig {
                word_transform: WordTransform::Capitalize,
                separator: Some(' '),
                number_starts_word: false,
            },
        }
    }

    /// Looks this convention up in the table.
    #[verifier::when_used_as_spec(spec_config)]
    pub fn config(self) -> (config: CaseConfig)
        ensures
            config == self.spec_config(),
    {
        match self {
            Case::ShoutyKebab => CaseConfig {
                word_transform: WordTransform::Uppercase,
                separator: Some('-'),
                number_starts_word: false,
            },
            Case::Title => CaseConfig {
                word_transform: WordTransform::Capitalize,
                separator: Some(' '),
                number_starts_word: false,
            },
        }
    }
}

impl CaseConfig {
    /// This configuration with its flag for digits replaced.
    pub open spec fn spec_with_number_starts_word(self, number_starts_word: bool) -> CaseConfig {
        CaseConfig {
            word_transform: self.word_transform,
            separator: self.separator,
            number_starts_word,
        }
    }

    /// Replaces the flag that says whether a digit after a letter opens a new
    /// word.
    #[verifier::when_used_as_spec(spec_with_number_starts_word)]
    pub fn with_number_starts_word(self, number_starts_word: bool) -> (config: CaseConfig)
        ensures
            config == self.spec_with_number_starts_word(number_starts_word),
    {
        CaseConfig {
            word_transform: self.word_transform,
            separator: self.separator,
            number_starts_word,
        }
    }
}

impl ConvertCaseOpt {
    /// The configuration these options stand for: the convention's row, with
    /// the flag of the options.
    pub open spec fn spec_config(self) -> CaseConfig {
        self.case.config().with_number_starts_word(self.number_starts_word)
    }

    /// The configuration these options stand for.
    #[verifier::when_used_as_spec(spec_config)]
    pub fn config(self) -> (config: CaseConfig)
        ensures
            config == self.spec_config(),
    {
        self.case.config().with_number_starts_word(self.number_starts_word)
    }
}

/// The words of `s` as they are written to the output: cut out by the
/// segmenter, then each one re-cased.
pub open spec fn emitted_words(s: Seq<char>, config: CaseConfig) -> Seq<Seq<char>> {
    segment_words(s, config.number_starts_word).map_values(
        |w: Seq<char>| transformed(w, config.word_transform),
    )
}

/// `s` converted under `config`.
pub open spec fn converted(s: Seq<char>, config: CaseConfig) -> Seq<char> {
    joined(emitted_words(s, config), config.separator)
}

/// Converts `s` under `config`: cuts it into words, re-cases each word and
/// joins the results. The separator is written between two words only, and
/// no word that is written is empty.
pub fn transform(s: &str, config: CaseConfig) -> (out: String)
    ensures
        out@ == converted(s@, config),
        forall|j: int|
            0 <= j < emitted_words(s@, config).len() ==> (#[trigger] emitted_words(
                s@,
                config,
            )[j]).len() > 0,
{
    let words = segment(s, config.number_starts_word);
    let mut shaped: Vec<String> = Vec::new();
    let mut i: usize = 0;
    while i < words.len()
        invariant
            i <= words.len(),
            words.deep_view() == segment_words(s@, config.number_starts_word),
            forall|j: int| 0 <= j < words.len() ==> (#[trigger] words[j])@.len() > 0,
            shaped.deep_view() == emitted_words(s@, config).take(i as int),
            forall|j: int|
                0 <= j < i ==> (#[trigger] emitted_words(s@, config)[j]).len() > 0,
        decreases words.len() - i,
    {
        let ghost before = shaped.deep_view();
        let word = transform_word(words[i].as_str(), config.word_transform);
        shaped.push(word);
        proof {
            assert(words.deep_view()[i as int] == words@[i as int]@);
            assert(shaped.deep_view() =~= before.push(word@));
            assert(emitted_words(s@, config).take(i + 1) =~= emitted_words(s@, config).take(
                i as int,
            ).push(word@));
        }
        i += 1;
    }
    assert(emitted_words(s@, config).take(words.len() as int) =~= emitted_words(s@, config));
    join(&shaped, config.separator)
}

/// Converts `s` to the convention that `opt` names.
pub fn convert_case(s: &str, opt: ConvertCaseOpt) -> (out: String)
    ensures
        out@ == converted(s@, opt.config()),
{
    transform(s, opt.config())
}

} // verus!
