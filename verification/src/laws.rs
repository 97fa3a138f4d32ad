//! What holds of every conversion.

use vstd::prelude::*;
use crate::boundary::is_separator;
use crate::convert_case::{converted, emitted_words, Case, CaseConfig, ConvertCaseOpt};
use crate::join::{are_words_without, doubled_at, joined, lemma_joined_separators, occurrences};
use crate::segment::{lemma_segment_around_separator, segment_words, words_from};
use crate::word::transformed;

verus! {

/// A word is settled under a configuration if the segmenter takes it for
/// exactly one word and the word transform leaves it as it is.
pub open spec fn is_settled(w: Seq<char>, config: CaseConfig) -> bool {
    &&& segment_words(w, config.number_starts_word) == seq![w]
    &&& transformed(w, config.word_transform) == w
}

/// Whether every word that the conversion of `s` emits is settled.
pub open spec fn emits_settled_words(s: Seq<char>, config: CaseConfig) -> bool {
    forall|i: int|
        0 <= i < emitted_words(s, config).len() ==> is_settled(
            #[trigger] emitted_words(s, config)[i],
            config,
        )
}

/// Whether every word that the conversion of `s` emits is non-empty and free
/// of the character `c`.
pub open spec fn emits_words_without(s: Seq<char>, config: CaseConfig, c: char) -> bool {
    are_words_without(emitted_words(s, config), c)
}

/// As many words are written as the segmenter finds: casing and joining
/// never change the segmentation.
pub proof fn lemma_emitted_word_count(s: Seq<char>, config: CaseConfig)
    ensures
        emitted_words(s, config).len() == segment_words(s, config.number_starts_word).len(),
{
}

/// For one input, any two conventions write the same number of words.
pub proof fn lemma_word_count_is_independent_of_case(
    s: Seq<char>,
    number_starts_word: bool,
    a: Case,
    b: Case,
)
    ensures
        emitted_words(s, a.config().with_number_starts_word(number_starts_word)).len()
            == emitted_words(s, b.config().with_number_starts_word(number_starts_word)).len(),
{
}

/// An input without a word character has no words.
pub proof fn lemma_separators_have_no_words(s: Seq<char>, number_starts_word: bool)
    requires
        forall|i: int| 0 <= i < s.len() ==> is_separator(#[trigger] s[i]),
    ensures
        segment_words(s, number_starts_word).len() == 0,
{
    lemma_no_words_from(s, 0, number_starts_word);
}

proof fn lemma_no_words_from(s: Seq<char>, from: int, number_starts_word: bool)
    requires
        0 <= from,
        forall|i: int| 0 <= i < s.len() ==> is_separator(#[trigger] s[i]),
    ensures
        words_from(s, from, number_starts_word).len() == 0,
    decreases s.len() - from,
{
    if from < s.len() {
        lemma_no_words_from(s, from + 1, number_starts_word);
    }
}

/// The empty input, and any input made of separators only, converts to the
/// empty string, whatever the configuration.
pub proof fn lemma_separators_convert_to_nothing(s: Seq<char>, config: CaseConfig)
    requires
        forall|i: int| 0 <= i < s.len() ==> is_separator(#[trigger] s[i]),
    ensures
        converted(s, config) == Seq::<char>::empty(),
{
    lemma_separators_have_no_words(s, config.number_starts_word);
    assert(emitted_words(s, config).len() == 0);
}

/// Words that are each a single word to the segmenter, joined by a separator,
/// are cut by the segmenter into those same words.
pub proof fn lemma_segment_undoes_join(words: Seq<Seq<char>>, sep: char, number_starts_word: bool)
    requires
        is_separator(sep),
        forall|i: int|
            0 <= i < words.len() ==> segment_words(#[trigger] words[i], number_starts_word)
                == seq![words[i]],
    ensures
        segment_words(joined(words, Some(sep)), number_starts_word) == words,
    decreases words.len(),
{
    if words.len() == 0 {
        assert(segment_words(Seq::<char>::empty(), number_starts_word) =~= words);
    } else if words.len() == 1 {
        assert(seq![words[0]] =~= words);
    } else {
        let init = words.drop_last();
        assert forall|i: int| 0 <= i < init.len() implies segment_words(
            #[trigger] init[i],
            number_starts_word,
        ) == seq![init[i]] by {
            assert(init[i] == words[i]);
        }
        lemma_segment_undoes_join(init, sep, number_starts_word);
        lemma_segment_around_separator(
            joined(init, Some(sep)),
            sep,
            words.last(),
            number_starts_word,
        );
        assert(init + seq![words.last()] =~= words);
    }
}

/// Converting twice gives what converting once gives, for every input whose
/// emitted words are settled, under any configuration that joins with a
/// separator character.
pub proof fn lemma_conversion_is_idempotent(s: Seq<char>, config: CaseConfig)
    requires
        config.separator matches Some(sep) && is_separator(sep),
        emits_settled_words(s, config),
    ensures
        converted(converted(s, config), config) == converted(s, config),
{
    let words = emitted_words(s, config);
    let once = converted(s, config);
    lemma_segment_undoes_join(words, config.separator->0, config.number_starts_word);
    assert(emitted_words(once, config) =~= words);
}

/// Converting twice gives what converting once gives, in every convention,
/// for every input whose emitted words are settled.
pub proof fn lemma_convert_case_is_idempotent(s: Seq<char>, opt: ConvertCaseOpt)
    requires
        emits_settled_words(s, opt.config()),
    ensures
        converted(converted(s, opt.config()), opt.config()) == converted(
            s,
            opt.config(),
        ),
{
    lemma_conversion_is_idempotent(s, opt.config());
}

/// An output of one word or more neither begins nor ends with the separator,
/// never has two separators in a row, and holds one separator fewer than it
/// has words, provided no emitted word is empty or holds the separator
/// itself.
pub proof fn lemma_separators_stand_between_words(s: Seq<char>, config: CaseConfig, sep: char)
    requires
        config.separator == Some(sep),
        emits_words_without(s, config, sep),
        segment_words(s, config.number_starts_word).len() > 0,
    ensures
        converted(s, config).len() > 0,
        converted(s, config).first() != sep,
        converted(s, config).last() != sep,
        forall|k: int| !#[trigger] doubled_at(converted(s, config), k, sep),
        occurrences(converted(s, config), sep) == segment_words(
            s,
            config.number_starts_word,
        ).len() - 1,
{
    lemma_joined_separators(emitted_words(s, config), sep);
}

} // verus!
