//! Conversions of ASCII text, for which the laws hold without a condition.
//!
//! In ASCII every character has a single character for either case, and
//! casing a word never makes or removes a boundary inside it.

use vstd::prelude::*;
use crate::boundary::is_separator;
use crate::convert_case::{converted, emitted_words, CaseConfig, ConvertCaseOpt};
use crate::join::{doubled_at, occurrences};
use crate::laws::{
    emits_settled_words, emits_words_without, is_settled, lemma_conversion_is_idempotent,
    lemma_separators_stand_between_words,
};
use crate::segment::{
    boundary_at, is_single_word, lemma_single_word_segments_to_itself, lemma_word_end_bounds,
    lemma_words_from_are_single, segment_words, word_end, words_from,
};
use crate::unicode::{ascii_lower, ascii_upper, is_ascii_char, upper_mapping};
use crate::word::{
    capitalized_word, lower_at, lower_word, transformed, upper_word, WordTransform,
};

verus! {

/// Whether every character of `s` is an ASCII character.
pub open spec fn is_ascii_text(s: Seq<char>) -> bool {
    forall|i: int| 0 <= i < s.len() ==> is_ascii_char(#[trigger] s[i])
}

/// Pieces of one element each, put end to end, are their elements in order.
proof fn lemma_flatten_units<A>(pieces: Seq<Seq<A>>)
    requires
        forall|i: int| 0 <= i < pieces.len() ==> (#[trigger] pieces[i]).len() == 1,
    ensures
        pieces.flatten().len() == pieces.len(),
        forall|i: int| 0 <= i < pieces.len() ==> pieces.flatten()[i] == (#[trigger] pieces[i])[0],
    decreases pieces.len(),
{
    if pieces.len() > 0 {
        let init = pieces.drop_last();
        lemma_flatten_units(init);
        assert(pieces =~= init.push(pieces.last()));
        init.lemma_flatten_push(pieces.last());
    }
}

/// The uppercase form of an ASCII word has a capital for each small letter
/// and is otherwise the word itself.
pub proof fn lemma_upper_word_of_ascii(w: Seq<char>)
    requires
        is_ascii_text(w),
    ensures
        upper_word(w) == w.map_values(|c: char| ascii_upper(c)),
{
    let pieces = w.map_values(|c: char| upper_mapping(c));
    assert forall|i: int| 0 <= i < pieces.len() implies (#[trigger] pieces[i]) == seq![
        ascii_upper(w[i]),
    ] by {
        assert(is_ascii_char(w[i]));
    }
    lemma_flatten_units(pieces);
    let upper = w.map_values(|c: char| ascii_upper(c));
    assert forall|i: int| 0 <= i < w.len() implies upper_word(w)[i] == upper[i] by {
        assert(pieces[i][0] == ascii_upper(w[i]));
    }
    assert(upper_word(w) =~= upper);
}

/// The lowercase form of an ASCII word has a small letter for each capital
/// and is otherwise the word itself.
pub proof fn lemma_lower_word_of_ascii(w: Seq<char>)
    requires
        is_ascii_text(w),
    ensures
        lower_word(w) == w.map_values(|c: char| ascii_lower(c)),
{
    let pieces = Seq::new(w.len(), |i: int| lower_at(w, i));
    assert forall|i: int| 0 <= i < pieces.len() implies (#[trigger] pieces[i]) == seq![
        ascii_lower(w[i]),
    ] by {
        assert(is_ascii_char(w[i]));
    }
    lemma_flatten_units(pieces);
    let lower = w.map_values(|c: char| ascii_lower(c));
    assert forall|i: int| 0 <= i < w.len() implies lower_word(w)[i] == lower[i] by {
        assert(pieces[i][0] == ascii_lower(w[i]));
    }
    assert(lower_word(w) =~= lower);
}

/// An ASCII word, capitalized, begins with the capital of its first character
/// and goes on with the small forms of the others.
pub proof fn lemma_capitalized_word_of_ascii(w: Seq<char>)
    requires
        is_ascii_text(w),
    ensures
        capitalized_word(w).len() == w.len(),
        w.len() > 0 ==> capitalized_word(w)[0] == ascii_upper(w[0]),
        forall|i: int| 0 < i < w.len() ==> capitalized_word(w)[i] == ascii_lower(#[trigger] w[i]),
{
    if w.len() > 0 {
        let rest = w.subrange(1, w.len() as int);
        assert(is_ascii_text(rest)) by {
            assert forall|i: int| 0 <= i < rest.len() implies is_ascii_char(#[trigger] rest[i]) by {
                assert(rest[i] == w[i + 1]);
            }
        }
        lemma_lower_word_of_ascii(rest);
        assert(is_ascii_char(w[0]));
        assert forall|i: int| 0 < i < w.len() implies capitalized_word(w)[i] == ascii_lower(
            #[trigger] w[i],
        ) by {
            assert(capitalized_word(w)[i] == lower_word(rest)[i - 1]);
            assert(rest[i - 1] == w[i]);
        }
    }
}

/// An ASCII word under any word transform keeps its length and stays ASCII:
/// each character is replaced by its capital or by its small form, as the
/// transform says.
proof fn lemma_transformed_ascii(w: Seq<char>, mode: WordTransform)
    requires
        is_ascii_text(w),
    ensures
        transformed(w, mode).len() == w.len(),
        is_ascii_text(transformed(w, mode)),
        mode == WordTransform::Uppercase ==> forall|i: int|
            0 <= i < w.len() ==> #[trigger] transformed(w, mode)[i] == ascii_upper(w[i]),
        mode == WordTransform::Lowercase ==> forall|i: int|
            0 <= i < w.len() ==> #[trigger] transformed(w, mode)[i] == ascii_lower(w[i]),
        mode == WordTransform::Capitalize ==> forall|i: int|
            0 <= i < w.len() ==> #[trigger] transformed(w, mode)[i] == if i == 0 {
                ascii_upper(w[i])
            } else {
                ascii_lower(w[i])
            },
{
    lemma_upper_word_of_ascii(w);
    lemma_lower_word_of_ascii(w);
    lemma_capitalized_word_of_ascii(w);
    let t = transformed(w, mode);
    assert forall|i: int| 0 <= i < t.len() implies is_ascii_char(#[trigger] t[i]) by {
        assert(is_ascii_char(w[i]));
    }
}

/// In ASCII, casing a single word gives a single word of the same length,
/// without a separator, and casing it once more changes nothing.
pub proof fn lemma_ascii_word_settles(w: Seq<char>, config: CaseConfig)
    requires
        is_ascii_text(w),
        is_single_word(w, config.number_starts_word),
    ensures
        is_settled(transformed(w, config.word_transform), config),
        transformed(w, config.word_transform).len() == w.len(),
        forall|k: int|
            0 <= k < w.len() ==> !is_separator(#[trigger] transformed(w, config.word_transform)[k]),
{
    let mode = config.word_transform;
    let flag = config.number_starts_word;
    let t = transformed(w, mode);
    lemma_transformed_ascii(w, mode);
    assert forall|k: int| 0 <= k < w.len() implies !is_separator(#[trigger] w[k]) by {
        if k > 0 {
            assert(!boundary_at(w, k, flag));
        }
    }
    assert forall|k: int| 0 <= k < w.len() implies !is_separator(#[trigger] t[k]) by {
        assert(is_ascii_char(w[k]) && !is_separator(w[k]));
    }
    assert forall|k: int| 0 < k < t.len() implies !boundary_at(t, k, flag) by {
        assert(!boundary_at(w, k, flag));
        assert(is_ascii_char(w[k - 1]) && is_ascii_char(w[k]));
        assert(!is_separator(w[k - 1]) && !is_separator(w[k]));
        if k + 1 < w.len() {
            assert(is_ascii_char(w[k + 1]) && !is_separator(w[k + 1]));
        }
    }
    assert(is_single_word(t, flag));
    lemma_single_word_segments_to_itself(t, flag);
    lemma_transformed_ascii(t, mode);
    assert(transformed(t, mode) =~= t) by {
        assert forall|k: int| 0 <= k < t.len() implies transformed(t, mode)[k] == t[k] by {
            assert(is_ascii_char(w[k]));
        }
    }
}

/// The words of an ASCII text are ASCII.
proof fn lemma_words_from_of_ascii(s: Seq<char>, from: int, number_starts_word: bool)
    requires
        is_ascii_text(s),
        0 <= from,
    ensures
        forall|j: int|
            0 <= j < words_from(s, from, number_starts_word).len() ==> is_ascii_text(
                #[trigger] words_from(s, from, number_starts_word)[j],
            ),
    decreases s.len() - from,
{
    if from >= s.len() {
        assert(words_from(s, from, number_starts_word).len() == 0);
    } else if is_separator(s[from]) {
        lemma_words_from_of_ascii(s, from + 1, number_starts_word);
        assert(words_from(s, from, number_starts_word) == words_from(
            s,
            from + 1,
            number_starts_word,
        ));
    } else {
        let end = word_end(s, from, number_starts_word);
        lemma_word_end_bounds(s, from, number_starts_word);
        lemma_words_from_of_ascii(s, end, number_starts_word);
        let w = s.subrange(from, end);
        let rest = words_from(s, end, number_starts_word);
        assert(is_ascii_text(w)) by {
            assert forall|i: int| 0 <= i < w.len() implies is_ascii_char(#[trigger] w[i]) by {
                assert(w[i] == s[from + i]);
            }
        }
        assert forall|j: int|
            0 <= j < words_from(s, from, number_starts_word).len() implies is_ascii_text(
            #[trigger] words_from(s, from, number_starts_word)[j],
        ) by {
            if j > 0 {
                assert(words_from(s, from, number_starts_word)[j] == rest[j - 1]);
            } else {
                assert(words_from(s, from, number_starts_word)[j] == w);
            }
        }
    }
}

/// Every word that the conversion of an ASCII input emits is settled, is not
/// empty and holds no separator.
pub proof fn lemma_ascii_input_emits_settled_words(s: Seq<char>, config: CaseConfig)
    requires
        is_ascii_text(s),
    ensures
        emits_settled_words(s, config),
        forall|sep: char| is_separator(sep) ==> #[trigger] emits_words_without(s, config, sep),
{
    let flag = config.number_starts_word;
    let words = segment_words(s, flag);
    let emitted = emitted_words(s, config);
    lemma_words_from_of_ascii(s, 0, flag);
    lemma_words_from_are_single(s, 0, flag);
    assert forall|i: int| 0 <= i < emitted.len() implies is_settled(
        #[trigger] emitted[i],
        config,
    ) && emitted[i].len() > 0 && (forall|k: int|
        0 <= k < emitted[i].len() ==> !is_separator(#[trigger] emitted[i][k])) by {
        assert(is_single_word(words[i], flag));
        lemma_ascii_word_settles(words[i], config);
    }
    assert forall|sep: char| is_separator(sep) implies #[trigger] emits_words_without(
        s,
        config,
        sep,
    ) by {
        assert forall|i: int| 0 <= i < emitted.len() implies (#[trigger] emitted[i]).len() > 0
            && !emitted[i].contains(sep) by {
            if emitted[i].contains(sep) {
                let k = choose|k: int| 0 <= k < emitted[i].len() && emitted[i][k] == sep;
                assert(!is_separator(emitted[i][k]));
            }
        }
    }
}

/// Converting an ASCII input twice gives what converting it once gives, in
/// every convention.
pub proof fn lemma_ascii_convert_case_is_idempotent(s: Seq<char>, opt: ConvertCaseOpt)
    requires
        is_ascii_text(s),
    ensures
        converted(converted(s, opt.config()), opt.config()) == converted(
            s,
            opt.config(),
        ),
{
    lemma_ascii_input_emits_settled_words(s, opt.config());
    lemma_conversion_is_idempotent(s, opt.config());
}

/// The output for an ASCII input with a word or more, in any convention,
/// neither begins nor ends with the convention's separator, never has two
/// separators in a row, and holds one separator fewer than the input has
/// words.
pub proof fn lemma_ascii_separators_stand_between_words(s: Seq<char>, opt: ConvertCaseOpt)
    requires
        is_ascii_text(s),
        segment_words(s, opt.number_starts_word).len() > 0,
    ensures
        ({
            let out = converted(s, opt.config());
            let sep = opt.config().separator->0;
            &&& out.len() > 0
            &&& out.first() != sep
            &&& out.last() != sep
            &&& forall|k: int| !#[trigger] doubled_at(out, k, sep)
            &&& occurrences(out, sep) == segment_words(s, opt.number_starts_word).len() - 1
        }),
{
    let config = opt.config();
    let sep = config.separator->0;
    lemma_ascii_input_emits_settled_words(s, config);
    assert(is_separator(sep));
    assert(emits_words_without(s, config, sep));
    lemma_separators_stand_between_words(s, config, sep);
}

} // verus!
