//! The joiner: puts the words of an output together.

use vstd::prelude::*;
use vstd::seq_lib::{lemma_multiset_commutative, to_multiset_build, to_multiset_contains};
use vstd::string::StringExecFns;

verus! {

/// What is written between two words: the separator, or nothing.
pub open spec fn separator_text(separator: Option<char>) -> Seq<char> {
    match separator {
        Some(c) => seq![c],
        None => Seq::empty(),
    }
}

/// The words in order with the separator between each two of them: none
/// before the first word and none after the last.
pub open spec fn joined(words: Seq<Seq<char>>, separator: Option<char>) -> Seq<char>
    decreases words.len(),
{
    if words.len() == 0 {
        Seq::empty()
    } else if words.len() == 1 {
        words[0]
    } else {
        joined(words.drop_last(), separator) + separator_text(separator) + words.last()
    }
}

/// The joined text is as long as the words together and one separator for
/// each word but the first.
pub proof fn lemma_joined_len(words: Seq<Seq<char>>, separator: Option<char>)
    ensures
        words.len() == 0 ==> joined(words, separator).len() == 0,
        words.len() > 0 ==> joined(words, separator).len() == words.flatten().len() + (words.len()
            - 1) * separator_text(separator).len(),
    decreases words.len(),
{
    if words.len() == 1 {
        words.lemma_flatten_singleton();
    } else if words.len() > 1 {
        let init = words.drop_last();
        lemma_joined_len(init, separator);
        assert(words =~= init.push(words.last()));
        init.lemma_flatten_push(words.last());
        assert((words.len() - 1) * separator_text(separator).len() == (init.len() - 1)
            * separator_text(separator).len() + separator_text(separator).len())
            by (nonlinear_arith)
            requires
                words.len() == init.len() + 1,
        ;
    }
}

/// How many times the character `c` stands in `s`.
pub open spec fn occurrences(s: Seq<char>, c: char) -> nat {
    s.to_multiset().count(c)
}

/// Whether `c` stands at position `k` of `s` and again right after it.
pub open spec fn doubled_at(s: Seq<char>, k: int, c: char) -> bool {
    0 <= k < s.len() - 1 && s[k] == c && s[k + 1] == c
}

/// Whether every word is non-empty and free of the character `c`.
pub open spec fn are_words_without(words: Seq<Seq<char>>, c: char) -> bool {
    forall|i: int| 0 <= i < words.len() ==> (#[trigger] words[i]).len() > 0 && !words[i].contains(c)
}

/// Where no word is empty and none holds the separator itself, the joined
/// text holds one separator fewer than there are words, neither begins nor
/// ends with a separator, and never has two separators in a row.
pub proof fn lemma_joined_separators(words: Seq<Seq<char>>, sep: char)
    requires
        are_words_without(words, sep),
    ensures
        words.len() == 0 ==> joined(words, Some(sep)).len() == 0,
        words.len() > 0 ==> {
            let out = joined(words, Some(sep));
            &&& out.len() > 0
            &&& out.first() != sep
            &&& out.last() != sep
            &&& occurrences(out, sep) == words.len() - 1
            &&& forall|k: int| !#[trigger] doubled_at(out, k, sep)
        },
    decreases words.len(),
{
    let out = joined(words, Some(sep));
    if words.len() == 0 {
    } else if words.len() == 1 {
        let w = words[0];
        to_multiset_contains(w, sep);
        assert forall|k: int| 0 <= k < w.len() implies w[k] != sep by {
            assert(w.contains(w[k]));
        }
    } else {
        let init = words.drop_last();
        let last = words.last();
        let head = joined(init, Some(sep));
        assert(are_words_without(init, sep)) by {
            assert forall|i: int| 0 <= i < init.len() implies (#[trigger] init[i]).len() > 0
                && !init[i].contains(sep) by {
                assert(init[i] == words[i]);
            }
        }
        lemma_joined_separators(init, sep);
        assert forall|k: int| 0 <= k < last.len() implies last[k] != sep by {
            assert(last.contains(last[k]));
        }
        assert(out == head + seq![sep] + last);
        assert(occurrences(out, sep) == words.len() - 1) by {
            lemma_multiset_commutative(head + seq![sep], last);
            lemma_multiset_commutative(head, seq![sep]);
            to_multiset_contains(last, sep);
            assert(seq![sep].to_multiset().count(sep) == 1) by {
                let none = Seq::<char>::empty();
                assert(seq![sep] =~= none.push(sep));
                to_multiset_build(none, sep);
                to_multiset_contains(none, sep);
            }
        }
        assert forall|k: int| !#[trigger] doubled_at(out, k, sep) by {
            if !(0 <= k < out.len() - 1) {
            } else if k + 1 < head.len() {
                assert(out[k] == head[k] && out[k + 1] == head[k + 1]);
                assert(!doubled_at(head, k, sep));
            } else if k + 1 == head.len() {
                assert(out[k] == head.last());
            } else if k == head.len() {
                assert(out[k + 1] == last[0]);
            } else {
                assert(out[k] == last[k - head.len() - 1]);
            }
        }
        assert(out.first() == head.first());
        assert(out.last() == last.last());
    }
}

/// Joins the words into one string, with the separator (if there is one)
/// between each two words.
pub fn join(words: &Vec<String>, separator: Option<char>) -> (out: String)
    ensures
        out@ == joined(words.deep_view(), separator),
{
    let mut out = String::new();
    let ghost texts = words.deep_view();
    let mut i: usize = 0;
    while i < words.len()
        invariant
            i <= words.len(),
            texts == words.deep_view(),
            out@ == joined(texts.take(i as int), separator),
        decreases words.len() - i,
    {
        if i > 0 {
            match separator {
                Some(c) => {
                    out.push(c);
                },
                None => {},
            }
        }
        out.append(words[i].as_str());
        proof {
            assert(texts.take(i + 1).drop_last() =~= texts.take(i as int));
            assert(texts.take(i + 1).last() == words@[i as int]@);
        }
        i += 1;
    }
    assert(texts.take(words.len() as int) =~= texts);
    out
}

} // verus!
