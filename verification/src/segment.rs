//! The segmenter: cuts an input into its words.

use vstd::prelude::*;
use crate::boundary::{classify, is_boundary, is_separator, splits_between, CharClass};
use crate::text::chars_of;

verus! {

/// Whether a word boundary lies just before position `i` of `s`, that is
/// between `s[i - 1]` and `s[i]`. The character at `i + 1`, where there is
/// one, is the lookahead of the acronym rule.
pub open spec fn boundary_at(s: Seq<char>, i: int, number_starts_word: bool) -> bool
    recommends
        0 < i < s.len(),
{
    splits_between(
        s[i - 1],
        s[i],
        if i + 1 < s.len() {
            Some(s[i + 1])
        } else {
            None
        },
        number_starts_word,
    )
}

/// Where the word that begins at `start` ends: the first position after
/// `start` that has a boundary before it, or the end of `s`.
pub open spec fn word_end(s: Seq<char>, start: int, number_starts_word: bool) -> int
    decreases s.len() - start,
{
    if start + 1 >= s.len() {
        start + 1
    } else if boundary_at(s, start + 1, number_starts_word) {
        start + 1
    } else {
        word_end(s, start + 1, number_starts_word)
    }
}

/// The words of `s` that begin at or after position `from`, in order. A
/// separator is skipped; any other character opens a word that runs up to
/// [`word_end`].
pub open spec fn words_from(s: Seq<char>, from: int, number_starts_word: bool) -> Seq<Seq<char>>
    decreases s.len() - from,
{
    if from < 0 || from >= s.len() {
        Seq::empty()
    } else if is_separator(s[from]) {
        words_from(s, from + 1, number_starts_word)
    } else {
        let end = word_end(s, from, number_starts_word);
        proof {
            lemma_word_end_bounds(s, from, number_starts_word);
        }
        seq![s.subrange(from, end)] + words_from(s, end, number_starts_word)
    }
}

/// The words of `s`, in the order in which they occur.
pub open spec fn segment_words(s: Seq<char>, number_starts_word: bool) -> Seq<Seq<char>> {
    words_from(s, 0, number_starts_word)
}

/// A word that begins inside `s` ends after its first character and no later
/// than `s` does; no boundary lies inside it, and it ends at a boundary or at
/// the end of `s`.
pub proof fn lemma_word_end_bounds(s: Seq<char>, start: int, number_starts_word: bool)
    requires
        0 <= start < s.len(),
    ensures
        start < word_end(s, start, number_starts_word) <= s.len(),
        forall|k: int|
            start < k < word_end(s, start, number_starts_word) ==> !boundary_at(
                s,
                k,
                number_starts_word,
            ),
        word_end(s, start, number_starts_word) == s.len() || boundary_at(
            s,
            word_end(s, start, number_starts_word),
            number_starts_word,
        ),
    decreases s.len() - start,
{
    if start + 1 < s.len() && !boundary_at(s, start + 1, number_starts_word) {
        lemma_word_end_bounds(s, start + 1, number_starts_word);
    }
}

/// The word that begins at `start` ends at `end` if no boundary lies strictly
/// between the two and `end` is a boundary or the end of `s`.
proof fn lemma_word_end_at(s: Seq<char>, start: int, end: int, number_starts_word: bool)
    requires
        0 <= start < end <= s.len(),
        forall|k: int| start < k < end ==> !boundary_at(s, k, number_starts_word),
        end == s.len() || boundary_at(s, end, number_starts_word),
    ensures
        word_end(s, start, number_starts_word) == end,
    decreases end - start,
{
    if start + 1 < end {
        lemma_word_end_at(s, start + 1, end, number_starts_word);
    }
}

/// A run of word characters without a boundary inside it, closed by a
/// boundary or by the end of `s`, is the first of the words from where it
/// begins.
proof fn lemma_words_from_word(s: Seq<char>, start: int, end: int, number_starts_word: bool)
    requires
        0 <= start < end <= s.len(),
        !is_separator(s[start]),
        forall|k: int| start < k < end ==> !boundary_at(s, k, number_starts_word),
        end == s.len() || boundary_at(s, end, number_starts_word),
    ensures
        words_from(s, start, number_starts_word) == seq![s.subrange(start, end)] + words_from(
            s,
            end,
            number_starts_word,
        ),
{
    lemma_word_end_at(s, start, end, number_starts_word);
}

/// What makes a sequence of characters one word: it is not empty, it begins
/// with a word character and it has no boundary inside. (A separator inside
/// would be a boundary.)
pub open spec fn is_single_word(w: Seq<char>, number_starts_word: bool) -> bool {
    &&& w.len() > 0
    &&& !is_separator(w[0])
    &&& forall|k: int| 0 < k < w.len() ==> !boundary_at(w, k, number_starts_word)
}

/// Without a character to look ahead to there are no more boundaries than
/// with one.
proof fn lemma_lookahead_only_adds(
    prev: char,
    cur: char,
    next: Option<char>,
    number_starts_word: bool,
)
    ensures
        splits_between(prev, cur, None, number_starts_word) ==> splits_between(
            prev,
            cur,
            next,
            number_starts_word,
        ),
{
}

/// One word is all that the segmenter finds in a single word.
pub proof fn lemma_single_word_segments_to_itself(w: Seq<char>, number_starts_word: bool)
    requires
        is_single_word(w, number_starts_word),
    ensures
        segment_words(w, number_starts_word) == seq![w],
{
    lemma_words_from_word(w, 0, w.len() as int, number_starts_word);
    assert(w.subrange(0, w.len() as int) =~= w);
    assert(words_from(w, w.len() as int, number_starts_word) =~= Seq::<Seq<char>>::empty());
}

/// Every word that the segmenter finds from `from` on is a single word.
pub(crate) proof fn lemma_words_from_are_single(s: Seq<char>, from: int, number_starts_word: bool)
    requires
        0 <= from,
    ensures
        forall|j: int|
            0 <= j < words_from(s, from, number_starts_word).len() ==> is_single_word(
                #[trigger] words_from(s, from, number_starts_word)[j],
                number_starts_word,
            ),
    decreases s.len() - from,
{
    if from >= s.len() {
        assert(words_from(s, from, number_starts_word).len() == 0);
    } else if is_separator(s[from]) {
        lemma_words_from_are_single(s, from + 1, number_starts_word);
        assert(words_from(s, from, number_starts_word) == words_from(
            s,
            from + 1,
            number_starts_word,
        ));
    } else {
        let end = word_end(s, from, number_starts_word);
        lemma_word_end_bounds(s, from, number_starts_word);
        lemma_words_from_are_single(s, end, number_starts_word);
        let w = s.subrange(from, end);
        assert forall|k: int| 0 < k < w.len() implies !boundary_at(w, k, number_starts_word) by {
            assert(!boundary_at(s, from + k, number_starts_word));
            lemma_lookahead_only_adds(
                s[from + k - 1],
                s[from + k],
                if from + k + 1 < s.len() {
                    Some(s[from + k + 1])
                } else {
                    None
                },
                number_starts_word,
            );
        }
        assert(is_single_word(w, number_starts_word));
        let rest = words_from(s, end, number_starts_word);
        assert forall|j: int|
            0 <= j < words_from(s, from, number_starts_word).len() implies is_single_word(
            #[trigger] words_from(s, from, number_starts_word)[j],
            number_starts_word,
        ) by {
            if j > 0 {
                assert(words_from(s, from, number_starts_word)[j] == rest[j - 1]);
            } else {
                assert(words_from(s, from, number_starts_word)[j] == w);
            }
        }
    }
}

/// No word of a segmentation is empty, none holds a separator and none can be
/// cut further: the segmenter, run on one of its words, returns that word.
pub proof fn lemma_segmentation_is_final(s: Seq<char>, number_starts_word: bool)
    ensures
        forall|j: int|
            0 <= j < segment_words(s, number_starts_word).len() ==> {
                let w = #[trigger] segment_words(s, number_starts_word)[j];
                &&& w.len() > 0
                &&& forall|k: int| 0 <= k < w.len() ==> !is_separator(#[trigger] w[k])
                &&& segment_words(w, number_starts_word) == seq![w]
            },
{
    lemma_words_from_are_single(s, 0, number_starts_word);
    assert forall|j: int| 0 <= j < segment_words(s, number_starts_word).len() implies {
        let w = #[trigger] segment_words(s, number_starts_word)[j];
        &&& w.len() > 0
        &&& forall|k: int| 0 <= k < w.len() ==> !is_separator(#[trigger] w[k])
        &&& segment_words(w, number_starts_word) == seq![w]
    } by {
        let w = segment_words(s, number_starts_word)[j];
        assert(is_single_word(w, number_starts_word));
        lemma_single_word_segments_to_itself(w, number_starts_word);
        assert forall|k: int| 0 <= k < w.len() implies !is_separator(#[trigger] w[k]) by {
            if k > 0 {
                assert(!boundary_at(w, k, number_starts_word));
            }
        }
    }
}

/// A filter keeps the whole of a sequence whose every element passes it.
proof fn lemma_filter_keeps_all(w: Seq<char>, pred: spec_fn(char) -> bool)
    requires
        forall|i: int| 0 <= i < w.len() ==> pred(#[trigger] w[i]),
    ensures
        w.filter(pred) == w,
    decreases w.len(),
{
    reveal(Seq::filter);
    if w.len() > 0 {
        lemma_filter_keeps_all(w.drop_last(), pred);
        assert(w.drop_last().push(w.last()) =~= w);
    }
}

/// The induction behind [`lemma_words_cover_input`].
proof fn lemma_words_from_cover(s: Seq<char>, from: int, number_starts_word: bool)
    requires
        0 <= from <= s.len(),
    ensures
        words_from(s, from, number_starts_word).flatten() == s.subrange(
            from,
            s.len() as int,
        ).filter(|c: char| !is_separator(c)),
    decreases s.len() - from,
{
    let pred = |c: char| !is_separator(c);
    let tail = s.subrange(from, s.len() as int);
    if from == s.len() {
        reveal(Seq::filter);
        assert(words_from(s, from, number_starts_word).flatten() =~= Seq::<char>::empty());
    } else if is_separator(s[from]) {
        lemma_words_from_cover(s, from + 1, number_starts_word);
        let head = s.subrange(from, from + 1);
        let rest = s.subrange(from + 1, s.len() as int);
        assert(tail =~= head + rest);
        Seq::filter_distributes_over_add(head, rest, pred);
        assert(head.filter(pred) =~= Seq::<char>::empty()) by {
            reveal(Seq::filter);
            assert(head.drop_last().filter(pred) =~= Seq::<char>::empty());
        }
    } else {
        let end = word_end(s, from, number_starts_word);
        lemma_word_end_bounds(s, from, number_starts_word);
        lemma_words_from_cover(s, end, number_starts_word);
        let w = s.subrange(from, end);
        let rest = s.subrange(end, s.len() as int);
        let more = words_from(s, end, number_starts_word);
        assert(tail =~= w + rest);
        Seq::filter_distributes_over_add(w, rest, pred);
        assert forall|i: int| 0 <= i < w.len() implies pred(#[trigger] w[i]) by {
            if i > 0 {
                assert(!boundary_at(s, from + i, number_starts_word));
            }
        }
        lemma_filter_keeps_all(w, pred);
        let all = seq![w] + more;
        assert(all.first() == w);
        assert(all.drop_first() =~= more);
        assert(all.flatten() == w + more.flatten());
    }
}

/// The words of an input, put end to end, are the input without its
/// separators: the segmenter loses no word character, adds none and keeps
/// them in order.
pub proof fn lemma_words_cover_input(s: Seq<char>, number_starts_word: bool)
    ensures
        segment_words(s, number_starts_word).flatten() == s.filter(|c: char| !is_separator(c)),
{
    lemma_words_from_cover(s, 0, number_starts_word);
    assert(s.subrange(0, s.len() as int) =~= s);
}

/// The words of a text in two parts with a separator between them are the
/// words of the first part followed by the words of the second.
pub proof fn lemma_segment_around_separator(
    a: Seq<char>,
    sep: char,
    b: Seq<char>,
    number_starts_word: bool,
)
    requires
        is_separator(sep),
    ensures
        segment_words(a + seq![sep] + b, number_starts_word) == segment_words(
            a,
            number_starts_word,
        ) + segment_words(b, number_starts_word),
{
    lemma_words_before_separator(a, sep, b, 0, number_starts_word);
}

/// The induction behind [`lemma_segment_around_separator`], over the first
/// part.
proof fn lemma_words_before_separator(
    a: Seq<char>,
    sep: char,
    b: Seq<char>,
    from: int,
    number_starts_word: bool,
)
    requires
        is_separator(sep),
        0 <= from <= a.len(),
    ensures
        words_from(a + seq![sep] + b, from, number_starts_word) == words_from(
            a,
            from,
            number_starts_word,
        ) + words_from(b, 0, number_starts_word),
    decreases a.len() - from,
{
    let s = a + seq![sep] + b;
    if from == a.len() {
        assert(s[from] == sep);
        lemma_words_after_separator(a + seq![sep], b, 0, number_starts_word);
        assert(words_from(a, from, number_starts_word) =~= Seq::<Seq<char>>::empty());
    } else if is_separator(a[from]) {
        assert(s[from] == a[from]);
        lemma_words_before_separator(a, sep, b, from + 1, number_starts_word);
    } else {
        assert(s[from] == a[from]);
        let end = word_end(a, from, number_starts_word);
        lemma_word_end_bounds(a, from, number_starts_word);
        assert forall|k: int| from < k < end implies !boundary_at(s, k, number_starts_word) by {
            assert(!boundary_at(a, k, number_starts_word));
            assert(s[k - 1] == a[k - 1] && s[k] == a[k]);
            if k + 1 < a.len() {
                assert(s[k + 1] == a[k + 1]);
            } else {
                assert(s[k + 1] == sep);
            }
        }
        assert(boundary_at(s, end, number_starts_word)) by {
            if end == a.len() {
                assert(s[end] == sep);
            } else {
                assert(s[end - 1] == a[end - 1] && s[end] == a[end]);
                if end + 1 < a.len() {
                    assert(s[end + 1] == a[end + 1]);
                } else {
                    assert(s[end + 1] == sep);
                }
            }
        }
        lemma_words_from_word(s, from, end, number_starts_word);
        assert(s.subrange(from, end) =~= a.subrange(from, end));
        lemma_words_before_separator(a, sep, b, end, number_starts_word);
        assert(words_from(s, from, number_starts_word) =~= words_from(a, from, number_starts_word)
            + words_from(b, 0, number_starts_word));
    }
}

/// The induction behind [`lemma_segment_around_separator`], over the second
/// part: after a prefix that ends in a separator the segmenter finds what it
/// finds without the prefix.
proof fn lemma_words_after_separator(
    p: Seq<char>,
    b: Seq<char>,
    from: int,
    number_starts_word: bool,
)
    requires
        p.len() > 0,
        is_separator(p.last()),
        0 <= from <= b.len(),
    ensures
        words_from(p + b, p.len() + from, number_starts_word) == words_from(
            b,
            from,
            number_starts_word,
        ),
    decreases b.len() - from,
{
    let s = p + b;
    let n = p.len() as int;
    if from == b.len() {
    } else if is_separator(b[from]) {
        assert(s[n + from] == b[from]);
        lemma_words_after_separator(p, b, from + 1, number_starts_word);
    } else {
        assert(s[n + from] == b[from]);
        let end = word_end(b, from, number_starts_word);
        lemma_word_end_bounds(b, from, number_starts_word);
        assert forall|k: int| n + from < k <= n + end && k < s.len() implies boundary_at(
            s,
            k,
            number_starts_word,
        ) == boundary_at(b, k - n, number_starts_word) by {
            assert(s[k - 1] == b[k - n - 1] && s[k] == b[k - n]);
            if k + 1 < s.len() {
                assert(s[k + 1] == b[k - n + 1]);
            }
        }
        assert forall|k: int| n + from < k < n + end implies !boundary_at(
            s,
            k,
            number_starts_word,
        ) by {
            assert(!boundary_at(b, k - n, number_starts_word));
        }
        lemma_words_from_word(s, n + from, n + end, number_starts_word);
        assert(s.subrange(n + from, n + end) =~= b.subrange(from, end));
        lemma_words_after_separator(p, b, end, number_starts_word);
    }
}

/// Cuts `input` into its words.
///
/// The input is read once, left to right, with the word in progress held in
/// an accumulator. A separator closes the word in progress and is dropped. At
/// any other character the boundary classifier is asked, with the character
/// before and the one after: at a boundary the word in progress is closed and
/// the character opens the next one; otherwise it joins the word in progress.
/// Words come out in the order in which they occur, and none is empty.
pub fn segment(input: &str, number_starts_word: bool) -> (words: Vec<String>)
    ensures
        words.deep_view() == segment_words(input@, number_starts_word),
        forall|j: int| 0 <= j < words.len() ==> (#[trigger] words[j])@.len() > 0,
{
    proof {
        lemma_segmentation_is_final(input@, number_starts_word);
    }
    let chars = chars_of(input);
    let n = chars.len();
    let mut words: Vec<String> = Vec::new();
    let mut word = String::new();
    let mut in_word = false;
    let ghost mut start: int = 0;
    let mut i: usize = 0;
    while i < n
        invariant
            n == chars@.len(),
            chars@ == input@,
            0 <= start <= i <= n,
            in_word == (start < i),
            word@ == chars@.subrange(start, i as int),
            in_word ==> !is_separator(chars@[start]),
            forall|k: int| start < k < i ==> !boundary_at(chars@, k, number_starts_word),
            segment_words(chars@, number_starts_word) == words.deep_view() + words_from(
                chars@,
                start,
                number_starts_word,
            ),
        decreases n - i,
    {
        let c = chars[i];
        let next = if i + 1 < n {
            Some(chars[i + 1])
        } else {
            None
        };
        let ghost before = words.deep_view();
        if classify(c) == CharClass::Separator {
            if in_word {
                proof {
                    lemma_words_from_word(chars@, start, i as int, number_starts_word);
                }
                words.push(word);
                word = String::new();
                in_word = false;
                assert(words.deep_view() =~= before + seq![chars@.subrange(start, i as int)]);
            }
            proof {
                start = i + 1;
            }
        } else if in_word && is_boundary(chars[i - 1], c, next, number_starts_word) {
            proof {
                lemma_words_from_word(chars@, start, i as int, number_starts_word);
            }
            words.push(word);
            word = String::new();
            word.push(c);
            assert(words.deep_view() =~= before + seq![chars@.subrange(start, i as int)]);
            proof {
                start = i as int;
            }
        } else {
            word.push(c);
            in_word = true;
        }
        i += 1;
        assert(word@ =~= chars@.subrange(start, i as int));
    }
    if in_word {
        let ghost before = words.deep_view();
        proof {
            lemma_words_from_word(chars@, start, n as int, number_starts_word);
        }
        words.push(word);
        assert(words.deep_view() =~= before + seq![chars@.subrange(start, n as int)]);
    }
    assert forall|j: int| 0 <= j < words.len() implies (#[trigger] words[j])@.len() > 0 by {
        assert(words[j]@ == words.deep_view()[j]);
    }
    words
}

} // verus!
