//! The word transformer: re-cases one word.

use vstd::prelude::*;
use crate::text::{chars_of, push_chars};
use crate::unicode::{lower_mapping, lowercase_chars, upper_mapping, uppercase_chars};

verus! {

/// Greek capital sigma.
pub const CAPITAL_SIGMA: char = '\u{3a3}';

/// Greek small final sigma, the form that sigma takes at the end of a word.
pub const FINAL_SIGMA: char = '\u{3c2}';

/// How a convention cases a word.
#[derive(Clone, Copy, PartialEq, Eq, Debug, Structural)]
pub enum WordTransform {
    /// Every character in its uppercase form.
    Uppercase,
    /// Every character in its lowercase form.
    Lowercase,
    /// The first character in its uppercase form, the rest in lowercase.
    Capitalize,
    /// The word as it stands.
    Identity,
}

/// `w` with every character replaced by its uppercase form.
pub open spec fn upper_word(w: Seq<char>) -> Seq<char> {
    w.map_values(|c: char| upper_mapping(c)).flatten()
}

/// The lowercase form of the character at position `i` of the word `w`: a
/// capital sigma that ends the word becomes a final sigma, every other
/// character goes by its own mapping.
pub open spec fn lower_at(w: Seq<char>, i: int) -> Seq<char>
    recommends
        0 <= i < w.len(),
{
    if w[i] == CAPITAL_SIGMA && i == w.len() - 1 {
        seq![FINAL_SIGMA]
    } else {
        lower_mapping(w[i])
    }
}

/// `w` with every character replaced by its lowercase form.
pub open spec fn lower_word(w: Seq<char>) -> Seq<char> {
    Seq::new(w.len(), |i: int| lower_at(w, i)).flatten()
}

/// `w` with its first character in uppercase and the rest in lowercase.
pub open spec fn capitalized_word(w: Seq<char>) -> Seq<char> {
    if w.len() == 0 {
        Seq::empty()
    } else {
        upper_mapping(w[0]) + lower_word(w.subrange(1, w.len() as int))
    }
}

/// `w` as the transform `mode` leaves it.
pub open spec fn transformed(w: Seq<char>, mode: WordTransform) -> Seq<char> {
    match mode {
        WordTransform::Uppercase => upper_word(w),
        WordTransform::Lowercase => lower_word(w),
        WordTransform::Capitalize => capitalized_word(w),
        WordTransform::Identity => w,
    }
}

/// Appends the uppercase form of `chars` to `out`.
fn push_upper(out: &mut String, chars: &Vec<char>)
    ensures
        final(out)@ == old(out)@ + upper_word(chars@),
        final(out)@.len() >= old(out)@.len() + chars@.len(),
{
    let ghost pieces = chars@.map_values(|c: char| upper_mapping(c));
    let mut i: usize = 0;
    while i < chars.len()
        invariant
            i <= chars.len(),
            pieces == chars@.map_values(|c: char| upper_mapping(c)),
            out@ == old(out)@ + pieces.take(i as int).flatten(),
            out@.len() >= old(out)@.len() + i,
        decreases chars.len() - i,
    {
        let upper = uppercase_chars(chars[i]);
        proof {
            assert(pieces.take(i + 1) =~= pieces.take(i as int).push(upper@));
            pieces.take(i as int).lemma_flatten_push(upper@);
        }
        push_chars(out, &upper);
        i += 1;
    }
    assert(pieces.take(chars.len() as int) =~= pieces);
}

/// Appends the lowercase form of the word `chars[from..]` to `out`.
fn push_lower(out: &mut String, chars: &Vec<char>, from: usize)
    requires
        from <= chars.len(),
    ensures
        final(out)@ == old(out)@ + lower_word(chars@.subrange(from as int, chars.len() as int)),
        final(out)@.len() >= old(out)@.len() + chars@.len() - from,
{
    let n = chars.len();
    let ghost w = chars@.subrange(from as int, n as int);
    let ghost pieces = Seq::new(w.len(), |i: int| lower_at(w, i));
    let mut i: usize = from;
    while i < n
        invariant
            from <= i <= n,
            n == chars.len(),
            w == chars@.subrange(from as int, n as int),
            pieces == Seq::new(w.len(), |i: int| lower_at(w, i)),
            out@ == old(out)@ + pieces.take(i - from).flatten(),
            out@.len() >= old(out)@.len() + i - from,
        decreases n - i,
    {
        let c = chars[i];
        let ghost piece = lower_at(w, i - from);
        if c == CAPITAL_SIGMA && i + 1 == n {
            out.push(FINAL_SIGMA);
            assert(out@ == old(out)@ + pieces.take(i - from).flatten() + piece);
        } else {
            let lower = lowercase_chars(c);
            push_chars(out, &lower);
            assert(out@ == old(out)@ + pieces.take(i - from).flatten() + piece);
        }
        proof {
            assert(pieces.take(i + 1 - from) =~= pieces.take(i - from).push(piece));
            pieces.take(i - from).lemma_flatten_push(piece);
        }
        i += 1;
    }
    assert(pieces.take(n - from) =~= pieces);
}

/// The word in capitals: every character in its uppercase form.
pub fn uppercase(word: &str) -> (out: String)
    ensures
        out@ == upper_word(word@),
        out@.len() >= word@.len(),
{
    let chars = chars_of(word);
    let mut out = String::new();
    push_upper(&mut out, &chars);
    out
}

/// The word in small letters: every character in its lowercase form, but a
/// capital sigma at the end of the word in its final form.
pub fn lowercase(word: &str) -> (out: String)
    ensures
        out@ == lower_word(word@),
        out@.len() >= word@.len(),
{
    let chars = chars_of(word);
    let mut out = String::new();
    push_lower(&mut out, &chars, 0);
    assert(chars@.subrange(0, chars.len() as int) =~= chars@);
    out
}

/// The word with a capital first: its first character in uppercase, the rest
/// in lowercase.
pub fn capitalize(word: &str) -> (out: String)
    ensures
        out@ == capitalized_word(word@),
        out@.len() >= word@.len(),
{
    let chars = chars_of(word);
    let mut out = String::new();
    if chars.len() > 0 {
        let first = uppercase_chars(chars[0]);
        push_chars(&mut out, &first);
        push_lower(&mut out, &chars, 1);
    }
    out
}

/// Applies the transform `mode` to one word. Every mode is total, and none
/// makes a word shorter, so a word that is not empty stays so.
pub fn transform_word(word: &str, mode: WordTransform) -> (out: String)
    ensures
        out@ == transformed(word@, mode),
        out@.len() >= word@.len(),
{
    match mode {
        WordTransform::Uppercase => uppercase(word),
        WordTransform::Lowercase => lowercase(word),
        WordTransform::Capitalize => capitalize(word),
        WordTransform::Identity => word.to_owned(),
    }
}

} // verus!
