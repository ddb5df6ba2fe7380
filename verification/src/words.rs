//! Splitting text into whitespace-separated words, and trimming it.
use vstd::prelude::*;
use crate::text::{is_whitespace, whitespace, string_of};

verus! {

/// The first index at or after `i` that holds no whitespace; `s.len()` if
/// there is none.
pub open spec fn skip_spaces(s: Seq<char>, i: int) -> int
    decreases s.len() - i,
{
    if 0 <= i < s.len() && is_whitespace(s[i]) {
        skip_spaces(s, i + 1)
    } else if 0 <= i < s.len() {
        i
    } else {
        s.len() as int
    }
}

/// The first index at or after `i` that holds whitespace; `s.len()` if there
/// is none.
pub open spec fn word_end(s: Seq<char>, i: int) -> int
    decreases s.len() - i,
{
    if 0 <= i < s.len() && !is_whitespace(s[i]) {
        word_end(s, i + 1)
    } else if 0 <= i < s.len() {
        i
    } else {
        s.len() as int
    }
}

/// The words of `s` that start at or after index `i`.
pub open spec fn words_from(s: Seq<char>, i: int) -> Seq<Seq<char>>
    decreases s.len() - i,
    when 0 <= i
    via words_from_decreases
{
    let start = skip_spaces(s, i);
    if start < s.len() {
        let end = word_end(s, start);
        seq![s.subrange(start, end)] + words_from(s, end)
    } else {
        Seq::empty()
    }
}

#[via_fn]
proof fn words_from_decreases(s: Seq<char>, i: int) {
    let start = skip_spaces(s, i);
    if start < s.len() {
        lemma_skip_spaces(s, i);
        lemma_word_end(s, start);
    }
}

/// The words of `s`: its maximal runs of characters that are not whitespace,
/// from left to right.
pub open spec fn words(s: Seq<char>) -> Seq<Seq<char>> {
    words_from(s, 0)
}

/// A word: not empty, and free of whitespace.
pub open spec fn is_word(w: Seq<char>) -> bool {
    &&& w.len() > 0
    &&& forall|k: int| 0 <= k < w.len() ==> !is_whitespace(#[trigger] w[k])
}

/// `skip_spaces` stops at the first character that is not whitespace.
pub proof fn lemma_skip_spaces(s: Seq<char>, i: int)
    requires
        0 <= i,
    ensures
        i <= skip_spaces(s, i) <= s.len() || (i > s.len() && skip_spaces(s, i) == s.len()),
        forall|k: int| i <= k < skip_spaces(s, i) ==> is_whitespace(#[trigger] s[k]),
        skip_spaces(s, i) < s.len() ==> !is_whitespace(s[skip_spaces(s, i)]),
    decreases s.len() - i,
{
    if i < s.len() && is_whitespace(s[i]) {
        lemma_skip_spaces(s, i + 1);
    }
}

/// `word_end` stops at the first whitespace character.
pub proof fn lemma_word_end(s: Seq<char>, i: int)
    requires
        0 <= i,
    ensures
        i <= word_end(s, i) <= s.len() || (i > s.len() && word_end(s, i) == s.len()),
        forall|k: int| i <= k < word_end(s, i) ==> !is_whitespace(#[trigger] s[k]),
        word_end(s, i) < s.len() ==> is_whitespace(s[word_end(s, i)]),
        i < s.len() && !is_whitespace(s[i]) ==> word_end(s, i) > i,
    decreases s.len() - i,
{
    if i < s.len() && !is_whitespace(s[i]) {
        lemma_word_end(s, i + 1);
    }
}

/// Every element of `words_from(s, i)` is a word.
pub proof fn lemma_words_from_are_words(s: Seq<char>, i: int)
    requires
        0 <= i,
    ensures
        forall|k: int| 0 <= k < words_from(s, i).len() ==> is_word(#[trigger] words_from(s, i)[k]),
    decreases s.len() - i,
{
    let start = skip_spaces(s, i);
    lemma_skip_spaces(s, i);
    if start < s.len() {
        let end = word_end(s, start);
        lemma_word_end(s, start);
        lemma_words_from_are_words(s, end);
        let first = s.subrange(start, end);
        assert forall|k: int| 0 <= k < words_from(s, i).len() implies is_word(
            #[trigger] words_from(s, i)[k],
        ) by {
            if k > 0 {
                assert(words_from(s, i)[k] == words_from(s, end)[k - 1]);
            }
        }
    }
}

/// Every element of `words(s)` is a word.
pub proof fn lemma_words_are_words(s: Seq<char>)
    ensures
        forall|k: int| 0 <= k < words(s).len() ==> is_word(#[trigger] words(s)[k]),
{
    lemma_words_from_are_words(s, 0);
}

/// A run of characters without whitespace that ends at whitespace or at the
/// end of the text is where `word_end` stops.
pub proof fn lemma_word_end_of_run(s: Seq<char>, i: int, j: int)
    requires
        0 <= i <= j <= s.len(),
        forall|k: int| i <= k < j ==> !is_whitespace(#[trigger] s[k]),
        j == s.len() || is_whitespace(s[j]),
    ensures
        word_end(s, i) == j,
    decreases j - i,
{
    if i < j {
        lemma_word_end_of_run(s, i + 1, j);
    }
}

/// Three words with a space between them.
pub open spec fn joined(a: Seq<char>, b: Seq<char>, c: Seq<char>) -> Seq<char> {
    a + seq![' '] + b + seq![' '] + c
}

/// Three words that were joined with spaces come apart again as they were.
pub proof fn lemma_words_of_joined(a: Seq<char>, b: Seq<char>, c: Seq<char>)
    requires
        is_word(a),
        is_word(b),
        is_word(c),
    ensures
        words(joined(a, b, c)) == seq![a, b, c],
{
    let s = joined(a, b, c);
    let a_end = a.len() as int;
    let b_start = a_end + 1;
    let b_end = b_start + b.len();
    let c_start = b_end + 1;
    let c_end = c_start + c.len();
    lemma_word_end_of_run(s, 0, a_end);
    lemma_word_end_of_run(s, b_start, b_end);
    lemma_word_end_of_run(s, c_start, c_end);
    assert(skip_spaces(s, b_start) == b_start);
    assert(skip_spaces(s, c_start) == c_start);
    assert(s.subrange(0, a_end) =~= a);
    assert(s.subrange(b_start, b_end) =~= b);
    assert(s.subrange(c_start, c_end) =~= c);
    assert(words_from(s, c_end) =~= Seq::<Seq<char>>::empty());
    assert(words_from(s, b_end) =~= seq![c]);
    assert(words_from(s, a_end) =~= seq![b, c]);
}

/// The words of `s`, each as a string of its own.
pub fn split_words(s: &Vec<char>) -> (out: Vec<String>)
    ensures
        out@.len() == words(s@).len(),
        forall|k: int| 0 <= k < out@.len() ==> (#[trigger] out@[k])@ == words(s@)[k],
{
    let mut out: Vec<String> = Vec::new();
    let ghost mut found: Seq<Seq<char>> = Seq::empty();
    let mut i: usize = 0;
    loop
        invariant
            i <= s.len(),
            out@.len() == found.len(),
            forall|k: int| 0 <= k < out@.len() ==> (#[trigger] out@[k])@ == found[k],
            words(s@) == found + words_from(s@, i as int),
        ensures
            out@.len() == found.len(),
            forall|k: int| 0 <= k < out@.len() ==> (#[trigger] out@[k])@ == found[k],
            words(s@) == found,
        decreases s.len() - i,
    {
        let start = skip_spaces_at(s, i);
        if start >= s.len() {
            break;
        }
        let end = word_end_at(s, start);
        proof {
            let word = s@.subrange(start as int, end as int);
            found = found.push(word);
        }
        out.push(string_of(s, start, end));
        i = end;
    }
    out
}

/// The first index at or after `i` that holds no whitespace.
pub fn skip_spaces_at(s: &Vec<char>, i: usize) -> (j: usize)
    requires
        i <= s.len(),
    ensures
        j == skip_spaces(s@, i as int),
        i <= j <= s.len(),
{
    let mut j: usize = i;
    while j < s.len() && whitespace(s[j])
        invariant
            i <= j <= s.len(),
            skip_spaces(s@, i as int) == skip_spaces(s@, j as int),
        decreases s.len() - j,
    {
        j += 1;
    }
    j
}

/// The first index at or after `i` that holds whitespace.
pub fn word_end_at(s: &Vec<char>, i: usize) -> (j: usize)
    requires
        i <= s.len(),
    ensures
        j == word_end(s@, i as int),
        i <= j <= s.len(),
{
    let mut j: usize = i;
    while j < s.len() && !whitespace(s[j])
        invariant
            i <= j <= s.len(),
            word_end(s@, i as int) == word_end(s@, j as int),
        decreases s.len() - j,
    {
        j += 1;
    }
    j
}

/// The index just after the last character at or before `j - 1` that is no
/// whitespace; zero if there is none.
pub open spec fn trim_end(s: Seq<char>, j: int) -> int
    decreases j,
{
    if 0 < j <= s.len() && is_whitespace(s[j - 1]) {
        trim_end(s, j - 1)
    } else if 0 < j <= s.len() {
        j
    } else {
        0
    }
}

/// `s` without the whitespace at its two ends.
pub open spec fn trimmed(s: Seq<char>) -> Seq<char> {
    let from = skip_spaces(s, 0);
    let to = trim_end(s, s.len() as int);
    if from < to {
        s.subrange(from, to)
    } else {
        Seq::empty()
    }
}

/// The bounds of `s` without the whitespace at its two ends: `s[from..to]`
/// is `trimmed(s)`.
pub fn trim_bounds(s: &Vec<char>) -> (bounds: (usize, usize))
    ensures
        bounds.0 <= bounds.1 <= s.len(),
        s@.subrange(bounds.0 as int, bounds.1 as int) == trimmed(s@),
{
    let from = skip_spaces_at(s, 0);
    let mut to: usize = s.len();
    while to > 0 && whitespace(s[to - 1])
        invariant
            to <= s.len(),
            trim_end(s@, s.len() as int) == trim_end(s@, to as int),
        decreases to,
    {
        to -= 1;
    }
    if from < to {
        (from, to)
    } else {
        (from, from)
    }
}

/// `s` without the whitespace at its two ends, as a vector of its own.
pub fn trim(s: &Vec<char>) -> (out: Vec<char>)
    ensures
        out@ == trimmed(s@),
{
    let (from, to) = trim_bounds(s);
    let mut out: Vec<char> = Vec::new();
    let mut i: usize = from;
    while i < to
        invariant
            from <= i <= to <= s.len(),
            out@ == s@.subrange(from as int, i as int),
        decreases to - i,
    {
        out.push(s[i]);
        i += 1;
    }
    out
}


/// Whether `sep` stands in `s` at index `i`.
pub open spec fn stands_at(s: Seq<char>, sep: Seq<char>, i: int) -> bool {
    0 <= i && i + sep.len() <= s.len() && s.subrange(i, i + sep.len()) == sep
}

/// The first index at or after `from` at which `sep` stands in `s`;
/// `s.len()` if there is none.
pub open spec fn next_match(s: Seq<char>, sep: Seq<char>, from: int) -> int
    decreases s.len() - from,
{
    if from < 0 || from >= s.len() {
        s.len() as int
    } else if stands_at(s, sep, from) {
        from
    } else {
        next_match(s, sep, from + 1)
    }
}

/// The pieces of `s[start..]` between the places where `sep` stands, taken
/// from left to right without overlap.
pub open spec fn pieces_from(s: Seq<char>, sep: Seq<char>, start: int) -> Seq<Seq<char>>
    recommends
        sep.len() > 0,
        0 <= start <= s.len(),
    decreases s.len() - start,
    when sep.len() > 0 && 0 <= start <= s.len()
    via pieces_from_decreases
{
    let at = next_match(s, sep, start);
    if at < s.len() {
        seq![s.subrange(start, at)] + pieces_from(s, sep, at + sep.len())
    } else {
        seq![s.subrange(start, s.len() as int)]
    }
}

#[via_fn]
proof fn pieces_from_decreases(s: Seq<char>, sep: Seq<char>, start: int) {
    lemma_next_match(s, sep, start);
}

/// The pieces of `s` between the places where `sep` stands.
pub open spec fn pieces(s: Seq<char>, sep: Seq<char>) -> Seq<Seq<char>>
    recommends
        sep.len() > 0,
{
    pieces_from(s, sep, 0)
}

/// `next_match` finds a place where `sep` stands, or none.
pub proof fn lemma_next_match(s: Seq<char>, sep: Seq<char>, from: int)
    requires
        0 <= from <= s.len(),
    ensures
        from <= next_match(s, sep, from) <= s.len(),
        next_match(s, sep, from) < s.len() ==> stands_at(s, sep, next_match(s, sep, from)),
        sep.len() > 0 ==> next_match(s, sep, from) + sep.len() <= s.len() || next_match(
            s,
            sep,
            from,
        ) == s.len(),
        forall|k: int| from <= k < next_match(s, sep, from) ==> !stands_at(s, sep, k),
    decreases s.len() - from,
{
    if from < s.len() && !stands_at(s, sep, from) {
        lemma_next_match(s, sep, from + 1);
    }
}

/// Where less is left of `s` than `sep` is long, `sep` stands nowhere.
pub proof fn lemma_no_match(s: Seq<char>, sep: Seq<char>, from: int)
    requires
        0 <= from <= s.len(),
        from + sep.len() > s.len(),
    ensures
        next_match(s, sep, from) == s.len(),
    decreases s.len() - from,
{
    if from < s.len() {
        lemma_no_match(s, sep, from + 1);
    }
}

/// Whether `sep` stands in `s` at index `i`.
pub fn stands(s: &Vec<char>, sep: &Vec<char>, i: usize) -> (b: bool)
    requires
        i <= s.len(),
    ensures
        b == stands_at(s@, sep@, i as int),
{
    if sep.len() > s.len() - i {
        return false;
    }
    let mut k: usize = 0;
    while k < sep.len()
        invariant
            k <= sep.len(),
            i + sep.len() <= s.len(),
            forall|j: int| 0 <= j < k ==> s@[i + j] == sep@[j],
        decreases sep.len() - k,
    {
        if s[i + k] != sep[k] {
            return false;
        }
        k += 1;
    }
    assert(s@.subrange(i as int, i + sep.len()) =~= sep@);
    true
}

/// The pieces of `s` between the places where `sep` stands, each as a string
/// of its own.
pub fn split_on(s: &Vec<char>, sep: &Vec<char>) -> (out: Vec<String>)
    requires
        sep.len() > 0,
    ensures
        out@.len() == pieces(s@, sep@).len(),
        forall|k: int| 0 <= k < out@.len() ==> (#[trigger] out@[k])@ == pieces(s@, sep@)[k],
{
    let mut out: Vec<String> = Vec::new();
    let ghost mut found: Seq<Seq<char>> = Seq::empty();
    let mut start: usize = 0;
    let mut at: usize = 0;
    loop
        invariant_except_break
            start <= at <= s.len(),
            sep.len() > 0,
            out@.len() == found.len(),
            forall|k: int| 0 <= k < out@.len() ==> (#[trigger] out@[k])@ == found[k],
            pieces(s@, sep@) == found + pieces_from(s@, sep@, start as int),
            next_match(s@, sep@, start as int) == next_match(s@, sep@, at as int),
        ensures
            out@.len() == found.len(),
            forall|k: int| 0 <= k < out@.len() ==> (#[trigger] out@[k])@ == found[k],
            pieces(s@, sep@) == found,
        decreases s.len() - at,
    {
        if sep.len() > s.len() - at {
            proof {
                lemma_no_match(s@, sep@, at as int);
                let last = s@.subrange(start as int, s@.len() as int);
                found = found.push(last);
            }
            out.push(string_of(s, start, s.len()));
            break ;
        }
        if stands(s, sep, at) {
            proof {
                let piece = s@.subrange(start as int, at as int);
                found = found.push(piece);
            }
            out.push(string_of(s, start, at));
            at = at + sep.len();
            start = at;
        } else {
            at += 1;
        }
    }
    out
}

} // verus!
