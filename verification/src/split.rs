//! Splitting texts into lines, words and path segments.

use vstd::prelude::*;

use crate::text;
use crate::text::{chars_of, find_chars, slice_text, CharSet};

verus! {

// ---------------------------------------------------------------------------
// Lines
// ---------------------------------------------------------------------------

/// The text that ends a line.
pub open spec fn line_feed() -> Seq<char> {
    seq!['\n']
}

/// `s` without one carriage return at its end.
pub open spec fn strip_cr(s: Seq<char>) -> Seq<char> {
    if s.len() > 0 && s.last() == '\r' {
        s.drop_last()
    } else {
        s
    }
}

/// The lines of `s`: each ends at a line feed or at the end of `s`; the line
/// feed, and a carriage return right before it, belong to no line; there is no
/// empty line after a last line feed.
pub open spec fn lines(s: Seq<char>) -> Seq<Seq<char>>
    decreases s.len(),
{
    if s.len() == 0 {
        Seq::empty()
    } else {
        match text::find(s, line_feed()) {
            Some(i) => {
                proof {
                    text::lemma_find_from(s, line_feed(), 0);
                }
                seq![strip_cr(s.take(i))] + lines(s.skip(i + 1))
            },
            None => seq![s],
        }
    }
}

/// The lines of `s`.
pub fn lines_of(s: &str) -> (r: Vec<String>)
    ensures
        text::views(r@) == lines(s@),
{
    let cs = chars_of(s);
    let mut feed: Vec<char> = Vec::new();
    feed.push('\n');
    let mut r: Vec<String> = Vec::new();
    let mut i: usize = 0;
    assert(s@.skip(0) == s@);
    assert(text::views(r@) + lines(s@) == lines(s@));
    while i < cs.len()
        invariant
            i <= cs.len(),
            cs@ == s@,
            feed@ == line_feed(),
            text::views(r@) + lines(s@.skip(i as int)) == lines(s@),
        decreases cs.len() - i,
    {
        let ghost rest = s@.skip(i as int);
        let ghost before = r@;
        proof {
            lemma_find_skip(s@, line_feed(), i as int);
            text::lemma_find_from(rest, line_feed(), 0);
        }
        match find_chars(&cs, &feed, i) {
            Some(j) => {
                let k: usize = if j > i && cs[j - 1] == '\r' {
                    j - 1
                } else {
                    j
                };
                let line = slice_text(&cs, i, k);
                assert(rest.take(j - i) == s@.subrange(i as int, j as int));
                assert(line@ == strip_cr(rest.take(j - i)));
                assert(rest.skip(j - i + 1) == s@.skip(j + 1));
                r.push(line);
                assert(text::views(r@) == text::views(before).push(line@));
                assert(text::views(before) + (seq![line@] + lines(s@.skip(j + 1))) == text::views(r@) + lines(
                    s@.skip(j + 1),
                ));
                i = j + 1;
            },
            None => {
                let line = slice_text(&cs, i, cs.len());
                assert(line@ == rest);
                r.push(line);
                assert(text::views(r@) == text::views(before).push(line@));
                assert(text::views(before) + seq![line@] == text::views(r@));
                return r;
            },
        }
    }
    assert(s@.skip(i as int).len() == 0);
    assert(text::views(r@) + lines(s@.skip(i as int)) == text::views(r@));
    r
}

/// Searching from index `k` is searching what follows, shifted by `k`.
pub proof fn lemma_find_skip(s: Seq<char>, p: Seq<char>, k: int)
    requires
        0 <= k <= s.len(),
    ensures
        text::find_from(s, p, k) == (match text::find(s.skip(k), p) {
            Some(i) => Some(i + k),
            None => None,
        }),
{
    lemma_find_skip_from(s, p, k, 0);
}

proof fn lemma_find_skip_from(s: Seq<char>, p: Seq<char>, k: int, from: int)
    requires
        0 <= k <= s.len(),
        0 <= from,
    ensures
        text::find_from(s, p, k + from) == (match text::find_from(
            s.skip(k),
            p,
            from,
        ) {
            Some(i) => Some(i + k),
            None => None,
        }),
    decreases s.len() + 1 - from,
{
    let t = s.skip(k);
    if from + p.len() <= t.len() {
        assert(t.subrange(from, from + p.len()) == s.subrange(k + from, k + from + p.len()));
        if !text::occurs_at(t, p, from) {
            lemma_find_skip_from(s, p, k, from + 1);
        }
    }
}

// ---------------------------------------------------------------------------
// Words
// ---------------------------------------------------------------------------

/// How many characters of `s` come before its first white space.
pub open spec fn word_len(s: Seq<char>) -> nat
    decreases s.len(),
{
    if s.len() > 0 && !CharSet::White.has(s[0]) {
        1 + word_len(s.skip(1))
    } else {
        0
    }
}

/// The words of `s`: the longest pieces of `s` without white space.
pub open spec fn words(s: Seq<char>) -> Seq<Seq<char>>
    decreases s.len(),
{
    let t = text::trim_start(s, CharSet::White);
    if t.len() == 0 {
        Seq::empty()
    } else {
        proof {
            lemma_trim_start(s, CharSet::White);
            lemma_word_len(t);
        }
        seq![t.take(word_len(t) as int)] + words(t.skip(word_len(t) as int))
    }
}

/// Trimming the start removes a prefix, and what is left starts otherwise.
pub proof fn lemma_trim_start(s: Seq<char>, set: CharSet)
    ensures
        text::trim_start(s, set).len() <= s.len(),
        text::trim_start(s, set).len() > 0 ==> !set.has(text::trim_start(s, set)[0]),
    decreases s.len(),
{
    if s.len() > 0 && set.has(s[0]) {
        lemma_trim_start(s.skip(1), set);
    }
}

/// A word is no longer than the text.
pub proof fn lemma_word_len(s: Seq<char>)
    ensures
        word_len(s) <= s.len(),
        s.len() > 0 && !CharSet::White.has(s[0]) ==> word_len(s) > 0,
    decreases s.len(),
{
    if s.len() > 0 && !CharSet::White.has(s[0]) {
        lemma_word_len(s.skip(1));
    }
}

/// The words of `s`.
pub fn words_of(s: &str) -> (r: Vec<String>)
    ensures
        text::views(r@) == words(s@),
{
    let cs = chars_of(s);
    let mut r: Vec<String> = Vec::new();
    let mut i: usize = 0;
    assert(s@.skip(0) == s@);
    assert(text::views(r@) + words(s@) == words(s@));
    while i < cs.len()
        invariant
            i <= cs.len(),
            cs@ == s@,
            text::views(r@) + words(s@.skip(i as int)) == words(s@),
        decreases cs.len() - i,
    {
        let ghost rest = s@.skip(i as int);
        let ghost before = r@;
        let mut a: usize = i;
        while a < cs.len() && CharSet::White.test(cs[a])
            invariant
                i <= a <= cs.len(),
                cs@ == s@,
                text::trim_start(s@.skip(a as int), CharSet::White) == text::trim_start(
                    s@.skip(i as int),
                    CharSet::White,
                ),
            decreases cs.len() - a,
        {
            assert(s@.skip(a as int).skip(1) == s@.skip(a + 1));
            a = a + 1;
        }
        let ghost t = s@.skip(a as int);
        assert(text::trim_start(rest, CharSet::White) == t);
        let mut b: usize = a;
        while b < cs.len() && !CharSet::White.test(cs[b])
            invariant
                a <= b <= cs.len(),
                cs@ == s@,
                word_len(s@.skip(a as int)) == (b - a) + word_len(s@.skip(b as int)),
            decreases cs.len() - b,
        {
            assert(s@.skip(b as int).skip(1) == s@.skip(b + 1));
            b = b + 1;
        }
        assert(word_len(t) == b - a);
        if a == b {
            proof {
                lemma_word_len(t);
            }
            assert(t.len() == 0);
            assert(text::views(r@) + words(rest) == text::views(r@));
            return r;
        }
        let word = slice_text(&cs, a, b);
        assert(t.take(b - a) == word@);
        assert(t.skip(b - a) == s@.skip(b as int));
        r.push(word);
        assert(text::views(r@) == text::views(before).push(word@));
        assert(text::views(before) + (seq![word@] + words(s@.skip(b as int))) == text::views(r@) + words(
            s@.skip(b as int),
        ));
        i = b;
    }
    assert(s@.skip(i as int).len() == 0);
    assert(text::views(r@) + words(s@.skip(i as int)) == text::views(r@));
    r
}

// ---------------------------------------------------------------------------
// The last separator
// ---------------------------------------------------------------------------

/// The index of the last character of `s` that is in `set`.
pub open spec fn last_in(s: Seq<char>, set: CharSet) -> Option<int>
    decreases s.len(),
{
    if s.len() == 0 {
        None
    } else if set.has(s.last()) {
        Some(s.len() - 1)
    } else {
        last_in(s.drop_last(), set)
    }
}

/// `last_in` gives the greatest such index.
pub proof fn lemma_last_in(s: Seq<char>, set: CharSet)
    ensures
        match last_in(s, set) {
            Some(i) => 0 <= i < s.len() && set.has(s[i]) && forall|j: int|
                i < j < s.len() ==> !set.has(s[j]),
            None => forall|j: int| 0 <= j < s.len() ==> !set.has(s[j]),
        },
    decreases s.len(),
{
    if s.len() > 0 && !set.has(s.last()) {
        lemma_last_in(s.drop_last(), set);
        let t = s.drop_last();
        assert forall|j: int| 0 <= j < s.len() && j < t.len() implies s[j] == t[j] by {}
    }
}

/// The index in characters of the last character of `s` that is in `set`.
pub fn last_in_text(s: &str, set: CharSet) -> (r: Option<usize>)
    ensures
        match r {
            Some(i) => last_in(s@, set) == Some(i as int) && i < s@.len(),
            None => last_in(s@, set) is None,
        },
{
    let cs = chars_of(s);
    let mut n: usize = cs.len();
    assert(s@.take(n as int) == s@);
    while n > 0
        invariant
            n <= cs@.len(),
            cs@ == s@,
            last_in(s@.take(n as int), set) == last_in(s@, set),
        decreases n,
    {
        assert(s@.take(n as int).drop_last() == s@.take(n - 1));
        if set.test(cs[n - 1]) {
            return Some(n - 1);
        }
        n = n - 1;
    }
    None
}

} // verus!
