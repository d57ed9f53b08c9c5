//! What holds of trimmed, split and replaced texts, and of numbers in texts.

use vstd::prelude::*;

use crate::number;
use crate::split;
use crate::text;
use crate::text::CharSet;

verus! {

/// Lower case changes the 26 capital letters of ASCII, each to the letter that
/// stands 32 places after it, and nothing else.
pub proof fn law_lower(s: Seq<char>)
    ensures
        text::lower(s).len() == s.len(),
        forall|i: int|
            0 <= i < s.len() ==> if 65 <= s[i] as int <= 90 {
                (#[trigger] text::lower(s)[i]) as int == s[i] as int + 32
            } else {
                text::lower(s)[i] == s[i]
            },
        text::lower(text::lower(s)) == text::lower(s),
{
    let l = text::lower(s);
    assert(text::lower(l) == l);
}

/// What is white space: tab, line feed, vertical tab, form feed, carriage return and
/// space in ASCII, and the other spaces and line separators of Unicode.
pub proof fn law_white(c: char)
    ensures
        (c as int) < 128 ==> (CharSet::White.has(c) <==> c == ' ' || c == '\t' || c == '\n' || c
            == '\r' || c as int == 11 || c as int == 12),
        (c as int) >= 128 ==> (CharSet::White.has(c) <==> {
            ||| c as int == 0x85
            ||| c as int == 0xa0
            ||| c as int == 0x1680
            ||| 0x2000 <= c as int <= 0x200a
            ||| 0x2028 <= c as int <= 0x2029
            ||| c as int == 0x202f
            ||| c as int == 0x205f
            ||| c as int == 0x3000
        }),
{
}

/// A slash is one kind of separator, and a backslash belongs to both kinds taken
/// together only; a quote is the double one.
pub proof fn law_separators(c: char)
    ensures
        CharSet::Slash.has(c) <==> c as int == 47,
        CharSet::AnySlash.has(c) <==> c as int == 47 || c as int == 92,
        CharSet::Quote.has(c) <==> c as int == 34,
{
}

/// Every character of the text is in the set.
pub open spec fn all_in(s: Seq<char>, set: CharSet) -> bool {
    forall|i: int| 0 <= i < s.len() ==> set.has(#[trigger] s[i])
}

/// No character of the text is in the set.
pub open spec fn none_in(s: Seq<char>, set: CharSet) -> bool {
    forall|i: int| 0 <= i < s.len() ==> !set.has(#[trigger] s[i])
}

/// What is taken away at the end is in the set, and what is left does not end with
/// a character of it.
pub proof fn law_trim_end(s: Seq<char>, set: CharSet)
    ensures
        text::trim_end(s, set).len() <= s.len(),
        text::trim_end(s, set) == s.take(text::trim_end(s, set).len() as int),
        all_in(s.skip(text::trim_end(s, set).len() as int), set),
        text::trim_end(s, set).len() > 0 ==> !set.has(text::trim_end(s, set).last()),
    decreases s.len(),
{
    if s.len() > 0 && set.has(s.last()) {
        let t = s.drop_last();
        law_trim_end(t, set);
        let n = text::trim_end(s, set).len() as int;
        assert forall|i: int| 0 <= i < s.skip(n).len() implies set.has(#[trigger] s.skip(n)[i]) by {
            if i < t.skip(n).len() {
                assert(t.skip(n)[i] == s.skip(n)[i]);
            }
        }
        assert(t.take(n) == s.take(n));
    } else {
        assert(s.take(s.len() as int) == s);
    }
}

/// What is taken away at the start is in the set, and what is left does not start
/// with a character of it.
pub proof fn law_trim_start(s: Seq<char>, set: CharSet)
    ensures
        text::trim_start(s, set).len() <= s.len(),
        text::trim_start(s, set) == s.skip(s.len() - text::trim_start(s, set).len()),
        all_in(s.take(s.len() - text::trim_start(s, set).len()), set),
        text::trim_start(s, set).len() > 0 ==> !set.has(text::trim_start(s, set)[0]),
    decreases s.len(),
{
    if s.len() > 0 && set.has(s[0]) {
        let t = s.skip(1);
        law_trim_start(t, set);
        let n = s.len() - text::trim_start(s, set).len();
        assert forall|i: int| 0 <= i < s.take(n).len() implies set.has(#[trigger] s.take(n)[i]) by {
            if i > 0 {
                assert(t.take(n - 1)[i - 1] == s.take(n)[i]);
            }
        }
        assert(t.skip(n - 1) == s.skip(n));
    } else {
        assert(s.skip(0) == s);
    }
}

proof fn lemma_trim_start_is(before: Seq<char>, kept: Seq<char>, set: CharSet)
    requires
        all_in(before, set),
        kept.len() > 0 ==> !set.has(kept[0]),
    ensures
        text::trim_start(before + kept, set) == kept,
    decreases before.len(),
{
    if before.len() > 0 {
        let s = before + kept;
        assert(s[0] == before[0]);
        assert(s.skip(1) == before.skip(1) + kept);
        assert forall|i: int| 0 <= i < before.skip(1).len() implies set.has(
            #[trigger] before.skip(1)[i],
        ) by {
            assert(before.skip(1)[i] == before[i + 1]);
        }
        lemma_trim_start_is(before.skip(1), kept, set);
    } else {
        assert(before + kept == kept);
    }
}

proof fn lemma_trim_end_is(kept: Seq<char>, after: Seq<char>, set: CharSet)
    requires
        all_in(after, set),
        kept.len() > 0 ==> !set.has(kept.last()),
    ensures
        text::trim_end(kept + after, set) == kept,
    decreases after.len(),
{
    if after.len() > 0 {
        let s = kept + after;
        assert(s.last() == after.last());
        assert(s.drop_last() == kept + after.drop_last());
        lemma_trim_end_is(kept, after.drop_last(), set);
    } else {
        assert(kept + after == kept);
    }
}

/// A text that neither starts nor ends with a character of the set is what is left
/// when it is trimmed of any such characters around it.
pub proof fn law_trim(before: Seq<char>, kept: Seq<char>, after: Seq<char>, set: CharSet)
    requires
        all_in(before, set),
        all_in(after, set),
        kept.len() > 0 ==> !set.has(kept[0]) && !set.has(kept.last()),
    ensures
        text::trim(before + kept + after, set) == kept,
        text::trim_end(kept + after, set) == kept,
{
    if kept.len() == 0 {
        let all = before + kept + after;
        assert(all_in(all, set));
        assert(all == all + kept);
        lemma_trim_start_is(all, kept, set);
    } else {
        assert(before + kept + after == before + (kept + after));
        lemma_trim_start_is(before, kept + after, set);
    }
    lemma_trim_end_is(kept, after, set);
}

/// The text does not end with `p` any more; what is gone are copies of it.
pub proof fn law_trim_end_text(s: Seq<char>, p: Seq<char>)
    requires
        p.len() > 0,
    ensures
        !text::ends_with(text::trim_end_text(s, p), p),
        text::trim_end_text(s + p, p) == text::trim_end_text(s, p),
        !text::ends_with(s, p) ==> text::trim_end_text(s, p) == s,
    decreases s.len(),
{
    let whole = s + p;
    assert(whole.subrange(whole.len() - p.len(), whole.len() as int) == p);
    assert(whole.take(whole.len() - p.len()) == s);
    if text::ends_with(s, p) {
        law_trim_end_text(s.take(s.len() - p.len()), p);
    }
}

// ---------------------------------------------------------------------------
// Replacing
// ---------------------------------------------------------------------------

proof fn lemma_replace_before(s: Seq<char>, p: Seq<char>, q: Seq<char>, i: int)
    requires
        p.len() > 0,
        0 <= i <= s.len(),
        forall|j: int| 0 <= j < i ==> !text::occurs_at(s, p, j),
    ensures
        text::replace(s, p, q) == s.take(i) + text::replace(s.skip(i), p, q),
    decreases i,
{
    if i == 0 {
        assert(s.skip(0) == s);
        assert(s.take(0) + text::replace(s, p, q) == text::replace(s, p, q));
    } else {
        let t = s.skip(1);
        assert forall|j: int| 0 <= j < i - 1 implies !text::occurs_at(t, p, j) by {
            if text::occurs_at(t, p, j) {
                assert(t.subrange(j, j + p.len()) == s.subrange(j + 1, j + 1 + p.len()));
                assert(text::occurs_at(s, p, j + 1));
            }
        }
        lemma_replace_before(t, p, q, i - 1);
        assert(!text::occurs_at(s, p, 0));
        assert(t.skip(i - 1) == s.skip(i));
        assert(seq![s[0]] + (t.take(i - 1) + text::replace(s.skip(i), p, q)) == s.take(i)
            + text::replace(s.skip(i), p, q));
    }
}

/// The first place of a text is replaced, and then the places behind it; what stands
/// before it stays. A text without a place stays as it is.
pub proof fn law_replace(s: Seq<char>, p: Seq<char>, q: Seq<char>)
    requires
        p.len() > 0,
    ensures
        match text::find(s, p) {
            Some(i) => text::replace(s, p, q) == s.take(i) + q + text::replace(
                s.skip(i + p.len()),
                p,
                q,
            ),
            None => text::replace(s, p, q) == s,
        },
{
    text::lemma_find_from(s, p, 0);
    match text::find(s, p) {
        Some(i) => {
            lemma_replace_before(s, p, q, i);
            let t = s.skip(i);
            assert(t.subrange(0, p.len() as int) == s.subrange(i, i + p.len()));
            assert(text::starts_with(t, p));
            assert(t.skip(p.len() as int) == s.skip(i + p.len()));
            assert(s.take(i) + (q + text::replace(s.skip(i + p.len()), p, q)) == s.take(i) + q
                + text::replace(s.skip(i + p.len()), p, q));
        },
        None => {
            lemma_replace_before(s, p, q, s.len() as int);
            assert(s.skip(s.len() as int) == Seq::<char>::empty());
            assert(s.take(s.len() as int) + Seq::<char>::empty() == s);
        },
    }
}

/// Every place of one character is turned into the other, and the other characters
/// stay.
pub proof fn law_swap_char(s: Seq<char>, a: char, b: char)
    ensures
        text::swap_char(s, a, b).len() == s.len(),
        forall|i: int|
            0 <= i < s.len() ==> #[trigger] text::swap_char(s, a, b)[i] == (if s[i] == a {
                b
            } else {
                s[i]
            }),
{
}

// ---------------------------------------------------------------------------
// Lines and words
// ---------------------------------------------------------------------------

/// A line ends at a line feed, and a carriage return before the line feed does not
/// belong to it; what follows is read in the same way.
pub proof fn law_lines(line: Seq<char>, rest: Seq<char>)
    requires
        !line.contains('\n'),
    ensures
        line.len() == 0 || line.last() != '\r' ==> split::lines(line.push('\n') + rest) == seq![line]
            + split::lines(rest),
        split::lines(line.push('\r').push('\n') + rest) == seq![line] + split::lines(rest),
        line.len() > 0 ==> split::lines(line) == seq![line],
        split::lines(Seq::empty()).len() == 0,
{
    lemma_one_line(line, rest);
    lemma_one_line(line.push('\r'), rest);
    assert(line.push('\r').drop_last() == line);
    let feed = split::line_feed();
    text::lemma_find_from(line, feed, 0);
    match text::find(line, feed) {
        Some(i) => {
            assert(line.subrange(i, i + 1)[0] == feed[0]);
            assert(line[i] == '\n');
            assert(false);
        },
        None => {},
    }
}

proof fn lemma_one_line(line: Seq<char>, rest: Seq<char>)
    requires
        !line.contains('\n'),
    ensures
        split::lines(line.push('\n') + rest) == seq![split::strip_cr(line)] + split::lines(rest),
{
    let s = line.push('\n') + rest;
    let feed = split::line_feed();
    text::lemma_find_from(s, feed, 0);
    assert(s.subrange(line.len() as int, (line.len() + 1) as int) == feed);
    assert(text::occurs_at(s, feed, line.len() as int));
    let i = text::find(s, feed)->0;
    if i < line.len() {
        assert(s.subrange(i, i + 1)[0] == feed[0]);
        assert(line[i] == '\n');
    }
    assert(s.take(i) == line);
    assert(s.skip(i + 1) == rest);
}

proof fn lemma_word_of(word: Seq<char>, rest: Seq<char>)
    requires
        none_in(word, CharSet::White),
        rest.len() > 0 ==> CharSet::White.has(rest[0]),
    ensures
        split::word_len(word + rest) == word.len(),
    decreases word.len(),
{
    let s = word + rest;
    if word.len() > 0 {
        assert(s[0] == word[0]);
        assert(s.skip(1) == word.skip(1) + rest);
        assert forall|i: int| 0 <= i < word.skip(1).len() implies !CharSet::White.has(
            #[trigger] word.skip(1)[i],
        ) by {
            assert(word.skip(1)[i] == word[i + 1]);
        }
        lemma_word_of(word.skip(1), rest);
    } else {
        assert(s == rest);
    }
}

/// The words of a text are its pieces without white space, in order: a piece with
/// white space before it and behind it is the first word, and the others follow.
pub proof fn law_words(space: Seq<char>, word: Seq<char>, rest: Seq<char>)
    requires
        all_in(space, CharSet::White),
        word.len() > 0,
        none_in(word, CharSet::White),
        rest.len() > 0 ==> CharSet::White.has(rest[0]),
    ensures
        split::words(space + word + rest) == seq![word] + split::words(rest),
        split::words(space).len() == 0,
{
    let s = space + word + rest;
    assert(s == space + (word + rest));
    assert((word + rest)[0] == word[0]);
    lemma_trim_start_is(space, word + rest, CharSet::White);
    lemma_word_of(word, rest);
    assert((word + rest).take(word.len() as int) == word);
    assert((word + rest).skip(word.len() as int) == rest);
    lemma_trim_start_is(space, Seq::empty(), CharSet::White);
    assert(space + Seq::<char>::empty() == space);
}

// ---------------------------------------------------------------------------
// Numbers
// ---------------------------------------------------------------------------

/// A number is read back from its decimal text, with or without a plus sign.
pub proof fn law_number_reads_back(n: u32)
    ensures
        number::parse_u32(number::decimal(n as nat)) == Some(n),
        number::parse_u32(seq!['+'] + number::decimal(n as nat)) == Some(n),
{
    let d = number::decimal(n as nat);
    number::lemma_decimal_reads_back(n as nat);
    assert(number::is_digit(d[0]));
    assert((seq!['+'] + d).skip(1) == d);
}

/// What is read as a number is digits alone, but for a plus sign; and a number that
/// is too large is not read.
pub proof fn law_only_digits_are_read(s: Seq<char>, i: int)
    requires
        number::parse_u32(s) is Some,
        0 <= i < s.len(),
    ensures
        '0' <= s[i] <= '9' || (i == 0 && s[i] == '+' && s.len() > 1),
{
    if s[0] == '+' {
        if i > 0 {
            assert(s.skip(1)[i - 1] == s[i]);
        }
    }
}

/// A decimal text has no leading zero, and the text of ten times a number and a digit
/// is the text of the number with the digit behind it.
pub proof fn law_decimal(n: nat, digit: nat)
    requires
        digit < 10,
    ensures
        n > 0 ==> number::decimal(10 * n + digit) == number::decimal(n).push(
            ('0' as u32 + digit) as char,
        ),
        number::decimal(digit) == seq![('0' as u32 + digit) as char],
        n > 0 ==> number::decimal(n)[0] != '0',
        number::signed_decimal(-(n as int)) == (if n > 0 {
            seq!['-'] + number::decimal(n)
        } else {
            number::decimal(0)
        }),
    decreases n,
{
    if n > 0 {
        assert((10 * n + digit) / 10 == n);
        assert((10 * n + digit) % 10 == digit);
    }
    if n >= 10 {
        law_decimal(n / 10, digit);
        number::lemma_decimal_reads_back(n / 10);
        assert(number::decimal(n)[0] == number::decimal(n / 10)[0]);
    }
}

} // verus!
