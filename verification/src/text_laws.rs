//! What reading and cutting text gives, in terms of the characters.

use vstd::prelude::*;

use crate::startup_probe::{after_first_word, first_word, leading_word};
use crate::text::{
    decimal_value, differs_at, digit_value, drop_space, ends_with, is_digit, is_unsigned,
    is_white_space, padded_text, padded_text_denotes, parse_unsigned, skip_space, starts_with,
    text_lt, trim, trim_end, until,
};

verus! {

/// Digits count up from `0`.
pub proof fn digits_count_up(c: char)
    requires
        '0' <= c && c <= '9',
    ensures
        is_digit(c),
        digit_value(c) + 48 == c as int,
        decimal_value(seq![c]) == digit_value(c),
{
    let one = seq![c];
    assert(one.drop_last() =~= Seq::empty());
    assert(decimal_value(one.drop_last()) == 0);
}

/// A number reads back from its decimal text, with or without zeros or a plus sign before it, if
/// it is within the bound, and does not if it is beyond.
pub proof fn numbers_read_back(n: nat, width: nat, max: u64)
    ensures
        n <= max ==> parse_unsigned(padded_text(n, width), max) == Some(n as u64),
        n > max ==> parse_unsigned(padded_text(n, width), max) is None,
        n <= max ==> parse_unsigned(seq!['+'] + padded_text(n, width), max) == Some(n as u64),
        is_unsigned(padded_text(n, width)),
{
    let s = padded_text(n, width);
    padded_text_denotes(n, width);
    assert(is_digit(s[0]));
    let signed = seq!['+'] + s;
    assert(signed[0] == '+');
    assert(signed.skip(1) =~= s);
}

/// A text with anything but digits in it, a plus sign at its start aside, is no number, nor is
/// one without digits.
pub proof fn other_text_is_no_number(s: Seq<char>, i: int, max: u64)
    requires
        s.len() == 0 || s == seq!['+'] || (0 <= i < s.len() && !('0' <= s[i] && s[i] <= '9') && (i
            > 0 || s[0] != '+')),
    ensures
        parse_unsigned(s, max) is None,
        !is_unsigned(s),
{
    if s.len() > 0 && s[0] == '+' {
        let body = s.skip(1);
        if s == seq!['+'] {
            assert(body.len() == 0);
        } else {
            assert(body[i - 1] == s[i]);
            assert(!is_digit(body[i - 1]));
        }
    } else if s.len() > 0 {
        assert(!is_digit(s[i]));
    }
}

/// White space is what separates words: the blank, the tab and the ends of lines are, and no
/// visible ASCII character is.
pub proof fn visible_characters_are_no_space(c: char)
    ensures
        is_white_space(' '),
        is_white_space('\t'),
        is_white_space('\n'),
        is_white_space('\r'),
        '!' <= c && c <= '~' ==> !is_white_space(c),
{
}

/// Nothing but white space.
pub open spec fn all_space(s: Seq<char>) -> bool {
    forall|i: int| 0 <= i < s.len() ==> is_white_space(#[trigger] s[i])
}

/// Skipping space takes white space off the start, and nothing else, until there is none.
pub proof fn skipping_takes_space_off_the_start(s: Seq<char>)
    ensures
        skip_space(s).len() <= s.len(),
        skip_space(s) == s.skip(s.len() - skip_space(s).len()),
        all_space(s.take(s.len() - skip_space(s).len())),
        skip_space(s).len() > 0 ==> !is_white_space(skip_space(s)[0]),
    decreases s.len(),
{
    if s.len() > 0 && is_white_space(s[0]) {
        let rest = s.skip(1);
        skipping_takes_space_off_the_start(rest);
        let n = s.len() - skip_space(s).len();
        assert(rest.skip(n - 1) =~= s.skip(n));
        assert forall|i: int| 0 <= i < n implies is_white_space(#[trigger] s.take(n)[i]) by {
            if i > 0 {
                assert(rest.take(n - 1)[i - 1] == s.take(n)[i]);
            }
        }
    } else {
        assert(s.skip(0) =~= s);
    }
}

proof fn dropping_takes_space_off_the_end(s: Seq<char>)
    ensures
        drop_space(s).len() <= s.len(),
        drop_space(s) == s.take(drop_space(s).len() as int),
        all_space(s.skip(drop_space(s).len() as int)),
        drop_space(s).len() > 0 ==> !is_white_space(drop_space(s).last()),
    decreases s.len(),
{
    if s.len() > 0 && is_white_space(s.last()) {
        let rest = s.drop_last();
        dropping_takes_space_off_the_end(rest);
        let n = drop_space(s).len() as int;
        assert(rest.take(n) =~= s.take(n));
        assert forall|i: int| 0 <= i < s.skip(n).len() implies is_white_space(
            #[trigger] s.skip(n)[i],
        ) by {
            if i < rest.skip(n).len() {
                assert(rest.skip(n)[i] == s.skip(n)[i]);
            }
        }
    } else {
        assert(s.take(s.len() as int) =~= s);
    }
}

/// Trimming takes white space off both ends, and nothing else, until there is none at either.
pub proof fn trimming_takes_space_off_the_ends(s: Seq<char>) -> (r: (Seq<char>, Seq<char>))
    ensures
        s == r.0 + trim(s) + r.1,
        all_space(r.0),
        all_space(r.1),
        trim(s).len() > 0 ==> !is_white_space(trim(s)[0]) && !is_white_space(trim(s).last()),
{
    let mid = skip_space(s);
    skipping_takes_space_off_the_start(s);
    dropping_takes_space_off_the_end(mid);
    let before = s.take(s.len() - mid.len());
    let after = mid.skip(trim(s).len() as int);
    assert(mid =~= trim(s) + after);
    assert(s =~= before + mid);
    assert(s =~= before + trim(s) + after);
    if trim(s).len() > 0 {
        assert(trim(s)[0] == mid[0]);
    }
    (before, after)
}

/// Trimming leaves nothing exactly where there is nothing but white space, and leaves text as it
/// is that has none at its ends.
pub proof fn trimmed_text_stays(s: Seq<char>)
    ensures
        trim(s).len() == 0 <==> all_space(s),
        s.len() > 0 && !is_white_space(s[0]) && !is_white_space(s.last()) ==> trim(s) == s,
{
    let (before, after) = trimming_takes_space_off_the_ends(s);
    if trim(s).len() == 0 {
        assert forall|i: int| 0 <= i < s.len() implies is_white_space(#[trigger] s[i]) by {
            if i < before.len() {
                assert(s[i] == before[i]);
            } else {
                assert(s[i] == after[i - before.len()]);
            }
        }
    } else {
        assert(s[before.len() as int] == trim(s)[0]);
    }
}

/// What stands before the first occurrence of a character.
pub proof fn until_stops_at_the_first(s: Seq<char>, c: char)
    ensures
        until(s, c).len() <= s.len(),
        until(s, c) == s.take(until(s, c).len() as int),
        forall|i: int| 0 <= i < until(s, c).len() ==> (#[trigger] s[i]) != c,
        until(s, c).len() < s.len() ==> s[until(s, c).len() as int] == c,
    decreases s.len(),
{
    if s.len() == 0 || s[0] == c {
        assert(s.take(0) =~= Seq::empty());
    } else {
        let rest = s.skip(1);
        until_stops_at_the_first(rest, c);
        let n = until(s, c).len() as int;
        assert(s.take(n) =~= seq![s[0]] + rest.take(n - 1));
        assert forall|i: int| 0 <= i < n implies (#[trigger] s[i]) != c by {
            if i > 0 {
                assert(rest[i - 1] == s[i]);
            }
        }
    }
}

/// What stands before the first occurrence of a character, where the text is put together so.
pub proof fn until_of_joined(a: Seq<char>, c: char, b: Seq<char>)
    requires
        !a.contains(c),
    ensures
        until(a + seq![c] + b, c) == a,
        until(a, c) == a,
{
    let s = a + seq![c] + b;
    until_stops_at_the_first(s, c);
    until_stops_at_the_first(a, c);
    let n = until(s, c).len() as int;
    if n < a.len() {
        assert(s[n] == a[n]);
    } else if n > a.len() {
        assert(s[a.len() as int] == c);
    }
    assert(s.take(a.len() as int) =~= a);
    let m = until(a, c).len() as int;
    if m < a.len() {
        assert(a[m] == c);
    }
    assert(a.take(a.len() as int) =~= a);
}

/// The first word is what stands before the first white space.
pub proof fn word_ends_at_space(w: Seq<char>, rest: Seq<char>)
    requires
        forall|i: int| 0 <= i < w.len() ==> !is_white_space(#[trigger] w[i]),
        rest.len() > 0 ==> is_white_space(rest[0]),
    ensures
        leading_word(w + rest) == w,
    decreases w.len(),
{
    if w.len() == 0 {
        assert(w + rest =~= rest);
        assert(w =~= Seq::empty());
    } else {
        let tail = w.skip(1);
        assert forall|i: int| 0 <= i < tail.len() implies !is_white_space(#[trigger] tail[i]) by {
            assert(tail[i] == w[i + 1]);
        }
        word_ends_at_space(tail, rest);
        assert((w + rest)[0] == w[0]);
        assert((w + rest).skip(1) =~= tail + rest);
        assert(seq![w[0]] + tail =~= w);
    }
}

/// The first word of a line and what stands behind it.
pub proof fn words_of_a_line(w: Seq<char>, rest: Seq<char>)
    requires
        w.len() > 0,
        forall|i: int| 0 <= i < w.len() ==> !is_white_space(#[trigger] w[i]),
        rest.len() > 0 ==> is_white_space(rest[0]),
    ensures
        first_word(w + rest) == w,
        after_first_word(w + rest) == rest,
{
    let s = w + rest;
    assert(s[0] == w[0]);
    assert(skip_space(s) == s);
    word_ends_at_space(w, rest);
    assert(s.skip(w.len() as int) =~= rest);
}

/// A text starts with what is put before it and ends with what is put behind it, and with nothing
/// else of that length.
pub proof fn prefixes_and_suffixes(p: Seq<char>, s: Seq<char>, q: Seq<char>)
    ensures
        starts_with(p + s, p),
        ends_with(s + p, p),
        q.len() == p.len() && q != p ==> !starts_with(p + s, q) && !ends_with(s + p, q),
        p.len() > s.len() ==> !starts_with(s, p) && !ends_with(s, p),
{
    assert((p + s).take(p.len() as int) =~= p);
    assert((s + p).skip(s.len() as int) =~= p);
}

/// A suffix is taken off as often as it stands there.
pub proof fn suffix_is_taken_off(s: Seq<char>, p: Seq<char>)
    requires
        p.len() > 0,
    ensures
        trim_end(s + p, p) == trim_end(s, p),
        !ends_with(trim_end(s, p), p),
        !ends_with(s, p) ==> trim_end(s, p) == s,
    decreases s.len(),
{
    assert((s + p).skip(s.len() as int) =~= p);
    assert((s + p).take(s.len() as int) =~= s);
    if ends_with(s, p) {
        let rest = s.take(s.len() - p.len());
        suffix_is_taken_off(rest, p);
    }
}

/// Of two texts the one with the smaller character at the first difference comes first, and a
/// text comes before a longer one that starts with it.
pub proof fn first_difference_decides(
    head: Seq<char>,
    a: char,
    b: char,
    x: Seq<char>,
    y: Seq<char>,
)
    requires
        a < b,
    ensures
        text_lt(head + seq![a] + x, head + seq![b] + y),
        text_lt(head, head + seq![a] + x),
{
    let n = head.len() as int;
    let s = head + seq![a] + x;
    let t = head + seq![b] + y;
    assert(s.take(n) =~= t.take(n));
    assert(differs_at(s, t, n));
    assert(head.take(n) =~= s.take(n));
    assert(differs_at(head, s, n));
}

} // verus!
