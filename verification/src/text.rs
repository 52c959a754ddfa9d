//! Text primitives: decimal numbers, path segments, prefixes and suffixes, and
//! the lexicographic order of strings, all over the characters of a `str`.

use vstd::prelude::*;
use vstd::string::*;

verus! {

/// An ASCII decimal digit.
pub open spec fn is_digit(c: char) -> bool {
    '0' <= c && c <= '9'
}

/// A string made of ASCII decimal digits only (the empty string included).
pub open spec fn all_digits(s: Seq<char>) -> bool {
    forall|i: int| 0 <= i < s.len() ==> is_digit(#[trigger] s[i])
}

/// The number that a digit stands for.
pub open spec fn digit_value(c: char) -> nat {
    (c as u32 - '0' as u32) as nat
}

/// The digit that stands for a number below ten.
pub open spec fn digit_char(d: nat) -> char {
    if d == 0 {
        '0'
    } else if d == 1 {
        '1'
    } else if d == 2 {
        '2'
    } else if d == 3 {
        '3'
    } else if d == 4 {
        '4'
    } else if d == 5 {
        '5'
    } else if d == 6 {
        '6'
    } else if d == 7 {
        '7'
    } else if d == 8 {
        '8'
    } else {
        '9'
    }
}

/// The number that a string of digits denotes in base ten.
pub open spec fn decimal_value(s: Seq<char>) -> nat
    decreases s.len(),
{
    if s.len() == 0 {
        0
    } else {
        decimal_value(s.drop_last()) * 10 + digit_value(s.last())
    }
}

/// The shortest decimal text of a number.
pub open spec fn decimal_text(n: nat) -> Seq<char>
    decreases n,
{
    if n < 10 {
        seq![digit_char(n)]
    } else {
        decimal_text(n / 10).push(digit_char(n % 10))
    }
}

/// `n` zeros.
pub open spec fn zeros(n: nat) -> Seq<char> {
    Seq::new(n, |i: int| '0')
}

/// Decimal text with leading zeros up to `width` characters.
pub open spec fn padded_text(n: nat, width: nat) -> Seq<char> {
    let digits = decimal_text(n);
    if digits.len() < width {
        zeros((width - digits.len()) as nat) + digits
    } else {
        digits
    }
}

/// The value of an unsigned decimal literal: an optional `+`, then one or more
/// digits, denoting a number of at most `max`.
pub open spec fn parse_unsigned(s: Seq<char>, max: u64) -> Option<u64> {
    let body = if s.len() > 0 && s[0] == '+' {
        s.skip(1)
    } else {
        s
    };
    parse_digits(body, max)
}

/// The value of one or more digits denoting a number of at most `max`.
pub open spec fn parse_digits(s: Seq<char>, max: u64) -> Option<u64> {
    if s.len() > 0 && all_digits(s) && decimal_value(s) <= max {
        Some(decimal_value(s) as u64)
    } else {
        None
    }
}

/// An unsigned decimal literal of any size: an optional `+`, then one or more digits.
pub open spec fn is_unsigned(s: Seq<char>) -> bool {
    let body = if s.len() > 0 && s[0] == '+' {
        s.skip(1)
    } else {
        s
    };
    body.len() > 0 && all_digits(body)
}

/// The pieces of `s` between the occurrences of `sep`.
pub open spec fn split_on(s: Seq<char>, sep: char) -> Seq<Seq<char>>
    decreases s.len(),
{
    if s.len() == 0 {
        seq![Seq::empty()]
    } else {
        let before = split_on(s.drop_last(), sep);
        if s.last() == sep {
            before.push(Seq::empty())
        } else {
            before.drop_last().push(before.last().push(s.last()))
        }
    }
}

/// The segments of a slash-separated path.
pub open spec fn segments(s: Seq<char>) -> Seq<Seq<char>> {
    split_on(s, '/')
}

/// What stands before the first slash (everything, where there is none).
pub open spec fn first_segment(s: Seq<char>) -> Seq<char> {
    segments(s)[0]
}

/// What stands behind the last slash (everything, where there is none).
pub open spec fn last_segment(s: Seq<char>) -> Seq<char> {
    segments(s).last()
}

/// `p` stands at the start of `s`.
pub open spec fn starts_with(s: Seq<char>, p: Seq<char>) -> bool {
    p.len() <= s.len() && s.take(p.len() as int) == p
}

/// `p` stands at the end of `s`.
pub open spec fn ends_with(s: Seq<char>, p: Seq<char>) -> bool {
    p.len() <= s.len() && s.skip(s.len() - p.len()) == p
}

/// `s` without the suffix `p`, as often as it stands there.
pub open spec fn trim_end(s: Seq<char>, p: Seq<char>) -> Seq<char>
    decreases s.len(),
{
    if p.len() > 0 && ends_with(s, p) {
        trim_end(s.take(s.len() - p.len()), p)
    } else {
        s
    }
}

/// `i` is the position of the first occurrence of `c` in `s`.
pub open spec fn first_at(s: Seq<char>, c: char, i: int) -> bool {
    0 <= i < s.len() && s[i] == c && forall|j: int| 0 <= j < i ==> s[j] != c
}

/// `a` and `b` agree before position `i`, and `a` is the smaller one there:
/// it ends, or holds the smaller character.
pub open spec fn differs_at(a: Seq<char>, b: Seq<char>, i: int) -> bool {
    &&& 0 <= i <= a.len()
    &&& i < b.len()
    &&& a.take(i) == b.take(i)
    &&& (i == a.len() || a[i] < b[i])
}

/// The lexicographic order of strings.
pub open spec fn text_lt(a: Seq<char>, b: Seq<char>) -> bool {
    exists|i: int| differs_at(a, b, i)
}

/// The characters of `s`.
pub fn chars_of(s: &str) -> (r: Vec<char>)
    ensures
        r@ == s@,
{
    let mut out: Vec<char> = Vec::new();
    for c in it: s.chars()
        invariant
            out@ == it.seq().take(it.index()),
            it.seq() == s@,
    {
        out.push(c);
    }
    proof {
        assert(s@.take(s@.len() as int) =~= s@);
    }
    out
}

/// Text equality.
pub fn same_text(a: &str, b: &str) -> (r: bool)
    ensures
        r == (a@ == b@),
{
    a.to_owned() == b.to_owned()
}


/// Whether `c` is an ASCII decimal digit.
fn is_digit_char(c: char) -> (r: bool)
    ensures
        r == is_digit(c),
{
    '0' <= c && c <= '9'
}

/// Whether one or more digits, and nothing else, stand in `s[from..to]`.
pub fn digits_only(s: &Vec<char>, from: usize, to: usize) -> (r: bool)
    requires
        from <= to <= s.len(),
    ensures
        r == (from < to && all_digits(s@.subrange(from as int, to as int))),
{
    let mut i: usize = from;
    while i < to
        invariant
            from <= i <= to <= s.len(),
            forall|j: int| from <= j < i ==> is_digit(#[trigger] s@[j]),
        decreases to - i,
    {
        if !is_digit_char(s[i]) {
            proof {
                let sub = s@.subrange(from as int, to as int);
                assert(sub[i - from] == s@[i as int]);
            }
            return false;
        }
        i += 1;
    }
    from < to
}

proof fn decimal_value_of_prefix(s: Seq<char>, n: int)
    requires
        0 <= n <= s.len(),
    ensures
        decimal_value(s.take(n)) <= decimal_value(s),
    decreases s.len(),
{
    if n < s.len() {
        decimal_value_of_prefix(s.drop_last(), n);
        assert(s.drop_last().take(n) =~= s.take(n));
    } else {
        assert(s.take(n) =~= s);
    }
}

/// The number written in `s[from..to]`.
pub fn read_digits(s: &Vec<char>, from: usize, to: usize, max: u64) -> (r: Option<u64>)
    requires
        from <= to <= s.len(),
    ensures
        r == parse_digits(s@.subrange(from as int, to as int), max),
{
    let ghost sub = s@.subrange(from as int, to as int);
    if !digits_only(s, from, to) {
        return None;
    }
    let mut value: u64 = 0;
    let mut i: usize = from;
    while i < to
        invariant
            from <= i <= to <= s.len(),
            sub == s@.subrange(from as int, to as int),
            all_digits(sub),
            value == decimal_value(sub.take(i - from)),
            value <= max,
        decreases to - i,
    {
        let c: char = s[i];
        let ghost next = sub.take(i - from + 1);
        proof {
            assert(c == sub[i - from]);
            assert(next.drop_last() =~= sub.take(i - from));
            assert(decimal_value(next) == value * 10 + digit_value(c));
            decimal_value_of_prefix(sub, i - from + 1);
        }
        let d: u64 = (c as u32 - '0' as u32) as u64;
        if value > max / 10 || max - value * 10 < d {
            return None;
        }
        value = value * 10 + d;
        i += 1;
    }
    proof {
        assert(sub.take(to - from) =~= sub);
    }
    Some(value)
}

/// The number that the literal `s` denotes.
pub fn read_unsigned(s: &str, max: u64) -> (r: Option<u64>)
    ensures
        r == parse_unsigned(s@, max),
{
    let cs = chars_of(s);
    let n: usize = cs.len();
    proof {
        assert(s@.subrange(0, s@.len() as int) =~= s@);
    }
    if n > 0 && cs[0] == '+' {
        proof {
            assert(s@.skip(1) =~= s@.subrange(1, s@.len() as int));
        }
        read_digits(&cs, 1, n, max)
    } else {
        read_digits(&cs, 0, n, max)
    }
}

/// One or more digits.
pub open spec fn is_number(s: Seq<char>) -> bool {
    s.len() > 0 && all_digits(s)
}

/// Whether `s` is one or more digits.
pub fn is_numeric(s: &str) -> (r: bool)
    ensures
        r == is_number(s@),
{
    let cs = chars_of(s);
    proof {
        assert(s@.subrange(0, s@.len() as int) =~= s@);
    }
    digits_only(&cs, 0, cs.len())
}

/// Whether `s` is an unsigned decimal literal.
pub fn reads_as_unsigned(s: &str) -> (r: bool)
    ensures
        r == is_unsigned(s@),
{
    let cs = chars_of(s);
    let from: usize = if cs.len() > 0 && cs[0] == '+' {
        1
    } else {
        0
    };
    proof {
        if from == 1 {
            assert(cs@.subrange(1, cs@.len() as int) =~= s@.skip(1));
        } else {
            assert(cs@.subrange(0, cs@.len() as int) =~= s@);
        }
    }
    digits_only(&cs, from, cs.len())
}

/// The digit for a number below ten, as text.
fn digit_str(d: u64) -> (r: &'static str)
    requires
        d < 10,
    ensures
        r@ == seq![digit_char(d as nat)],
{
    proof {
        reveal_strlit("0");
        reveal_strlit("1");
        reveal_strlit("2");
        reveal_strlit("3");
        reveal_strlit("4");
        reveal_strlit("5");
        reveal_strlit("6");
        reveal_strlit("7");
        reveal_strlit("8");
        reveal_strlit("9");
        assert("0"@ =~= seq!['0']);
        assert("1"@ =~= seq!['1']);
        assert("2"@ =~= seq!['2']);
        assert("3"@ =~= seq!['3']);
        assert("4"@ =~= seq!['4']);
        assert("5"@ =~= seq!['5']);
        assert("6"@ =~= seq!['6']);
        assert("7"@ =~= seq!['7']);
        assert("8"@ =~= seq!['8']);
        assert("9"@ =~= seq!['9']);
    }
    if d == 0 {
        "0"
    } else if d == 1 {
        "1"
    } else if d == 2 {
        "2"
    } else if d == 3 {
        "3"
    } else if d == 4 {
        "4"
    } else if d == 5 {
        "5"
    } else if d == 6 {
        "6"
    } else if d == 7 {
        "7"
    } else if d == 8 {
        "8"
    } else {
        "9"
    }
}

/// Appends the decimal text of `n`.
pub fn push_decimal(out: &mut String, n: u64)
    ensures
        final(out)@ == old(out)@ + decimal_text(n as nat),
    decreases n,
{
    if n >= 10 {
        push_decimal(out, n / 10);
    }
    let ghost before = out@;
    out.append(digit_str(n % 10));
    proof {
        if n >= 10 {
            assert(out@ =~= old(out)@ + decimal_text(n as nat));
        } else {
            assert(out@ =~= old(out)@ + seq![digit_char(n as nat)]);
        }
    }
}

/// Decimal text.
pub fn decimal(n: u64) -> (r: String)
    ensures
        r@ == decimal_text(n as nat),
{
    let mut out = String::new();
    push_decimal(&mut out, n);
    proof {
        assert(out@ =~= decimal_text(n as nat));
    }
    out
}

/// Appends the decimal text of `n`, zero-padded to `width` characters.
pub fn push_padded(out: &mut String, n: u64, width: usize)
    ensures
        final(out)@ == old(out)@ + padded_text(n as nat, width as nat),
{
    let digits = decimal(n);
    let len: usize = digits.as_str().unicode_len();
    let ghost start = out@;
    proof {
        reveal_strlit("0");
        assert("0"@ =~= seq!['0']);
        assert(start + zeros(0) =~= start);
    }
    let mut have: usize = len;
    while have < width
        invariant
            len == digits@.len(),
            len <= have,
            have <= width || have == len,
            "0"@ == seq!['0'],
            out@ == start + zeros((have - len) as nat),
        decreases width - have,
    {
        out.append("0");
        have += 1;
        proof {
            assert(out@ =~= start + zeros((have - len) as nat));
        }
    }
    out.append(digits.as_str());
    proof {
        assert(out@ =~= start + padded_text(n as nat, width as nat));
    }
}

proof fn split_on_nonempty(s: Seq<char>, sep: char)
    ensures
        split_on(s, sep).len() >= 1,
    decreases s.len(),
{
    if s.len() > 0 {
        split_on_nonempty(s.drop_last(), sep);
    }
}

/// The views of a list of strings.
pub open spec fn texts(v: Seq<String>) -> Seq<Seq<char>> {
    Seq::new(v.len(), |i: int| v[i]@)
}

/// The pieces of `s` between the occurrences of `sep`.
pub fn split_text(s: &str, sep: char) -> (r: Vec<String>)
    ensures
        texts(r@) == split_on(s@, sep),
        r.len() >= 1,
{
    let cs = chars_of(s);
    let mut out: Vec<String> = Vec::new();
    let mut start: usize = 0;
    let mut i: usize = 0;
    proof {
        assert(s@.subrange(0, 0) =~= Seq::empty());
        assert(s@.take(0) =~= Seq::empty());
        assert(split_on(s@.take(0), sep) =~= texts(out@).push(s@.subrange(0, 0)));
    }
    while i < cs.len()
        invariant
            cs@ == s@,
            start <= i <= cs.len(),
            split_on(s@.take(i as int), sep) == texts(out@).push(
                s@.subrange(start as int, i as int),
            ),
        decreases cs.len() - i,
    {
        let ghost done = s@.take(i + 1);
        proof {
            assert(done.drop_last() =~= s@.take(i as int));
            split_on_nonempty(s@.take(i as int), sep);
        }
        if cs[i] == sep {
            let ghost before = texts(out@);
            out.push(s.substring_char(start, i).to_owned());
            start = i + 1;
            proof {
                assert(texts(out@) =~= before.push(out@.last()@));
                assert(s@.subrange(i + 1, i + 1) =~= Seq::empty());
                assert(split_on(done, sep) =~= texts(out@).push(Seq::empty()));
            }
        } else {
            proof {
                let before = split_on(s@.take(i as int), sep);
                assert(before.last().push(s@[i as int]) =~= s@.subrange(start as int, i + 1));
                assert(before.drop_last() =~= texts(out@));
                assert(split_on(done, sep) =~= texts(out@).push(s@.subrange(start as int, i + 1)));
            }
        }
        i += 1;
    }
    let ghost before = texts(out@);
    out.push(s.substring_char(start, i).to_owned());
    proof {
        assert(s@.take(i as int) =~= s@);
        assert(texts(out@) =~= before.push(out@.last()@));
    }
    out
}

/// What stands before the first slash.
pub fn path_head(s: &str) -> (r: String)
    ensures
        r@ == first_segment(s@),
{
    let parts = split_text(s, '/');
    proof {
        assert(texts(parts@)[0] == parts@[0]@);
    }
    parts[0].clone()
}

/// What stands behind the last slash.
pub fn path_tail(s: &str) -> (r: String)
    ensures
        r@ == last_segment(s@),
{
    let parts = split_text(s, '/');
    let n: usize = parts.len() - 1;
    proof {
        assert(texts(parts@).last() == parts@[n as int]@);
    }
    parts[n].clone()
}

/// Whether `s[from..]` starts with `p`.
fn matches_at(s: &Vec<char>, from: usize, p: &Vec<char>) -> (r: bool)
    requires
        from <= s.len(),
    ensures
        r == starts_with(s@.skip(from as int), p@),
{
    if s.len() - from < p.len() {
        return false;
    }
    let mut i: usize = 0;
    while i < p.len()
        invariant
            from + p.len() <= s.len(),
            i <= p.len(),
            forall|j: int| 0 <= j < i ==> s@[from + j] == p@[j],
        decreases p.len() - i,
    {
        if s[from + i] != p[i] {
            proof {
                assert(s@.skip(from as int).take(p@.len() as int)[i as int] == s@[from + i]);
            }
            return false;
        }
        i += 1;
    }
    proof {
        assert(s@.skip(from as int).take(p@.len() as int) =~= p@);
    }
    true
}

/// Whether `p` stands at the start of `s`.
pub fn has_prefix(s: &str, p: &str) -> (r: bool)
    ensures
        r == starts_with(s@, p@),
{
    let cs = chars_of(s);
    let ps = chars_of(p);
    proof {
        assert(s@.skip(0) =~= s@);
    }
    matches_at(&cs, 0, &ps)
}

/// Whether `p` stands at the end of `s`.
pub fn has_suffix(s: &str, p: &str) -> (r: bool)
    ensures
        r == ends_with(s@, p@),
{
    let cs = chars_of(s);
    let ps = chars_of(p);
    if ps.len() > cs.len() {
        return false;
    }
    let from: usize = cs.len() - ps.len();
    proof {
        assert(s@.skip(from as int).take(p@.len() as int) =~= s@.skip(from as int));
    }
    matches_at(&cs, from, &ps)
}

/// `s` without its prefix `p`, where it has it.
pub fn without_prefix(s: &str, p: &str) -> (r: Option<String>)
    ensures
        r is Some <==> starts_with(s@, p@),
        r is Some ==> r->0@ == s@.skip(p@.len() as int),
{
    if has_prefix(s, p) {
        let from: usize = p.unicode_len();
        let to: usize = s.unicode_len();
        proof {
            assert(s@.skip(from as int) =~= s@.subrange(from as int, to as int));
        }
        Some(s.substring_char(from, to).to_owned())
    } else {
        None
    }
}

/// `s` without its suffix `p`, where it has it.
pub fn without_suffix(s: &str, p: &str) -> (r: Option<String>)
    ensures
        r is Some <==> ends_with(s@, p@),
        r is Some ==> r->0@ == s@.take(s@.len() - p@.len()),
{
    if has_suffix(s, p) {
        let to: usize = s.unicode_len() - p.unicode_len();
        proof {
            assert(s@.take(to as int) =~= s@.subrange(0, to as int));
        }
        Some(s.substring_char(0, to).to_owned())
    } else {
        None
    }
}

/// `s` without the suffix `p`, as often as it stands there.
pub fn trimmed_end(s: &str, p: &str) -> (r: String)
    requires
        p@.len() > 0,
    ensures
        r@ == trim_end(s@, p@),
    decreases s@.len(),
{
    match without_suffix(s, p) {
        Some(rest) => trimmed_end(rest.as_str(), p),
        None => s.to_owned(),
    }
}

/// The position of the first `c`.
pub fn find_char(s: &Vec<char>, c: char) -> (r: Option<usize>)
    ensures
        match r {
            Some(i) => first_at(s@, c, i as int),
            None => !s@.contains(c),
        },
{
    let mut i: usize = 0;
    while i < s.len()
        invariant
            i <= s.len(),
            forall|j: int| 0 <= j < i ==> s@[j] != c,
        decreases s.len() - i,
    {
        if s[i] == c {
            return Some(i);
        }
        i += 1;
    }
    None
}

/// Whether `a` stands before `b` in lexicographic order.
pub fn text_before(a: &str, b: &str) -> (r: bool)
    ensures
        r == text_lt(a@, b@),
{
    let xs = chars_of(a);
    let ys = chars_of(b);
    let mut i: usize = 0;
    while i < xs.len() && i < ys.len() && xs[i] == ys[i]
        invariant
            i <= xs.len(),
            i <= ys.len(),
            xs@ == a@,
            ys@ == b@,
            a@.take(i as int) =~= b@.take(i as int),
        decreases xs.len() - i,
    {
        i += 1;
    }
    let r = i < ys.len() && (i == xs.len() || xs[i] < ys[i]);
    proof {
        if r {
            assert(differs_at(a@, b@, i as int));
        } else {
            assert forall|k: int| !differs_at(a@, b@, k) by {
                if differs_at(a@, b@, k) {
                    if k < i {
                        assert(a@.take(i as int)[k] == b@.take(i as int)[k]);
                    } else if k > i {
                        assert(a@.take(k)[i as int] == b@.take(k)[i as int]);
                    }
                }
            }
        }
    }
    r
}


proof fn digit_char_is_digit(d: nat)
    requires
        d < 10,
    ensures
        is_digit(digit_char(d)),
        digit_value(digit_char(d)) == d,
{
}

/// Decimal text is made of digits and denotes the number it was made from.
pub proof fn decimal_text_denotes(n: nat)
    ensures
        decimal_text(n).len() >= 1,
        all_digits(decimal_text(n)),
        decimal_value(decimal_text(n)) == n,
    decreases n,
{
    digit_char_is_digit(n % 10);
    if n < 10 {
        let t = decimal_text(n);
        assert(t.drop_last() =~= Seq::empty());
        assert(decimal_value(t.drop_last()) == 0);
    } else {
        decimal_text_denotes(n / 10);
        let t = decimal_text(n);
        assert(t.drop_last() =~= decimal_text(n / 10));
    }
}

proof fn decimal_text_len(n: nat, width: nat)
    requires
        width >= 1,
        n < vstd::arithmetic::power::pow(10, width),
    ensures
        decimal_text(n).len() <= width,
    decreases width,
{
    reveal(vstd::arithmetic::power::pow);
    if n >= 10 {
        if width == 1 {
            assert(vstd::arithmetic::power::pow(10, 0) == 1);
        } else {
            let p = vstd::arithmetic::power::pow(10, (width - 1) as nat);
            assert(n < 10 * p);
            assert(n / 10 < p);
            decimal_text_len(n / 10, (width - 1) as nat);
        }
    }
}

proof fn zeros_value(n: nat)
    ensures
        decimal_value(zeros(n)) == 0,
    decreases n,
{
    if n > 0 {
        zeros_value((n - 1) as nat);
        assert(zeros(n).drop_last() =~= zeros((n - 1) as nat));
    }
}

proof fn leading_zeros_value(n: nat, s: Seq<char>)
    ensures
        decimal_value(zeros(n) + s) == decimal_value(s),
    decreases s.len(),
{
    if s.len() == 0 {
        assert(zeros(n) + s =~= zeros(n));
        zeros_value(n);
    } else {
        leading_zeros_value(n, s.drop_last());
        assert((zeros(n) + s).drop_last() =~= zeros(n) + s.drop_last());
    }
}

/// Padded text is made of digits and denotes the number it was made from.
pub proof fn padded_text_denotes(n: nat, width: nat)
    ensures
        padded_text(n, width).len() >= 1,
        padded_text(n, width).len() >= width,
        all_digits(padded_text(n, width)),
        decimal_value(padded_text(n, width)) == n,
{
    decimal_text_denotes(n);
    let digits = decimal_text(n);
    if digits.len() < width {
        leading_zeros_value((width - digits.len()) as nat, digits);
    }
}

/// Twenty digits hold every `u64`.
pub proof fn padded_text_of_u64(n: u64)
    ensures
        padded_text(n as nat, 20).len() == 20,
{
    assert(vstd::arithmetic::power::pow(10, 20) == 100000000000000000000int) by {
        reveal_with_fuel(vstd::arithmetic::power::pow, 21);
    }
    decimal_text_len(n as nat, 20);
}

/// Strings of digits of one length are ordered as the numbers that they denote.
pub proof fn equal_length_digits_order(a: Seq<char>, b: Seq<char>)
    requires
        a.len() == b.len(),
        all_digits(a),
        all_digits(b),
        decimal_value(a) < decimal_value(b),
    ensures
        text_lt(a, b),
    decreases a.len(),
{
    if a.len() > 0 {
        let x = a.drop_last();
        let y = b.drop_last();
        assert(is_digit(a.last()) && is_digit(b.last()));
        assert(all_digits(x)) by {
            assert forall|i: int| 0 <= i < x.len() implies is_digit(#[trigger] x[i]) by {
                assert(x[i] == a[i]);
            }
        }
        assert(all_digits(y)) by {
            assert forall|i: int| 0 <= i < y.len() implies is_digit(#[trigger] y[i]) by {
                assert(y[i] == b[i]);
            }
        }
        if decimal_value(x) < decimal_value(y) {
            equal_length_digits_order(x, y);
            let i = choose|i: int| differs_at(x, y, i);
            assert(a.take(i) =~= x.take(i));
            assert(b.take(i) =~= y.take(i));
            assert(differs_at(a, b, i));
        } else {
            if decimal_value(y) < decimal_value(x) {
                assert(decimal_value(y) * 10 + 10 <= decimal_value(x) * 10);
            }
            equal_value_digits(x, y);
            let i = a.len() - 1;
            assert(a.take(i) =~= x);
            assert(b.take(i) =~= y);
            assert(differs_at(a, b, i));
        }
    }
}

/// Strings of digits of one length that denote the same number are the same.
pub proof fn equal_value_digits(a: Seq<char>, b: Seq<char>)
    requires
        a.len() == b.len(),
        all_digits(a),
        all_digits(b),
        decimal_value(a) == decimal_value(b),
    ensures
        a == b,
    decreases a.len(),
{
    if a.len() > 0 {
        let x = a.drop_last();
        let y = b.drop_last();
        assert(is_digit(a.last()) && is_digit(b.last()));
        assert forall|i: int| 0 <= i < x.len() implies is_digit(#[trigger] x[i]) by {
            assert(x[i] == a[i]);
        }
        assert forall|i: int| 0 <= i < y.len() implies is_digit(#[trigger] y[i]) by {
            assert(y[i] == b[i]);
        }
        equal_value_digits(x, y);
        assert(a =~= x.push(a.last()));
        assert(b =~= y.push(b.last()));
    } else {
        assert(a =~= b);
    }
}

/// The lexicographic order is total: of two different strings one stands
/// before the other.
pub proof fn text_lt_total(a: Seq<char>, b: Seq<char>)
    ensures
        a == b || text_lt(a, b) || text_lt(b, a),
    decreases a.len(),
{
    if a.len() == 0 {
        if b.len() > 0 {
            assert(a.take(0) =~= b.take(0));
            assert(differs_at(a, b, 0));
        } else {
            assert(a =~= b);
        }
    } else if b.len() == 0 {
        assert(a.take(0) =~= b.take(0));
        assert(differs_at(b, a, 0));
    } else if a[0] != b[0] {
        assert(a.take(0) =~= b.take(0));
        if a[0] < b[0] {
            assert(differs_at(a, b, 0));
        } else {
            assert(differs_at(b, a, 0));
        }
    } else {
        let x = a.skip(1);
        let y = b.skip(1);
        text_lt_total(x, y);
        if x == y {
            assert(a =~= seq![a[0]] + x);
            assert(b =~= seq![b[0]] + y);
        } else if text_lt(x, y) {
            text_lt_prepend(x, y, a[0]);
            assert(a =~= seq![a[0]] + x);
            assert(b =~= seq![b[0]] + y);
        } else {
            text_lt_prepend(y, x, a[0]);
            assert(a =~= seq![a[0]] + x);
            assert(b =~= seq![b[0]] + y);
        }
    }
}

proof fn text_lt_prepend(x: Seq<char>, y: Seq<char>, c: char)
    requires
        text_lt(x, y),
    ensures
        text_lt(seq![c] + x, seq![c] + y),
{
    let i = choose|i: int| differs_at(x, y, i);
    let a = seq![c] + x;
    let b = seq![c] + y;
    assert(a.take(i + 1) =~= seq![c] + x.take(i));
    assert(b.take(i + 1) =~= seq![c] + y.take(i));
    assert(differs_at(a, b, i + 1));
}

/// A prefix common to two strings does not change their order.
pub proof fn text_lt_common_prefix(p: Seq<char>, x: Seq<char>, y: Seq<char>)
    requires
        text_lt(x, y),
    ensures
        text_lt(p + x, p + y),
{
    let i = choose|i: int| differs_at(x, y, i);
    let a = p + x;
    let b = p + y;
    assert(a.take(p.len() + i) =~= p + x.take(i));
    assert(b.take(p.len() + i) =~= p + y.take(i));
    assert(differs_at(a, b, p.len() + i));
}

/// Two strings of one length keep their order whatever stands behind them.
pub proof fn text_lt_with_suffix(x: Seq<char>, y: Seq<char>, s: Seq<char>)
    requires
        text_lt(x, y),
        x.len() == y.len(),
    ensures
        text_lt(x + s, y + s),
{
    let i = choose|i: int| differs_at(x, y, i);
    assert((x + s).take(i) =~= x.take(i));
    assert((y + s).take(i) =~= y.take(i));
    assert(differs_at(x + s, y + s, i));
}

/// The lexicographic order is strict: no string stands before itself, and no
/// two stand before each other.
pub proof fn text_lt_strict(a: Seq<char>, b: Seq<char>)
    requires
        text_lt(a, b),
    ensures
        a != b,
        !text_lt(b, a),
{
    let i = choose|i: int| differs_at(a, b, i);
    assert(a != b);
    assert forall|k: int| !differs_at(b, a, k) by {
        if differs_at(b, a, k) {
            if k < i {
                assert(a.take(i)[k] == b.take(i)[k]);
            } else if k > i {
                assert(a.take(k)[i] == b.take(k)[i]);
            }
        }
    }
}

/// The lexicographic order is transitive.
pub proof fn text_lt_transitive(a: Seq<char>, b: Seq<char>, c: Seq<char>)
    requires
        text_lt(a, b),
        text_lt(b, c),
    ensures
        text_lt(a, c),
{
    let i = choose|i: int| differs_at(a, b, i);
    let j = choose|j: int| differs_at(b, c, j);
    let k = if i <= j { i } else { j };
    assert forall|m: int| 0 <= m < k implies a[m] == c[m] by {
        assert(a.take(i)[m] == b.take(i)[m]);
        assert(b.take(j)[m] == c.take(j)[m]);
    }
    assert(a.take(k) =~= c.take(k));
    if i < j {
        assert(b.take(j)[i] == c.take(j)[i]);
    } else if j < i {
        assert(a.take(i)[j] == b.take(i)[j]);
    }
    assert(differs_at(a, c, k));
}

/// A string without `sep` is its own only piece.
pub proof fn split_on_absent(s: Seq<char>, sep: char)
    requires
        !s.contains(sep),
    ensures
        split_on(s, sep) == seq![s],
    decreases s.len(),
{
    if s.len() > 0 {
        let t = s.drop_last();
        assert forall|i: int| 0 <= i < t.len() implies t[i] != sep by {
            assert(s[i] == t[i]);
            assert(s.contains(s[i]));
        }
        split_on_absent(t, sep);
        assert(s.contains(s.last()));
        assert(t.push(s.last()) =~= s);
        assert(split_on(s, sep) =~= seq![s]);
    } else {
        assert(s =~= Seq::empty());
    }
}

/// A separator between two strings keeps the pieces of both apart.
pub proof fn split_on_join(a: Seq<char>, b: Seq<char>, sep: char)
    requires
        !b.contains(sep),
    ensures
        split_on(a + seq![sep] + b, sep) == split_on(a, sep).push(b),
    decreases b.len(),
{
    let s = a + seq![sep] + b;
    if b.len() == 0 {
        assert(s.drop_last() =~= a);
        assert(b =~= Seq::empty());
    } else {
        let c = b.drop_last();
        assert forall|i: int| 0 <= i < c.len() implies c[i] != sep by {
            assert(b[i] == c[i]);
            assert(b.contains(b[i]));
        }
        split_on_join(a, c, sep);
        assert(b.contains(b.last()));
        assert(s.drop_last() =~= a + seq![sep] + c);
        assert(c.push(b.last()) =~= b);
        assert(split_on(s, sep) =~= split_on(a, sep).push(b));
    }
}

/// A suffix that stands once is trimmed once.
pub proof fn trim_end_once(s: Seq<char>, p: Seq<char>)
    requires
        p.len() > 0,
        !ends_with(s, p),
    ensures
        trim_end(s + p, p) == s,
{
    assert((s + p).skip(s.len() as int) =~= p);
    assert((s + p).take(s.len() as int) =~= s);
    assert(trim_end(s, p) == s);
}

/// A character with the Unicode property `White_Space`.
pub open spec fn is_white_space(c: char) -> bool {
    ||| ('\u{0009}' <= c && c <= '\u{000D}')
    ||| c == '\u{0020}'
    ||| c == '\u{0085}'
    ||| c == '\u{00A0}'
    ||| c == '\u{1680}'
    ||| ('\u{2000}' <= c && c <= '\u{200A}')
    ||| c == '\u{2028}'
    ||| c == '\u{2029}'
    ||| c == '\u{202F}'
    ||| c == '\u{205F}'
    ||| c == '\u{3000}'
}

/// Whether `c` has the Unicode property `White_Space`.
pub fn is_space(c: char) -> (r: bool)
    ensures
        r == is_white_space(c),
{
    ('\u{0009}' <= c && c <= '\u{000D}') || c == '\u{0020}' || c == '\u{0085}' || c == '\u{00A0}'
        || c == '\u{1680}' || ('\u{2000}' <= c && c <= '\u{200A}') || c == '\u{2028}' || c
        == '\u{2029}' || c == '\u{202F}' || c == '\u{205F}' || c == '\u{3000}'
}

/// `s` without white space at its start.
pub open spec fn skip_space(s: Seq<char>) -> Seq<char>
    decreases s.len(),
{
    if s.len() > 0 && is_white_space(s[0]) {
        skip_space(s.skip(1))
    } else {
        s
    }
}

/// `s` without white space at its end.
pub open spec fn drop_space(s: Seq<char>) -> Seq<char>
    decreases s.len(),
{
    if s.len() > 0 && is_white_space(s.last()) {
        drop_space(s.drop_last())
    } else {
        s
    }
}

/// `s` without white space at either end.
pub open spec fn trim(s: Seq<char>) -> Seq<char> {
    drop_space(skip_space(s))
}

/// Where the first character stands that is not white space, from `from` on.
pub fn space_end(s: &Vec<char>, from: usize) -> (r: usize)
    requires
        from <= s.len(),
    ensures
        from <= r <= s.len(),
        skip_space(s@.skip(from as int)) == s@.skip(r as int),
    decreases s.len() - from,
{
    if from < s.len() && is_space(s[from]) {
        proof {
            assert(s@.skip(from as int).skip(1) =~= s@.skip(from + 1));
        }
        space_end(s, from + 1)
    } else {
        from
    }
}

/// `s` without white space at either end.
pub fn trimmed(s: &str) -> (r: String)
    ensures
        r@ == trim(s@),
{
    let cs = chars_of(s);
    proof {
        assert(s@.skip(0) =~= s@);
    }
    let start: usize = space_end(&cs, 0);
    let mut end: usize = cs.len();
    proof {
        assert(s@.subrange(start as int, end as int) =~= s@.skip(start as int));
    }
    while end > start && is_space(cs[end - 1])
        invariant
            cs@ == s@,
            start <= end <= cs.len(),
            drop_space(s@.subrange(start as int, end as int)) == trim(s@),
        decreases end - start,
    {
        proof {
            let part = s@.subrange(start as int, end as int);
            assert(part.last() == s@[end - 1]);
            assert(part.drop_last() =~= s@.subrange(start as int, end - 1));
        }
        end -= 1;
    }
    proof {
        let part = s@.subrange(start as int, end as int);
        if end > start {
            assert(part.last() == s@[end - 1]);
        }
    }
    s.substring_char(start, end).to_owned()
}

/// What stands in `s` before the first `c`, everything where there is none.
pub open spec fn until(s: Seq<char>, c: char) -> Seq<char>
    decreases s.len(),
{
    if s.len() == 0 || s[0] == c {
        Seq::empty()
    } else {
        seq![s[0]] + until(s.skip(1), c)
    }
}

/// The position of the first `c` in `s[from..to]`, or `to`.
pub fn until_end(s: &Vec<char>, from: usize, to: usize, c: char) -> (r: usize)
    requires
        from <= to <= s.len(),
    ensures
        from <= r <= to,
        s@.subrange(from as int, r as int) == until(s@.subrange(from as int, to as int), c),
        r < to ==> s@[r as int] == c,
        forall|i: int| from <= i < r ==> s@[i] != c,
    decreases to - from,
{
    let ghost part = s@.subrange(from as int, to as int);
    if from == to {
        proof {
            assert(s@.subrange(from as int, from as int) =~= Seq::empty());
        }
        return from;
    }
    if s[from] == c {
        proof {
            assert(s@.subrange(from as int, from as int) =~= Seq::empty());
            assert(part[0] == s@[from as int]);
        }
        return from;
    }
    let r: usize = until_end(s, from + 1, to, c);
    proof {
        assert(part[0] == s@[from as int]);
        assert(part.skip(1) =~= s@.subrange(from + 1, to as int));
        assert(s@.subrange(from as int, r as int) =~= seq![s@[from as int]] + s@.subrange(
            from + 1,
            r as int,
        ));
    }
    r
}

/// The pieces of two strings with a separator between them are those of the one, then those
/// of the other.
pub proof fn split_on_concat(a: Seq<char>, b: Seq<char>, sep: char)
    ensures
        split_on(a + seq![sep] + b, sep) == split_on(a, sep) + split_on(b, sep),
        split_on(b, sep).len() >= 1,
    decreases b.len(),
{
    let s = a + seq![sep] + b;
    if b.len() == 0 {
        assert(s.drop_last() =~= a);
        assert(split_on(s, sep) =~= split_on(a, sep) + split_on(b, sep));
    } else {
        let c = b.drop_last();
        split_on_concat(a, c, sep);
        assert(s.drop_last() =~= a + seq![sep] + c);
        assert(split_on(s, sep) =~= split_on(a, sep) + split_on(b, sep));
    }
}

} // verus!
