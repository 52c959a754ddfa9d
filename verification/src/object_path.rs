//! Object-store paths as text.

use vstd::prelude::*;
use vstd::string::*;

use crate::text::{decimal_text, decimal_text_denotes, is_digit, segments, split_text, texts};

verus! {

/// A mark, or the blank, that paths hold as it is.
pub open spec fn plain_mark(c: char) -> bool {
    ||| c == '-' || c == '_' || c == '.'
    ||| c == ' ' || c == '!' || c == '$' || c == '&' || c == '\''
    ||| c == '(' || c == ')' || c == '+' || c == ',' || c == ':'
    ||| c == ';' || c == '=' || c == '@'
}

/// A character that paths hold as it is.
pub open spec fn plain_char(c: char) -> bool {
    ||| 'a' <= c && c <= 'z'
    ||| 'A' <= c && c <= 'Z'
    ||| '0' <= c && c <= '9'
    ||| plain_mark(c)
}

/// Nothing but plain characters.
pub open spec fn all_plain(s: Seq<char>) -> bool {
    forall|i: int| 0 <= i < s.len() ==> plain_char(#[trigger] s[i])
}

/// A segment that paths hold as it is: plain characters, and neither `.` nor `..`.
pub open spec fn plain_segment(s: Seq<char>) -> bool {
    &&& s.len() > 0
    &&& all_plain(s)
    &&& s != seq!['.']
    &&& s != seq!['.', '.']
}

/// A path whose segments are all plain.
pub open spec fn plain_path(s: Seq<char>) -> bool {
    forall|i: int| 0 <= i < segments(s).len() ==> plain_segment(#[trigger] segments(s)[i])
}

/// Something that makes one segment of a path.
pub open spec fn is_segment(s: Seq<char>) -> bool {
    s.len() > 0 && !s.contains('/')
}

/// `stored` has the segments of `raw`, one for one: none is empty, and those that are plain are
/// as they were.
pub open spec fn keeps_segments(raw: Seq<char>, stored: Seq<char>) -> bool {
    &&& segments(stored).len() == segments(raw).len()
    &&& forall|i: int|
        0 <= i < segments(stored).len() ==> (#[trigger] segments(stored)[i]).len() > 0 && (
        plain_segment(segments(raw)[i]) ==> segments(stored)[i] == segments(raw)[i])
}

/// The path that stands for a raw string in the store.
pub uninterp spec fn stored_path(raw: Seq<char>) -> Seq<char>;

/// `object_store::path::Path::from`, as text: empty segments are dropped, and
/// characters that stores handle badly are percent-encoded, in each segment on its
/// own. So where no segment is empty they are kept one for one, the plain ones as
/// they are, and a path whose segments are all plain is kept as it is. What becomes
/// of other characters is left to the name `stored_path`.
#[verifier::external_body]
pub(crate) fn object_path(raw: &str) -> (r: String)
    ensures
        r@ == stored_path(raw@),
        plain_path(raw@) ==> r@ == raw@,
        (forall|i: int| 0 <= i < segments(raw@).len() ==> (#[trigger] segments(raw@)[i]).len() > 0)
            ==> keeps_segments(raw@, r@),
{
    String::from(object_store::path::Path::from(raw))
}

/// The parts of a stored path: what stands between the slashes. A slash at the
/// end starts no part, so the empty path has none.
pub open spec fn path_parts(location: Seq<char>) -> Seq<Seq<char>> {
    let all = segments(location);
    if all.last().len() == 0 {
        all.drop_last()
    } else {
        all
    }
}

/// The parts of a stored path.
pub fn parts_of(location: &str) -> (r: Vec<String>)
    ensures
        texts(r@) == path_parts(location@),
{
    let mut parts = split_text(location, '/');
    let ghost all = parts@;
    let n: usize = parts.len() - 1;
    proof {
        assert(texts(all).last() == all[n as int]@);
    }
    if parts[n].as_str().unicode_len() == 0 {
        parts.pop();
        proof {
            assert(texts(parts@) =~= texts(all).drop_last());
        }
    }
    parts
}

/// A path with plain segments stays one when a plain segment is put behind it.
pub proof fn plain_path_join(head: Seq<char>, tail: Seq<char>)
    requires
        plain_path(head),
        plain_segment(tail),
    ensures
        plain_path(head + seq!['/'] + tail),
        segments(head + seq!['/'] + tail) == segments(head).push(tail),
{
    assert(!tail.contains('/')) by {
        if tail.contains('/') {
            let i = choose|i: int| 0 <= i < tail.len() && tail[i] == '/';
            assert(plain_char(tail[i]));
        }
    }
    crate::text::split_on_join(head, tail, '/');
    let all = segments(head + seq!['/'] + tail);
    assert forall|i: int| 0 <= i < all.len() implies plain_segment(#[trigger] all[i]) by {
        if i < segments(head).len() {
            assert(all[i] == segments(head)[i]);
        }
    }
}

/// A plain segment is a path of its own.
pub proof fn plain_segment_path(s: Seq<char>)
    requires
        plain_segment(s),
    ensures
        plain_path(s),
        segments(s) == seq![s],
{
    assert(!s.contains('/')) by {
        if s.contains('/') {
            let i = choose|i: int| 0 <= i < s.len() && s[i] == '/';
            assert(plain_char(s[i]));
        }
    }
    crate::text::split_on_absent(s, '/');
}

/// Plain characters next to plain characters.
pub proof fn plain_concat(a: Seq<char>, b: Seq<char>)
    requires
        all_plain(a),
        all_plain(b),
    ensures
        all_plain(a + b),
{
    assert forall|i: int| 0 <= i < (a + b).len() implies plain_char(#[trigger] (a + b)[i]) by {
        if i < a.len() {
            assert((a + b)[i] == a[i]);
        } else {
            assert((a + b)[i] == b[i - a.len()]);
        }
    }
}

/// Plain characters that are not all dots make a plain segment.
pub proof fn plain_word(s: Seq<char>, i: int)
    requires
        all_plain(s),
        0 <= i < s.len(),
        s[i] != '.',
    ensures
        plain_segment(s),
{
    assert(seq!['.'][0] == '.');
    assert(seq!['.', '.'][0] == '.' && seq!['.', '.'][1] == '.');
}

/// A number is written in plain characters.
pub proof fn decimal_is_plain(n: nat)
    ensures
        all_plain(decimal_text(n)),
        decimal_text(n).len() > 0,
{
    decimal_text_denotes(n);
    let s = decimal_text(n);
    assert forall|i: int| 0 <= i < s.len() implies plain_char(#[trigger] s[i]) by {
        assert(is_digit(s[i]));
    }
}

} // verus!
