//! The answers to health probes while the server is starting.
//!
//! Startup can take minutes. Health probes are answered with success from the start, so
//! that supervisors leave the node alone; every other request is told to come back.

use vstd::prelude::*;
use vstd::string::*;
use vstd::utf8::{decode_utf8, encode_utf8, valid_utf8};

use crate::text::{
    chars_of, decimal_text, is_space, is_white_space, push_decimal, skip_space, space_end, until,
    until_end,
};

verus! {

/// How many bytes of a request are read at most.
pub const MAX_HEAD_BYTES: usize = 4096;

/// The response with this status and body.
pub open spec fn response_text(status: Seq<char>, body: Seq<char>) -> Seq<char> {
    "HTTP/1.1 "@ + status + "\r\ncontent-type: text/plain; charset=utf-8\r\ncontent-length: "@
        + decimal_text(encode_utf8(body).len())
        + "\r\nretry-after: 5\r\nconnection: close\r\n\r\n"@ + body
}

/// A response that closes the connection. Its length is that of the body in bytes.
pub fn probe_response(status: &str, body: &str) -> (r: String)
    ensures
        r@ == response_text(status@, body@),
{
    let mut out = "HTTP/1.1 ".to_owned();
    out.append(status);
    out.append("\r\ncontent-type: text/plain; charset=utf-8\r\ncontent-length: ");
    let length: usize = body.as_bytes().len();
    push_decimal(&mut out, length as u64);
    out.append("\r\nretry-after: 5\r\nconnection: close\r\n\r\n");
    out.append(body);
    out
}

/// The line that ends the head of a request.
pub open spec fn blank_line() -> Seq<u8> {
    seq![13u8, 10u8, 13u8, 10u8]
}

/// The head of the request ends in these bytes.
pub open spec fn has_blank_line(bytes: Seq<u8>) -> bool {
    exists|i: int|
        0 <= i && i + 4 <= bytes.len() && #[trigger] bytes.subrange(i, i + 4) == blank_line()
}

/// Whether enough of a request has been read: its head is complete, or as much as is
/// read at most.
pub fn head_is_complete(bytes: &Vec<u8>) -> (r: bool)
    ensures
        r == (has_blank_line(bytes@) || bytes.len() == MAX_HEAD_BYTES),
{
    if bytes.len() == MAX_HEAD_BYTES {
        return true;
    }
    let n: usize = bytes.len();
    let mut i: usize = 0;
    while n - i >= 4
        invariant
            n == bytes.len(),
            i <= n,
            forall|j: int|
                0 <= j < i && j + 4 <= n ==> #[trigger] bytes@.subrange(j, j + 4) != blank_line(),
        decreases n - i,
    {
        if bytes[i] == 13 && bytes[i + 1] == 10 && bytes[i + 2] == 13 && bytes[i + 3] == 10 {
            proof {
                assert(bytes@.subrange(i as int, i + 4) =~= blank_line());
            }
            return true;
        }
        proof {
            let w = bytes@.subrange(i as int, i + 4);
            assert(w[0] == bytes@[i as int] && w[1] == bytes@[i + 1] && w[2] == bytes@[i + 2]
                && w[3] == bytes@[i + 3]);
        }
        i += 1;
    }
    false
}

/// The word that `s` starts with.
pub open spec fn leading_word(s: Seq<char>) -> Seq<char>
    decreases s.len(),
{
    if s.len() == 0 || is_white_space(s[0]) {
        Seq::empty()
    } else {
        seq![s[0]] + leading_word(s.skip(1))
    }
}

/// The first word of `s`, empty where there is none.
pub open spec fn first_word(s: Seq<char>) -> Seq<char> {
    leading_word(skip_space(s))
}

/// What stands in `s` behind its first word.
pub open spec fn after_first_word(s: Seq<char>) -> Seq<char> {
    skip_space(s).skip(first_word(s).len() as int)
}

/// A request for one of the health endpoints: the first line has the method `GET`, and
/// the path, up to its query, is that of one.
pub open spec fn is_health_request(head: Seq<char>) -> bool {
    let line = until(head, '\n');
    let path = until(first_word(after_first_word(line)), '?');
    &&& first_word(line) == "GET"@
    &&& path == "/health"@ || path == "/api/v1/health"@ || path == "/ping"@
}

fn word_end(s: &Vec<char>, from: usize, to: usize) -> (r: usize)
    requires
        from <= to <= s.len(),
    ensures
        from <= r <= to,
        s@.subrange(from as int, r as int) == leading_word(s@.subrange(from as int, to as int)),
    decreases to - from,
{
    let ghost part = s@.subrange(from as int, to as int);
    if from == to {
        proof {
            assert(s@.subrange(from as int, from as int) =~= Seq::empty());
        }
        return from;
    }
    if is_space(s[from]) {
        proof {
            assert(s@.subrange(from as int, from as int) =~= Seq::empty());
            assert(part[0] == s@[from as int]);
        }
        return from;
    }
    let r: usize = word_end(s, from + 1, to);
    proof {
        assert(part[0] == s@[from as int]);
        assert(part.skip(1) =~= s@.subrange(from + 1, to as int));
        assert(s@.subrange(from as int, r as int) =~= seq![s@[from as int]] + s@.subrange(
            from + 1,
            r as int,
        ));
    }
    r
}

/// The characters of a line, as their own list.
fn line_of(s: &str) -> (r: Vec<char>)
    ensures
        r@ == until(s@, '\n'),
{
    let cs = chars_of(s);
    let n: usize = cs.len();
    let end: usize = until_end(&cs, 0, n, '\n');
    proof {
        assert(cs@.subrange(0, n as int) =~= cs@);
    }
    let mut line: Vec<char> = Vec::new();
    let mut i: usize = 0;
    while i < end
        invariant
            i <= end <= cs.len(),
            line@ == cs@.subrange(0, i as int),
        decreases end - i,
    {
        line.push(cs[i]);
        i += 1;
        proof {
            assert(line@ =~= cs@.subrange(0, i as int));
        }
    }
    line
}

/// Whether `s[from..to]` is `word`.
fn is_word(s: &Vec<char>, from: usize, to: usize, word: &str) -> (r: bool)
    requires
        from <= to <= s.len(),
    ensures
        r == (s@.subrange(from as int, to as int) == word@),
{
    let w = chars_of(word);
    let ghost part = s@.subrange(from as int, to as int);
    if w.len() != to - from {
        return false;
    }
    let mut i: usize = 0;
    while i < w.len()
        invariant
            i <= w.len(),
            w@ == word@,
            from + w.len() == to,
            to <= s.len(),
            part == s@.subrange(from as int, to as int),
            forall|j: int| 0 <= j < i ==> part[j] == w@[j],
        decreases w.len() - i,
    {
        if s[from + i] != w[i] {
            proof {
                assert(part[i as int] == s@[from + i]);
            }
            return false;
        }
        i += 1;
    }
    proof {
        assert(part =~= word@);
    }
    true
}

/// Whether a request is for one of the health endpoints.
pub fn asks_for_health(head: &str) -> (r: bool)
    ensures
        r == is_health_request(head@),
{
    let line = line_of(head);
    let n: usize = line.len();
    proof {
        assert(line@.skip(0) =~= line@);
    }
    let a: usize = space_end(&line, 0);
    proof {
        assert(line@.subrange(a as int, n as int) =~= line@.skip(a as int));
    }
    let b: usize = word_end(&line, a, n);
    let ghost rest = line@.skip(b as int);
    proof {
        assert(first_word(line@) == line@.subrange(a as int, b as int));
        assert(line@.skip(a as int).skip(b - a) =~= rest);
        assert(after_first_word(line@) == rest);
    }
    let c: usize = space_end(&line, b);
    proof {
        assert(line@.subrange(c as int, n as int) =~= line@.skip(c as int));
    }
    let d: usize = word_end(&line, c, n);
    proof {
        assert(first_word(rest) == line@.subrange(c as int, d as int));
    }
    let e: usize = until_end(&line, c, d, '?');
    is_word(&line, a, b, "GET") && (is_word(&line, c, e, "/health") || is_word(
        &line,
        c,
        e,
        "/api/v1/health",
    ) || is_word(&line, c, e, "/ping"))
}

/// The text that bytes stand for, with a replacement character for what is not UTF-8.
pub uninterp spec fn lossy_text(bytes: Seq<u8>) -> Seq<char>;

/// `String::from_utf8_lossy`: valid UTF-8 is decoded as it is. How much of anything else
/// becomes one replacement character is left to the name `lossy_text`.
#[verifier::external_body]
fn decode_lossy(bytes: &[u8]) -> (r: String)
    ensures
        r@ == lossy_text(bytes@),
        valid_utf8(bytes@) ==> r@ == decode_utf8(bytes@),
{
    String::from_utf8_lossy(bytes).into_owned()
}

/// The response to the bytes of a request that arrives while the server is starting.
pub fn answer_probe(request: &Vec<u8>) -> (r: String)
    ensures
        r@ == answer_text(lossy_text(request@)),
        valid_utf8(request@) ==> r@ == answer_text(decode_utf8(request@)),
{
    let head = decode_lossy(request.as_slice());
    answer_request(head.as_str())
}

/// The response to a request with this head.
pub open spec fn answer_text(head: Seq<char>) -> Seq<char> {
    if is_health_request(head) {
        response_text("200 OK"@, "OK"@)
    } else {
        response_text(
            "503 Service Unavailable"@,
            "server is starting: catalog load / WAL replay in progress\n"@,
        )
    }
}

/// The response to a request with this head.
pub fn answer_request(head: &str) -> (r: String)
    ensures
        r@ == answer_text(head@),
{
    if asks_for_health(head) {
        probe_response("200 OK", "OK")
    } else {
        probe_response(
            "503 Service Unavailable",
            "server is starting: catalog load / WAL replay in progress\n",
        )
    }
}

} // verus!
