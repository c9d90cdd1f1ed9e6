//! The local agent runtime's request handling: which requests carry the
//! token, how a request is split into its first line and body, which route
//! a request asks for, and how a JSON answer is framed.
use vstd::prelude::*;
use vstd::string::StringSliceAdditionalSpecFns;

use crate::text::{
    chars_of, chars_to_string, decimal, decimal_string, str_eq, string_push_str, trim_end_chars,
};

verus! {

broadcast use vstd::string::group_string_axioms;

/// `str::trim_end`: the slice without trailing white space.
#[verifier::external_body]
fn str_trim_end(s: &str) -> (r: &str)
    ensures
        r@ == trim_end_chars(s@),
{
    s.trim_end()
}

/// `s[i..j]` is a line of `s`: it starts at the beginning or after a line
/// feed, ends at the end or at a line feed, and holds no line feed.
pub open spec fn is_line_span(s: Seq<char>, i: int, j: int) -> bool {
    &&& 0 <= i <= j <= s.len()
    &&& i == 0 || s[i - 1] == '\n'
    &&& j == s.len() || s[j] == '\n'
    &&& forall|k: int| i <= k < j ==> s[k] != '\n'
}

/// The header line that carries the token.
pub open spec fn bearer_line(token: Seq<char>) -> Seq<char> {
    "Authorization: Bearer "@ + token
}

/// Some line of the request, without its trailing white space, is exactly
/// the bearer header of the token.
pub open spec fn spec_is_authorized(request: Seq<char>, token: Seq<char>) -> bool {
    exists|i: int, j: int|
        #![trigger is_line_span(request, i, j)]
        is_line_span(request, i, j) && trim_end_chars(request.subrange(i, j)) == bearer_line(token)
}

/// Whether the request carries the runtime's token.
pub fn is_authorized(request: &str, token: &str) -> (r: bool)
    ensures
        r == spec_is_authorized(request@, token@),
{
    let mut expected = "Authorization: Bearer ".to_owned();
    string_push_str(&mut expected, token);
    let chars = chars_of(request);
    let n = chars.len();
    let mut start: usize = 0;
    let mut k: usize = 0;
    while k < n
        invariant
            start <= k <= n,
            n == chars@.len(),
            chars@ == request@,
            expected@ == bearer_line(token@),
            start == 0 || chars@[start - 1] == '\n',
            forall|m: int| start <= m < k ==> chars@[m] != '\n',
            forall|i: int, j: int|
                #![trigger is_line_span(request@, i, j)]
                is_line_span(request@, i, j) && j < k ==> trim_end_chars(request@.subrange(i, j)) != bearer_line(
                    token@,
                ),
        decreases n - k,
    {
        if chars[k] == '\n' {
            if line_is(&chars, start, k, expected.as_str()) {
                assert(is_line_span(request@, start as int, k as int));
                return true;
            }
            proof {
                lemma_only_line_ending_at(request@, start as int, k as int);
            }
            start = k + 1;
        }
        k += 1;
    }
    if line_is(&chars, start, n, expected.as_str()) {
        assert(is_line_span(request@, start as int, n as int));
        return true;
    }
    proof {
        lemma_only_line_ending_at(request@, start as int, n as int);
    }
    false
}

/// Whether `chars[start..end]`, without trailing white space, is `expected`.
fn line_is(chars: &Vec<char>, start: usize, end: usize, expected: &str) -> (r: bool)
    requires
        start <= end <= chars@.len(),
    ensures
        r == (trim_end_chars(chars@.subrange(start as int, end as int)) == expected@),
{
    let line = chars_to_string(chars, start, end);
    let trimmed = str_trim_end(line.as_str());
    str_eq(trimmed, expected)
}

/// The line that ends at `j` starts at `start`.
proof fn lemma_only_line_ending_at(s: Seq<char>, start: int, j: int)
    requires
        0 <= start <= j <= s.len(),
        start == 0 || s[start - 1] == '\n',
        forall|m: int| start <= m < j ==> s[m] != '\n',
    ensures
        forall|i: int| #![trigger is_line_span(s, i, j)] is_line_span(s, i, j) ==> i == start,
{
    assert forall|i: int| #![trigger is_line_span(s, i, j)] is_line_span(s, i, j) implies i == start by {
        if i < start {
            assert(s[start - 1] == '\n');
        } else if i > start {
            assert(s[i - 1] == '\n');
        }
    }
}

/// The index of the first line feed of `s`, or its length.
pub open spec fn first_newline(s: Seq<char>) -> int
    decreases s.len(),
{
    if s.len() == 0 {
        0
    } else if s[0] == '\n' {
        0
    } else {
        1 + first_newline(s.drop_first())
    }
}

proof fn lemma_first_newline(s: Seq<char>)
    ensures
        0 <= first_newline(s) <= s.len(),
        first_newline(s) < s.len() ==> s[first_newline(s)] == '\n',
        forall|k: int| 0 <= k < first_newline(s) ==> s[k] != '\n',
    decreases s.len(),
{
    if s.len() > 0 && s[0] != '\n' {
        lemma_first_newline(s.drop_first());
        assert forall|k: int| 0 <= k < first_newline(s) implies s[k] != '\n' by {
            if k > 0 {
                assert(s[k] == s.drop_first()[k - 1]);
            }
        }
    }
}

/// The first line of a request as `str::lines` yields it: up to the first
/// line feed, without a carriage return before it.
pub open spec fn spec_first_line(s: Seq<char>) -> Seq<char> {
    let f = first_newline(s);
    let line = s.subrange(0, f);
    if f < s.len() && line.len() > 0 && line.last() == '\r' {
        line.drop_last()
    } else {
        line
    }
}

/// The request line of a request.
pub fn first_line(request: &str) -> (r: String)
    ensures
        r@ == spec_first_line(request@),
{
    let chars = chars_of(request);
    proof {
        lemma_first_newline(request@);
    }
    let mut k: usize = 0;
    while k < chars.len() && chars[k] != '\n'
        invariant
            k <= chars@.len(),
            chars@ == request@,
            forall|m: int| 0 <= m < k ==> chars@[m] != '\n',
        decreases chars@.len() - k,
    {
        k += 1;
    }
    proof {
        if (k as int) < first_newline(request@) {
            assert(request@[k as int] != '\n');
        }
        if (k as int) > first_newline(request@) {
            assert(request@[first_newline(request@)] != '\n');
        }
    }
    let mut end = k;
    if k < chars.len() && k > 0 && chars[k - 1] == '\r' {
        end = k - 1;
        assert(request@.subrange(0, k as int).drop_last() =~= request@.subrange(0, end as int));
    }
    chars_to_string(&chars, 0, end)
}

/// The separator between the head and the body of a request.
pub open spec fn head_separator() -> Seq<char> {
    seq!['\r', '\n', '\r', '\n']
}

/// The first index at or after `i` where `head_separator` starts, if any.
pub open spec fn separator_from(s: Seq<char>, i: int) -> Option<int>
    decreases s.len() - i,
{
    if i < 0 || i + 4 > s.len() {
        None
    } else if s.subrange(i, i + 4) == head_separator() {
        Some(i)
    } else {
        separator_from(s, i + 1)
    }
}

proof fn lemma_separator_from(s: Seq<char>, i: int)
    requires
        0 <= i,
    ensures
        match separator_from(s, i) {
            Some(p) => i <= p && p + 4 <= s.len() && s.subrange(p, p + 4) == head_separator(),
            None => true,
        },
    decreases s.len() - i,
{
    if i + 4 <= s.len() && s.subrange(i, i + 4) != head_separator() {
        lemma_separator_from(s, i + 1);
    }
}

/// The body of a request as `split("\r\n\r\n").nth(1)` reads it: the text
/// between the first separator and the next one (or the end); empty when
/// there is no separator.
pub open spec fn spec_request_body(s: Seq<char>) -> Seq<char> {
    match separator_from(s, 0) {
        None => Seq::empty(),
        Some(p) => match separator_from(s, p + 4) {
            None => s.subrange(p + 4, s.len() as int),
            Some(q) => s.subrange(p + 4, q),
        },
    }
}

fn find_separator(chars: &Vec<char>, from: usize) -> (r: Option<usize>)
    requires
        from <= chars@.len(),
    ensures
        match r {
            Some(p) => separator_from(chars@, from as int) == Some(p as int),
            None => separator_from(chars@, from as int) is None,
        },
    decreases chars@.len() - from,
{
    if chars.len() - from < 4 {
        return None;
    }
    if chars[from] == '\r' && chars[from + 1] == '\n' && chars[from + 2] == '\r' && chars[from + 3] == '\n' {
        assert(chars@.subrange(from as int, from + 4) =~= head_separator());
        return Some(from);
    }
    assert(chars@.subrange(from as int, from + 4) != head_separator()) by {
        let w = chars@.subrange(from as int, from + 4);
        if w == head_separator() {
            assert(w[0] == '\r' && w[1] == '\n' && w[2] == '\r' && w[3] == '\n');
        }
    }
    find_separator(chars, from + 1)
}

/// The body of a request.
pub fn request_body(request: &str) -> (r: String)
    ensures
        r@ == spec_request_body(request@),
{
    let chars = chars_of(request);
    proof {
        lemma_separator_from(request@, 0);
    }
    match find_separator(&chars, 0) {
        None => String::new(),
        Some(p) => {
            let len = chars.len();
            assert(p + 4 <= len);
            match find_separator(&chars, p + 4) {
                None => chars_to_string(&chars, p + 4, chars.len()),
                Some(q) => {
                    proof {
                        lemma_separator_from(request@, p + 4);
                    }
                    chars_to_string(&chars, p + 4, q)
                },
            }
        },
    }
}

/// What a request to the runtime asks for.
#[derive(Debug, Clone, Copy, PartialEq, Eq, Structural)]
pub enum RuntimeRoute {
    Context,
    Selection,
    CurrentResult,
    Handoff,
    NotFound,
}

pub open spec fn starts_with(s: Seq<char>, prefix: Seq<char>) -> bool {
    prefix.len() <= s.len() && s.subrange(0, prefix.len() as int) == prefix
}

/// `GET /context`, `GET /selection` and `GET /result/current`, with or
/// without a query, and `POST /handoff`; anything else is not found.
pub open spec fn spec_route_of(line: Seq<char>) -> RuntimeRoute {
    if starts_with(line, "GET /context "@) || starts_with(line, "GET /context?"@) {
        RuntimeRoute::Context
    } else if starts_with(line, "GET /selection "@) || starts_with(line, "GET /selection?"@) {
        RuntimeRoute::Selection
    } else if starts_with(line, "GET /result/current "@) || starts_with(line, "GET /result/current?"@) {
        RuntimeRoute::CurrentResult
    } else if starts_with(line, "POST /handoff "@) {
        RuntimeRoute::Handoff
    } else {
        RuntimeRoute::NotFound
    }
}

fn has_prefix(line: &Vec<char>, prefix: &str) -> (r: bool)
    ensures
        r == starts_with(line@, prefix@),
{
    let p = chars_of(prefix);
    if p.len() > line.len() {
        return false;
    }
    let mut k: usize = 0;
    while k < p.len()
        invariant
            k <= p@.len() <= line@.len(),
            p@ == prefix@,
            forall|m: int| 0 <= m < k ==> line@[m] == p@[m],
        decreases p@.len() - k,
    {
        if line[k] != p[k] {
            assert(line@.subrange(0, p@.len() as int)[k as int] != p@[k as int]);
            return false;
        }
        k += 1;
    }
    assert(line@.subrange(0, p@.len() as int) =~= p@);
    true
}

/// The route that a request line asks for.
pub fn route_of(first_line: &str) -> (r: RuntimeRoute)
    ensures
        r == spec_route_of(first_line@),
{
    let line = chars_of(first_line);
    if has_prefix(&line, "GET /context ") || has_prefix(&line, "GET /context?") {
        RuntimeRoute::Context
    } else if has_prefix(&line, "GET /selection ") || has_prefix(&line, "GET /selection?") {
        RuntimeRoute::Selection
    } else if has_prefix(&line, "GET /result/current ") || has_prefix(&line, "GET /result/current?") {
        RuntimeRoute::CurrentResult
    } else if has_prefix(&line, "POST /handoff ") {
        RuntimeRoute::Handoff
    } else {
        RuntimeRoute::NotFound
    }
}

/// An HTTP/1.1 answer with a JSON body, its length in bytes, and a closed
/// connection.
pub open spec fn spec_http_json_response(status: Seq<char>, body: Seq<char>) -> Seq<char> {
    "HTTP/1.1 "@ + status + "\r\nContent-Type: application/json\r\nContent-Length: "@ + decimal(
        vstd::utf8::encode_utf8(body).len(),
    ) + "\r\nConnection: close\r\n\r\n"@ + body
}

/// The text of an answer of the runtime.
pub fn http_json_response(status: &str, body: &str) -> (r: String)
    ensures
        r@ == spec_http_json_response(status@, body@),
{
    let mut r = "HTTP/1.1 ".to_owned();
    string_push_str(&mut r, status);
    string_push_str(&mut r, "\r\nContent-Type: application/json\r\nContent-Length: ");
    let n = body.as_bytes().len();
    let length = decimal_string(n as u64);
    assert(length@ == decimal(vstd::utf8::encode_utf8(body@).len()));
    string_push_str(&mut r, length.as_str());
    string_push_str(&mut r, "\r\nConnection: close\r\n\r\n");
    string_push_str(&mut r, body);
    r
}

} // verus!
