//! Framing of the container-name lookup over the local administrative socket:
//! the request line, and the checks on the raw response before its JSON body
//! is read.

use crate::profile::utf8_text;
use vstd::prelude::*;
use vstd::utf8::valid_utf8;

verus! {

/// Path of the administrative socket.
pub const DOCKER_SOCK: &'static str = "/var/run/docker.sock";

/// Why a response was refused.
pub enum ResponseError {
    /// The response is not valid UTF-8.
    NotText,
    /// The response has no status token.
    MissingStatus,
    /// The status token is not `200`; it is held here.
    BadStatus(Vec<u8>),
    /// No blank line separates the headers from the body.
    MissingBody,
}

/// ASCII whitespace, as `split_ascii_whitespace` splits on it.
pub open spec fn is_ascii_space(c: u8) -> bool {
    c == 32u8 || c == 9u8 || c == 10u8 || c == 12u8 || c == 13u8
}

/// The first index from `i` on that is not whitespace (or the length).
pub open spec fn skip_space(b: Seq<u8>, i: int) -> int
    decreases b.len() - i,
{
    if 0 <= i < b.len() && is_ascii_space(b[i]) {
        skip_space(b, i + 1)
    } else {
        i
    }
}

/// The first index from `i` on that is whitespace (or the length).
pub open spec fn token_end(b: Seq<u8>, i: int) -> int
    decreases b.len() - i,
{
    if 0 <= i < b.len() && !is_ascii_space(b[i]) {
        token_end(b, i + 1)
    } else {
        i
    }
}

/// The second whitespace-delimited token of `b`, if it has one.
pub open spec fn status_token(b: Seq<u8>) -> Option<Seq<u8>> {
    let s1 = skip_space(b, token_end(b, skip_space(b, 0)));
    if s1 < b.len() {
        Some(b.subrange(s1, token_end(b, s1)))
    } else {
        None
    }
}

/// The first index from `i` on that holds CR or LF (or the length).
pub open spec fn line_end(b: Seq<u8>, i: int) -> int
    decreases b.len() - i,
{
    if 0 <= i < b.len() && b[i] != 13u8 && b[i] != 10u8 {
        line_end(b, i + 1)
    } else {
        i
    }
}

/// The status line: the response up to its first line break.
pub open spec fn status_line(b: Seq<u8>) -> Seq<u8> {
    b.take(line_end(b, 0))
}

/// Whether the blank-line separator `\r\n\r\n` starts at `i`.
pub open spec fn separator_at(b: Seq<u8>, i: int) -> bool {
    0 <= i && i + 4 <= b.len() && b[i] == 13u8 && b[i + 1] == 10u8 && b[i + 2] == 13u8 && b[i + 3]
        == 10u8
}

/// The first position from `i` on where the separator starts.
pub open spec fn find_separator(b: Seq<u8>, i: int) -> Option<int>
    decreases b.len() - i,
{
    if i < 0 || i + 4 > b.len() {
        None
    } else if separator_at(b, i) {
        Some(i)
    } else {
        find_separator(b, i + 1)
    }
}

/// The status that marks success.
pub open spec fn status_ok() -> Seq<u8> {
    seq![50u8, 48u8, 48u8]
}

/// The HTTP request that asks for the container named by `hostname`.
pub fn container_request(hostname: &str) -> (r: String)
    ensures
        r@ == "GET /containers/"@ + hostname@ + "/json HTTP/1.0\r\n\r\n"@,
{
    let head = String::from_str("GET /containers/");
    let with_host = head.concat(hostname);
    with_host.concat("/json HTTP/1.0\r\n\r\n")
}

fn skip_space_from(b: &Vec<u8>, start: usize) -> (r: usize)
    requires
        start <= b@.len(),
    ensures
        r == skip_space(b@, start as int),
        start <= r <= b@.len(),
{
    let mut i = start;
    while i < b.len() && (b[i] == 32u8 || b[i] == 9u8 || b[i] == 10u8 || b[i] == 12u8 || b[i] == 13u8)
        invariant
            start <= i <= b@.len(),
            skip_space(b@, i as int) == skip_space(b@, start as int),
        decreases b@.len() - i,
    {
        i = i + 1;
    }
    i
}

fn token_end_from(b: &Vec<u8>, start: usize) -> (r: usize)
    requires
        start <= b@.len(),
    ensures
        r == token_end(b@, start as int),
        start <= r <= b@.len(),
{
    let mut i = start;
    while i < b.len() && !(b[i] == 32u8 || b[i] == 9u8 || b[i] == 10u8 || b[i] == 12u8 || b[i]
        == 13u8)
        invariant
            start <= i <= b@.len(),
            token_end(b@, i as int) == token_end(b@, start as int),
        decreases b@.len() - i,
    {
        i = i + 1;
    }
    i
}

fn status_line_end(b: &Vec<u8>) -> (r: usize)
    ensures
        r == line_end(b@, 0),
        r <= b@.len(),
{
    let mut i: usize = 0;
    while i < b.len() && b[i] != 13u8 && b[i] != 10u8
        invariant
            i <= b@.len(),
            line_end(b@, i as int) == line_end(b@, 0),
        decreases b@.len() - i,
    {
        i = i + 1;
    }
    i
}

fn copy_range(b: &Vec<u8>, from: usize, to: usize) -> (r: Vec<u8>)
    requires
        from <= to <= b@.len(),
    ensures
        r@ == b@.subrange(from as int, to as int),
{
    let mut out: Vec<u8> = Vec::new();
    let mut i = from;
    while i < to
        invariant
            from <= i <= to <= b@.len(),
            out@ == b@.subrange(from as int, i as int),
        decreases to - i,
    {
        out.push(b[i]);
        i = i + 1;
    }
    out
}

/// The status token of a response: its second whitespace-delimited token.
pub fn response_status(b: &Vec<u8>) -> (r: Option<Vec<u8>>)
    ensures
        r is Some <==> status_token(b@) is Some,
        r matches Some(t) ==> t@ == status_token(b@)->Some_0,
{
    let s0 = skip_space_from(b, 0);
    let e0 = token_end_from(b, s0);
    let s1 = skip_space_from(b, e0);
    if s1 < b.len() {
        let e1 = token_end_from(b, s1);
        Some(copy_range(b, s1, e1))
    } else {
        None
    }
}

/// Where the first `\r\n\r\n` of the response starts.
pub fn response_separator(b: &Vec<u8>) -> (r: Option<usize>)
    ensures
        r is Some <==> find_separator(b@, 0) is Some,
        r matches Some(p) ==> p == find_separator(b@, 0)->Some_0 && p + 4 <= b@.len(),
{
    let mut i: usize = 0;
    while i < b.len() && b.len() - i >= 4
        invariant
            i <= b@.len(),
            find_separator(b@, i as int) == find_separator(b@, 0),
        decreases b@.len() - i,
    {
        if b[i] == 13u8 && b[i + 1] == 10u8 && b[i + 2] == 13u8 && b[i + 3] == 10u8 {
            return Some(i);
        }
        i = i + 1;
    }
    None
}

/// Checks a raw response and returns its body, the bytes after the first
/// blank line. It must be UTF-8, the second token of its status line (the
/// bytes before the first CR or LF) must be `200`, and the blank line must be
/// there; the first check that fails gives the error.
pub fn response_body(b: &Vec<u8>) -> (r: Result<Vec<u8>, ResponseError>)
    ensures
        !valid_utf8(b@) ==> r matches Err(ResponseError::NotText),
        valid_utf8(b@) && status_token(status_line(b@)) is None ==> r matches Err(
            ResponseError::MissingStatus,
        ),
        valid_utf8(b@) && status_token(status_line(b@)) is Some && status_token(status_line(b@))->Some_0
            != status_ok() ==> (r matches Err(ResponseError::BadStatus(code)) && code@
            == status_token(status_line(b@))->Some_0),
        valid_utf8(b@) && status_token(status_line(b@)) == Some(status_ok()) && find_separator(b@, 0)
            is None ==> r matches Err(ResponseError::MissingBody),
        valid_utf8(b@) && status_token(status_line(b@)) == Some(status_ok()) && find_separator(b@, 0)
            is Some ==> (
        r matches Ok(body) && body@ == b@.skip(find_separator(b@, 0)->Some_0 + 4)),
{
    let copy = b.clone();
    assert(copy@ == b@);
    if utf8_text(copy).is_none() {
        return Err(ResponseError::NotText);
    }
    let end = status_line_end(b);
    let line = copy_range(b, 0, end);
    assert(line@ == status_line(b@));
    let status = match response_status(&line) {
        Some(t) => t,
        None => return Err(ResponseError::MissingStatus),
    };
    if !(status.len() == 3 && status[0] == 50u8 && status[1] == 48u8 && status[2] == 48u8) {
        assert(status@ != status_ok());
        return Err(ResponseError::BadStatus(status));
    }
    assert(status@ == status_ok());
    match response_separator(b) {
        Some(p) => Ok(copy_range(b, p + 4, b.len())),
        None => Err(ResponseError::MissingBody),
    }
}

/// The container name with one leading `/` taken off.
pub fn container_name(name: &str) -> (r: String)
    ensures
        r@ == (if name@.len() > 0 && name@[0] == '/' {
            name@.skip(1)
        } else {
            name@
        }),
{
    let n = name.unicode_len();
    if n > 0 && name.get_char(0) == '/' {
        name.substring_char(1, n).to_string()
    } else {
        name.to_string()
    }
}

} // verus!
