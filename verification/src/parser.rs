//! The wire parser: from the bytes that a connection delivered to a request.
//!
//! A request is a request line, header lines, a blank line and a body. Lines
//! end with CR LF. The request line must read `<METHOD> <PATH> HTTP/1.1`;
//! a header line that does not read `<name>: <value>` is passed over.

use crate::bytes::{ascii, copy_range, ends_with, literal, starts_with, COLON, CR, LF, SLASH, SP};
use crate::decimal::{is_number, number_of, read_decimal, Reading};
use crate::headers::{Header, Headers};
use crate::message::content_length;
use crate::request::{Method, Request, RequestView};
use vstd::prelude::*;
use vstd::slice::slice_subrange;

verus! {

/// Why the bytes are no request.
#[derive(Clone, Copy, Debug, PartialEq, Eq, Structural)]
pub enum ParseError {
    /// The first line does not read `<METHOD> <PATH> HTTP/1.1` with the
    /// method `GET` or `POST` and a path that begins with a slash.
    MalformedRequestLine,
    /// The request declares a body of more bytes than follow the blank line.
    TruncatedBody,
}

/// Whether a line ending, CR LF, stands at index `i` of `s`.
pub open spec fn is_line_end(s: Seq<u8>, i: int) -> bool {
    0 <= i && i + 1 < s.len() && s[i] == CR && s[i + 1] == LF
}

/// The index of the first line ending of `s` at or after `from`, or the
/// length of `s` where none follows: the end of the line that begins at
/// `from`.
pub open spec fn line_end(s: Seq<u8>, from: int) -> int
    decreases s.len() - from,
{
    if from < 0 || from >= s.len() {
        s.len() as int
    } else if is_line_end(s, from) {
        from
    } else {
        line_end(s, from + 1)
    }
}

/// The index at which the next line begins, for a line that ends at `end`:
/// past the line ending, or `end` itself where the input ends there.
pub open spec fn next_line(s: Seq<u8>, end: int) -> int {
    if end < s.len() {
        end + 2
    } else {
        end
    }
}

/// The end of a line lies between its beginning and the end of the input;
/// no line ending stands before it, and one stands at it unless the input
/// ends there.
pub proof fn lemma_line_end(s: Seq<u8>, from: int)
    requires
        0 <= from <= s.len(),
    ensures
        from <= line_end(s, from) <= s.len(),
        line_end(s, from) < s.len() ==> is_line_end(s, line_end(s, from)),
        forall|i: int| from <= i < line_end(s, from) ==> !is_line_end(s, i),
        from <= next_line(s, line_end(s, from)) <= s.len(),
    decreases s.len() - from,
{
    if from < s.len() && !is_line_end(s, from) {
        lemma_line_end(s, from + 1);
    }
}

/// The end of the line of `input` that begins at `from`.
pub fn find_line_end(input: &[u8], from: usize) -> (end: usize)
    requires
        from <= input.len(),
    ensures
        end == line_end(input@, from as int),
        from <= end <= input.len(),
        end < input.len() ==> end + 2 <= input.len(),
{
    let mut i: usize = from;
    while i < input.len()
        invariant
            from <= i <= input.len(),
            line_end(input@, from as int) == line_end(input@, i as int),
        decreases input.len() - i,
    {
        if input[i] == CR && i + 1 < input.len() && input[i + 1] == LF {
            return i;
        }
        i += 1;
    }
    i
}

/// Bytes put in front of a text move the end of each of its lines by their
/// count, and change nothing else.
pub proof fn lemma_line_end_shift(front: Seq<u8>, text: Seq<u8>, from: int)
    requires
        0 <= from <= text.len(),
    ensures
        line_end(front + text, front.len() + from) == front.len() + line_end(text, from),
    decreases text.len() - from,
{
    let whole = front + text;
    if from < text.len() {
        assert(whole[front.len() + from] == text[from]);
        if from + 1 < text.len() {
            assert(whole[front.len() + from + 1] == text[from + 1]);
        }
        assert(is_line_end(whole, front.len() + from) == is_line_end(text, from));
        if !is_line_end(text, from) {
            lemma_line_end_shift(front, text, from + 1);
        }
    }
}

/// A text within which no line ending stands is one line: it ends where
/// the text ends.
pub proof fn lemma_line_end_none(text: Seq<u8>, from: int)
    requires
        0 <= from <= text.len(),
        forall|i: int| from <= i < text.len() ==> !is_line_end(text, i),
    ensures
        line_end(text, from) == text.len(),
    decreases text.len() - from,
{
    if from < text.len() {
        lemma_line_end_none(text, from + 1);
    }
}

/// A line that is cut out of a text, from its beginning to its end, holds
/// no line ending: read by itself, it is the same line.
pub proof fn lemma_line_alone(s: Seq<u8>, from: int)
    requires
        0 <= from <= s.len(),
    ensures
        ({
            let line = s.subrange(from, line_end(s, from));
            line_end(line, 0) == line.len() && line.subrange(0, line_end(line, 0)) == line
        }),
{
    lemma_line_end(s, from);
    let line = s.subrange(from, line_end(s, from));
    assert forall|i: int| 0 <= i < line.len() implies !is_line_end(line, i) by {
        if is_line_end(line, i) {
            assert(line[i] == s[from + i]);
            assert(line[i + 1] == s[from + i + 1]);
            assert(is_line_end(s, from + i));
        }
    }
    lemma_line_end_none(line, 0);
    assert(line.subrange(0, line.len() as int) =~= line);
}

/// The method token of a request line; only `GET` and `POST` have one.
pub open spec fn method_token(method: Method) -> Seq<u8> {
    match method {
        Method::Get => ascii("GET"@),
        Method::Post => ascii("POST"@),
        Method::Other => Seq::empty(),
    }
}

/// The only protocol version that a request line may name.
pub open spec fn version() -> Seq<u8> {
    ascii("HTTP/1.1"@)
}

/// Whether `text` holds no space and no byte of a line ending, so that it
/// can stand between the spaces of a request line.
pub open spec fn is_token(text: Seq<u8>) -> bool {
    forall|i: int|
        0 <= i < text.len() ==> {
            let b = #[trigger] text[i];
            b != SP && b != CR && b != LF
        }
}

/// Whether `path` can be the path of a request: it is not empty, begins
/// with a slash, and holds no space and no byte of a line ending.
pub open spec fn is_target(path: Seq<u8>) -> bool {
    &&& path.len() > 0
    &&& path[0] == SLASH
    &&& is_token(path)
}

/// The request line for `method` and `path`: the method token, a space, the
/// path, a space, the version.
pub open spec fn request_line_of(method: Method, path: Seq<u8>) -> Seq<u8> {
    method_token(method) + seq![SP] + path + seq![SP] + version()
}

/// The bytes of `line` that stand where the path of a request line with
/// this method would stand.
pub open spec fn target_of(line: Seq<u8>, method: Method) -> Seq<u8> {
    line.subrange(method_token(method).len() as int + 1, line.len() - version().len() - 1)
}

/// Whether `line` is a request line with this method.
pub open spec fn reads_as(line: Seq<u8>, method: Method) -> bool {
    &&& line.len() >= method_token(method).len() + version().len() + 2
    &&& is_target(target_of(line, method))
    &&& line == request_line_of(method, target_of(line, method))
}

/// The method and the path that a request line names, or `None` where the
/// line is no request line.
pub open spec fn request_line(line: Seq<u8>) -> Option<(Method, Seq<u8>)> {
    if reads_as(line, Method::Get) {
        Some((Method::Get, target_of(line, Method::Get)))
    } else if reads_as(line, Method::Post) {
        Some((Method::Post, target_of(line, Method::Post)))
    } else {
        None
    }
}

/// Whether `path` can stand in a request line.
fn check_target(path: &[u8]) -> (valid: bool)
    ensures
        valid == is_target(path@),
{
    if path.len() == 0 || path[0] != SLASH {
        return false;
    }
    let mut i: usize = 0;
    while i < path.len()
        invariant
            i <= path.len(),
            path.len() > 0,
            path@[0] == SLASH,
            forall|k: int|
                0 <= k < i ==> {
                    let b = #[trigger] path@[k];
                    b != SP && b != CR && b != LF
                },
        decreases path.len() - i,
    {
        let b: u8 = path[i];
        if b == SP || b == CR || b == LF {
            return false;
        }
        i += 1;
    }
    true
}

/// Reads `line` as a request line with the method `method`, whose token
/// followed by a space is `opening`.
fn read_as(line: &[u8], method: Method, opening: &[u8]) -> (path: Option<Vec<u8>>)
    requires
        method != Method::Other,
        opening@ == method_token(method) + seq![SP],
    ensures
        match path {
            Some(p) => reads_as(line@, method) && p@ == target_of(line@, method),
            None => !reads_as(line@, method),
        },
{
    proof {
        reveal_strlit(" HTTP/1.1");
        reveal_strlit("HTTP/1.1");
    }
    let closing = literal(" HTTP/1.1");
    assert(closing@ =~= seq![SP] + version());
    if !starts_with(line, opening) || !ends_with(line, closing) {
        proof {
            if reads_as(line@, method) {
                assert(line@.subrange(0, opening@.len() as int) =~= opening@);
                assert(line@.subrange(line@.len() - closing@.len(), line@.len() as int)
                    =~= closing@);
            }
        }
        return None;
    }
    if line.len() - opening.len() < closing.len() {
        return None;
    }
    let from: usize = opening.len();
    let to: usize = line.len() - closing.len();
    let middle = slice_subrange(line, from, to);
    if !check_target(middle) {
        return None;
    }
    proof {
        let written = request_line_of(method, middle@);
        assert(written.len() == line@.len());
        assert forall|i: int| 0 <= i < line@.len() implies line@[i] == written[i] by {
            if i < from {
                assert(line@.subrange(0, from as int)[i] == opening@[i]);
            } else if i >= to {
                assert(line@.subrange(to as int, line@.len() as int)[i - to] == closing@[i - to]);
            } else {
                assert(middle@[i - from] == line@[i]);
            }
        }
        assert(line@ =~= written);
    }
    Some(copy_range(line, from, to))
}

/// Where the first line of `input` ends, and the method and the path that
/// it names, or the reason why it names none.
pub open spec fn first_line(input: Seq<u8>) -> Result<
    (int, (Method, Seq<u8>)),
    ParseError,
> {
    let end = line_end(input, 0);
    match request_line(input.subrange(0, end)) {
        Some(named) => Ok((end, named)),
        None => Err(ParseError::MalformedRequestLine),
    }
}

/// Reads the request line, which is the first line of `input`.
///
/// Returns the index at which the line ends, the method and the path. The
/// line ending itself, if there is one, is left unread. Fails where the
/// first line is no request line.
pub fn parse_method_path(input: &[u8]) -> (result: Result<(usize, (Method, Vec<u8>)), ParseError>)
    ensures
        match first_line(input@) {
            Ok((end, (method, path))) => result matches Ok((at, (m, p))) && at == end && m == method
                && p@ == path,
            Err(e) => result == Err::<(usize, (Method, Vec<u8>)), ParseError>(e),
        },
{
    proof {
        reveal_strlit("GET ");
        reveal_strlit("GET");
        reveal_strlit("POST ");
        reveal_strlit("POST");
    }
    let end = find_line_end(input, 0);
    let line = slice_subrange(input, 0, end);
    let get = literal("GET ");
    assert(get@ =~= method_token(Method::Get) + seq![SP]);
    if let Some(path) = read_as(line, Method::Get, get) {
        return Ok((end, (Method::Get, path)));
    }
    let post = literal("POST ");
    assert(post@ =~= method_token(Method::Post) + seq![SP]);
    if let Some(path) = read_as(line, Method::Post, post) {
        return Ok((end, (Method::Post, path)));
    }
    Err(ParseError::MalformedRequestLine)
}

/// The index of the first byte `b` of `s` at or after `from`, or the length
/// of `s` where none follows.
pub open spec fn position_of(s: Seq<u8>, b: u8, from: int) -> int
    decreases s.len() - from,
{
    if from < 0 || from >= s.len() {
        s.len() as int
    } else if s[from] == b {
        from
    } else {
        position_of(s, b, from + 1)
    }
}

/// The name and the value that a header line gives, or `None` where the
/// line is no header line.
///
/// The name ends at the first colon. It is not empty and holds no space.
/// A space follows the colon, and the value is all that follows that space.
pub open spec fn header_line(line: Seq<u8>) -> Option<(Seq<u8>, Seq<u8>)> {
    let colon = position_of(line, COLON, 0);
    if 0 < colon && colon + 1 < line.len() && line[colon + 1] == SP && forall|i: int|
        0 <= i < colon ==> #[trigger] line[i] != SP {
        Some((line.take(colon), line.skip(colon + 2)))
    } else {
        None
    }
}

/// The name and the value that the first line of `input` gives, or `None`
/// where that line is no header line. The line ends ahead of the first line
/// ending, or with `input` where there is none.
pub open spec fn first_header(input: Seq<u8>) -> Option<(Seq<u8>, Seq<u8>)> {
    header_line(input.subrange(0, line_end(input, 0)))
}

/// Reads one header line: the first line of `input`.
///
/// Returns the header that the line gives, or `None` where the line is no
/// header line. The value ends ahead of the line ending; the line ending
/// and what follows it are left unread.
pub fn parse_header(input: &[u8]) -> (header: Option<Header>)
    ensures
        match first_header(input@) {
            Some((name, value)) => header matches Some(h) && h.name@ == name && h.value@ == value,
            None => header is None,
        },
{
    let end = find_line_end(input, 0);
    let line = slice_subrange(input, 0, end);
    let mut colon: usize = 0;
    while colon < line.len() && line[colon] != COLON
        invariant
            colon <= line.len(),
            line@ == input@.subrange(0, line_end(input@, 0)),
            position_of(line@, COLON, 0) == position_of(line@, COLON, colon as int),
            forall|k: int| 0 <= k < colon ==> #[trigger] line@[k] != SP,
        decreases line.len() - colon,
    {
        if line[colon] == SP {
            proof {
                assert(position_of(line@, COLON, colon as int) > colon) by {
                    lemma_position_of(line@, COLON, colon + 1);
                }
            }
            return None;
        }
        colon += 1;
    }
    if colon == 0 || colon >= line.len() - 1 || line[colon + 1] != SP {
        return None;
    }
    let name = copy_range(line, 0, colon);
    let value = copy_range(line, colon + 2, line.len());
    Some(Header { name, value })
}

/// The first `b` at or after `from` lies between `from` and the end of `s`,
/// and no `b` stands before it.
pub proof fn lemma_position_of(s: Seq<u8>, b: u8, from: int)
    requires
        0 <= from <= s.len(),
    ensures
        from <= position_of(s, b, from) <= s.len(),
        position_of(s, b, from) < s.len() ==> s[position_of(s, b, from)] == b,
        forall|i: int| from <= i < position_of(s, b, from) ==> s[i] != b,
    decreases s.len() - from,
{
    if from < s.len() && s[from] != b {
        lemma_position_of(s, b, from + 1);
    }
}

/// The headers `found` with what `line` adds to them: the header that the
/// line gives, or nothing where it is no header line.
pub open spec fn with_line(found: Map<Seq<u8>, Seq<u8>>, line: Seq<u8>) -> Map<
    Seq<u8>,
    Seq<u8>,
> {
    match header_line(line) {
        Some((name, value)) => found.insert(name, value),
        None => found,
    }
}

/// The headers of the lines of `s` from index `from` on, added to `found`,
/// and the index at which the body begins.
///
/// The lines are read up to the first blank line, or to the end of `s`
/// where there is none. The body begins past the blank line.
pub open spec fn header_block(s: Seq<u8>, from: int, found: Map<Seq<u8>, Seq<u8>>) -> (
    Map<Seq<u8>, Seq<u8>>,
    int,
)
    decreases s.len() - from,
{
    if from < 0 || from >= s.len() {
        (found, s.len() as int)
    } else {
        let end = line_end(s, from);
        if end == from {
            (found, next_line(s, end))
        } else {
            proof {
                lemma_line_end(s, from);
            }
            header_block(s, next_line(s, end), with_line(found, s.subrange(from, end)))
        }
    }
}

/// The body begins after the headers and within the input.
pub proof fn lemma_header_block(s: Seq<u8>, from: int, found: Map<Seq<u8>, Seq<u8>>)
    requires
        0 <= from <= s.len(),
    ensures
        from <= header_block(s, from, found).1 <= s.len(),
    decreases s.len() - from,
{
    if from < s.len() {
        lemma_line_end(s, from);
        let end = line_end(s, from);
        if end != from {
            lemma_header_block(s, next_line(s, end), with_line(found, s.subrange(from, end)));
        }
    }
}

/// Bytes put in front of a text change neither the headers that are read
/// from it nor, but for their count, where its body begins.
pub proof fn lemma_header_block_shift(
    front: Seq<u8>,
    text: Seq<u8>,
    from: int,
    found: Map<Seq<u8>, Seq<u8>>,
)
    requires
        0 <= from <= text.len(),
    ensures
        header_block(front + text, front.len() + from, found) == (
            header_block(text, from, found).0,
            front.len() + header_block(text, from, found).1,
        ),
    decreases text.len() - from,
{
    let whole = front + text;
    if from < text.len() {
        lemma_line_end_shift(front, text, from);
        lemma_line_end(text, from);
        let end = line_end(text, from);
        if end != from {
            assert(whole.subrange(front.len() + from, front.len() + end) =~= text.subrange(
                from,
                end,
            ));
            lemma_header_block_shift(
                front,
                text,
                next_line(text, end),
                with_line(found, text.subrange(from, end)),
            );
        }
    }
}

/// Reads header lines from the beginning of `input` up to the first blank
/// line, or to the end of `input` where there is none.
///
/// Returns the headers, where a name that comes twice has its last value,
/// and the index at which the body begins.
pub fn parse_header_list(input: &[u8]) -> (result: (Headers, usize))
    ensures
        (result.0@, result.1 as int) == header_block(input@, 0, Map::empty()),
        result.1 <= input.len(),
{
    let mut headers = Headers::new();
    let mut at: usize = 0;
    while at < input.len()
        invariant
            at <= input.len(),
            header_block(input@, 0, Map::empty()) == header_block(input@, at as int, headers@),
        decreases input.len() - at,
    {
        let end = find_line_end(input, at);
        let next: usize = if end < input.len() {
            end + 2
        } else {
            end
        };
        if end == at {
            return (headers, next);
        }
        proof {
            lemma_line_alone(input@, at as int);
        }
        if let Some(header) = parse_header(slice_subrange(input, at, end)) {
            headers.insert(header.name, header.value);
        }
        at = next;
    }
    (headers, at)
}

/// How many bytes of body a `Content-Length` among `headers` declares, or
/// `None` where there is no such header or its value is no decimal number.
pub open spec fn declared_length(headers: Map<Seq<u8>, Seq<u8>>) -> Option<nat> {
    if headers.contains_key(content_length()) && is_number(headers[content_length()]) {
        Some(number_of(headers[content_length()]))
    } else {
        None
    }
}

/// How many bytes the body of a `POST` with these headers has: as many as
/// they declare, and none where they declare nothing.
pub open spec fn body_length(headers: Map<Seq<u8>, Seq<u8>>) -> nat {
    match declared_length(headers) {
        Some(n) => n,
        None => 0,
    }
}

/// The body of a request with this method and these headers, taken from
/// the bytes `rest` that follow the blank line, or `None` where fewer bytes
/// follow than the request declares.
///
/// The body of a `POST` is as long as its headers declare. A request with
/// another method declares no length: all that follows is its body.
pub open spec fn body_of(method: Method, headers: Map<Seq<u8>, Seq<u8>>, rest: Seq<u8>) -> Option<
    Seq<u8>,
> {
    if method == Method::Post {
        if body_length(headers) <= rest.len() {
            Some(rest.take(body_length(headers) as int))
        } else {
            None
        }
    } else {
        Some(rest)
    }
}

/// The request that `s` holds and the count of bytes that it takes up, or
/// the reason why `s` holds none.
///
/// The first line is the request line. The headers are those of the lines
/// that follow, up to the blank line. What follows the body is not part of
/// the request.
pub open spec fn parse(s: Seq<u8>) -> Result<(int, RequestView), ParseError> {
    let end = line_end(s, 0);
    match request_line(s.subrange(0, end)) {
        None => Err(ParseError::MalformedRequestLine),
        Some((method, path)) => {
            let (headers, body_at) = header_block(s, next_line(s, end), Map::empty());
            match body_of(method, headers, s.skip(body_at)) {
                Some(body) => Ok(
                    (body_at + body.len(), RequestView { method, path, headers, body }),
                ),
                None => Err(ParseError::TruncatedBody),
            }
        },
    }
}

/// Reads one request from the bytes that a connection delivered.
///
/// Returns the count of bytes that the request takes up, and the request.
/// Fails with `MalformedRequestLine` where the first line is no request
/// line, which holds of the empty input too, and with `TruncatedBody` where
/// fewer bytes follow the blank line than a `POST` declares.
pub fn parse_request(input: &[u8]) -> (result: Result<(usize, Request), ParseError>)
    ensures
        match parse(input@) {
            Ok((used, request)) => result matches Ok((n, r)) && n == used && r@ == request,
            Err(e) => result matches Err(x) && x == e,
        },
        result matches Ok((n, r)) ==> n <= input.len() && is_target(r.path@),
{
    proof {
        reveal_strlit("Content-Length");
    }
    let (end, (method, path)) = match parse_method_path(input) {
        Ok(read) => read,
        Err(e) => {
            return Err(e);
        },
    };
    proof {
        lemma_line_end(input@, 0);
    }
    let next: usize = if end < input.len() {
        end + 2
    } else {
        end
    };
    let (headers, offset) = parse_header_list(slice_subrange(input, next, input.len()));
    let body_at: usize = next + offset;
    proof {
        let front = input@.subrange(0, next as int);
        let rest = input@.subrange(next as int, input@.len() as int);
        assert(input@ =~= front + rest);
        lemma_header_block_shift(front, rest, 0, Map::empty());
    }
    let available: usize = input.len() - body_at;
    let mut length: usize = available;
    if let Method::Post = method {
        length = 0;
        if let Some(value) = headers.get(literal("Content-Length")) {
            match read_decimal(value, available) {
                Reading::Malformed => {},
                Reading::Value(n) => {
                    length = n;
                },
                Reading::TooLarge => {
                    return Err(ParseError::TruncatedBody);
                },
            }
        }
    }
    let body = copy_range(input, body_at, body_at + length);
    proof {
        let rest = input@.skip(body_at as int);
        assert(body@ =~= rest.take(length as int));
        assert(rest.take(available as int) =~= rest);
    }
    Ok((body_at + length, Request { method, path, headers, body }))
}

} // verus!
