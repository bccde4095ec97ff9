//! What the parser finds in a message that is laid out as `message` says:
//! the start line, the headers that were written, and the body where it was
//! put.

use crate::bytes::{COLON, CR, LF, SP};
use crate::decimal::{decimal, is_digit, lemma_decimal_round_trip};
use crate::message::{
    are_fields, content_length, crlf, fields_map, head, header_line_of, header_lines,
    is_field_name, is_one_line, lemma_are_fields_rest, message, with_fields,
};
use crate::parser::{
    body_of, first_header, header_block, header_line, is_line_end, is_target,
    lemma_header_block, lemma_header_block_shift, lemma_position_of, line_end, method_token,
    parse, position_of, reads_as, request_line, request_line_of, target_of, version, with_line,
    ParseError,
};
use crate::request::{Method, RequestView};
use vstd::prelude::*;

verus! {

/// A line without a carriage return ends where its line ending stands.
pub proof fn lemma_line_end_written(line: Seq<u8>, rest: Seq<u8>, from: int)
    requires
        is_one_line(line),
        0 <= from <= line.len(),
    ensures
        line_end(line + crlf() + rest, from) == line.len(),
    decreases line.len() - from,
{
    let whole = line + crlf() + rest;
    assert(whole[line.len() as int] == CR);
    assert(whole[line.len() as int + 1] == LF);
    if from < line.len() {
        assert(whole[from] == line[from]);
        lemma_line_end_written(line, rest, from + 1);
    }
}

/// A last line without a carriage return ends where the input ends.
pub proof fn lemma_line_end_unfinished(line: Seq<u8>, from: int)
    requires
        is_one_line(line),
        0 <= from <= line.len(),
    ensures
        line_end(line, from) == line.len(),
    decreases line.len() - from,
{
    if from < line.len() {
        lemma_line_end_unfinished(line, from + 1);
    }
}

/// A header line that was written for a name and a value is read as that
/// name and that value.
pub proof fn lemma_header_line_written(name: Seq<u8>, value: Seq<u8>)
    requires
        is_field_name(name),
    ensures
        header_line(header_line_of(name, value)) == Some((name, value)),
{
    let line = header_line_of(name, value);
    let colon = position_of(line, COLON, 0);
    lemma_position_of(line, COLON, 0);
    assert(line[name.len() as int] == COLON);
    assert(line[name.len() as int + 1] == SP);
    assert forall|i: int| 0 <= i < name.len() implies line[i] != COLON && line[i] != SP by {
        assert(line[i] == name[i]);
    }
    assert(colon == name.len());
    assert(line.take(colon) =~= name);
    assert(line.skip(colon + 2) =~= value);
}

/// A line that is read as a name and a value is the header line that is
/// written for them, and the name is not empty and holds neither a colon
/// nor a space.
pub proof fn lemma_header_line_read(line: Seq<u8>)
    ensures
        header_line(line) matches Some((name, value)) ==> {
            &&& line == header_line_of(name, value)
            &&& name.len() > 0
            &&& forall|i: int| 0 <= i < name.len() ==> name[i] != COLON && name[i] != SP
        },
{
    let colon = position_of(line, COLON, 0);
    lemma_position_of(line, COLON, 0);
    if header_line(line) is Some {
        let name = line.take(colon);
        let value = line.skip(colon + 2);
        assert(line =~= header_line_of(name, value));
    }
}

/// The first line of the headers, where it is not blank, adds what it gives
/// to the headers of the lines that follow it.
pub proof fn lemma_header_block_line(line: Seq<u8>, rest: Seq<u8>, found: Map<Seq<u8>, Seq<u8>>)
    requires
        is_one_line(line),
        line.len() > 0,
    ensures
        header_block(line + crlf() + rest, 0, found) == (
            header_block(rest, 0, with_line(found, line)).0,
            line.len() + 2 + header_block(rest, 0, with_line(found, line)).1,
        ),
{
    let whole = line + crlf() + rest;
    lemma_line_end_written(line, rest, 0);
    assert(whole.subrange(0, line.len() as int) =~= line);
    assert(whole =~= (line + crlf()) + rest);
    lemma_header_block_shift(line + crlf(), rest, 0, with_line(found, line));
}

/// A blank line ends the headers; the body begins past it.
pub proof fn lemma_header_block_blank(rest: Seq<u8>, found: Map<Seq<u8>, Seq<u8>>)
    ensures
        header_block(crlf() + rest, 0, found) == (found, 2int),
{
    let whole = crlf() + rest;
    assert(whole[0] == CR);
    assert(whole[1] == LF);
    assert(is_line_end(whole, 0));
}

/// A written header line holds no carriage return and is not empty.
pub proof fn lemma_header_line_is_one_line(name: Seq<u8>, value: Seq<u8>)
    requires
        is_field_name(name),
        is_one_line(value),
    ensures
        is_one_line(header_line_of(name, value)),
        header_line_of(name, value).len() > 0,
{
    let line = header_line_of(name, value);
    assert forall|i: int| 0 <= i < line.len() implies #[trigger] line[i] != CR by {
        if i < name.len() {
            assert(line[i] == name[i]);
        } else if i >= name.len() + 2 {
            assert(line[i] == value[i - name.len() - 2]);
        }
    }
}

/// The header lines that were written for `fields`, and the blank line
/// after them, are read as those fields, set in turn; the body begins past
/// the blank line.
pub proof fn lemma_header_lines_written(
    fields: Seq<(Seq<u8>, Seq<u8>)>,
    rest: Seq<u8>,
    found: Map<Seq<u8>, Seq<u8>>,
)
    requires
        are_fields(fields),
    ensures
        header_block(header_lines(fields) + crlf() + rest, 0, found) == (
            with_fields(found, fields),
            header_lines(fields).len() as int + 2,
        ),
    decreases fields.len(),
{
    if fields.len() == 0 {
        assert(header_lines(fields) + crlf() + rest =~= crlf() + rest);
        lemma_header_block_blank(rest, found);
    } else {
        let (name, value) = fields[0];
        let line = header_line_of(name, value);
        let others = fields.drop_first();
        let after = header_lines(others) + crlf() + rest;
        lemma_are_fields_rest(fields);
        assert(header_lines(fields) + crlf() + rest =~= line + crlf() + after);
        lemma_header_line_is_one_line(name, value);
        lemma_header_line_written(name, value);
        lemma_header_block_line(line, after, found);
        lemma_header_lines_written(others, rest, found.insert(name, value));
    }
}

/// In a message that was laid out for a start line, fields and a body, the
/// first line is the start line, the headers are those of the fields, and
/// the body begins where the head ends.
pub proof fn lemma_message_read(
    start: Seq<u8>,
    fields: Seq<(Seq<u8>, Seq<u8>)>,
    body: Seq<u8>,
)
    requires
        is_one_line(start),
        are_fields(fields),
    ensures
        line_end(message(start, fields, body), 0) == start.len(),
        message(start, fields, body).subrange(0, start.len() as int) == start,
        header_block(message(start, fields, body), start.len() as int + 2, Map::empty()) == (
            fields_map(fields),
            head(start, fields).len() as int,
        ),
        message(start, fields, body).skip(head(start, fields).len() as int) == body,
{
    let whole = message(start, fields, body);
    let after = header_lines(fields) + crlf() + body;
    assert(whole =~= start + crlf() + after);
    lemma_line_end_written(start, after, 0);
    assert(whole =~= (start + crlf()) + after);
    lemma_header_block_shift(start + crlf(), after, 0, Map::empty());
    lemma_header_lines_written(fields, body, Map::empty());
    assert(whole.subrange(0, start.len() as int) =~= start);
    assert(whole.skip(head(start, fields).len() as int) =~= body);
}

/// A first line made of a token, a path and the version, with a space
/// between them, holds no carriage return where the token and the path
/// hold none.
pub proof fn lemma_first_line_is_one_line(token: Seq<u8>, path: Seq<u8>)
    requires
        is_one_line(token),
        is_one_line(path),
    ensures
        is_one_line(token + seq![SP] + path + seq![SP] + version()),
{
    reveal_strlit("HTTP/1.1");
    let line = token + seq![SP] + path + seq![SP] + version();
    assert forall|i: int| 0 <= i < line.len() implies #[trigger] line[i] != CR by {
        let path_at = token.len() + 1;
        let version_at = path_at + path.len() + 1;
        if i < token.len() {
            assert(line[i] == token[i]);
        } else if path_at <= i < path_at + path.len() {
            assert(line[i] == path[i - path_at]);
        } else if i >= version_at {
            assert(line[i] == version()[i - version_at]);
        }
    }
}

/// The printed form of a number holds no carriage return.
pub proof fn lemma_decimal_is_one_line(n: nat)
    ensures
        is_one_line(decimal(n)),
{
    lemma_decimal_round_trip(n);
    assert forall|i: int| 0 <= i < decimal(n).len() implies #[trigger] decimal(n)[i] != CR by {
        assert(is_digit(decimal(n)[i]));
    }
}

/// The first line of bytes that begin with a written header line is read as
/// the name and the value that the line was written for: the value ends
/// ahead of the line ending.
pub proof fn lemma_first_header_written(name: Seq<u8>, value: Seq<u8>, rest: Seq<u8>)
    requires
        is_field_name(name),
        is_one_line(value),
    ensures
        first_header(header_line_of(name, value) + crlf() + rest) == Some((name, value)),
        first_header(header_line_of(name, value)) == Some((name, value)),
{
    let line = header_line_of(name, value);
    let whole = line + crlf() + rest;
    lemma_header_line_is_one_line(name, value);
    lemma_header_line_written(name, value);
    lemma_line_end_written(line, rest, 0);
    lemma_line_end_unfinished(line, 0);
    assert(whole.subrange(0, line.len() as int) =~= line);
    assert(line.subrange(0, line.len() as int) =~= line);
}

/// A request line that was written for a method and a path is read as that
/// method and that path, and holds no carriage return.
pub proof fn lemma_request_line_written(method: Method, path: Seq<u8>)
    requires
        method != Method::Other,
        is_target(path),
    ensures
        request_line(request_line_of(method, path)) == Some((method, path)),
        is_one_line(request_line_of(method, path)),
{
    reveal_strlit("GET");
    reveal_strlit("POST");
    reveal_strlit("HTTP/1.1");
    let line = request_line_of(method, path);
    let token = method_token(method);
    assert(target_of(line, method) =~= path);
    assert(reads_as(line, method));
    if method == Method::Post {
        assert(!reads_as(line, Method::Get)) by {
            let other = request_line_of(Method::Get, target_of(line, Method::Get));
            assert(line[0] == token[0]);
            assert(other[0] == method_token(Method::Get)[0]);
        }
    }
    lemma_first_line_is_one_line(token, path);
}

/// A request line alone, with no line ending after it, is a request without
/// headers and without a body.
pub proof fn lemma_parse_bare(method: Method, path: Seq<u8>)
    requires
        method != Method::Other,
        is_target(path),
    ensures
        parse(request_line_of(method, path)) == Ok::<(int, RequestView), ParseError>(
            (
                request_line_of(method, path).len() as int,
                RequestView { method, path, headers: Map::empty(), body: Seq::empty() },
            ),
        ),
{
    let line = request_line_of(method, path);
    lemma_request_line_written(method, path);
    lemma_line_end_unfinished(line, 0);
    assert(line.subrange(0, line.len() as int) =~= line);
    assert(line.skip(line.len() as int) =~= Seq::<u8>::empty());
    assert(Seq::<u8>::empty().take(0) =~= Seq::<u8>::empty());
    assert(!Map::<Seq<u8>, Seq<u8>>::empty().contains_key(content_length()));
}

/// Bytes that begin with a written request line and its line ending are
/// read as a request with that method and that path, with the headers of
/// the lines that follow, and with the body that the bytes past the blank
/// line give; they are no request where fewer bytes follow than a `POST`
/// declares.
pub proof fn lemma_parse_started(method: Method, path: Seq<u8>, rest: Seq<u8>)
    requires
        method != Method::Other,
        is_target(path),
    ensures
        ({
            let line = request_line_of(method, path);
            let (headers, body_at) = header_block(rest, 0, Map::empty());
            parse(line + crlf() + rest) == match body_of(method, headers, rest.skip(body_at)) {
                Some(body) => Ok::<(int, RequestView), ParseError>(
                    (
                        line.len() + 2 + body_at + body.len(),
                        RequestView { method, path, headers, body },
                    ),
                ),
                None => Err::<(int, RequestView), ParseError>(ParseError::TruncatedBody),
            }
        }),
{
    let line = request_line_of(method, path);
    let whole = line + crlf() + rest;
    let (headers, body_at) = header_block(rest, 0, Map::empty());
    lemma_request_line_written(method, path);
    lemma_line_end_written(line, rest, 0);
    assert(whole.subrange(0, line.len() as int) =~= line);
    assert(whole =~= (line + crlf()) + rest);
    lemma_header_block_shift(line + crlf(), rest, 0, Map::empty());
    lemma_header_block(rest, 0, Map::empty());
    assert(whole.skip(line.len() + 2 + body_at) =~= rest.skip(body_at));
}

/// A request that was laid out for a method, a path, fields and a body is
/// read as just that, provided that the body is the one that the method
/// and the fields call for: for a `POST`, that it is as long as the fields
/// declare; for a `GET`, that nothing follows it.
pub proof fn lemma_parse_written(
    method: Method,
    path: Seq<u8>,
    fields: Seq<(Seq<u8>, Seq<u8>)>,
    body: Seq<u8>,
    rest: Seq<u8>,
)
    requires
        method != Method::Other,
        is_target(path),
        are_fields(fields),
        body_of(method, fields_map(fields), body + rest) == Some(body),
    ensures
        parse(message(request_line_of(method, path), fields, body) + rest) == Ok::<
            (int, RequestView),
            ParseError,
        >(
            (
                message(request_line_of(method, path), fields, body).len() as int,
                RequestView { method, path, headers: fields_map(fields), body },
            ),
        ),
{
    let line = request_line_of(method, path);
    let after = header_lines(fields) + crlf() + body + rest;
    assert(message(line, fields, body) + rest =~= line + crlf() + after);
    lemma_parse_started(method, path, after);
    assert(after =~= header_lines(fields) + crlf() + (body + rest));
    lemma_header_lines_written(fields, body + rest, Map::empty());
    let body_at = header_lines(fields).len() as int + 2;
    assert(after.skip(body_at) =~= body + rest);
}

} // verus!
