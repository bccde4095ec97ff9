//! Framing: whether the bytes that have come in so far hold a whole request,
//! so that reading can stop, or whether the request may still go on.
//!
//! A request is whole once its head has ended with a blank line and as many
//! bytes follow as it declares. Bytes whose first line has ended and is no
//! request line are whole too: nothing that follows can make them a request.

use crate::message::{
    are_fields, crlf, fields_map, header_line_of, header_lines, lemma_are_fields_rest, message,
};
use crate::parser::{
    body_length, body_of, find_line_end, header_block, is_line_end, is_target, lemma_header_block,
    lemma_line_end, lemma_line_end_shift, line_end, next_line, parse, parse_method_path,
    parse_request, request_line, request_line_of, with_line,
};
use crate::reading::{
    lemma_header_line_is_one_line, lemma_line_end_written, lemma_parse_written,
    lemma_request_line_written,
};
use crate::request::{process, Method};
use vstd::prelude::*;

verus! {

/// Whether a blank line ends the lines of `s` that begin at `from`.
pub open spec fn head_closed(s: Seq<u8>, from: int) -> bool
    decreases s.len() - from,
{
    if from < 0 || from >= s.len() {
        false
    } else {
        let end = line_end(s, from);
        if end == from {
            true
        } else {
            proof {
                lemma_line_end(s, from);
            }
            head_closed(s, next_line(s, end))
        }
    }
}

/// Whether `s` may be the beginning of a request that is still to go on:
/// its first line has not ended, or the first line is a request line and
/// either no blank line has come or fewer bytes than the request declares
/// follow it.
pub open spec fn is_partial(s: Seq<u8>) -> bool {
    let end = line_end(s, 0);
    if end >= s.len() {
        true
    } else if request_line(s.subrange(0, end)) is None {
        false
    } else if !head_closed(s, end + 2) {
        true
    } else {
        parse(s) is Err
    }
}

/// Whether a blank line ends the lines of `input` that begin at `from`.
fn blank_line_follows(input: &[u8], from: usize) -> (found: bool)
    requires
        from <= input.len(),
    ensures
        found == head_closed(input@, from as int),
{
    let mut at: usize = from;
    while at < input.len()
        invariant
            from <= at <= input.len(),
            head_closed(input@, from as int) == head_closed(input@, at as int),
        decreases input.len() - at,
    {
        let end = find_line_end(input, at);
        if end == at {
            return true;
        }
        at = if end < input.len() {
            end + 2
        } else {
            end
        };
    }
    false
}

/// Decides whether more bytes are to be read before the bytes received so
/// far are served.
///
/// Nothing received yet awaits more. Where the connection delivers no more,
/// what was received is served as it is.
pub fn awaits_more(input: &[u8]) -> (more: bool)
    ensures
        more == is_partial(input@),
{
    let end = find_line_end(input, 0);
    if end >= input.len() {
        return true;
    }
    if parse_method_path(input).is_err() {
        return false;
    }
    if !blank_line_follows(input, end + 2) {
        return true;
    }
    parse_request(input).is_err()
}

/// A line that has ended stays as it is when more bytes come.
pub proof fn lemma_line_end_settled(s: Seq<u8>, more: Seq<u8>, from: int)
    requires
        0 <= from <= s.len(),
        line_end(s, from) < s.len(),
    ensures
        line_end(s + more, from) == line_end(s, from),
    decreases s.len() - from,
{
    let longer = s + more;
    if from < s.len() {
        assert(longer[from] == s[from]);
        if is_line_end(s, from) {
            assert(longer[from + 1] == s[from + 1]);
        } else {
            lemma_line_end(s, from + 1);
            if from + 1 < s.len() {
                assert(longer[from + 1] == s[from + 1]);
            }
            assert(!is_line_end(longer, from)) by {
                if from + 1 >= s.len() {
                    assert(line_end(s, from + 1) == s.len());
                }
            }
            lemma_line_end_settled(s, more, from + 1);
        }
    }
}

/// A head that a blank line has ended stays as it is when more bytes come:
/// the same headers, and the body at the same place.
pub proof fn lemma_head_settled(
    s: Seq<u8>,
    more: Seq<u8>,
    from: int,
    found: Map<Seq<u8>, Seq<u8>>,
)
    requires
        0 <= from <= s.len(),
        head_closed(s, from),
    ensures
        head_closed(s + more, from),
        header_block(s + more, from, found) == header_block(s, from, found),
    decreases s.len() - from,
{
    let longer = s + more;
    lemma_line_end(s, from);
    let end = line_end(s, from);
    if end == from {
        lemma_line_end_settled(s, more, from);
    } else {
        assert(head_closed(s, next_line(s, end)));
        assert(!head_closed(s, s.len() as int));
        assert(end < s.len());
        lemma_line_end_settled(s, more, from);
        assert(longer.subrange(from, end) =~= s.subrange(from, end));
        lemma_head_settled(s, more, end + 2, with_line(found, s.subrange(from, end)));
    }
}

/// Bytes that await no more are settled: whatever comes after them, they
/// still await no more and are answered in the same way.
pub proof fn lemma_whole_is_settled(s: Seq<u8>, more: Seq<u8>)
    requires
        !is_partial(s),
    ensures
        !is_partial(s + more),
        process(s + more) == process(s),
{
    let longer = s + more;
    let end = line_end(s, 0);
    lemma_line_end(s, 0);
    lemma_line_end_settled(s, more, 0);
    assert(longer.subrange(0, end) =~= s.subrange(0, end));
    if request_line(s.subrange(0, end)) is Some {
        lemma_head_settled(s, more, end + 2, Map::empty());
        lemma_header_block(s, end + 2, Map::empty());
        let (headers, body_at) = header_block(s, end + 2, Map::empty());
        let (method, path) = request_line(s.subrange(0, end))->Some_0;
        if method == Method::Post {
            let length = body_length(headers) as int;
            assert(longer.skip(body_at).take(length) =~= s.skip(body_at).take(length));
        }
    }
}

/// Bytes put in front of a text do not change whether a blank line ends
/// its lines.
proof fn lemma_head_closed_shift(front: Seq<u8>, text: Seq<u8>, from: int)
    requires
        0 <= from <= text.len(),
    ensures
        head_closed(front + text, front.len() + from) == head_closed(text, from),
    decreases text.len() - from,
{
    if from < text.len() {
        lemma_line_end_shift(front, text, from);
        lemma_line_end(text, from);
        let end = line_end(text, from);
        if end != from {
            lemma_head_closed_shift(front, text, next_line(text, end));
        }
    }
}

/// The blank line that is written after the header lines ends them.
proof fn lemma_head_closed_written(fields: Seq<(Seq<u8>, Seq<u8>)>, rest: Seq<u8>)
    requires
        are_fields(fields),
    ensures
        head_closed(header_lines(fields) + crlf() + rest, 0),
    decreases fields.len(),
{
    let whole = header_lines(fields) + crlf() + rest;
    if fields.len() == 0 {
        assert(whole =~= crlf() + rest);
        assert(is_line_end(whole, 0));
    } else {
        let line = header_line_of(fields[0].0, fields[0].1);
        let others = fields.drop_first();
        let after = header_lines(others) + crlf() + rest;
        lemma_are_fields_rest(fields);
        assert(whole =~= line + crlf() + after);
        lemma_header_line_is_one_line(fields[0].0, fields[0].1);
        lemma_line_end_written(line, after, 0);
        assert(whole =~= (line + crlf()) + after);
        lemma_head_closed_shift(line + crlf(), after, 0);
        lemma_head_closed_written(others, rest);
    }
}

/// A request that was laid out in full awaits no more, whatever follows it.
pub proof fn lemma_written_is_whole(
    method: Method,
    path: Seq<u8>,
    fields: Seq<(Seq<u8>, Seq<u8>)>,
    body: Seq<u8>,
    rest: Seq<u8>,
)
    requires
        method != Method::Other,
        is_target(path),
        are_fields(fields),
        body_of(method, fields_map(fields), body + rest) == Some(body),
    ensures
        !is_partial(message(request_line_of(method, path), fields, body) + rest),
{
    let line = request_line_of(method, path);
    let whole = message(line, fields, body) + rest;
    let after = header_lines(fields) + crlf() + (body + rest);
    assert(whole =~= line + crlf() + after);
    lemma_request_line_written(method, path);
    lemma_line_end_written(line, after, 0);
    assert(whole.subrange(0, line.len() as int) =~= line);
    assert(whole =~= (line + crlf()) + after);
    lemma_head_closed_shift(line + crlf(), after, 0);
    lemma_head_closed_written(fields, body + rest);
    lemma_parse_written(method, path, fields, body, rest);
}

} // verus!
