//! The layout that requests and responses share on the wire: a start line,
//! header lines, a blank line, and the body. Every line ends with CR LF.

use crate::bytes::{append, ascii, COLON, CR, LF, SP};
use vstd::prelude::*;

verus! {

/// The line ending: CR, then LF.
pub open spec fn crlf() -> Seq<u8> {
    seq![CR, LF]
}

/// The name of the header that says how many bytes the body has.
pub open spec fn content_length() -> Seq<u8> {
    ascii("Content-Length"@)
}

/// Whether `text` holds no carriage return, so that no line can end within
/// it.
pub open spec fn is_one_line(text: Seq<u8>) -> bool {
    forall|i: int| 0 <= i < text.len() ==> #[trigger] text[i] != CR
}

/// Whether `name` can be the name of a header: it is not empty and holds no
/// colon, no space and no carriage return.
pub open spec fn is_field_name(name: Seq<u8>) -> bool {
    &&& name.len() > 0
    &&& forall|i: int|
        0 <= i < name.len() ==> {
            let b = #[trigger] name[i];
            b != COLON && b != SP && b != CR
        }
}

/// Whether each of `fields` is a header that can be written on a line of its
/// own: a name that can be one, and a value without a carriage return.
pub open spec fn are_fields(fields: Seq<(Seq<u8>, Seq<u8>)>) -> bool {
    forall|i: int|
        0 <= i < fields.len() ==> is_field_name((#[trigger] fields[i]).0) && is_one_line(
            fields[i].1,
        )
}

/// Fields that can each be written on a line stay so without the first of
/// them.
pub proof fn lemma_are_fields_rest(fields: Seq<(Seq<u8>, Seq<u8>)>)
    requires
        are_fields(fields),
        fields.len() > 0,
    ensures
        are_fields(fields.drop_first()),
{
    let others = fields.drop_first();
    assert forall|i: int| 0 <= i < others.len() implies is_field_name((#[trigger] others[i]).0)
        && is_one_line(others[i].1) by {
        assert(others[i] == fields[i + 1]);
    }
}

/// The header line that gives `name` the value `value`: the name, a colon,
/// a space, the value.
pub open spec fn header_line_of(name: Seq<u8>, value: Seq<u8>) -> Seq<u8> {
    name + seq![COLON, SP] + value
}

/// The header lines for `fields`, in order, each with its line ending.
pub open spec fn header_lines(fields: Seq<(Seq<u8>, Seq<u8>)>) -> Seq<u8>
    decreases fields.len(),
{
    if fields.len() == 0 {
        Seq::empty()
    } else {
        header_line_of(fields[0].0, fields[0].1) + crlf() + header_lines(fields.drop_first())
    }
}

/// The headers `found` after each of `fields` was set in turn, first to
/// last: of two fields with one name, the later one stays.
pub open spec fn with_fields(
    found: Map<Seq<u8>, Seq<u8>>,
    fields: Seq<(Seq<u8>, Seq<u8>)>,
) -> Map<Seq<u8>, Seq<u8>>
    decreases fields.len(),
{
    if fields.len() == 0 {
        found
    } else {
        with_fields(found.insert(fields[0].0, fields[0].1), fields.drop_first())
    }
}

/// The headers that `fields` give.
pub open spec fn fields_map(fields: Seq<(Seq<u8>, Seq<u8>)>) -> Map<Seq<u8>, Seq<u8>> {
    with_fields(Map::empty(), fields)
}

/// Everything ahead of the body: the start line, the header lines and the
/// blank line.
pub open spec fn head(start: Seq<u8>, fields: Seq<(Seq<u8>, Seq<u8>)>) -> Seq<u8> {
    start + crlf() + header_lines(fields) + crlf()
}

/// A whole message: the head, then the body.
pub open spec fn message(start: Seq<u8>, fields: Seq<(Seq<u8>, Seq<u8>)>, body: Seq<u8>) -> Seq<
    u8,
> {
    head(start, fields) + body
}

/// Appends a line ending to `out`.
pub fn put_line_end(out: &mut Vec<u8>)
    ensures
        final(out)@ == old(out)@ + crlf(),
{
    out.push(CR);
    out.push(LF);
    assert(out@ =~= old(out)@ + crlf());
}

/// Appends to `out` the header line that gives `name` the value `value`,
/// and its line ending.
pub fn put_header(out: &mut Vec<u8>, name: &[u8], value: &[u8])
    ensures
        final(out)@ == old(out)@ + header_line_of(name@, value@) + crlf(),
{
    append(out, name);
    out.push(COLON);
    out.push(SP);
    append(out, value);
    put_line_end(out);
    assert(out@ =~= old(out)@ + header_line_of(name@, value@) + crlf());
}

} // verus!
