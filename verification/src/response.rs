//! The response: its status, content type and body, and the bytes that stand
//! for it on the wire.

use crate::bytes::{append, ascii, literal};
use crate::decimal::{decimal, to_decimal};
use crate::message::{content_length, header_lines, message, put_header, put_line_end};
use vstd::prelude::*;

verus! {

/// The media type announced in `Content-Type`.
#[derive(Clone, Copy, Debug, PartialEq, Eq, Structural)]
pub enum ContentType {
    /// `text/plain`, the type of every response that does not say otherwise.
    TextPlain,
    /// `application/octet-stream`, the type of file contents.
    Binary,
}

impl ContentType {
    /// The name of the media type.
    pub open spec fn text(self) -> Seq<char> {
        match self {
            ContentType::TextPlain => "text/plain"@,
            ContentType::Binary => "application/octet-stream"@,
        }
    }

    /// The name of the media type as it is sent.
    pub open spec fn bytes(self) -> Seq<u8> {
        ascii(self.text())
    }

    /// The name of the media type.
    pub fn to_string(&self) -> (name: String)
        ensures
            name@ == self.text(),
    {
        match self {
            ContentType::TextPlain => "text/plain".to_owned(),
            ContentType::Binary => "application/octet-stream".to_owned(),
        }
    }

    /// The name of the media type as it is sent.
    pub fn as_bytes(&self) -> (name: &'static [u8])
        ensures
            name@ == self.bytes(),
    {
        proof {
            reveal_strlit("text/plain");
            reveal_strlit("application/octet-stream");
        }
        match self {
            ContentType::TextPlain => literal("text/plain"),
            ContentType::Binary => literal("application/octet-stream"),
        }
    }
}

impl Default for ContentType {
    fn default() -> (content_type: Self)
        ensures
            content_type == ContentType::TextPlain,
    {
        ContentType::TextPlain
    }
}

/// The status of a response that carries content.
#[derive(Clone, Copy, Debug, PartialEq, Eq, Structural)]
pub enum Code {
    /// 200: the request was served.
    Success,
    /// 201: the request made a file.
    Created,
}

impl Code {
    /// The status number.
    pub open spec fn number(self) -> nat {
        match self {
            Code::Success => 200,
            Code::Created => 201,
        }
    }
}

/// A response: either one that carries content, or the one that says that
/// nothing was found, which carries none.
#[derive(Debug, PartialEq, Eq)]
pub enum Response {
    /// The request was served.
    Content {
        /// Whether something was made on the way.
        code: Code,
        /// What kind of bytes the body holds.
        content_type: ContentType,
        /// The content.
        body: Vec<u8>,
    },
    /// There is no such route, header or file.
    NotFound,
}

/// What a response says: the model that the contracts speak of.
pub struct ResponseView {
    /// The status number: 200, 201 or 404.
    pub status: nat,
    /// The media type of the body.
    pub content_type: ContentType,
    /// The body.
    pub body: Seq<u8>,
}

impl ResponseView {
    /// The response to what could not be found: status 404 and no content.
    pub open spec fn not_found() -> ResponseView {
        ResponseView { status: 404, content_type: ContentType::TextPlain, body: Seq::empty() }
    }

    /// A response that carries `body` with status `code`.
    pub open spec fn content(code: Code, content_type: ContentType, body: Seq<u8>) -> ResponseView {
        ResponseView { status: code.number(), content_type, body }
    }

    /// Whether this is the response to what could not be found.
    pub open spec fn is_not_found(self) -> bool {
        self.status == 404
    }
}

impl View for Response {
    type V = ResponseView;

    open spec fn view(&self) -> ResponseView {
        match self {
            Response::Content { code, content_type, body } => ResponseView::content(
                *code,
                *content_type,
                body@,
            ),
            Response::NotFound => ResponseView::not_found(),
        }
    }
}

/// The status line: the version, the status number and the reason.
pub open spec fn status_line(status: nat) -> Seq<u8> {
    if status == 200 {
        ascii("HTTP/1.1 200 OK"@)
    } else if status == 201 {
        ascii("HTTP/1.1 201 CREATED"@)
    } else {
        ascii("HTTP/1.1 404 NOT FOUND"@)
    }
}

/// The headers of a response, in the order in which they are sent: the
/// content type, the length of the body in decimal, and the notice that the
/// connection closes after this response.
pub open spec fn response_fields(response: ResponseView) -> Seq<(Seq<u8>, Seq<u8>)> {
    seq![
        (ascii("Content-Type"@), response.content_type.bytes()),
        (content_length(), decimal(response.body.len())),
        (ascii("Connection"@), ascii("close"@)),
    ]
}

/// The bytes that stand for a response on the wire: the status line, the
/// three headers, the blank line, and the body as it is.
pub open spec fn encode(response: ResponseView) -> Seq<u8> {
    message(status_line(response.status), response_fields(response), response.body)
}

impl Response {
    /// A response with status 200, type `text/plain` and an empty body.
    pub fn new_ok() -> (response: Self)
        ensures
            response@ == ResponseView::content(Code::Success, ContentType::TextPlain, Seq::empty()),
    {
        Response::Content {
            code: Code::Success,
            content_type: ContentType::TextPlain,
            body: Vec::new(),
        }
    }

    /// The response with status 404.
    pub fn new_not_found() -> (response: Self)
        ensures
            response@ == ResponseView::not_found(),
    {
        Response::NotFound
    }

    /// The same response with another status. A 404 stays as it is.
    pub fn set_code(self, code: Code) -> (response: Self)
        ensures
            response@ == if self@.is_not_found() {
                self@
            } else {
                ResponseView::content(code, self@.content_type, self@.body)
            },
    {
        match self {
            Response::Content { content_type, body, .. } => Response::Content {
                code,
                content_type,
                body,
            },
            Response::NotFound => Response::NotFound,
        }
    }

    /// The same response with another content type. A 404 stays as it is.
    pub fn set_content_type(self, content_type: ContentType) -> (response: Self)
        ensures
            response@ == if self@.is_not_found() {
                self@
            } else {
                (ResponseView { content_type, ..self@ })
            },
    {
        match self {
            Response::Content { code, body, .. } => Response::Content { code, content_type, body },
            Response::NotFound => Response::NotFound,
        }
    }

    /// The same response with a copy of `body` as its body. A 404 carries no
    /// body and stays as it is.
    pub fn set_body(self, body: &[u8]) -> (response: Self)
        ensures
            response@ == if self@.is_not_found() {
                self@
            } else {
                (ResponseView { body: body@, ..self@ })
            },
    {
        match self {
            Response::Content { code, content_type, .. } => {
                let mut copy: Vec<u8> = Vec::new();
                append(&mut copy, body);
                assert(copy@ =~= body@);
                Response::Content { code, content_type, body: copy }
            },
            Response::NotFound => Response::NotFound,
        }
    }

    /// The status number: 200, 201 or 404.
    pub fn status(&self) -> (status: u16)
        ensures
            status == self@.status,
    {
        match self {
            Response::Content { code: Code::Success, .. } => 200,
            Response::Content { code: Code::Created, .. } => 201,
            Response::NotFound => 404,
        }
    }

    /// The content type that will be announced.
    pub fn content_type(&self) -> (content_type: ContentType)
        ensures
            content_type == self@.content_type,
    {
        match self {
            Response::Content { content_type, .. } => *content_type,
            Response::NotFound => ContentType::TextPlain,
        }
    }

    /// The body; empty for a 404.
    pub fn body(&self) -> (body: &[u8])
        ensures
            body@ == self@.body,
    {
        proof {
            reveal_strlit("");
        }
        match self {
            Response::Content { body, .. } => body.as_slice(),
            Response::NotFound => literal(""),
        }
    }

    /// The bytes to send: the status line, the three headers, the blank
    /// line, and the body as it is. `Content-Length` is the length of the
    /// body in bytes, also when that is 0.
    pub fn build(&self) -> (wire: Vec<u8>)
        ensures
            wire@ == encode(self@),
    {
        proof {
            reveal_strlit("HTTP/1.1 200 OK");
            reveal_strlit("HTTP/1.1 201 CREATED");
            reveal_strlit("HTTP/1.1 404 NOT FOUND");
            reveal_strlit("Content-Type");
            reveal_strlit("Content-Length");
            reveal_strlit("Connection");
            reveal_strlit("close");
        }
        let status: u16 = self.status();
        let body = self.body();
        let mut wire: Vec<u8> = Vec::new();
        if status == 200 {
            append(&mut wire, literal("HTTP/1.1 200 OK"));
        } else if status == 201 {
            append(&mut wire, literal("HTTP/1.1 201 CREATED"));
        } else {
            append(&mut wire, literal("HTTP/1.1 404 NOT FOUND"));
        }
        put_line_end(&mut wire);
        put_header(&mut wire, literal("Content-Type"), self.content_type().as_bytes());
        let length = to_decimal(body.len());
        put_header(&mut wire, literal("Content-Length"), length.as_slice());
        put_header(&mut wire, literal("Connection"), literal("close"));
        put_line_end(&mut wire);
        append(&mut wire, body);
        proof {
            let fields = response_fields(self@);
            reveal_with_fuel(header_lines, 4);
            assert(fields.drop_first().drop_first().drop_first() =~= Seq::empty());
            assert(wire@ =~= encode(self@));
        }
        wire
    }
}

} // verus!
