//! The request and the router: which response, or which access to storage,
//! each request calls for.
//!
//! The router touches no file. Where a request needs one, it names the
//! access; the caller performs it and hands the result to `after_read` or
//! `after_write`, which give the response.

use crate::bytes::{ascii, copy_range, literal, same_bytes, starts_with};
use crate::headers::Headers;
use crate::parser::{parse, parse_request};
use crate::response::{Code, ContentType, Response, ResponseView};
use vstd::prelude::*;
use vstd::slice::slice_subrange;
use vstd::string::StringSliceAdditionalSpecFns;

verus! {

/// The method of a request.
#[derive(Clone, Copy, Debug, PartialEq, Eq, Structural)]
pub enum Method {
    /// `GET`
    Get,
    /// `POST`
    Post,
    /// Any other method; no route serves it.
    Other,
}

/// The method that a token names. Only `GET` and `POST` are known by name,
/// in capital letters; every other token names another method.
pub open spec fn method_named(token: Seq<u8>) -> Method {
    if token == ascii("GET"@) {
        Method::Get
    } else if token == ascii("POST"@) {
        Method::Post
    } else {
        Method::Other
    }
}

impl Method {
    /// The method that `token` names.
    pub fn from_token(token: &[u8]) -> (method: Method)
        ensures
            method == method_named(token@),
    {
        proof {
            reveal_strlit("GET");
            reveal_strlit("POST");
        }
        if same_bytes(token, literal("GET")) {
            Method::Get
        } else if same_bytes(token, literal("POST")) {
            Method::Post
        } else {
            Method::Other
        }
    }
}

impl From<&str> for Method {
    /// The method that `name` names.
    fn from(name: &str) -> (method: Method) {
        Method::from_token(name.as_bytes())
    }
}

impl vstd::std_specs::convert::FromSpecImpl<&str> for Method {
    open spec fn obeys_from_spec() -> bool {
        true
    }

    open spec fn from_spec(name: &str) -> Method {
        method_named(name.spec_bytes())
    }
}

/// A request as the parser hands it to the router.
#[derive(Debug, PartialEq, Eq)]
pub struct Request {
    /// The method.
    pub method: Method,
    /// The path, which begins with a slash.
    pub path: Vec<u8>,
    /// The headers, by name.
    pub headers: Headers,
    /// The body: for a `POST`, as many bytes as it declares; for another
    /// method, all that follows the blank line.
    pub body: Vec<u8>,
}

/// What a request says: the model that the contracts speak of.
pub struct RequestView {
    /// The method.
    pub method: Method,
    /// The path.
    pub path: Seq<u8>,
    /// The value of each header that is present.
    pub headers: Map<Seq<u8>, Seq<u8>>,
    /// The body.
    pub body: Seq<u8>,
}

impl View for Request {
    type V = RequestView;

    open spec fn view(&self) -> RequestView {
        RequestView {
            method: self.method,
            path: self.path@,
            headers: self.headers@,
            body: self.body@,
        }
    }
}

/// What is to be done for a request.
#[derive(Debug, PartialEq, Eq)]
pub enum Action {
    /// Send this response; storage is not needed.
    Respond(Response),
    /// Read the file `name` under the root directory, then send what
    /// `after_read` gives.
    ReadFile {
        /// The file name: the path past `/files/`, as it was written.
        name: Vec<u8>,
    },
    /// Write `contents` to the file `name` under the root directory, making
    /// the file or replacing what it held, then send what `after_write`
    /// gives.
    WriteFile {
        /// The file name: the path past `/files/`, as it was written.
        name: Vec<u8>,
        /// The bytes that the file is to hold: the body of the request.
        contents: Vec<u8>,
    },
}

/// What an action says: the model that the contracts speak of.
pub enum ActionView {
    /// Send this response.
    Respond(ResponseView),
    /// Read this file.
    ReadFile { name: Seq<u8> },
    /// Write these bytes to this file.
    WriteFile { name: Seq<u8>, contents: Seq<u8> },
}

impl View for Action {
    type V = ActionView;

    open spec fn view(&self) -> ActionView {
        match self {
            Action::Respond(response) => ActionView::Respond(response@),
            Action::ReadFile { name } => ActionView::ReadFile { name: name@ },
            Action::WriteFile { name, contents } => ActionView::WriteFile {
                name: name@,
                contents: contents@,
            },
        }
    }
}

/// The path that is answered with an empty body.
pub open spec fn root_path() -> Seq<u8> {
    ascii("/"@)
}

/// The path that is answered with the value of `User-Agent`.
pub open spec fn user_agent_path() -> Seq<u8> {
    ascii("/user-agent"@)
}

/// The name of the header that `/user-agent` reflects.
pub open spec fn user_agent() -> Seq<u8> {
    ascii("User-Agent"@)
}

/// The beginning of every path that is answered with its own remainder.
pub open spec fn echo_prefix() -> Seq<u8> {
    ascii("/echo/"@)
}

/// The beginning of every path that names a file.
pub open spec fn files_prefix() -> Seq<u8> {
    ascii("/files/"@)
}

/// The response with status 200 and type `text/plain` that carries `body`.
pub open spec fn plain(body: Seq<u8>) -> ResponseView {
    ResponseView::content(Code::Success, ContentType::TextPlain, body)
}

/// The dispatch table: what is to be done for `request`.
///
/// The two exact paths are tried before the two prefixes. What follows a
/// prefix is taken as it stands, further slashes included.
pub open spec fn route(request: RequestView) -> ActionView {
    let path = request.path;
    match request.method {
        Method::Get => {
            if path == user_agent_path() {
                if request.headers.contains_key(user_agent()) {
                    ActionView::Respond(plain(request.headers[user_agent()]))
                } else {
                    ActionView::Respond(ResponseView::not_found())
                }
            } else if path == root_path() {
                ActionView::Respond(plain(Seq::empty()))
            } else if echo_prefix().is_prefix_of(path) {
                ActionView::Respond(plain(path.skip(echo_prefix().len() as int)))
            } else if files_prefix().is_prefix_of(path) {
                ActionView::ReadFile { name: path.skip(files_prefix().len() as int) }
            } else {
                ActionView::Respond(ResponseView::not_found())
            }
        },
        Method::Post => {
            if files_prefix().is_prefix_of(path) {
                ActionView::WriteFile {
                    name: path.skip(files_prefix().len() as int),
                    contents: request.body,
                }
            } else {
                ActionView::Respond(ResponseView::not_found())
            }
        },
        Method::Other => ActionView::Respond(ResponseView::not_found()),
    }
}

/// Decides what is to be done for `request`, by the dispatch table.
pub fn dispatch(request: Request) -> (action: Action)
    ensures
        action@ == route(request@),
{
    proof {
        reveal_strlit("/");
        reveal_strlit("/user-agent");
        reveal_strlit("User-Agent");
        reveal_strlit("/echo/");
        reveal_strlit("/files/");
    }
    let Request { method, path, headers, body } = request;
    let echo = literal("/echo/");
    let files = literal("/files/");
    match method {
        Method::Get => {
            if same_bytes(path.as_slice(), literal("/user-agent")) {
                match headers.get(literal("User-Agent")) {
                    Some(agent) => Action::Respond(Response::new_ok().set_body(agent)),
                    None => Action::Respond(Response::new_not_found()),
                }
            } else if same_bytes(path.as_slice(), literal("/")) {
                Action::Respond(Response::new_ok())
            } else if starts_with(path.as_slice(), echo) {
                let word = slice_subrange(path.as_slice(), echo.len(), path.len());
                Action::Respond(Response::new_ok().set_body(word))
            } else if starts_with(path.as_slice(), files) {
                Action::ReadFile { name: copy_range(path.as_slice(), files.len(), path.len()) }
            } else {
                Action::Respond(Response::new_not_found())
            }
        },
        Method::Post => {
            if starts_with(path.as_slice(), files) {
                Action::WriteFile {
                    name: copy_range(path.as_slice(), files.len(), path.len()),
                    contents: body,
                }
            } else {
                Action::Respond(Response::new_not_found())
            }
        },
        Method::Other => Action::Respond(Response::new_not_found()),
    }
}

/// What is to be done for the bytes `input` that a connection delivered:
/// what the dispatch table says for the request that they hold, and the
/// response 404 where they hold none.
pub open spec fn process(input: Seq<u8>) -> ActionView {
    match parse(input) {
        Ok((_, request)) => route(request),
        Err(_) => ActionView::Respond(ResponseView::not_found()),
    }
}

/// Decides what is to be done for the bytes that a connection delivered.
///
/// Never fails: bytes that hold no request, the empty input among them, are
/// answered with 404.
pub fn process_request(input: &[u8]) -> (action: Action)
    ensures
        action@ == process(input@),
{
    match parse_request(input) {
        Ok((_, request)) => dispatch(request),
        Err(_) => Action::Respond(Response::new_not_found()),
    }
}

/// The response to `GET /files/<name>` once the file was looked for: 200
/// with the contents as `application/octet-stream` where there is such a
/// file, and 404 where there is none.
pub open spec fn read_reply(found: Option<Seq<u8>>) -> ResponseView {
    match found {
        Some(contents) => ResponseView::content(Code::Success, ContentType::Binary, contents),
        None => ResponseView::not_found(),
    }
}

/// The response to `POST /files/<name>` once the file was written: 201 with
/// the written bytes as `application/octet-stream`.
pub open spec fn write_reply(contents: Seq<u8>) -> ResponseView {
    ResponseView::content(Code::Created, ContentType::Binary, contents)
}

/// The response that follows `Action::ReadFile`, given the contents of the
/// file, or `None` where there is no such file.
pub fn after_read(found: Option<Vec<u8>>) -> (response: Response)
    ensures
        response@ == read_reply(
            match found {
                Some(contents) => Some(contents@),
                None => None,
            },
        ),
{
    match found {
        Some(contents) => Response::Content {
            code: Code::Success,
            content_type: ContentType::Binary,
            body: contents,
        },
        None => Response::new_not_found(),
    }
}

/// The response that follows `Action::WriteFile` once `contents` was
/// written.
pub fn after_write(contents: Vec<u8>) -> (response: Response)
    ensures
        response@ == write_reply(contents@),
{
    Response::Content { code: Code::Created, content_type: ContentType::Binary, body: contents }
}

} // verus!
