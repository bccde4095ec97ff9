//! One exchange: the bytes of a request come in, storage is asked where the
//! route needs it, and a response goes out.
//!
//! Storage is modelled as a map from file name to file contents. The model
//! says what a storage that works hands back; a write that fails ends the
//! connection without a response and is no exchange.

use crate::bytes::{CR, LF, SP};
use crate::decimal::{decimal, is_number, lemma_decimal_round_trip, number_of};
use crate::message::{
    are_fields, content_length, crlf, fields_map, is_field_name, is_one_line, message,
    with_fields,
};
use crate::parser::{
    body_length, header_block, is_target, is_token, line_end, method_token, parse, reads_as,
    request_line, request_line_of, target_of, version,
};
use crate::reading::{
    lemma_decimal_is_one_line, lemma_first_line_is_one_line, lemma_line_end_written,
    lemma_message_read, lemma_parse_bare, lemma_parse_started, lemma_parse_written,
};
use crate::request::{
    echo_prefix, files_prefix, plain, process, read_reply, root_path, route, user_agent,
    user_agent_path, write_reply, ActionView, Method, RequestView,
};
use crate::response::{encode, response_fields, status_line, Code, ContentType, ResponseView};
use vstd::prelude::*;

verus! {

/// The contents of the file `name`, or `None` where storage holds no such
/// file.
pub open spec fn found_in(store: Map<Seq<u8>, Seq<u8>>, name: Seq<u8>) -> Option<Seq<u8>> {
    if store.contains_key(name) {
        Some(store[name])
    } else {
        None
    }
}

/// What storage holds once `action` was performed on `store`: a write sets
/// the whole contents of its file, anything else changes nothing.
pub open spec fn store_after(store: Map<Seq<u8>, Seq<u8>>, action: ActionView) -> Map<
    Seq<u8>,
    Seq<u8>,
> {
    match action {
        ActionView::WriteFile { name, contents } => store.insert(name, contents),
        _ => store,
    }
}

/// The response that is sent once `action` was performed on `store`.
pub open spec fn reply_after(store: Map<Seq<u8>, Seq<u8>>, action: ActionView) -> ResponseView {
    match action {
        ActionView::Respond(response) => response,
        ActionView::ReadFile { name } => read_reply(found_in(store, name)),
        ActionView::WriteFile { name, contents } => write_reply(contents),
    }
}

/// One exchange: what storage holds afterwards, and the response, for the
/// bytes `input` that came in while storage held `store`.
pub open spec fn exchange(store: Map<Seq<u8>, Seq<u8>>, input: Seq<u8>) -> (
    Map<Seq<u8>, Seq<u8>>,
    ResponseView,
) {
    (store_after(store, process(input)), reply_after(store, process(input)))
}

/// The headers of the lines of `rest`, read from its beginning.
pub open spec fn headers_in(rest: Seq<u8>) -> Map<Seq<u8>, Seq<u8>> {
    header_block(rest, 0, Map::empty()).0
}

/// The bytes of a `GET` for `path`: the request line, its line ending, and
/// whatever the client sent after that.
pub open spec fn get(path: Seq<u8>, rest: Seq<u8>) -> Seq<u8> {
    request_line_of(Method::Get, path) + crlf() + rest
}

/// A `GET` is read as a request for its path with the headers of the lines
/// that follow the request line, whatever those lines are.
pub proof fn lemma_get(path: Seq<u8>, rest: Seq<u8>)
    requires
        is_target(path),
    ensures
        parse(get(path, rest)) matches Ok((_, request)) && request.method == Method::Get
            && request.path == path && request.headers == headers_in(rest),
{
    lemma_parse_started(Method::Get, path, rest);
}

/// A path made of a route prefix and a word is a path, provided that the
/// word holds no space and no byte of a line ending.
proof fn lemma_prefixed_target(prefix: Seq<u8>, word: Seq<u8>)
    requires
        is_target(prefix),
        is_token(word),
    ensures
        is_target(prefix + word),
        prefix.is_prefix_of(prefix + word),
        (prefix + word).skip(prefix.len() as int) == word,
{
    let path = prefix + word;
    assert forall|i: int| 0 <= i < path.len() implies {
        let b = #[trigger] path[i];
        b != SP && b != CR && b != LF
    } by {
        if i < prefix.len() {
            assert(path[i] == prefix[i]);
        } else {
            assert(path[i] == word[i - prefix.len()]);
        }
    }
    assert(path[0] == prefix[0]);
    assert(path.subrange(0, prefix.len() as int) =~= prefix);
    assert(path.skip(prefix.len() as int) =~= word);
}

/// The fixed paths and prefixes of the dispatch table are paths, and no two
/// of them begin alike past the first slash.
proof fn lemma_routes()
    ensures
        is_target(root_path()),
        is_target(user_agent_path()),
        is_target(echo_prefix()),
        is_target(files_prefix()),
        root_path().len() == 1,
        user_agent_path().len() == 11,
        echo_prefix().len() == 6,
        files_prefix().len() == 7,
        user_agent_path()[1] != echo_prefix()[1],
        user_agent_path()[1] != files_prefix()[1],
        echo_prefix()[1] != files_prefix()[1],
{
    reveal_strlit("/");
    reveal_strlit("/user-agent");
    reveal_strlit("/echo/");
    reveal_strlit("/files/");
}

/// `GET /echo/<word>` is answered with status 200 and with the word itself
/// as the body, for every word without a space or a byte of a line ending,
/// and whatever headers follow the request line.
pub proof fn lemma_echo(word: Seq<u8>, rest: Seq<u8>)
    requires
        is_token(word),
    ensures
        process(get(echo_prefix() + word, rest)) == ActionView::Respond(plain(word)),
        process(request_line_of(Method::Get, echo_prefix() + word)) == ActionView::Respond(
            plain(word),
        ),
        plain(word).status == 200,
        plain(word).body == word,
{
    let path = echo_prefix() + word;
    lemma_routes();
    lemma_prefixed_target(echo_prefix(), word);
    lemma_get(path, rest);
    lemma_parse_bare(Method::Get, path);
    assert(path[1] == echo_prefix()[1]);
}

/// `GET /` is answered with status 200 and an empty body, whatever headers
/// follow the request line.
pub proof fn lemma_root(rest: Seq<u8>)
    ensures
        process(get(root_path(), rest)) == ActionView::Respond(plain(Seq::empty())),
        process(request_line_of(Method::Get, root_path())) == ActionView::Respond(
            plain(Seq::empty()),
        ),
        plain(Seq::empty()).status == 200,
{
    lemma_routes();
    lemma_get(root_path(), rest);
    lemma_parse_bare(Method::Get, root_path());
}

/// `GET /user-agent` is answered with status 200 and the value of the
/// header `User-Agent` where the request has that header, and with 404
/// where it has none.
pub proof fn lemma_user_agent(rest: Seq<u8>)
    ensures
        process(get(user_agent_path(), rest)) == ActionView::Respond(
            match found_in(headers_in(rest), user_agent()) {
                Some(agent) => plain(agent),
                None => ResponseView::not_found(),
            },
        ),
{
    lemma_routes();
    lemma_get(user_agent_path(), rest);
}

/// `GET /user-agent` with header lines that were written for `fields` is
/// answered with the value that the fields give to `User-Agent`, whatever
/// follows the blank line.
pub proof fn lemma_user_agent_written(fields: Seq<(Seq<u8>, Seq<u8>)>, rest: Seq<u8>)
    requires
        are_fields(fields),
    ensures
        process(message(request_line_of(Method::Get, user_agent_path()), fields, rest))
            == ActionView::Respond(
            match found_in(fields_map(fields), user_agent()) {
                Some(agent) => plain(agent),
                None => ResponseView::not_found(),
            },
        ),
{
    lemma_routes();
    lemma_parse_written(Method::Get, user_agent_path(), fields, rest, Seq::empty());
    assert(rest + Seq::<u8>::empty() =~= rest);
    assert(message(request_line_of(Method::Get, user_agent_path()), fields, rest) + Seq::<
        u8,
    >::empty() =~= message(request_line_of(Method::Get, user_agent_path()), fields, rest));
}

/// The bytes of a `POST` to `path` with `body` as its body, as long as the
/// fields declare it.
pub open spec fn post(path: Seq<u8>, fields: Seq<(Seq<u8>, Seq<u8>)>, body: Seq<u8>) -> Seq<u8> {
    message(request_line_of(Method::Post, path), fields, body)
}

/// Whether `fields` can be the headers of a `POST` with this body: each can
/// be written on a line, and together they declare the length of the body.
pub open spec fn declares(fields: Seq<(Seq<u8>, Seq<u8>)>, body: Seq<u8>) -> bool {
    are_fields(fields) && body_length(fields_map(fields)) == body.len()
}

/// `POST /files/<name>` writes the body of the request to the file `name`
/// and is answered with status 201 and the written bytes.
pub proof fn lemma_post_file(
    store: Map<Seq<u8>, Seq<u8>>,
    name: Seq<u8>,
    fields: Seq<(Seq<u8>, Seq<u8>)>,
    body: Seq<u8>,
)
    requires
        is_token(name),
        declares(fields, body),
    ensures
        process(post(files_prefix() + name, fields, body)) == (ActionView::WriteFile {
            name,
            contents: body,
        }),
        exchange(store, post(files_prefix() + name, fields, body)) == (
            store.insert(name, body),
            ResponseView::content(Code::Created, ContentType::Binary, body),
        ),
{
    let path = files_prefix() + name;
    lemma_routes();
    lemma_prefixed_target(files_prefix(), name);
    assert(body + Seq::<u8>::empty() =~= body);
    assert(body.take(body.len() as int) =~= body);
    lemma_parse_written(Method::Post, path, fields, body, Seq::empty());
    assert(post(path, fields, body) + Seq::<u8>::empty() =~= post(path, fields, body));
}

/// `GET /files/<name>` reads the file `name` and is answered with status
/// 200 and its contents as `application/octet-stream` where storage holds
/// the file, and with 404 and no body where it holds none. Storage stays as
/// it is.
pub proof fn lemma_get_file(store: Map<Seq<u8>, Seq<u8>>, name: Seq<u8>, rest: Seq<u8>)
    requires
        is_token(name),
    ensures
        process(get(files_prefix() + name, rest)) == (ActionView::ReadFile { name }),
        exchange(store, get(files_prefix() + name, rest)) == (
            store,
            match found_in(store, name) {
                Some(contents) => ResponseView::content(
                    Code::Success,
                    ContentType::Binary,
                    contents,
                ),
                None => ResponseView::not_found(),
            },
        ),
{
    let path = files_prefix() + name;
    lemma_routes();
    lemma_prefixed_target(files_prefix(), name);
    lemma_get(path, rest);
    assert(path[1] == files_prefix()[1]);
    assert(!echo_prefix().is_prefix_of(path)) by {
        if echo_prefix().is_prefix_of(path) {
            assert(path.subrange(0, echo_prefix().len() as int)[1] == echo_prefix()[1]);
        }
    }
}

/// A file that was written is read back as it was written: after
/// `POST /files/<name>` with the body `body`, `GET /files/<name>` is
/// answered with status 200, type `application/octet-stream` and exactly
/// `body`.
pub proof fn lemma_post_then_get(
    store: Map<Seq<u8>, Seq<u8>>,
    name: Seq<u8>,
    fields: Seq<(Seq<u8>, Seq<u8>)>,
    body: Seq<u8>,
    rest: Seq<u8>,
)
    requires
        is_token(name),
        declares(fields, body),
    ensures
        ({
            let path = files_prefix() + name;
            let written = exchange(store, post(path, fields, body)).0;
            exchange(written, get(path, rest)).1 == ResponseView::content(
                Code::Success,
                ContentType::Binary,
                body,
            )
        }),
{
    lemma_post_file(store, name, fields, body);
    lemma_get_file(store.insert(name, body), name, rest);
}

/// A second write replaces what the first one wrote: after two `POST`s to
/// one file name, `GET` is answered with the body of the second, and with
/// nothing of the first.
pub proof fn lemma_post_twice_then_get(
    store: Map<Seq<u8>, Seq<u8>>,
    name: Seq<u8>,
    first_fields: Seq<(Seq<u8>, Seq<u8>)>,
    first: Seq<u8>,
    second_fields: Seq<(Seq<u8>, Seq<u8>)>,
    second: Seq<u8>,
    rest: Seq<u8>,
)
    requires
        is_token(name),
        declares(first_fields, first),
        declares(second_fields, second),
    ensures
        ({
            let path = files_prefix() + name;
            let once = exchange(store, post(path, first_fields, first)).0;
            let twice = exchange(once, post(path, second_fields, second)).0;
            exchange(twice, get(path, rest)).1 == ResponseView::content(
                Code::Success,
                ContentType::Binary,
                second,
            )
        }),
{
    lemma_post_file(store, name, first_fields, first);
    lemma_post_file(store.insert(name, first), name, second_fields, second);
    lemma_get_file(store.insert(name, first).insert(name, second), name, rest);
}

/// `GET /files/<name>` for a file that storage does not hold is answered
/// with status 404 and no body.
pub proof fn lemma_get_missing_file(store: Map<Seq<u8>, Seq<u8>>, name: Seq<u8>, rest: Seq<u8>)
    requires
        is_token(name),
        !store.contains_key(name),
    ensures
        exchange(store, get(files_prefix() + name, rest)).1 == ResponseView::not_found(),
        ResponseView::not_found().status == 404,
        ResponseView::not_found().body.len() == 0,
{
    lemma_get_file(store, name, rest);
}

/// The one field that declares a body of `length` bytes.
pub open spec fn length_field(length: nat) -> Seq<(Seq<u8>, Seq<u8>)> {
    seq![(content_length(), decimal(length))]
}

/// A `Content-Length` with the length of the body in decimal declares that
/// body.
pub proof fn lemma_length_field_declares(body: Seq<u8>)
    ensures
        declares(length_field(body.len()), body),
{
    reveal_strlit("Content-Length");
    let fields = length_field(body.len());
    lemma_decimal_round_trip(body.len());
    assert(is_field_name(content_length()));
    lemma_decimal_is_one_line(body.len());
    reveal_with_fuel(with_fields, 2);
    assert(fields.drop_first() =~= Seq::empty());
    assert(fields_map(fields) =~= Map::<Seq<u8>, Seq<u8>>::empty().insert(
        content_length(),
        decimal(body.len()),
    ));
}

/// Bytes whose first line is no request line are answered with 404. This
/// holds of every method but `GET` and `POST`, and of the empty input.
pub proof fn lemma_malformed(input: Seq<u8>)
    requires
        request_line(input.subrange(0, line_end(input, 0))) is None,
    ensures
        process(input) == ActionView::Respond(ResponseView::not_found()),
        ResponseView::not_found().status == 404,
{
}

/// Nothing at all is answered with 404.
pub proof fn lemma_empty_input()
    ensures
        process(Seq::empty()) == ActionView::Respond(ResponseView::not_found()),
{
    let line = Seq::<u8>::empty().subrange(0, line_end(Seq::<u8>::empty(), 0));
    reveal_strlit("GET");
    reveal_strlit("POST");
    reveal_strlit("HTTP/1.1");
    assert(line.len() == 0);
}

/// A first line with any other method token than `GET` and `POST` is no
/// request line, so that the request is answered with 404.
pub proof fn lemma_unknown_method(token: Seq<u8>, path: Seq<u8>, rest: Seq<u8>)
    requires
        is_token(token),
        is_target(path),
        token != method_token(Method::Get),
        token != method_token(Method::Post),
    ensures
        request_line(token + seq![SP] + path + seq![SP] + version()) is None,
        process(token + seq![SP] + path + seq![SP] + version() + crlf() + rest)
            == ActionView::Respond(ResponseView::not_found()),
{
    reveal_strlit("GET");
    reveal_strlit("POST");
    reveal_strlit("HTTP/1.1");
    let line = token + seq![SP] + path + seq![SP] + version();
    assert(line[token.len() as int] == SP);
    assert forall|i: int| 0 <= i < token.len() implies line[i] == token[i] && line[i] != SP by {
        assert(line[i] == token[i]);
    }
    assert(!reads_as(line, Method::Get)) by {
        if reads_as(line, Method::Get) {
            let other = request_line_of(Method::Get, target_of(line, Method::Get));
            let get = method_token(Method::Get);
            assert(other[3] == SP);
            assert forall|i: int| 0 <= i < 3 implies other[i] == get[i] && other[i] != SP by {
                assert(other[i] == get[i]);
            }
            assert(token.len() == 3);
            assert(token =~= get);
        }
    }
    assert(!reads_as(line, Method::Post)) by {
        if reads_as(line, Method::Post) {
            let other = request_line_of(Method::Post, target_of(line, Method::Post));
            let post = method_token(Method::Post);
            assert(other[4] == SP);
            assert forall|i: int| 0 <= i < 4 implies other[i] == post[i] && other[i] != SP by {
                assert(other[i] == post[i]);
            }
            assert(token.len() == 4);
            assert(token =~= post);
        }
    }
    lemma_first_line_is_one_line(token, path);
    let whole = line + crlf() + rest;
    lemma_line_end_written(line, rest, 0);
    assert(whole.subrange(0, line.len() as int) =~= line);
}

/// Whether the dispatch table has a route for this method and this path.
pub open spec fn is_routed(method: Method, path: Seq<u8>) -> bool {
    match method {
        Method::Get => path == root_path() || path == user_agent_path()
            || echo_prefix().is_prefix_of(path) || files_prefix().is_prefix_of(path),
        Method::Post => files_prefix().is_prefix_of(path),
        Method::Other => false,
    }
}

/// A request for which the dispatch table has no route is answered with
/// 404, whatever its headers and its body.
pub proof fn lemma_unknown_route(request: RequestView)
    requires
        !is_routed(request.method, request.path),
    ensures
        route(request) == ActionView::Respond(ResponseView::not_found()),
{
}

/// Bytes that begin with the request line for a method and a path for
/// which the dispatch table has no route are answered with 404, whatever
/// follows the request line.
pub proof fn lemma_unknown_path(method: Method, path: Seq<u8>, rest: Seq<u8>)
    requires
        method != Method::Other,
        is_target(path),
        !is_routed(method, path),
    ensures
        process(request_line_of(method, path) + crlf() + rest) == ActionView::Respond(
            ResponseView::not_found(),
        ),
        process(request_line_of(method, path)) == ActionView::Respond(ResponseView::not_found()),
{
    lemma_parse_started(method, path, rest);
    lemma_parse_bare(method, path);
}

/// Every response says in `Content-Length` how many bytes its body has.
///
/// Whoever reads the bytes of a response as this library reads headers
/// finds the status line first, then a `Content-Length` whose value is the
/// length of the body in decimal, and past the blank line the body and
/// nothing else.
pub proof fn lemma_content_length(response: ResponseView)
    ensures
        ({
            let wire = encode(response);
            let status_end = line_end(wire, 0);
            let (headers, body_at) = header_block(wire, status_end + 2, Map::empty());
            &&& wire.subrange(0, status_end) == status_line(response.status)
            &&& headers.contains_key(content_length())
            &&& headers[content_length()] == decimal(response.body.len())
            &&& is_number(headers[content_length()])
            &&& number_of(headers[content_length()]) == response.body.len()
            &&& wire.skip(body_at) == response.body
        }),
{
    reveal_strlit("HTTP/1.1 200 OK");
    reveal_strlit("HTTP/1.1 201 CREATED");
    reveal_strlit("HTTP/1.1 404 NOT FOUND");
    reveal_strlit("Content-Type");
    reveal_strlit("Content-Length");
    reveal_strlit("Connection");
    reveal_strlit("close");
    reveal_strlit("text/plain");
    reveal_strlit("application/octet-stream");
    let start = status_line(response.status);
    let fields = response_fields(response);
    let length = decimal(response.body.len());
    lemma_decimal_round_trip(response.body.len());
    lemma_decimal_is_one_line(response.body.len());
    assert(is_one_line(start));
    assert(are_fields(fields));
    lemma_message_read(start, fields, response.body);
    reveal_with_fuel(with_fields, 4);
    assert(fields.drop_first().drop_first().drop_first() =~= Seq::empty());
    assert(fields[2].0.len() != content_length().len());
}

} // verus!
