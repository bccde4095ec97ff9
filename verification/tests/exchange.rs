use std::collections::HashMap;

use http_server::headers::Headers;
use http_server::request::{
    after_read, after_write, dispatch, process_request, Action, Method, Request,
};
use http_server::response::{Code, ContentType, Response};

type Store = HashMap<Vec<u8>, Vec<u8>>;

fn exchange(store: &mut Store, input: &[u8]) -> Response {
    match process_request(input) {
        Action::Respond(response) => response,
        Action::ReadFile { name } => after_read(store.get(&name).cloned()),
        Action::WriteFile { name, contents } => {
            store.insert(name, contents.clone());
            after_write(contents)
        }
    }
}

fn ok_text(body: &[u8]) -> Response {
    Response::Content {
        code: Code::Success,
        content_type: ContentType::TextPlain,
        body: body.to_vec(),
    }
}

fn ok_binary(body: &[u8]) -> Response {
    Response::Content {
        code: Code::Success,
        content_type: ContentType::Binary,
        body: body.to_vec(),
    }
}

fn created(body: &[u8]) -> Response {
    Response::Content {
        code: Code::Created,
        content_type: ContentType::Binary,
        body: body.to_vec(),
    }
}

fn post(path: &str, body: &[u8]) -> Vec<u8> {
    let mut input =
        format!("POST {path} HTTP/1.1\r\nHost: localhost:4221\r\nContent-Length: {}\r\n\r\n", body.len())
            .into_bytes();
    input.extend_from_slice(body);
    input
}

fn get(path: &str) -> Vec<u8> {
    format!("GET {path} HTTP/1.1\r\nHost: localhost:4221\r\n\r\n").into_bytes()
}

fn request(method: Method, path: &[u8], headers: Headers, body: &[u8]) -> Request {
    Request { method, path: path.to_vec(), headers, body: body.to_vec() }
}

#[test]
fn echo_hello() {
    let response = exchange(&mut Store::new(), b"GET /echo/hello HTTP/1.1\r\n\r\n");
    assert_eq!(response.status(), 200);
    assert_eq!(response.body(), b"hello");
    let wire = response.build();
    assert!(wire.starts_with(b"HTTP/1.1 200 OK\r\n"));
    assert!(wire.ends_with(b"\r\n\r\nhello"));
    assert!(wire.windows(19).any(|window| window == b"\r\nContent-Length: 5"));
    assert_eq!(
        wire,
        b"HTTP/1.1 200 OK\r\nContent-Type: text/plain\r\nContent-Length: 5\r\nConnection: close\r\n\r\nhello".to_vec()
    );
}

#[test]
fn echo_gives_the_word_back() {
    for word in ["a", "abc", "a/b", "a/b/c", "%20", "a?b=c", "/", "//", "/echo/x", "hello-world_1.2", ""] {
        let input = format!("GET /echo/{word} HTTP/1.1\r\nHost: a\r\nUser-Agent: b\r\n\r\n");
        assert_eq!(process_request(input.as_bytes()), Action::Respond(ok_text(word.as_bytes())));
    }
}

#[test]
fn echo_without_a_line_ending() {
    assert_eq!(process_request(b"GET /echo/abc HTTP/1.1"), Action::Respond(ok_text(b"abc")));
    assert_eq!(process_request(b"GET /echo/abc HTTP/1.1\r\n"), Action::Respond(ok_text(b"abc")));
}

#[test]
fn echo_needs_its_slash() {
    assert_eq!(process_request(b"GET /echo HTTP/1.1\r\n\r\n"), Action::Respond(Response::NotFound));
    assert_eq!(process_request(b"GET /echoes HTTP/1.1\r\n\r\n"), Action::Respond(Response::NotFound));
    assert_eq!(process_request(b"GET /Echo/a HTTP/1.1\r\n\r\n"), Action::Respond(Response::NotFound));
}

#[test]
fn echo_with_a_space_is_no_request() {
    assert_eq!(process_request(b"GET /echo/a b HTTP/1.1\r\n\r\n"), Action::Respond(Response::NotFound));
}

#[test]
fn root_is_200_and_empty() {
    for input in [
        &b"GET / HTTP/1.1"[..],
        b"GET / HTTP/1.1\r\n",
        b"GET / HTTP/1.1\r\n\r\n",
        b"GET / HTTP/1.1\r\nHost: localhost:4221\r\nUser-Agent: curl/8.0\r\nAccept: */*\r\n\r\n",
        b"GET / HTTP/1.1\r\nContent-Length: 5\r\n\r\nhello",
        b"GET / HTTP/1.1\r\nthis is no header\r\n\r\n",
    ] {
        let response = exchange(&mut Store::new(), input);
        assert_eq!(response.status(), 200);
        assert_eq!(response.body(), b"");
        assert_eq!(response, Response::new_ok());
    }
}

#[test]
fn user_agent_is_reflected() {
    let input = b"GET /user-agent HTTP/1.1\r\nHost: localhost:4221\r\nUser-Agent: foobar/1.2.3\r\nAccept: */*\r\n\r\n";
    assert_eq!(process_request(input), Action::Respond(ok_text(b"foobar/1.2.3")));
}

#[test]
fn user_agent_with_an_empty_value_is_present() {
    let input = b"GET /user-agent HTTP/1.1\r\nUser-Agent: \r\n\r\n";
    assert_eq!(process_request(input), Action::Respond(ok_text(b"")));
}

#[test]
fn user_agent_that_comes_twice() {
    let input = b"GET /user-agent HTTP/1.1\r\nUser-Agent: one\r\nUser-Agent: two\r\n\r\n";
    assert_eq!(process_request(input), Action::Respond(ok_text(b"two")));
}

#[test]
fn user_agent_absent_is_404() {
    for input in [
        &b"GET /user-agent HTTP/1.1\r\n\r\n"[..],
        b"GET /user-agent HTTP/1.1",
        b"GET /user-agent HTTP/1.1\r\nHost: a\r\n\r\n",
        b"GET /user-agent HTTP/1.1\r\nuser-agent: a\r\n\r\n",
        b"GET /user-agent HTTP/1.1\r\nUser-Agent:a\r\n\r\n",
        b"GET /user-agent HTTP/1.1\r\n\r\nUser-Agent: a\r\n\r\n",
    ] {
        let response = exchange(&mut Store::new(), input);
        assert_eq!(response.status(), 404);
        assert_eq!(response, Response::NotFound);
    }
}

#[test]
fn user_agent_path_is_exact() {
    let input = b"GET /user-agent/ HTTP/1.1\r\nUser-Agent: a\r\n\r\n";
    assert_eq!(process_request(input), Action::Respond(Response::NotFound));
    let input = b"POST /user-agent HTTP/1.1\r\nUser-Agent: a\r\n\r\n";
    assert_eq!(process_request(input), Action::Respond(Response::NotFound));
}

#[test]
fn get_file_asks_for_the_file() {
    assert_eq!(
        process_request(b"GET /files/foo HTTP/1.1\r\n\r\n"),
        Action::ReadFile { name: b"foo".to_vec() }
    );
    assert_eq!(
        process_request(b"GET /files/a/b.txt HTTP/1.1\r\n\r\n"),
        Action::ReadFile { name: b"a/b.txt".to_vec() }
    );
    assert_eq!(
        process_request(b"GET /files/../secret HTTP/1.1\r\n\r\n"),
        Action::ReadFile { name: b"../secret".to_vec() }
    );
    assert_eq!(
        process_request(b"GET /files/ HTTP/1.1\r\n\r\n"),
        Action::ReadFile { name: Vec::new() }
    );
    assert_eq!(process_request(b"GET /files HTTP/1.1\r\n\r\n"), Action::Respond(Response::NotFound));
}

#[test]
fn post_file_asks_for_the_write() {
    assert_eq!(
        process_request(b"POST /files/foo HTTP/1.1\r\nContent-Length: 3\r\n\r\nabc"),
        Action::WriteFile { name: b"foo".to_vec(), contents: b"abc".to_vec() }
    );
    assert_eq!(
        process_request(b"POST /files/foo HTTP/1.1\r\n\r\nabc"),
        Action::WriteFile { name: b"foo".to_vec(), contents: Vec::new() }
    );
}

#[test]
fn responses_after_storage() {
    assert_eq!(after_read(Some(b"abc".to_vec())), ok_binary(b"abc"));
    assert_eq!(after_read(Some(Vec::new())), ok_binary(b""));
    assert_eq!(after_read(None), Response::NotFound);
    assert_eq!(after_write(b"abc".to_vec()), created(b"abc"));
    assert_eq!(after_write(Vec::new()), created(b""));
}

#[test]
fn written_file_is_read_back() {
    let mut store = Store::new();
    let body = b"Hello, World!\r\n\x00\xff";
    let response = exchange(&mut store, &post("/files/foo", body));
    assert_eq!(response, created(body));
    assert_eq!(response.status(), 201);
    let response = exchange(&mut store, &get("/files/foo"));
    assert_eq!(response.status(), 200);
    assert_eq!(response.content_type(), ContentType::Binary);
    assert_eq!(response.body(), body);
    assert_eq!(response, ok_binary(body));
}

#[test]
fn large_file_is_read_back() {
    let mut store = Store::new();
    let body: Vec<u8> = (0..70000usize).map(|i| (i % 251) as u8).collect();
    assert_eq!(exchange(&mut store, &post("/files/big", &body)), created(&body));
    let wire = exchange(&mut store, &get("/files/big")).build();
    assert!(wire.starts_with(
        b"HTTP/1.1 200 OK\r\nContent-Type: application/octet-stream\r\nContent-Length: 70000\r\nConnection: close\r\n\r\n"
    ));
    assert!(wire.ends_with(&body));
    assert_eq!(wire.len(), 101 + 70000);
}

#[test]
fn second_write_replaces_the_first() {
    let mut store = Store::new();
    exchange(&mut store, &post("/files/foo", b"a long first body"));
    exchange(&mut store, &post("/files/foo", b"second"));
    assert_eq!(exchange(&mut store, &get("/files/foo")), ok_binary(b"second"));
    exchange(&mut store, &post("/files/foo", b""));
    assert_eq!(exchange(&mut store, &get("/files/foo")), ok_binary(b""));
}

#[test]
fn files_are_kept_apart_by_name() {
    let mut store = Store::new();
    exchange(&mut store, &post("/files/a", b"one"));
    exchange(&mut store, &post("/files/b", b"two"));
    assert_eq!(exchange(&mut store, &get("/files/a")), ok_binary(b"one"));
    assert_eq!(exchange(&mut store, &get("/files/b")), ok_binary(b"two"));
    assert_eq!(exchange(&mut store, &get("/files/A")), Response::NotFound);
}

#[test]
fn missing_file_is_404_without_a_body() {
    let mut store = Store::new();
    exchange(&mut store, &post("/files/foo", b"abc"));
    let response = exchange(&mut store, &get("/files/missing"));
    assert_eq!(response.status(), 404);
    assert_eq!(response.body(), b"");
    assert_eq!(
        response.build(),
        b"HTTP/1.1 404 NOT FOUND\r\nContent-Type: text/plain\r\nContent-Length: 0\r\nConnection: close\r\n\r\n".to_vec()
    );
}

#[test]
fn unknown_method_is_404() {
    for input in [
        &b"DELETE / HTTP/1.1\r\n\r\n"[..],
        b"PUT /files/foo HTTP/1.1\r\nContent-Length: 1\r\n\r\na",
        b"HEAD / HTTP/1.1\r\n\r\n",
        b"OPTIONS /echo/a HTTP/1.1\r\n\r\n",
    ] {
        assert_eq!(exchange(&mut Store::new(), input).status(), 404);
    }
}

#[test]
fn unknown_path_is_404() {
    for input in [
        &b"GET /nope HTTP/1.1\r\n\r\n"[..],
        b"GET /index.html HTTP/1.1\r\n\r\n",
        b"GET // HTTP/1.1\r\n\r\n",
        b"GET /user-agent2 HTTP/1.1\r\nUser-Agent: a\r\n\r\n",
        b"POST / HTTP/1.1\r\n\r\n",
        b"POST /echo/abc HTTP/1.1\r\n\r\n",
        b"POST /nope HTTP/1.1\r\nContent-Length: 1\r\n\r\na",
    ] {
        assert_eq!(process_request(input), Action::Respond(Response::NotFound));
    }
}

#[test]
fn what_is_no_request_is_404() {
    for input in [
        &b""[..],
        b"\r\n\r\n",
        b"hello",
        b"GET /\r\n\r\n",
        b"GET / HTTP/1.0\r\n\r\n",
        b"\x00\xff\xfe",
        b"POST /files/foo HTTP/1.1\r\nContent-Length: 10\r\n\r\nshort",
    ] {
        assert_eq!(process_request(input), Action::Respond(Response::NotFound));
    }
}

#[test]
fn dispatch_serves_no_other_method() {
    let mut headers = Headers::new();
    headers.insert(b"User-Agent".to_vec(), b"a".to_vec());
    for path in [&b"/"[..], b"/user-agent", b"/echo/a", b"/files/a"] {
        let mut headers = Headers::new();
        headers.insert(b"User-Agent".to_vec(), b"a".to_vec());
        assert_eq!(
            dispatch(request(Method::Other, path, headers, b"body")),
            Action::Respond(Response::NotFound)
        );
    }
    assert_eq!(
        dispatch(request(Method::Get, b"/user-agent", headers, b"")),
        Action::Respond(ok_text(b"a"))
    );
}

#[test]
fn dispatch_takes_every_path_as_it_is() {
    assert_eq!(
        dispatch(request(Method::Get, b"/echo/a b\r\nc", Headers::new(), b"")),
        Action::Respond(ok_text(b"a b\r\nc"))
    );
    assert_eq!(
        dispatch(request(Method::Post, b"/files/x", Headers::new(), &[1, 2, 3])),
        Action::WriteFile { name: b"x".to_vec(), contents: vec![1, 2, 3] }
    );
    assert_eq!(
        dispatch(request(Method::Get, b"", Headers::new(), b"")),
        Action::Respond(Response::NotFound)
    );
}
