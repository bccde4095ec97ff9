use http_server::response::{Code, ContentType, Response};

fn find(haystack: &[u8], needle: &[u8]) -> Option<usize> {
    haystack.windows(needle.len()).position(|window| window == needle)
}

fn content_length_of(wire: &[u8]) -> usize {
    let name = b"\r\nContent-Length: ";
    let from = find(wire, name).unwrap() + name.len();
    let to = from + find(&wire[from..], b"\r\n").unwrap();
    String::from_utf8(wire[from..to].to_vec()).unwrap().parse().unwrap()
}

fn body_of(wire: &[u8]) -> &[u8] {
    let at = find(wire, b"\r\n\r\n").unwrap() + 4;
    &wire[at..]
}

#[test]
fn new_ok_is_200_text_plain_and_empty() {
    let response = Response::new_ok();
    assert_eq!(response.status(), 200);
    assert_eq!(response.content_type(), ContentType::TextPlain);
    assert_eq!(response.body(), b"");
    assert_eq!(
        response,
        Response::Content {
            code: Code::Success,
            content_type: ContentType::TextPlain,
            body: Vec::new()
        }
    );
}

#[test]
fn new_not_found_is_404_and_empty() {
    let response = Response::new_not_found();
    assert_eq!(response, Response::NotFound);
    assert_eq!(response.status(), 404);
    assert_eq!(response.content_type(), ContentType::TextPlain);
    assert_eq!(response.body(), b"");
}

#[test]
fn ok_response_with_body_is_encoded_with_its_length() {
    let wire = Response::new_ok().set_body(b"hello").build();
    assert_eq!(
        wire,
        b"HTTP/1.1 200 OK\r\nContent-Type: text/plain\r\nContent-Length: 5\r\nConnection: close\r\n\r\nhello".to_vec()
    );
}

#[test]
fn empty_ok_response_still_says_its_length() {
    assert_eq!(
        Response::new_ok().build(),
        b"HTTP/1.1 200 OK\r\nContent-Type: text/plain\r\nContent-Length: 0\r\nConnection: close\r\n\r\n".to_vec()
    );
}

#[test]
fn created_binary_response() {
    let wire = Response::new_ok()
        .set_code(Code::Created)
        .set_content_type(ContentType::Binary)
        .set_body(&[0u8, 255u8])
        .build();
    let mut expected =
        b"HTTP/1.1 201 CREATED\r\nContent-Type: application/octet-stream\r\nContent-Length: 2\r\nConnection: close\r\n\r\n".to_vec();
    expected.extend_from_slice(&[0u8, 255u8]);
    assert_eq!(wire, expected);
}

#[test]
fn not_found_is_encoded_with_all_headers_and_no_body() {
    assert_eq!(
        Response::new_not_found().build(),
        b"HTTP/1.1 404 NOT FOUND\r\nContent-Type: text/plain\r\nContent-Length: 0\r\nConnection: close\r\n\r\n".to_vec()
    );
}

#[test]
fn not_found_takes_no_body_no_type_and_no_code() {
    assert_eq!(Response::new_not_found().set_body(b"hello"), Response::NotFound);
    assert_eq!(Response::new_not_found().set_content_type(ContentType::Binary), Response::NotFound);
    assert_eq!(Response::new_not_found().set_code(Code::Created), Response::NotFound);
    assert_eq!(
        Response::new_not_found().set_body(b"hello").build(),
        Response::new_not_found().build()
    );
}

#[test]
fn set_body_replaces_the_body_and_keeps_the_rest() {
    let response = Response::new_ok()
        .set_code(Code::Created)
        .set_content_type(ContentType::Binary)
        .set_body(b"first")
        .set_body(b"second");
    assert_eq!(
        response,
        Response::Content {
            code: Code::Created,
            content_type: ContentType::Binary,
            body: b"second".to_vec()
        }
    );
}

#[test]
fn set_content_type_keeps_code_and_body() {
    let response = Response::new_ok().set_body(b"abc").set_content_type(ContentType::Binary);
    assert_eq!(response.status(), 200);
    assert_eq!(response.content_type(), ContentType::Binary);
    assert_eq!(response.body(), b"abc");
    let back = response.set_content_type(ContentType::TextPlain);
    assert_eq!(back, Response::new_ok().set_body(b"abc"));
}

#[test]
fn set_code_keeps_type_and_body() {
    let response = Response::new_ok().set_body(b"abc").set_code(Code::Created);
    assert_eq!(response.status(), 201);
    assert_eq!(response.content_type(), ContentType::TextPlain);
    assert_eq!(response.body(), b"abc");
    assert_eq!(response.set_code(Code::Success).status(), 200);
}

#[test]
fn content_length_is_the_length_of_the_body() {
    for length in [0usize, 1, 2, 9, 10, 255, 256, 65536, 65537, 70000, 1 << 20] {
        let body = vec![b'x'; length];
        let wire = Response::new_ok().set_body(&body).build();
        assert_eq!(content_length_of(&wire), length);
        assert_eq!(body_of(&wire), &body[..]);
    }
}

#[test]
fn content_length_counts_bytes_not_characters() {
    let body = "héllo wörld ✓".as_bytes();
    let wire = Response::new_ok().set_body(body).build();
    assert_eq!(content_length_of(&wire), body.len());
    assert_eq!(body_of(&wire), body);
}

#[test]
fn body_that_is_no_text_is_sent_as_it_is() {
    let body: Vec<u8> = (0u8..=255).collect();
    let wire = Response::new_ok().set_content_type(ContentType::Binary).set_body(&body).build();
    assert_eq!(content_length_of(&wire), 256);
    assert_eq!(body_of(&wire), &body[..]);
}

#[test]
fn every_response_closes_the_connection() {
    for response in [
        Response::new_ok(),
        Response::new_ok().set_code(Code::Created).set_body(b"x"),
        Response::new_not_found(),
    ] {
        let wire = response.build();
        assert!(find(&wire, b"\r\nConnection: close\r\n\r\n").is_some());
        assert!(wire.starts_with(b"HTTP/1.1 "));
    }
}

#[test]
fn content_type_names() {
    assert_eq!(ContentType::TextPlain.to_string(), "text/plain");
    assert_eq!(ContentType::Binary.to_string(), "application/octet-stream");
    assert_eq!(ContentType::TextPlain.as_bytes(), b"text/plain");
    assert_eq!(ContentType::Binary.as_bytes(), b"application/octet-stream");
}

#[test]
fn default_content_type_is_text_plain() {
    assert_eq!(ContentType::default(), ContentType::TextPlain);
}
