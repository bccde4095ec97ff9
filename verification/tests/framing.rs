use http_server::framing::awaits_more;
use http_server::request::{process_request, Action};
use http_server::response::Response;

#[test]
fn nothing_received_awaits_more() {
    assert!(awaits_more(b""));
}

#[test]
fn request_line_without_its_ending_awaits_more() {
    for input in [&b"G"[..], b"GET", b"GET / HTTP/1.1", b"GET / HTTP/1.1\r", b"DELETE / HTTP/1.1", b"nonsense"] {
        assert!(awaits_more(input));
    }
}

#[test]
fn head_without_a_blank_line_awaits_more() {
    for input in [
        &b"GET / HTTP/1.1\r\n"[..],
        b"GET / HTTP/1.1\r\nHost: a",
        b"GET / HTTP/1.1\r\nHost: a\r\n",
        b"GET / HTTP/1.1\r\nHost: a\r\nUser-Agent: b\r\n\r",
        b"POST /files/a HTTP/1.1\r\nContent-Length: 0\r\n",
    ] {
        assert!(awaits_more(input));
    }
}

#[test]
fn whole_get_awaits_no_more() {
    for input in [
        &b"GET / HTTP/1.1\r\n\r\n"[..],
        b"GET /echo/abc HTTP/1.1\r\nHost: a\r\nUser-Agent: b\r\n\r\n",
        b"GET /files/a HTTP/1.1\r\nContent-Length: 10\r\n\r\n",
        b"GET / HTTP/1.1\r\n\r\nmore than was asked for",
    ] {
        assert!(!awaits_more(input));
    }
}

#[test]
fn post_awaits_its_whole_body() {
    let whole = b"POST /files/a HTTP/1.1\r\nContent-Length: 5\r\n\r\nhello";
    for received in 0..whole.len() {
        assert!(awaits_more(&whole[..received]));
    }
    assert!(!awaits_more(whole));
    assert!(!awaits_more(b"POST /files/a HTTP/1.1\r\nContent-Length: 5\r\n\r\nhello and more"));
    assert!(!awaits_more(b"POST /files/a HTTP/1.1\r\nContent-Length: 0\r\n\r\n"));
    assert!(!awaits_more(b"POST /files/a HTTP/1.1\r\nHost: a\r\n\r\n"));
    assert!(!awaits_more(b"POST /files/a HTTP/1.1\r\nContent-Length: five\r\n\r\n"));
}

#[test]
fn what_is_no_request_awaits_no_more_once_its_first_line_has_ended() {
    for input in [
        &b"\r\n"[..],
        b"DELETE / HTTP/1.1\r\n",
        b"GET / HTTP/1.0\r\nHost: a",
        b"GET /\r\n",
        b"nonsense\r\nPOST /files/a HTTP/1.1\r\nContent-Length: 5\r\n\r\n",
    ] {
        assert!(!awaits_more(input));
        assert_eq!(process_request(input), Action::Respond(Response::NotFound));
    }
}

#[test]
fn bytes_that_await_no_more_are_answered_alike_whatever_follows() {
    for input in [
        &b"GET /echo/abc HTTP/1.1\r\nHost: a\r\n\r\n"[..],
        b"POST /files/a HTTP/1.1\r\nContent-Length: 5\r\n\r\nhello",
        b"DELETE / HTTP/1.1\r\n",
    ] {
        assert!(!awaits_more(input));
        let mut longer = input.to_vec();
        longer.extend_from_slice(b"GET / HTTP/1.1\r\n\r\n");
        assert!(!awaits_more(&longer));
        assert_eq!(process_request(&longer), process_request(input));
    }
}

#[test]
fn request_in_pieces_is_served_once_it_is_whole() {
    let whole = b"POST /files/a HTTP/1.1\r\nHost: a\r\nContent-Length: 11\r\n\r\nhello world";
    let mut received = Vec::new();
    for chunk in whole.chunks(7) {
        assert!(awaits_more(&received));
        received.extend_from_slice(chunk);
    }
    assert!(!awaits_more(&received));
    assert_eq!(
        process_request(&received),
        Action::WriteFile { name: b"a".to_vec(), contents: b"hello world".to_vec() }
    );
}
