use webserver::http::{build_response, file_name, is_slow, push_decimal, respond, route, status_line, Page};

#[test]
fn index_request_routes_to_index() {
    let req = b"GET / HTTP/1.1\r\nHost: localhost\r\n\r\n";
    assert_eq!(route(req), Page::Index);
}

#[test]
fn math_request_routes_to_math() {
    let mut buffer = [0u8; 1024];
    let line = b"GET /math HTTP/1.1\r\n";
    buffer[..line.len()].copy_from_slice(line);
    assert_eq!(route(&buffer), Page::Math);
    assert!(is_slow(Page::Math));
    assert!(!is_slow(Page::Index));
}

#[test]
fn other_requests_route_to_not_found() {
    assert_eq!(route(b"GET /other HTTP/1.1\r\n"), Page::NotFound);
    assert_eq!(route(b"GET / HTTP/1.0\r\n"), Page::NotFound);
    assert_eq!(route(b"GET / HTTP/1.1"), Page::NotFound);
    assert_eq!(route(b""), Page::NotFound);
    assert_eq!(route(&[0u8; 1024]), Page::NotFound);
}

#[test]
fn pages_have_status_and_file() {
    assert_eq!(status_line(Page::Index), "HTTP/1.1 200 OK");
    assert_eq!(status_line(Page::Math), "HTTP/1.1 200 OK");
    assert_eq!(status_line(Page::NotFound), "HTTP/1.1 404 NOT FOUND");
    assert_eq!(file_name(Page::Index), "public/index.html");
    assert_eq!(file_name(Page::Math), "public/math.html");
    assert_eq!(file_name(Page::NotFound), "public/404.html");
}

#[test]
fn decimal_digits() {
    for (n, s) in [(0usize, "0"), (7, "7"), (10, "10"), (1024, "1024"), (usize::MAX, "18446744073709551615")] {
        let mut out = b"x".to_vec();
        push_decimal(&mut out, n);
        assert_eq!(out, format!("x{}", s).into_bytes());
    }
}

#[test]
fn response_is_framed_with_length() {
    let r = build_response("HTTP/1.1 200 OK", b"<p>hi</p>");
    assert_eq!(r, b"HTTP/1.1 200 OK\r\nContent-Length: 9\r\n\r\n<p>hi</p>".to_vec());
    let e = build_response("HTTP/1.1 404 NOT FOUND", b"");
    assert_eq!(e, b"HTTP/1.1 404 NOT FOUND\r\nContent-Length: 0\r\n\r\n".to_vec());
}

#[test]
fn respond_uses_page_status() {
    let r = respond(Page::NotFound, b"gone");
    assert_eq!(r, b"HTTP/1.1 404 NOT FOUND\r\nContent-Length: 4\r\n\r\ngone".to_vec());
}
