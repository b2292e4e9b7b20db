use mini_http::handlers::{hello_handler, root_handler};
use mini_http::request::HttpRequest;
use mini_http::response::{bad_request, content_type, not_found, HttpResponse};

fn pair(a: &str, b: &str) -> (String, String) {
    (a.to_string(), b.to_string())
}

fn any_request() -> HttpRequest {
    HttpRequest::parse("GET / HTTP/1.1").unwrap()
}

#[test]
fn serialization_keeps_the_order_of_the_headers() {
    let r = HttpResponse::new("200 OK", vec![pair("A", "1"), pair("B", "2")], "x");
    assert_eq!(r.to_string(), "HTTP/1.1 200 OK\r\nA: 1\r\nB: 2\r\n\r\nx");
    let swapped = HttpResponse::new("200 OK", vec![pair("B", "2"), pair("A", "1")], "x");
    assert_eq!(swapped.to_string(), "HTTP/1.1 200 OK\r\nB: 2\r\nA: 1\r\n\r\nx");
}

#[test]
fn serialization_is_repeatable() {
    let r = HttpResponse::new("201 Created", vec![pair("X", "y")], "body");
    assert_eq!(r.to_string(), r.to_string());
}

#[test]
fn serialization_without_headers_still_has_the_empty_line() {
    let r = HttpResponse::new("204 No Content", vec![], "");
    assert_eq!(r.to_string(), "HTTP/1.1 204 No Content\r\n\r\n");
}

#[test]
fn serialization_keeps_duplicates_and_odd_content() {
    let r = HttpResponse::new(
        "200 OK",
        vec![pair("set-cookie", "a"), pair("set-cookie", "b"), pair("", "x: y")],
        "line\r\n\r\nmore \u{e9}",
    );
    assert_eq!(
        r.to_string(),
        "HTTP/1.1 200 OK\r\nset-cookie: a\r\nset-cookie: b\r\n: x: y\r\n\r\nline\r\n\r\nmore \u{e9}"
    );
}

#[test]
fn new_keeps_its_arguments() {
    let r = HttpResponse::new("200 OK", vec![pair("A", "1")], "x");
    assert_eq!(r.status_code(), "200 OK");
    assert_eq!(r.headers(), &vec![pair("A", "1")]);
    assert_eq!(r.body(), "x");
}

#[test]
fn content_type_is_one_header() {
    assert_eq!(content_type("text/css"), vec![pair("Content-Type", "text/css")]);
}

#[test]
fn not_found_is_fixed() {
    let r = not_found();
    assert_eq!(r.to_string(), "HTTP/1.1 404 Not Found\r\nContent-Type: text/plain\r\n\r\n404 Not Found");
}

#[test]
fn bad_request_is_fixed() {
    let r = bad_request();
    assert_eq!(r.to_string(), "HTTP/1.1 400 Bad Request\r\nContent-Type: text/plain\r\n\r\nBad Request");
}

#[test]
fn root_handler_welcomes() {
    let r = root_handler(any_request());
    assert_eq!(r.status_code(), "200 OK");
    assert_eq!(r.headers(), &vec![pair("Content-Type", "text/plain")]);
    assert_eq!(r.body(), "Welcome to our Rust HTTP Server!");
}

#[test]
fn hello_handler_greets() {
    let r = hello_handler(any_request());
    assert_eq!(r.status_code(), "200 OK");
    assert_eq!(r.headers(), &vec![pair("Content-Type", "text/plain")]);
    assert_eq!(r.body(), "Hello, world!");
}
