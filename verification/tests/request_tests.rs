use mini_http::request::{first_line_of, split_whitespace, HttpRequest};

fn fields(text: &str) -> Option<(String, String, String)> {
    HttpRequest::parse(text).map(|r| (r.method, r.uri, r.http_version))
}

fn three(a: &str, b: &str, c: &str) -> Option<(String, String, String)> {
    Some((a.to_string(), b.to_string(), c.to_string()))
}

#[test]
fn parse_reads_three_tokens() {
    assert_eq!(fields("GET / HTTP/1.1"), three("GET", "/", "HTTP/1.1"));
    assert_eq!(fields("POST /hello HTTP/1.0\n"), three("POST", "/hello", "HTTP/1.0"));
}

#[test]
fn parse_discards_surrounding_whitespace() {
    assert_eq!(fields("  GET \t /index.html   HTTP/1.1  \r\n"), three("GET", "/index.html", "HTTP/1.1"));
}

#[test]
fn parse_ignores_the_lines_after_the_first() {
    let text = "GET /a HTTP/1.1\r\nHost: example.org\r\nAccept: */*\r\n\r\nbody with many words";
    assert_eq!(fields(text), three("GET", "/a", "HTTP/1.1"));
    assert_eq!(fields(text), fields("GET /a HTTP/1.1"));
}

#[test]
fn parse_splits_at_unicode_whitespace() {
    assert_eq!(fields("GET\u{3000}/\u{a0}HTTP/1.1"), three("GET", "/", "HTTP/1.1"));
    assert_eq!(fields("G\u{e9}T /caf\u{e9} HTTP/1.1"), three("G\u{e9}T", "/caf\u{e9}", "HTTP/1.1"));
}

#[test]
fn parse_keeps_what_is_no_whitespace() {
    assert_eq!(fields("GET / HTTP/1.1\0\0"), three("GET", "/", "HTTP/1.1\0\0"));
    assert_eq!(fields("GET_/_HTTP/1.1"), None);
}

#[test]
fn parse_rejects_no_lines() {
    assert!(HttpRequest::parse("").is_none());
}

#[test]
fn parse_rejects_other_token_counts() {
    assert!(HttpRequest::parse("garbage").is_none());
    assert!(HttpRequest::parse("GET /").is_none());
    assert!(HttpRequest::parse("GET / HTTP/1.1 extra").is_none());
    assert!(HttpRequest::parse("   \t ").is_none());
}

#[test]
fn parse_looks_at_the_first_line_only() {
    assert!(HttpRequest::parse("\nGET / HTTP/1.1").is_none());
    assert!(HttpRequest::parse("GET /\nHTTP/1.1").is_none());
}

#[test]
fn first_line_stops_at_the_line_feed() {
    assert_eq!(first_line_of("one two\nthree"), "one two");
    assert_eq!(first_line_of("one\r\ntwo"), "one\r");
    assert_eq!(first_line_of("no line feed"), "no line feed");
    assert_eq!(first_line_of("\nrest"), "");
    assert_eq!(first_line_of(""), "");
}

#[test]
fn split_whitespace_gives_the_words_in_order() {
    assert_eq!(split_whitespace(" a  bc\td\r"), vec!["a".to_string(), "bc".to_string(), "d".to_string()]);
    assert_eq!(split_whitespace(""), Vec::<String>::new());
    assert_eq!(split_whitespace(" \t "), Vec::<String>::new());
    assert_eq!(split_whitespace("word"), vec!["word".to_string()]);
}

#[test]
fn split_whitespace_agrees_with_std() {
    let samples = ["GET / HTTP/1.1", "  x\u{2003}y ", "a\u{85}b\u{200b}c", "\u{1680}\u{2028}z"];
    for s in samples {
        let want: Vec<String> = s.split_whitespace().map(|w| w.to_string()).collect();
        assert_eq!(split_whitespace(s), want);
    }
}
