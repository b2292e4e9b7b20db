use mini_http::handlers::{hello_handler, root_handler};
use mini_http::request::HttpRequest;
use mini_http::response::HttpResponse;
use mini_http::router::{Dispatch, Router};
use mini_http::server::{handle_connection, respond, ConnectionError, ReadOutcome, Step};

type Handler = fn(HttpRequest) -> HttpResponse;

type TestRouter = Router<Handler, &'static str>;

fn request(target: &str) -> HttpRequest {
    HttpRequest {
        method: "GET".to_string(),
        uri: target.to_string(),
        http_version: "HTTP/1.1".to_string(),
    }
}

fn exact_a(_req: HttpRequest) -> HttpResponse {
    HttpResponse::new("200 OK", vec![], "exact a")
}

fn echo_target(req: HttpRequest) -> HttpResponse {
    HttpResponse::new("200 OK", vec![], &req.uri)
}

fn response_of(out: Dispatch<'_, &'static str>) -> HttpResponse {
    match out {
        Dispatch::Respond(r) => r,
        Dispatch::Delegate { handler, sub_path } => {
            panic!("delegated to {} with {}", handler, sub_path)
        }
    }
}

fn delegation_of(out: Dispatch<'_, &'static str>) -> (&'static str, String) {
    match out {
        Dispatch::Respond(r) => panic!("answered with {}", r.to_string()),
        Dispatch::Delegate { handler, sub_path } => (*handler, sub_path),
    }
}

fn site() -> TestRouter {
    let mut router: TestRouter = Router::new();
    router.add_route("/", root_handler);
    router.add_route("/hello", hello_handler);
    router.add_static_route("/static", "files");
    router
}

#[test]
fn root_route_answers_with_the_welcome() {
    let router = site();
    let r = response_of(respond("GET / HTTP/1.1\r\n", &router));
    assert_eq!(r.status_code(), "200 OK");
    assert_eq!(r.body(), "Welcome to our Rust HTTP Server!");
    assert_eq!(r.headers(), &vec![("Content-Type".to_string(), "text/plain".to_string())]);
}

#[test]
fn unknown_target_is_not_found() {
    let router = site();
    let r = response_of(respond("GET /nope HTTP/1.1\r\n", &router));
    assert_eq!(r.status_code(), "404 Not Found");
    assert_eq!(r.body(), "404 Not Found");
    assert_eq!(r.headers(), &vec![("Content-Type".to_string(), "text/plain".to_string())]);
}

#[test]
fn empty_router_finds_nothing() {
    let router: TestRouter = Router::new();
    for target in ["/", "", "/static/app.js", "/hello"] {
        let r = response_of(router.handle_request(request(target)));
        assert_eq!(r.status_code(), "404 Not Found");
        assert_eq!(r.body(), "404 Not Found");
    }
}

#[test]
fn exact_route_wins_over_prefix() {
    let mut router: TestRouter = Router::new();
    router.add_static_route("/a", "files");
    router.add_route("/a", exact_a);
    let r = response_of(router.handle_request(request("/a")));
    assert_eq!(r.body(), "exact a");
    let mut other: TestRouter = Router::new();
    other.add_route("/a", exact_a);
    other.add_static_route("/a", "files");
    let r = response_of(other.handle_request(request("/a")));
    assert_eq!(r.body(), "exact a");
    assert_eq!(delegation_of(other.handle_request(request("/ab"))), ("files", "b".to_string()));
}

#[test]
fn handler_gets_the_request() {
    let mut router: TestRouter = Router::new();
    router.add_route("/echo", echo_target);
    let r = response_of(router.handle_request(request("/echo")));
    assert_eq!(r.body(), "/echo");
}

#[test]
fn last_registration_wins() {
    let mut router: TestRouter = Router::new();
    router.add_route("/", root_handler);
    router.add_route("/other", exact_a);
    router.add_route("/", hello_handler);
    let r = response_of(router.handle_request(request("/")));
    assert_eq!(r.body(), "Hello, world!");
    let r = response_of(router.handle_request(request("/other")));
    assert_eq!(r.body(), "exact a");
    router.add_static_route("/s", "first");
    router.add_static_route("/s", "second");
    assert_eq!(delegation_of(router.handle_request(request("/s/x"))), ("second", "/x".to_string()));
}

#[test]
fn static_prefix_delegates_the_rest() {
    let router = site();
    let out = router.handle_request(request("/static/app.js"));
    assert_eq!(delegation_of(out), ("files", "/app.js".to_string()));
    let out = router.handle_request(request("/static"));
    assert_eq!(delegation_of(out), ("files", "".to_string()));
    let out = router.handle_request(request("/staticfile"));
    assert_eq!(delegation_of(out), ("files", "file".to_string()));
}

#[test]
fn prefix_must_stand_at_the_start() {
    let router = site();
    let r = response_of(router.handle_request(request("/x/static/app.js")));
    assert_eq!(r.status_code(), "404 Not Found");
    let r = response_of(router.handle_request(request("/stati")));
    assert_eq!(r.status_code(), "404 Not Found");
}

#[test]
fn longest_prefix_wins() {
    let mut router: TestRouter = Router::new();
    router.add_static_route("/static", "short");
    router.add_static_route("/static/img", "long");
    router.add_static_route("/st", "shorter");
    let out = router.handle_request(request("/static/img/a.png"));
    assert_eq!(delegation_of(out), ("long", "/a.png".to_string()));
    let out = router.handle_request(request("/static/css/a.css"));
    assert_eq!(delegation_of(out), ("short", "/css/a.css".to_string()));
    let out = router.handle_request(request("/store"));
    assert_eq!(delegation_of(out), ("shorter", "ore".to_string()));
}

#[test]
fn sub_path_counts_characters() {
    let mut router: TestRouter = Router::new();
    router.add_static_route("/caf\u{e9}", "files");
    let out = router.handle_request(request("/caf\u{e9}/\u{fc}.js"));
    assert_eq!(delegation_of(out), ("files", "/\u{fc}.js".to_string()));
}

#[test]
fn empty_target_is_not_the_root() {
    let router = site();
    let r = response_of(router.handle_request(request("")));
    assert_eq!(r.status_code(), "404 Not Found");
    let mut with_empty: TestRouter = Router::new();
    with_empty.add_route("/", root_handler);
    with_empty.add_route("", exact_a);
    let r = response_of(with_empty.handle_request(request("")));
    assert_eq!(r.body(), "exact a");
    let mut with_prefix: TestRouter = Router::new();
    with_prefix.add_static_route("", "all");
    assert_eq!(delegation_of(with_prefix.handle_request(request(""))), ("all", "".to_string()));
    assert_eq!(delegation_of(with_prefix.handle_request(request("/x"))), ("all", "/x".to_string()));
}

#[test]
fn garbage_is_a_bad_request() {
    let router = site();
    let r = response_of(respond("garbage", &router));
    assert_eq!(r.status_code(), "400 Bad Request");
    assert_eq!(r.body(), "Bad Request");
    assert_eq!(r.headers(), &vec![("Content-Type".to_string(), "text/plain".to_string())]);
}

#[test]
fn connection_answers_a_request() {
    let router = site();
    let mut buffer = [0u8; 1024];
    let line = b"GET /hello HTTP/1.1\r\nHost: x\r\n\r\n";
    buffer[..line.len()].copy_from_slice(line);
    match handle_connection(ReadOutcome::Data(&buffer), &router) {
        Step::Answer(out) => {
            let r = response_of(out);
            assert_eq!(
                r.to_string(),
                "HTTP/1.1 200 OK\r\nContent-Type: text/plain\r\n\r\nHello, world!"
            );
        }
        Step::Close(_) => panic!("closed"),
    }
}

#[test]
fn connection_answers_garbage_with_bad_request() {
    let router = site();
    match handle_connection(ReadOutcome::Data(b"garbage"), &router) {
        Step::Answer(out) => {
            let r = response_of(out);
            assert_eq!(r.status_code(), "400 Bad Request");
            assert_eq!(r.body(), "Bad Request");
        }
        Step::Close(_) => panic!("closed"),
    }
}

#[test]
fn connection_delegates_static_targets() {
    let router = site();
    match handle_connection(ReadOutcome::Data(b"GET /static/app.js HTTP/1.1\n"), &router) {
        Step::Answer(out) => assert_eq!(delegation_of(out), ("files", "/app.js".to_string())),
        Step::Close(_) => panic!("closed"),
    }
}

#[test]
fn connection_closes_on_bytes_that_are_no_text() {
    let router = site();
    let step = handle_connection(ReadOutcome::Data(&[b'G', b'E', b'T', 0xff, 0xfe]), &router);
    assert!(matches!(step, Step::Close(ConnectionError::Decoding)));
}

#[test]
fn connection_closes_on_a_failed_read() {
    let router = site();
    let step = handle_connection(ReadOutcome::Failed, &router);
    assert!(matches!(step, Step::Close(ConnectionError::TransportRead)));
}
