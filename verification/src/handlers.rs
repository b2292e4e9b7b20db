//! The handlers of the two fixed pages.

use crate::request::HttpRequest;
use crate::response::{content_type, content_type_header, HttpResponse, ResponseView};
use vstd::prelude::*;

verus! {

/// A plain-text `200 OK` with the given body.
pub open spec fn plain_ok_view(body: Seq<char>) -> ResponseView {
    ResponseView { status: "200 OK"@, headers: content_type_header("text/plain"@), body: body }
}

/// Answers a request for the root path with the welcome text.
pub fn root_handler(_req: HttpRequest) -> (r: HttpResponse)
    ensures
        r@ == plain_ok_view("Welcome to our Rust HTTP Server!"@),
{
    HttpResponse::new("200 OK", content_type("text/plain"), "Welcome to our Rust HTTP Server!")
}

/// Answers a request for `/hello` with a greeting.
pub fn hello_handler(_req: HttpRequest) -> (r: HttpResponse)
    ensures
        r@ == plain_ok_view("Hello, world!"@),
{
    HttpResponse::new("200 OK", content_type("text/plain"), "Hello, world!")
}

} // verus!
