//! What is done with one connection, once its single read has returned.

use crate::request::{first_line, tokens, HttpRequest};
use crate::response::{bad_request, bad_request_view, HttpResponse};
use crate::router::{Dispatch, Router};
use crate::utils::decode;
use vstd::prelude::*;
use vstd::utf8::{decode_utf8, valid_utf8};

verus! {

/// The size of the buffer for the single read of a connection.
pub const READ_BUFFER_SIZE: usize = 1024;

/// What the single read of a connection gave.
pub enum ReadOutcome<'b> {
    /// The bytes of the buffer.
    Data(&'b [u8]),
    /// The transport failed.
    Failed,
}

/// Why a connection ends without an answer.
pub enum ConnectionError {
    /// The read failed.
    TransportRead,
    /// The bytes are not text.
    Decoding,
}

/// What is to be done with a connection after its read.
pub enum Step<'a, S> {
    /// Nothing is written; the connection is closed.
    Close(ConnectionError),
    /// The answer is written, at once or after the static handler has
    /// given it; then the connection is closed.
    Answer(Dispatch<'a, S>),
}

/// `request` holds the three tokens of the first line of `text`.
pub open spec fn reads_as(text: Seq<char>, request: HttpRequest) -> bool {
    &&& tokens(first_line(text)).len() == 3
    &&& request.method@ == tokens(first_line(text))[0]
    &&& request.uri@ == tokens(first_line(text))[1]
    &&& request.http_version@ == tokens(first_line(text))[2]
}

/// `out` is the answer to `text`: the fixed `400 Bad Request` where the
/// first line does not hold three tokens, else what the router resolves
/// the request to.
pub open spec fn answers<H: Fn(HttpRequest) -> HttpResponse, S>(
    router: &Router<H, S>,
    text: Seq<char>,
    out: Dispatch<'_, S>,
) -> bool {
    if tokens(first_line(text)).len() == 3 {
        exists|request: HttpRequest| #[trigger]
            reads_as(text, request) && router.resolves(request, out)
    } else {
        out matches Dispatch::Respond(r) && r@ == bad_request_view()
    }
}

/// Parses `text` and resolves the request. A first line without exactly
/// three tokens is answered with the fixed `400 Bad Request`.
pub fn respond<'a, H: Fn(HttpRequest) -> HttpResponse, S>(
    text: &str,
    router: &'a Router<H, S>,
) -> (out: Dispatch<'a, S>)
    requires
        router.wf(),
    ensures
        answers(router, text@, out),
{
    match HttpRequest::parse(text) {
        Some(request) => {
            let ghost asked = request;
            let out = router.handle_request(request);
            proof {
                assert(reads_as(text@, asked) && router.resolves(asked, out));
            }
            out
        },
        None => Dispatch::Respond(bad_request()),
    }
}

/// Decides what follows the read of a connection. After a failed read,
/// and after bytes that are not UTF-8, nothing is written. Else the text
/// is answered.
pub fn handle_connection<'a, H: Fn(HttpRequest) -> HttpResponse, S>(
    read: ReadOutcome<'_>,
    router: &'a Router<H, S>,
) -> (step: Step<'a, S>)
    requires
        router.wf(),
    ensures
        match read {
            ReadOutcome::Failed => step matches Step::Close(ConnectionError::TransportRead),
            ReadOutcome::Data(bytes) => if valid_utf8(bytes@) {
                step matches Step::Answer(out) && answers(router, decode_utf8(bytes@), out)
            } else {
                step matches Step::Close(ConnectionError::Decoding)
            },
        },
{
    match read {
        ReadOutcome::Failed => Step::Close(ConnectionError::TransportRead),
        ReadOutcome::Data(bytes) => match decode(bytes) {
            Some(text) => Step::Answer(respond(text, router)),
            None => Step::Close(ConnectionError::Decoding),
        },
    }
}

} // verus!
