//! The response model and its wire format.

use vstd::prelude::*;
use vstd::string::*;

verus! {

/// What a response holds: the status text after the protocol version,
/// the headers in the order given, and the body.
pub struct ResponseView {
    pub status: Seq<char>,
    pub headers: Seq<(Seq<char>, Seq<char>)>,
    pub body: Seq<char>,
}

/// The name/value pairs of `headers`, each string by its characters.
pub open spec fn header_views(headers: Seq<(String, String)>) -> Seq<(Seq<char>, Seq<char>)> {
    headers.map_values(|h: (String, String)| (h.0@, h.1@))
}

/// One header on the wire: `name: value` and a line terminator.
pub open spec fn header_line(header: (Seq<char>, Seq<char>)) -> Seq<char> {
    header.0 + ": "@ + header.1 + "\r\n"@
}

/// The header lines of `headers`, in order.
pub open spec fn header_block(headers: Seq<(Seq<char>, Seq<char>)>) -> Seq<char>
    decreases headers.len(),
{
    if headers.len() == 0 {
        Seq::empty()
    } else {
        header_block(headers.drop_last()) + header_line(headers.last())
    }
}

/// The wire format: status line, header lines, an empty line, the body.
pub open spec fn wire(r: ResponseView) -> Seq<char> {
    "HTTP/1.1 "@ + r.status + "\r\n"@ + header_block(r.headers) + "\r\n"@ + r.body
}

/// Headers keep their order on the wire: the block of a concatenation is
/// the concatenation of the blocks.
pub proof fn lemma_header_block_concat(
    a: Seq<(Seq<char>, Seq<char>)>,
    b: Seq<(Seq<char>, Seq<char>)>,
)
    ensures
        header_block(a + b) == header_block(a) + header_block(b),
    decreases b.len(),
{
    if b.len() == 0 {
        assert(a + b =~= a);
        assert(header_block(a) + header_block(b) =~= header_block(a));
    } else {
        lemma_header_block_concat(a, b.drop_last());
        assert((a + b).drop_last() =~= a + b.drop_last());
        assert((a + b).last() == b.last());
        assert(header_block(a + b) =~= header_block(a) + header_block(b));
    }
}

/// Two headers go out in the order given, each on a line of its own,
/// between the status line and the empty line.
pub proof fn lemma_wire_of_two_headers(
    status: Seq<char>,
    first: (Seq<char>, Seq<char>),
    second: (Seq<char>, Seq<char>),
    body: Seq<char>,
)
    ensures
        wire(ResponseView { status, headers: seq![first, second], body }) == "HTTP/1.1 "@ + status
            + "\r\n"@ + first.0 + ": "@ + first.1 + "\r\n"@ + second.0 + ": "@ + second.1
            + "\r\n"@ + "\r\n"@ + body,
{
    let both = seq![first, second];
    assert(both.drop_last() =~= seq![first]);
    assert(seq![first].drop_last() =~= Seq::<(Seq<char>, Seq<char>)>::empty());
    assert(header_block(Seq::<(Seq<char>, Seq<char>)>::empty()) =~= Seq::<char>::empty());
    assert(seq![first].last() == first);
    assert(header_block(seq![first]) =~= header_line(first));
    assert(both.last() == second);
    assert(header_block(both) =~= header_line(first) + header_line(second));
    assert(wire(ResponseView { status, headers: both, body }) =~= "HTTP/1.1 "@ + status + "\r\n"@
        + first.0 + ": "@ + first.1 + "\r\n"@ + second.0 + ": "@ + second.1 + "\r\n"@
        + "\r\n"@ + body);
}

/// Every serialization ends the header block with an empty line, and the
/// body follows it unchanged.
pub proof fn lemma_wire_ends_with_body(r: ResponseView)
    ensures
        ("\r\n"@ + r.body).is_suffix_of(wire(r)),
{
    let head = "HTTP/1.1 "@ + r.status + "\r\n"@ + header_block(r.headers);
    let tail = "\r\n"@ + r.body;
    assert(wire(r) =~= head + tail);
    assert(wire(r).subrange(wire(r).len() - tail.len(), wire(r).len() as int) =~= tail);
}

/// A status, headers and a body, ready to be serialized.
pub struct HttpResponse {
    status_code: String,
    headers: Vec<(String, String)>,
    body: String,
}

impl View for HttpResponse {
    type V = ResponseView;

    closed spec fn view(&self) -> ResponseView {
        ResponseView {
            status: self.status_code@,
            headers: header_views(self.headers@),
            body: self.body@,
        }
    }
}

impl HttpResponse {
    /// A response with the given status, headers and body. Nothing is
    /// added to the headers and nothing in them is checked.
    pub fn new(status_code: &str, headers: Vec<(String, String)>, body: &str) -> (r: HttpResponse)
        ensures
            r@.status == status_code@,
            r@.headers == header_views(headers@),
            r@.body == body@,
    {
        HttpResponse {
            status_code: String::from_str(status_code),
            headers,
            body: String::from_str(body),
        }
    }

    /// The status text, such as `200 OK`.
    pub fn status_code(&self) -> (s: &str)
        ensures
            s@ == self@.status,
    {
        self.status_code.as_str()
    }

    /// The headers, in the order given.
    pub fn headers(&self) -> (h: &Vec<(String, String)>)
        ensures
            header_views(h@) == self@.headers,
    {
        &self.headers
    }

    /// The body.
    pub fn body(&self) -> (s: &str)
        ensures
            s@ == self@.body,
    {
        self.body.as_str()
    }

    /// The response in its wire format.
    pub fn to_string(&self) -> (s: String)
        ensures
            s@ == wire(self@),
    {
        let mut out = String::from_str("HTTP/1.1 ");
        out.append(self.status_code.as_str());
        out.append("\r\n");
        let ghost start = out@;
        let ghost all = header_views(self.headers@);
        let n: usize = self.headers.len();
        let mut i: usize = 0;
        proof {
            assert(all.subrange(0, 0) =~= Seq::empty());
            assert(start + header_block(all.subrange(0, 0)) =~= start);
        }
        while i < n
            invariant
                n == self.headers@.len(),
                i <= n,
                all == header_views(self.headers@),
                out@ == start + header_block(all.subrange(0, i as int)),
            decreases n - i,
        {
            let header = &self.headers[i];
            proof {
                let next = all.subrange(0, i + 1);
                assert(next.drop_last() =~= all.subrange(0, i as int));
                assert(next.last() == (header.0@, header.1@));
                assert(start + header_block(next) =~= start + header_block(
                    all.subrange(0, i as int),
                ) + header.0@ + ": "@ + header.1@ + "\r\n"@);
            }
            out.append(header.0.as_str());
            out.append(": ");
            out.append(header.1.as_str());
            out.append("\r\n");
            i += 1;
        }
        proof {
            assert(all.subrange(0, n as int) =~= all);
        }
        out.append("\r\n");
        out.append(self.body.as_str());
        out
    }
}

/// One `Content-Type` header with the given value.
pub open spec fn content_type_header(value: Seq<char>) -> Seq<(Seq<char>, Seq<char>)> {
    seq![("Content-Type"@, value)]
}

/// One `Content-Type` header with the given value.
pub fn content_type(value: &str) -> (headers: Vec<(String, String)>)
    ensures
        header_views(headers@) == content_type_header(value@),
{
    let mut headers: Vec<(String, String)> = Vec::new();
    headers.push((String::from_str("Content-Type"), String::from_str(value)));
    proof {
        assert(header_views(headers@) =~= content_type_header(value@));
    }
    headers
}

/// The answer to a target that no route matches.
pub open spec fn not_found_view() -> ResponseView {
    ResponseView {
        status: "404 Not Found"@,
        headers: content_type_header("text/plain"@),
        body: "404 Not Found"@,
    }
}

/// The answer to a request line that does not hold three tokens.
pub open spec fn bad_request_view() -> ResponseView {
    ResponseView {
        status: "400 Bad Request"@,
        headers: content_type_header("text/plain"@),
        body: "Bad Request"@,
    }
}

/// The answer to a target that no route matches.
pub fn not_found() -> (r: HttpResponse)
    ensures
        r@ == not_found_view(),
{
    HttpResponse::new("404 Not Found", content_type("text/plain"), "404 Not Found")
}

/// The answer to a request line that does not hold three tokens.
pub fn bad_request() -> (r: HttpResponse)
    ensures
        r@ == bad_request_view(),
{
    HttpResponse::new("400 Bad Request", content_type("text/plain"), "Bad Request")
}

} // verus!
