//! The response and its wire form.

use vstd::prelude::*;
use vstd::string::*;
use vstd::utf8::encode_utf8;
use super::body::{Body, BodyView};
use super::header::{fields_view, fold_in, fold_in_all, Field, Headers};
use super::number::{decimal, format_decimal};
use super::status_code::StatusCode;
use super::text::lowercase;

verus! {

/// A response: status, headers and body.
#[derive(Debug)]
pub struct Response {
    pub status_code: StatusCode,
    pub headers: Headers,
    pub body: Body,
}

/// `Response` as the proofs see it.
pub struct ResponseView {
    pub status_code: StatusCode,
    pub headers: Seq<Field>,
    pub body: BodyView,
}

impl View for Response {
    type V = ResponseView;

    open spec fn view(&self) -> ResponseView {
        ResponseView { status_code: self.status_code, headers: self.headers@, body: self.body@ }
    }
}

/// A fresh response of the given status: no body, and the one header that
/// announces that the connection closes after it.
pub open spec fn fresh(status_code: StatusCode) -> ResponseView {
    ResponseView {
        status_code,
        headers: fold_in(Seq::empty(), lowercase("Connection"@), "close"@),
        body: BodyView::Empty,
    }
}

/// The header lines of the wire form: `name: value` and CRLF for each
/// field, in order.
pub open spec fn header_block(fields: Seq<Field>) -> Seq<char>
    decreases fields.len(),
{
    if fields.len() == 0 {
        Seq::empty()
    } else {
        header_block(fields.drop_last()) + fields.last().0 + ": "@ + fields.last().1 + "\r\n"@
    }
}

/// The text that opens the wire form: status line, header lines, blank
/// line.
pub open spec fn head_text(status_code: StatusCode, fields: Seq<Field>) -> Seq<char> {
    "HTTP/1.1 "@ + status_code.line() + "\r\n"@ + header_block(fields) + "\r\n"@
}

/// The bytes of a response on the wire.
pub open spec fn wire_form(response: ResponseView) -> Seq<u8> {
    encode_utf8(head_text(response.status_code, response.headers)) + response.body.bytes()
}

impl Response {
    /// A response of the given status, without a body.
    pub fn new(status_code: StatusCode) -> (r: Response)
        ensures
            r@ == fresh(status_code),
    {
        let mut headers = Headers::new();
        headers.insert("Connection".to_owned(), "close".to_owned());
        Response { status_code, headers, body: Body::Empty }
    }

    /// A response of status `200 OK`, without a body.
    pub fn ok() -> (r: Response)
        ensures
            r@ == fresh(StatusCode::OK),
    {
        Response::new(StatusCode::OK)
    }

    /// A response of status `201 Created`, without a body.
    pub fn created() -> (r: Response)
        ensures
            r@ == fresh(StatusCode::Created),
    {
        Response::new(StatusCode::Created)
    }

    /// A response of status `204 No Content`, without a body.
    pub fn no_content() -> (r: Response)
        ensures
            r@ == fresh(StatusCode::NoContent),
    {
        Response::new(StatusCode::NoContent)
    }

    /// A response of status `400 Bad Request`, without a body.
    pub fn bad_request() -> (r: Response)
        ensures
            r@ == fresh(StatusCode::BadRequest),
    {
        Response::new(StatusCode::BadRequest)
    }

    /// A response of status `401 Unauthorized`, without a body.
    pub fn unauthorized() -> (r: Response)
        ensures
            r@ == fresh(StatusCode::Unauthorized),
    {
        Response::new(StatusCode::Unauthorized)
    }

    /// A response of status `403 Forbidden`, without a body.
    pub fn forbidden() -> (r: Response)
        ensures
            r@ == fresh(StatusCode::Forbidden),
    {
        Response::new(StatusCode::Forbidden)
    }

    /// A response of status `404 Not Found`, without a body.
    pub fn not_found() -> (r: Response)
        ensures
            r@ == fresh(StatusCode::NotFound),
    {
        Response::new(StatusCode::NotFound)
    }

    /// A response of status `405 Method Not Allowed`, without a body.
    pub fn method_not_allowed() -> (r: Response)
        ensures
            r@ == fresh(StatusCode::MethodNotAllowed),
    {
        Response::new(StatusCode::MethodNotAllowed)
    }

    /// A response of status `409 Conflict`, without a body.
    pub fn conflict() -> (r: Response)
        ensures
            r@ == fresh(StatusCode::Conflict),
    {
        Response::new(StatusCode::Conflict)
    }

    /// A response of status `500 Internal Server Error`, without a body.
    pub fn internal_server_error() -> (r: Response)
        ensures
            r@ == fresh(StatusCode::InternalServerError),
    {
        Response::new(StatusCode::InternalServerError)
    }

    /// A response of status `503 Service Unavailable`, without a body.
    pub fn service_unavailable() -> (r: Response)
        ensures
            r@ == fresh(StatusCode::ServiceUnavailable),
    {
        Response::new(StatusCode::ServiceUnavailable)
    }

    /// Attaches a body. Unless the body has no bytes, its length in bytes
    /// is stored under `Content-Length`, written in base ten.
    pub fn with_body(self, body: Body) -> (r: Response)
        ensures
            r@.status_code == self@.status_code,
            r@.body == body@,
            r@.headers == if body@.bytes().len() == 0 {
                self@.headers
            } else {
                fold_in(
                    self@.headers,
                    lowercase("Content-Length"@),
                    decimal(body@.bytes().len()),
                )
            },
    {
        let mut headers = self.headers;
        if !body.is_empty() {
            headers.insert("Content-Length".to_owned(), format_decimal(body.len()));
        }
        Response { status_code: self.status_code, headers, body }
    }

    /// Stores one more header field.
    pub fn with_header(self, name: String, value: String) -> (r: Response)
        ensures
            r@.status_code == self@.status_code,
            r@.body == self@.body,
            r@.headers == fold_in(self@.headers, lowercase(name@), value@),
    {
        let mut headers = self.headers;
        headers.insert(name, value);
        Response { status_code: self.status_code, headers, body: self.body }
    }

    /// Stores every field of `headers`, in their order.
    pub fn with_headers(self, headers: Headers) -> (r: Response)
        ensures
            r@.status_code == self@.status_code,
            r@.body == self@.body,
            r@.headers == fold_in_all(self@.headers, headers@),
    {
        let mut own = self.headers;
        let fields = headers.iter();
        own.insert_all(&fields);
        Response { status_code: self.status_code, headers: own, body: self.body }
    }

    /// The status.
    pub fn status_code(&self) -> (r: StatusCode)
        ensures
            r == self@.status_code,
    {
        self.status_code
    }

    /// The header fields.
    pub fn headers(&self) -> (r: &Headers)
        ensures
            r@ == self@.headers,
    {
        &self.headers
    }

    /// The body.
    pub fn body(&self) -> (r: &Body)
        ensures
            r@ == self@.body,
    {
        &self.body
    }

    /// The bytes of the response on the wire: status line, header lines in
    /// the order of the store, a blank line, the body.
    pub fn to_bytes(&self) -> (r: Vec<u8>)
        ensures
            r@ == wire_form(self@),
    {
        let mut head = "HTTP/1.1 ".to_owned();
        head.append(self.status_code.to_string().as_str());
        head.append("\r\n");
        let fields = self.headers.iter();
        let ghost opening = head@;
        let ghost all = self.headers@;
        let mut k: usize = 0;
        assert(all.take(0) =~= Seq::<Field>::empty());
        assert(opening + header_block(all.take(0)) =~= opening);
        while k < fields.len()
            invariant
                k <= fields.len(),
                all == fields_view(fields@),
                head@ == opening + header_block(all.take(k as int)),
            decreases fields.len() - k,
        {
            let ghost before = head@;
            assert(all.take(k + 1).drop_last() == all.take(k as int));
            assert(all.take(k + 1).last() == (fields[k as int].0@, fields[k as int].1@));
            head.append(fields[k].0.as_str());
            head.append(": ");
            head.append(fields[k].1.as_str());
            head.append("\r\n");
            assert(head@ =~= opening + header_block(all.take(k + 1)));
            k = k + 1;
        }
        assert(all.take(k as int) == all);
        head.append("\r\n");
        assert(head@ =~= head_text(self@.status_code, self@.headers));
        let mut out = head.as_str().as_bytes_vec();
        out.extend_from_slice(self.body.as_bytes());
        out
    }
}

impl Default for Response {
    fn default() -> (r: Response)
        ensures
            r@ == fresh(StatusCode::OK),
    {
        Response::ok()
    }
}

} // verus!
