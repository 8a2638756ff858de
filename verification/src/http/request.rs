//! The request: start line, headers, query and body, assembled from the
//! bytes of one message. A request exists only when every part is valid.

use vstd::prelude::*;
use vstd::slice::slice_subrange;
use vstd::string::*;
use vstd::utf8::{decode_utf8, valid_utf8};
use super::body::{body_of_length, Body, BodyErrorView, BodyView};
use super::bytes::find_in_bytes;
use super::chunked::{decode_chunked, decode_chunked_spec};
pub use super::error::{ParseError, ParseErrorView};
use super::framing::{
    decide_framing, framing_of, lemma_length_with_chunked_refused,
    lemma_two_content_lengths_refused, lemma_two_transfer_encodings_refused, Framing,
};
use super::header::{
    first_error, fold_in_all, lookup, parse_fields, parse_header_line_spec, parsed_fields, Field,
    HeaderError, Headers,
};
use super::method::Method;
use super::query::{query_of_url, Param, Query, QueryError};
use super::request_line::{parse_request_line, RequestLine, RequestLineView};
use super::text::{
    chars_of, contains_seq, find, lemma_find_from, line_spans, lines, lowercase, position,
    position_in, spans_of, str_from_utf8, substring, until_empty,
};

verus! {

/// What the header section of a message says.
#[derive(Debug)]
pub struct RequestHead {
    pub requestline: RequestLine,
    pub headers: Headers,
    pub query: Query,
    /// How the body that follows is delimited.
    pub framing: Framing,
}

/// `RequestHead` as the proofs see it.
pub struct RequestHeadView {
    pub requestline: RequestLineView,
    pub headers: Seq<Field>,
    pub query: Seq<Param>,
    pub framing: Framing,
}

impl View for RequestHead {
    type V = RequestHeadView;

    open spec fn view(&self) -> RequestHeadView {
        RequestHeadView {
            requestline: self.requestline@,
            headers: self.headers@,
            query: self.query@,
            framing: self.framing,
        }
    }
}

/// A valid request.
#[derive(Debug)]
pub struct Request {
    pub requestline: RequestLine,
    pub headers: Headers,
    pub body: Body,
    pub query: Query,
}

/// `Request` as the proofs see it.
pub struct RequestView {
    pub requestline: RequestLineView,
    pub headers: Seq<Field>,
    pub body: BodyView,
    pub query: Seq<Param>,
}

impl View for Request {
    type V = RequestView;

    open spec fn view(&self) -> RequestView {
        RequestView {
            requestline: self.requestline@,
            headers: self.headers@,
            body: self.body@,
            query: self.query@,
        }
    }
}

/// The header lines of a header section: the lines after the start line,
/// up to the first empty one.
pub open spec fn header_lines(section: Seq<char>) -> Seq<Seq<char>> {
    until_empty(lines(section).skip(1))
}

/// What a header section means. The start line is read first, then the
/// query of its target, then the header lines, then the framing; the first
/// failure is the result.
pub open spec fn head_of(section: Seq<char>) -> Result<RequestHeadView, ParseErrorView> {
    let all = lines(section);
    if all.len() == 0 {
        Err(ParseErrorView::IncompleteRequest)
    } else {
        match parse_request_line(all[0]) {
            Err(e) => Err(ParseErrorView::RequestLine(e)),
            Ok(requestline) => match query_of_url(requestline.target) {
                None => Err(ParseErrorView::Query(QueryError::InvalidEncoding)),
                Some(query) => match first_error(header_lines(section)) {
                    Some(e) => Err(ParseErrorView::Header(e)),
                    None => {
                        let fields = parsed_fields(header_lines(section));
                        match framing_of(fields) {
                            Err(e) => Err(e),
                            Ok(framing) => Ok(
                                RequestHeadView {
                                    requestline,
                                    headers: fold_in_all(Seq::empty(), fields),
                                    query,
                                    framing,
                                },
                            ),
                        }
                    },
                },
            },
        }
    }
}

/// The body that the framing cuts from the bytes after the header section.
/// Without a framing header the body is empty whatever bytes follow. A
/// chunked body of no bytes is `Empty`.
pub open spec fn body_of(framing: Framing, wire: Seq<u8>) -> Result<BodyView, ParseErrorView> {
    match framing {
        Framing::NoBody => Ok(BodyView::Empty),
        Framing::Length(n) => match body_of_length(wire, n) {
            Ok(b) => Ok(b),
            Err(e) => Err(ParseErrorView::Body(e)),
        },
        Framing::Chunked => match decode_chunked_spec(wire) {
            Some(data) => Ok(
                if data.len() == 0 {
                    BodyView::Empty
                } else {
                    BodyView::Content(data)
                },
            ),
            None => Err(ParseErrorView::InvalidChunkFormat),
        },
    }
}

/// The request made of a head and a body.
pub open spec fn request_with(head: RequestHeadView, body: BodyView) -> RequestView {
    RequestView {
        requestline: head.requestline,
        headers: head.headers,
        body,
        query: head.query,
    }
}

/// The request made of a head and the body that its framing cuts from the
/// bytes after the header section.
pub open spec fn with_body_of(head: RequestHeadView, wire: Seq<u8>) -> Result<
    RequestView,
    ParseErrorView,
> {
    match body_of(head.framing, wire) {
        Err(e) => Err(e),
        Ok(body) => Ok(request_with(head, body)),
    }
}

/// The request that a header section and the bytes after it make.
pub open spec fn request_of(section: Seq<char>, wire: Seq<u8>) -> Result<
    RequestView,
    ParseErrorView,
> {
    match head_of(section) {
        Err(e) => Err(e),
        Ok(head) => with_body_of(head, wire),
    }
}

/// The blank line that ends a header section.
pub open spec fn head_end() -> Seq<u8> {
    seq![0x0Du8, 0x0Au8, 0x0Du8, 0x0Au8]
}

/// The bytes of the header section of a message: what stands before the
/// first blank line, or the whole message when there is none.
pub open spec fn head_bytes(data: Seq<u8>) -> Seq<u8> {
    data.take(find(data, head_end()))
}

/// The bytes after the blank line; none when there is no blank line.
pub open spec fn wire_bytes(data: Seq<u8>) -> Seq<u8> {
    let cut = find(data, head_end());
    if cut < data.len() {
        data.skip(cut + 4)
    } else {
        Seq::empty()
    }
}

/// The request that the bytes of one message make. The header section
/// must be UTF-8; the body is taken as bytes.
pub open spec fn request_of_bytes(data: Seq<u8>) -> Result<RequestView, ParseErrorView> {
    if !valid_utf8(head_bytes(data)) {
        Err(ParseErrorView::InvalidEncoding)
    } else {
        request_of(decode_utf8(head_bytes(data)), wire_bytes(data))
    }
}

/// When every line parses, there is one field for each line.
pub proof fn lemma_parsed_fields_cover(lines: Seq<Seq<char>>, i: int)
    requires
        first_error(lines) is None,
        0 <= i < lines.len(),
    ensures
        parsed_fields(lines).len() == lines.len(),
        parse_header_line_spec(lines[i]) == Ok::<Field, HeaderError>(parsed_fields(lines)[i]),
    decreases lines.len(),
{
    let rest = lines.drop_first();
    if rest.len() > 0 {
        lemma_parsed_fields_cover(rest, if i > 0 {
            i - 1
        } else {
            0
        });
    }
    assert(parsed_fields(rest).len() == rest.len());
}

/// True when the header line parses to a field of that name, compared
/// without regard to case.
pub open spec fn line_names(line: Seq<char>, name: Seq<char>) -> bool {
    parse_header_line_spec(line) matches Ok(field) && lowercase(field.0) == name
}

/// A header section with two `Content-Length` lines is refused, whatever
/// the two values and whatever else it holds.
pub proof fn lemma_two_content_length_lines_refused(
    section: Seq<char>,
    i: int,
    j: int,
)
    requires
        0 <= i < j < header_lines(section).len(),
        line_names(header_lines(section)[i], "content-length"@),
        line_names(header_lines(section)[j], "content-length"@),
    ensures
        head_of(section) is Err,
{
    let lines = header_lines(section);
    if first_error(lines) is None {
        lemma_parsed_fields_cover(lines, i);
        lemma_parsed_fields_cover(lines, j);
        lemma_two_content_lengths_refused(parsed_fields(lines), i, j);
    }
}

/// A header section with two `Transfer-Encoding` lines is refused.
pub proof fn lemma_two_transfer_encoding_lines_refused(
    section: Seq<char>,
    i: int,
    j: int,
)
    requires
        0 <= i < j < header_lines(section).len(),
        line_names(header_lines(section)[i], "transfer-encoding"@),
        line_names(header_lines(section)[j], "transfer-encoding"@),
    ensures
        head_of(section) is Err,
{
    let lines = header_lines(section);
    if first_error(lines) is None {
        lemma_parsed_fields_cover(lines, i);
        lemma_parsed_fields_cover(lines, j);
        lemma_two_transfer_encodings_refused(parsed_fields(lines), i, j);
    }
}

/// A header section with a `Content-Length` line and a chunked
/// `Transfer-Encoding` line is refused: the body is read neither by the
/// length nor as chunks.
pub proof fn lemma_length_beside_chunked_refused(
    section: Seq<char>,
    i: int,
    j: int,
)
    requires
        0 <= i < header_lines(section).len(),
        0 <= j < header_lines(section).len(),
        line_names(header_lines(section)[i], "content-length"@),
        line_names(header_lines(section)[j], "transfer-encoding"@),
        contains_seq(
            lowercase(parse_header_line_spec(header_lines(section)[j])->Ok_0.1),
            "chunked"@,
        ),
    ensures
        head_of(section) is Err,
{
    let lines = header_lines(section);
    if first_error(lines) is None {
        lemma_parsed_fields_cover(lines, i);
        lemma_parsed_fields_cover(lines, j);
        lemma_length_with_chunked_refused(parsed_fields(lines), i, j);
    }
}

/// A message whose header section is refused is never a request, whatever
/// follows the header section.
pub proof fn lemma_refused_head_is_no_request(data: Seq<u8>, section: Seq<char>, wire: Seq<u8>)
    requires
        head_of(section) is Err,
    ensures
        request_of(section, wire) is Err,
        decode_utf8(head_bytes(data)) == section ==> request_of_bytes(data) is Err,
{
}

/// A body framed by a length of `n` has exactly the first `n` bytes that
/// follow the header section; when fewer follow, the error reports `n` and
/// how many there were.
pub proof fn lemma_length_framing(n: usize, wire: Seq<u8>)
    ensures
        wire.len() >= n ==> body_of(Framing::Length(n), wire) is Ok && body_of(
            Framing::Length(n),
            wire,
        )->Ok_0.bytes() == wire.take(n as int) && body_of(
            Framing::Length(n),
            wire,
        )->Ok_0.bytes().len() == n,
        wire.len() < n ==> body_of(Framing::Length(n), wire) == Err::<BodyView, ParseErrorView>(
            ParseErrorView::Body(
                BodyErrorView::UnexpectedEof { expected: n, actual: wire.len() as usize },
            ),
        ),
{
    if n == 0 {
        assert(wire.take(0) =~= Seq::<u8>::empty());
    }
}

/// Takes the body that the framing calls for from the bytes that follow
/// the header section.
pub fn decode_body(framing: Framing, wire: &[u8]) -> (r: Result<Body, ParseError>)
    ensures
        match r {
            Ok(b) => body_of(framing, wire@) == Ok::<BodyView, ParseErrorView>(b@),
            Err(e) => body_of(framing, wire@) == Err::<BodyView, ParseErrorView>(e@),
        },
{
    match framing {
        Framing::NoBody => Ok(Body::Empty),
        Framing::Length(n) => match Body::from_content_length(wire, n) {
            Ok(b) => Ok(b),
            Err(e) => Err(ParseError::Body(e)),
        },
        Framing::Chunked => match decode_chunked(wire) {
            Some(data) => if data.len() == 0 {
                Ok(Body::Empty)
            } else {
                Ok(Body::Content(data))
            },
            None => Err(ParseError::InvalidChunkFormat),
        },
    }
}

impl RequestHead {
    /// Parses a header section: the start line and the header lines, given
    /// without the blank line that ends them.
    pub fn parse(section: &str) -> (r: Result<RequestHead, ParseError>)
        ensures
            match r {
                Ok(h) => head_of(section@) == Ok::<RequestHeadView, ParseErrorView>(h@),
                Err(e) => head_of(section@) == Err::<RequestHeadView, ParseErrorView>(e@),
            },
    {
        let cs = chars_of(section);
        let spans = line_spans(&cs);
        if spans.len() == 0 {
            return Err(ParseError::IncompleteRequest);
        }
        let (a, b) = spans[0];
        assert(lines(section@)[0] == spans_of(cs@, spans@)[0]);
        let first = substring(section, a, b);
        let requestline = match RequestLine::parse(first.as_str()) {
            Ok(l) => l,
            Err(e) => {
                return Err(ParseError::RequestLine(e));
            },
        };
        let query = match Query::from_url(requestline.target.as_str()) {
            Ok(q) => q,
            Err(e) => {
                return Err(ParseError::Query(e));
            },
        };
        let (fields, error) = parse_fields(section, &cs, &spans, 1);
        match error {
            Some(e) => {
                return Err(ParseError::Header(e));
            },
            None => {},
        }
        let framing = match decide_framing(&fields) {
            Ok(f) => f,
            Err(e) => {
                return Err(e);
            },
        };
        let mut headers = Headers::new();
        headers.insert_all(&fields);
        Ok(RequestHead { requestline, headers, query, framing })
    }

    /// The request made of this head and a body.
    pub fn with_body(self, body: Body) -> (r: Request)
        ensures
            r@ == request_with(self@, body@),
    {
        Request { requestline: self.requestline, headers: self.headers, body, query: self.query }
    }
}

impl Request {
    /// The method of the start line.
    pub fn method(&self) -> (r: &Method)
        ensures
            *r == self@.requestline.method,
    {
        &self.requestline.method
    }

    /// The request target as it was sent.
    pub fn target(&self) -> (r: &str)
        ensures
            r@ == self@.requestline.target,
    {
        self.requestline.target.as_str()
    }

    /// The protocol version of the start line.
    pub fn http_version(&self) -> (r: &str)
        ensures
            r@ == self@.requestline.httpversion,
    {
        self.requestline.httpversion.as_str()
    }

    /// The decoded query of the target.
    pub fn query(&self) -> (r: &Query)
        ensures
            r@ == self@.query,
    {
        &self.query
    }

    /// The target without its query: what stands before the first `?`.
    pub fn path(&self) -> (r: &str)
        ensures
            r@ == self@.requestline.target.take(position(self@.requestline.target, '?')),
    {
        let target = self.requestline.target.as_str();
        let cs = chars_of(target);
        let n = cs.len();
        assert(cs@.subrange(0, n as int) == cs@);
        let q = position_in(&cs, 0, n, '?');
        target.substring_char(0, q)
    }

    /// The value of the header `name`, compared without regard to case.
    pub fn header(&self, name: &str) -> (r: Option<&str>)
        ensures
            match r {
                Some(v) => lookup(self@.headers, lowercase(name@)) == Some(v@),
                None => lookup(self@.headers, lowercase(name@)) is None,
            },
    {
        self.headers.get(name)
    }

    /// The body.
    pub fn body(&self) -> (r: &Body)
        ensures
            r@ == self@.body,
    {
        &self.body
    }

    /// The bytes of the body.
    pub fn body_as_bytes(&self) -> (r: &[u8])
        ensures
            r@ == self@.body.bytes(),
    {
        self.body.as_bytes()
    }

    /// The body as text: succeeds exactly when its bytes are UTF-8.
    pub fn body_as_str(&self) -> (r: Result<&str, std::str::Utf8Error>)
        ensures
            r is Ok <==> valid_utf8(self@.body.bytes()),
            r matches Ok(s) ==> s@ == decode_utf8(self@.body.bytes()),
    {
        self.body.as_str()
    }

    /// Assembles a request from its header section and the bytes that
    /// follow the blank line.
    pub fn from_parts(header_section: &str, body: Vec<u8>) -> (r: Result<Request, ParseError>)
        ensures
            match r {
                Ok(q) => request_of(header_section@, body@) == Ok::<RequestView, ParseErrorView>(
                    q@,
                ),
                Err(e) => request_of(header_section@, body@) == Err::<RequestView, ParseErrorView>(
                    e@,
                ),
            },
    {
        let head = match RequestHead::parse(header_section) {
            Ok(h) => h,
            Err(e) => {
                return Err(e);
            },
        };
        match decode_body(head.framing, body.as_slice()) {
            Ok(b) => Ok(head.with_body(b)),
            Err(e) => Err(e),
        }
    }

    /// Assembles a request from the bytes of one message.
    pub fn try_from(data: &[u8]) -> (r: Result<Request, ParseError>)
        ensures
            match r {
                Ok(q) => request_of_bytes(data@) == Ok::<RequestView, ParseErrorView>(q@),
                Err(e) => request_of_bytes(data@) == Err::<RequestView, ParseErrorView>(e@),
            },
    {
        let mut blank: Vec<u8> = Vec::new();
        blank.push(0x0D);
        blank.push(0x0A);
        blank.push(0x0D);
        blank.push(0x0A);
        assert(blank@ =~= head_end());
        let n = data.len();
        let cut = find_in_bytes(data, 0, blank.as_slice());
        proof {
            lemma_find_from(data@, head_end(), 0);
        }
        let head = slice_subrange(data, 0, cut);
        let wire = if cut < n {
            slice_subrange(data, cut + 4, n)
        } else {
            slice_subrange(data, n, n)
        };
        assert(wire@ =~= wire_bytes(data@));
        let section = match str_from_utf8(head) {
            Ok(s) => s,
            Err(e) => {
                return Err(ParseError::InvalidEncoding(e));
            },
        };
        let head = match RequestHead::parse(section) {
            Ok(h) => h,
            Err(e) => {
                return Err(e);
            },
        };
        match decode_body(head.framing, wire) {
            Ok(b) => Ok(head.with_body(b)),
            Err(e) => Err(e),
        }
    }
}

impl TryFrom<&[u8]> for Request {
    type Error = ParseError;

    /// Assembles a request from the bytes of one message, as
    /// `Request::try_from` does.
    fn try_from(data: &[u8]) -> (r: Result<Request, ParseError>)
        ensures
            match r {
                Ok(q) => request_of_bytes(data@) == Ok::<RequestView, ParseErrorView>(q@),
                Err(e) => request_of_bytes(data@) == Err::<RequestView, ParseErrorView>(e@),
            },
    {
        Request::try_from(data)
    }
}

impl vstd::std_specs::convert::TryFromSpecImpl<&[u8]> for Request {
    /// The conversion is stated by the `ensures` of `try_from` alone.
    open spec fn obeys_try_from_spec() -> bool {
        false
    }

    open spec fn try_from_spec(data: &[u8]) -> Result<Request, ParseError> {
        arbitrary()
    }
}

} // verus!
