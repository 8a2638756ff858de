use rawhttp::http::body::{Body, BodyError};
use rawhttp::http::header::HeaderError;
use rawhttp::http::method::Method;
use rawhttp::http::reader::{Need, Progress, RequestReader};
use rawhttp::http::request::{ParseError, Request};
use std::io::{BufRead, BufReader, Read};

struct Counting<'a> {
    data: &'a [u8],
    taken: usize,
}

impl<'a> Read for Counting<'a> {
    fn read(&mut self, buf: &mut [u8]) -> std::io::Result<usize> {
        let left = &self.data[self.taken..];
        let n = left.len().min(buf.len()).min(1);
        buf[..n].copy_from_slice(&left[..n]);
        self.taken += n;
        Ok(n)
    }
}

fn read_line_unbuffered<R: Read>(reader: &mut R, into: &mut Vec<u8>) -> std::io::Result<()> {
    let mut byte = [0u8; 1];
    loop {
        if reader.read(&mut byte)? == 0 {
            return Ok(());
        }
        into.push(byte[0]);
        if byte[0] == b'\n' {
            return Ok(());
        }
    }
}

fn request_unbuffered(data: &[u8]) -> (Result<Request, ParseError>, usize) {
    let mut source = Counting { data, taken: 0 };
    let mut state = RequestReader::new();
    loop {
        let mut input = Vec::new();
        match state.need() {
            Need::Line => read_line_unbuffered(&mut source, &mut input).unwrap(),
            Need::Bytes(n) => {
                (&mut source).take(n as u64).read_to_end(&mut input).unwrap();
            }
        }
        match state.feed(&input) {
            Progress::More(next) => state = next,
            Progress::Done(result) => return (result, source.taken),
        }
    }
}

fn request_from_reader<R: Read>(reader: &mut R) -> Result<Request, ParseError> {
    let mut reader = BufReader::new(reader);
    let mut state = RequestReader::new();
    loop {
        let mut input = Vec::new();
        let read = match state.need() {
            Need::Line => reader.read_until(b'\n', &mut input),
            Need::Bytes(n) => reader.by_ref().take(n as u64).read_to_end(&mut input),
        };
        if let Err(e) = read {
            return Err(ParseError::IoError(e));
        }
        match state.feed(&input) {
            Progress::More(next) => state = next,
            Progress::Done(result) => return result,
        }
    }
}

#[test]
fn test_large_request_body() {
    let body_size = 10 * 1024; // 10KB
    let body = "a".repeat(body_size);
    let raw = format!(
        "POST /large HTTP/1.1\r\nContent-Length: {}\r\n\r\n{}",
        body_size, body
    );

    let mut cursor = std::io::Cursor::new(raw.as_bytes());
    let request = request_from_reader(&mut cursor).unwrap();

    assert_eq!(request.body().len(), body_size);
    assert_eq!(request.body_as_str().unwrap(), body);
}

#[test]
fn test_chunked_encoding_basic() {
    let raw = "POST / HTTP/1.1\r\nTransfer-Encoding: chunked\r\n\r\n\
               5\r\nHello\r\n\
               6\r\n World\r\n\
               0\r\n\r\n";
    let mut cursor = std::io::Cursor::new(raw.as_bytes());
    let request = request_from_reader(&mut cursor).unwrap();

    assert_eq!(request.body_as_str().unwrap(), "Hello World");
}

#[test]
fn test_chunked_encoding_with_extensions() {
    let raw = "POST / HTTP/1.1\r\nTransfer-Encoding: chunked\r\n\r\n\
               5;foo=bar\r\nHello\r\n\
               0\r\n\r\n";
    let mut cursor = std::io::Cursor::new(raw.as_bytes());
    let request = request_from_reader(&mut cursor).unwrap();

    assert_eq!(request.body_as_str().unwrap(), "Hello");
}

#[test]
fn test_chunked_encoding_empty() {
    let raw = "POST / HTTP/1.1\r\nTransfer-Encoding: chunked\r\n\r\n\
               0\r\n\r\n";
    let mut cursor = std::io::Cursor::new(raw.as_bytes());
    let request = request_from_reader(&mut cursor).unwrap();

    assert!(request.body().is_empty());
}

#[test]
fn test_chunked_encoding_invalid_size() {
    let raw = "POST / HTTP/1.1\r\nTransfer-Encoding: chunked\r\n\r\n\
               G\r\nHello\r\n\
               0\r\n\r\n";
    let mut cursor = std::io::Cursor::new(raw.as_bytes());
    let result = request_from_reader(&mut cursor);

    assert!(matches!(result, Err(ParseError::InvalidChunkFormat)));
}

#[test]
fn test_chunked_encoding_missing_crlf() {
    let raw = "POST / HTTP/1.1\r\nTransfer-Encoding: chunked\r\n\r\n\
               5\r\nHello0\r\n\r\n"; // Missing CRLF after "Hello"
    let mut cursor = std::io::Cursor::new(raw.as_bytes());
    let result = request_from_reader(&mut cursor);

    assert!(result.is_err());
}

#[test]
fn missing_chunk_terminator_is_an_invalid_chunk_format() {
    let raw = b"POST / HTTP/1.1\r\nTransfer-Encoding: chunked\r\n\r\n5\r\nHello0\r\n\r\n";
    let result = request_from_reader(&mut raw.as_slice());
    assert!(matches!(result, Err(ParseError::InvalidChunkFormat)));
}

#[test]
fn get_request_read_from_a_stream() {
    let raw = b"GET /index.html HTTP/1.1\r\n\r\n";
    let request = request_from_reader(&mut raw.as_slice()).unwrap();
    assert_eq!(request.method(), &Method::GET);
    assert_eq!(request.target(), "/index.html");
    assert!(request.body().is_empty());
}

#[test]
fn conflicting_length_and_chunked_is_refused_from_a_stream() {
    let raw = b"POST / HTTP/1.1\r\nHost: localhost\r\nContent-Length: 3\r\n\
                Transfer-Encoding: chunked\r\n\r\n5\r\nABCDE\r\n0\r\n\r\n";
    let result = request_from_reader(&mut raw.as_slice());
    assert!(matches!(result, Err(ParseError::Header(HeaderError::InvalidHeaderValue))));
}

#[test]
fn two_content_lengths_are_refused_from_a_stream() {
    let raw = b"POST / HTTP/1.1\r\nHost: localhost\r\nContent-Length: 5\r\n\
                Content-Length: 6\r\n\r\nABCDEF";
    let result = request_from_reader(&mut raw.as_slice());
    assert!(matches!(result, Err(ParseError::Header(HeaderError::InvalidHeaderValue))));
}

#[test]
fn two_transfer_encodings_are_refused_from_a_stream() {
    let raw = b"POST / HTTP/1.1\r\nHost: localhost\r\nContent-Length: 3\r\n\
                Transfer-Encoding: chunked\r\nTransfer-Encoding: identity\r\n\r\n\
                5\r\nABCDE\r\n0\r\n\r\n";
    let result = request_from_reader(&mut raw.as_slice());
    assert!(matches!(result, Err(ParseError::Header(HeaderError::InvalidHeaderValue))));
}

#[test]
fn reader_does_not_read_past_a_fixed_length_body() {
    let raw = b"POST / HTTP/1.1\r\nContent-Length: 5\r\n\r\nHelloGET /next HTTP/1.1\r\n\r\n";
    let (result, taken) = request_unbuffered(raw);
    assert_eq!(result.unwrap().body_as_bytes(), b"Hello");
    assert_eq!(&raw[taken..], b"GET /next HTTP/1.1\r\n\r\n");
}

#[test]
fn reader_does_not_read_past_a_chunked_body() {
    let raw = b"POST / HTTP/1.1\r\nTransfer-Encoding: chunked\r\n\r\n\
                3\r\nabc\r\n0\r\nX-Trailer: 1\r\n\r\nNEXT";
    let (result, taken) = request_unbuffered(raw);
    assert_eq!(result.unwrap().body_as_bytes(), b"abc");
    assert_eq!(&raw[taken..], b"NEXT");
}

#[test]
fn reader_does_not_read_a_body_without_framing_headers() {
    let raw = b"POST / HTTP/1.1\r\nHost: x\r\n\r\nleft on the wire";
    let (result, taken) = request_unbuffered(raw);
    assert_eq!(result.unwrap().body(), &Body::Empty);
    assert_eq!(&raw[taken..], b"left on the wire");
}

#[test]
fn short_fixed_body_reports_expected_and_actual() {
    let raw = b"POST / HTTP/1.1\r\nContent-Length: 10\r\n\r\nHello";
    match request_from_reader(&mut raw.as_slice()) {
        Err(ParseError::Body(BodyError::UnexpectedEof { expected, actual })) => {
            assert_eq!(expected, 10);
            assert_eq!(actual, 5);
        }
        _ => panic!("expected UnexpectedEof"),
    }
}

#[test]
fn input_that_ends_inside_a_chunked_body_is_refused() {
    for raw in [
        "POST / HTTP/1.1\r\nTransfer-Encoding: chunked\r\n\r\n",
        "POST / HTTP/1.1\r\nTransfer-Encoding: chunked\r\n\r\n5\r\nHel",
        "POST / HTTP/1.1\r\nTransfer-Encoding: chunked\r\n\r\n5\r\nHello",
        "POST / HTTP/1.1\r\nTransfer-Encoding: chunked\r\n\r\n5\r\nHello\r\n",
    ] {
        let result = request_from_reader(&mut raw.as_bytes());
        assert!(matches!(result, Err(ParseError::InvalidChunkFormat)), "{:?}", raw);
    }
}

#[test]
fn header_lines_may_end_in_bare_line_feeds_on_a_stream() {
    let raw = b"POST /x HTTP/1.1\nContent-Length: 2\n\nhi";
    let request = request_from_reader(&mut raw.as_slice()).unwrap();
    assert_eq!(request.header("content-length"), Some("2"));
    assert_eq!(request.body_as_bytes(), b"hi");
}

#[test]
fn steps_of_the_reader_on_a_chunked_message() {
    let mut state = RequestReader::new();
    assert_eq!(state.need(), Need::Line);
    for line in ["PUT /u HTTP/1.1\r\n", "transfer-encoding: gzip, Chunked\r\n", "\r\n"] {
        state = match state.feed(line.as_bytes()) {
            Progress::More(next) => next,
            Progress::Done(_) => panic!("ended early"),
        };
        assert_eq!(state.need(), Need::Line);
    }
    state = match state.feed(b"  \r\n") {
        Progress::More(next) => next,
        Progress::Done(_) => panic!("ended early"),
    };
    assert_eq!(state.need(), Need::Line);
    state = match state.feed(b" +A; ext=1\r\n") {
        Progress::More(next) => next,
        Progress::Done(_) => panic!("ended early"),
    };
    assert_eq!(state.need(), Need::Bytes(10));
    state = match state.feed(b"0123456789") {
        Progress::More(next) => next,
        Progress::Done(_) => panic!("ended early"),
    };
    assert_eq!(state.need(), Need::Line);
    state = match state.feed(b"\n") {
        Progress::More(next) => next,
        Progress::Done(_) => panic!("ended early"),
    };
    state = match state.feed(b"000\r\n") {
        Progress::More(next) => next,
        Progress::Done(_) => panic!("ended early"),
    };
    state = match state.feed(b"Trailer: dropped\r\n") {
        Progress::More(next) => next,
        Progress::Done(_) => panic!("ended early"),
    };
    match state.feed(b"\r\n") {
        Progress::Done(Ok(request)) => {
            assert_eq!(request.body_as_bytes(), b"0123456789");
            assert_eq!(request.header("trailer"), None);
        }
        _ => panic!("expected the request"),
    }
}
