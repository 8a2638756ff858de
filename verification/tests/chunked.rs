use rawhttp::http::body::Body;
use rawhttp::http::chunked::{decode_chunked, line_is_end, read_size_line, SizeLine};
use rawhttp::http::framing::{decide_framing, text_contains, text_eq, Framing};
use rawhttp::http::header::HeaderError;
use rawhttp::http::request::{ParseError, Request};

fn fields(pairs: &[(&str, &str)]) -> Vec<(String, String)> {
    pairs.iter().map(|(n, v)| (n.to_string(), v.to_string())).collect()
}

#[test]
fn chunked_body_is_the_data_of_its_chunks() {
    assert_eq!(
        decode_chunked(b"5\r\nHello\r\n6\r\n World\r\n0\r\n\r\n"),
        Some(b"Hello World".to_vec())
    );
}

#[test]
fn chunk_extensions_are_ignored() {
    assert_eq!(decode_chunked(b"5;foo=bar\r\nHello\r\n0\r\n\r\n"), Some(b"Hello".to_vec()));
}

#[test]
fn chunk_without_terminator_is_refused() {
    assert_eq!(decode_chunked(b"5\r\nHello0\r\n\r\n"), None);
    assert_eq!(decode_chunked(b"5\r\nHelloXX\r\n0\r\n\r\n"), None);
    assert_eq!(decode_chunked(b"5\r\nHello"), None);
}

#[test]
fn chunk_sizes_are_hexadecimal() {
    let mut raw = b"1a\r\n".to_vec();
    raw.extend_from_slice(&[b'x'; 26]);
    raw.extend_from_slice(b"\r\n0\r\n\r\n");
    assert_eq!(decode_chunked(&raw), Some(vec![b'x'; 26]));
    assert_eq!(decode_chunked(b"G\r\nHello\r\n0\r\n\r\n"), None);
    assert_eq!(decode_chunked(b"0x5\r\nHello\r\n0\r\n\r\n"), None);
    assert_eq!(decode_chunked(b"ffffffffffffffffffffff\r\nHello\r\n0\r\n\r\n"), None);
}

#[test]
fn chunked_input_that_ends_early_is_refused() {
    assert_eq!(decode_chunked(b""), None);
    assert_eq!(decode_chunked(b"\r\n"), None);
    assert_eq!(decode_chunked(b"5\r\nHel"), None);
    assert_eq!(decode_chunked(b"5\r\nHello\r\n"), None);
}

#[test]
fn empty_chunked_body_and_trailers() {
    assert_eq!(decode_chunked(b"0\r\n\r\n"), Some(Vec::new()));
    assert_eq!(decode_chunked(b"0\r\nTrailer: x\r\n\r\n"), Some(Vec::new()));
    assert_eq!(decode_chunked(b"0"), Some(Vec::new()));
    assert_eq!(decode_chunked(b"\r\n3\nabc\n0\n\n"), Some(b"abc".to_vec()));
}

#[test]
fn chunk_data_may_hold_line_feeds() {
    assert_eq!(decode_chunked(b"4\r\na\r\nb\r\n0\r\n\r\n"), Some(b"a\r\nb".to_vec()));
}

#[test]
fn size_lines() {
    assert_eq!(read_size_line(b"5\r\n"), SizeLine::Size(5));
    assert_eq!(read_size_line(b"  Ff;name=value\r\n"), SizeLine::Size(255));
    assert_eq!(read_size_line(b"+10\n"), SizeLine::Size(16));
    assert_eq!(read_size_line(b"0\r\n"), SizeLine::Size(0));
    assert_eq!(read_size_line(b"\r\n"), SizeLine::Blank);
    assert_eq!(read_size_line(b""), SizeLine::Blank);
    assert_eq!(read_size_line(b";ext\r\n"), SizeLine::Malformed);
    assert_eq!(read_size_line(b"5 ;ext\r\n"), SizeLine::Malformed);
    assert_eq!(read_size_line(b"-5\r\n"), SizeLine::Malformed);
    assert_eq!(read_size_line(b"5\xff\r\n"), SizeLine::Malformed);
    assert!(line_is_end(b"\r\n"));
    assert!(line_is_end(b"\n"));
    assert!(!line_is_end(b""));
    assert!(!line_is_end(b"\r"));
    assert!(!line_is_end(b" \r\n"));
}

#[test]
fn framing_without_headers_is_no_body() {
    assert_eq!(decide_framing(&fields(&[("Host", "x")])).unwrap(), Framing::NoBody);
    assert_eq!(decide_framing(&Vec::new()).unwrap(), Framing::NoBody);
}

#[test]
fn framing_by_length_and_by_chunks() {
    assert_eq!(
        decide_framing(&fields(&[("content-LENGTH", "42")])).unwrap(),
        Framing::Length(42)
    );
    assert_eq!(
        decide_framing(&fields(&[("Transfer-Encoding", "gzip, CHUNKED")])).unwrap(),
        Framing::Chunked
    );
    assert_eq!(
        decide_framing(&fields(&[("Transfer-Encoding", "gzip"), ("Content-Length", "7")]))
            .unwrap(),
        Framing::Length(7)
    );
    assert_eq!(
        decide_framing(&fields(&[("Transfer-Encoding", "identity")])).unwrap(),
        Framing::NoBody
    );
}

#[test]
fn ambiguous_framing_is_refused() {
    for case in [
        fields(&[("Content-Length", "5"), ("Content-Length", "6")]),
        fields(&[("Content-Length", "5"), ("content-length", "5")]),
        fields(&[("Transfer-Encoding", "chunked"), ("Transfer-Encoding", "identity")]),
        fields(&[("Transfer-Encoding", "gzip"), ("TRANSFER-ENCODING", "gzip")]),
        fields(&[("Content-Length", "3"), ("Transfer-Encoding", "chunked")]),
        fields(&[("Transfer-Encoding", "Chunked"), ("Host", "x"), ("Content-Length", "3")]),
    ] {
        assert!(matches!(
            decide_framing(&case),
            Err(ParseError::Header(HeaderError::InvalidHeaderValue))
        ));
    }
}

#[test]
fn conflicting_length_and_chunked_is_never_a_request() {
    let raw = b"POST / HTTP/1.1\r\nHost: localhost\r\nContent-Length: 3\r\n\
                Transfer-Encoding: chunked\r\n\r\n5\r\nABCDE\r\n0\r\n\r\n";
    assert!(matches!(
        Request::try_from(raw.as_slice()),
        Err(ParseError::Header(HeaderError::InvalidHeaderValue))
    ));
}

#[test]
fn repeated_framing_headers_are_never_a_request() {
    let raw = b"POST / HTTP/1.1\r\nContent-Length: 5\r\nContent-Length: 6\r\n\r\nABCDEF";
    assert!(matches!(
        Request::try_from(raw.as_slice()),
        Err(ParseError::Header(HeaderError::InvalidHeaderValue))
    ));
    let raw = b"POST / HTTP/1.1\r\nContent-Length : 5\r\ncontent-length:5\r\n\r\nABCDEF";
    assert!(matches!(
        Request::try_from(raw.as_slice()),
        Err(ParseError::Header(HeaderError::InvalidHeaderValue))
    ));
    let raw = b"POST / HTTP/1.1\r\nTransfer-Encoding: chunked\r\n\
                Transfer-Encoding: identity\r\n\r\n5\r\nABCDE\r\n0\r\n\r\n";
    assert!(matches!(
        Request::try_from(raw.as_slice()),
        Err(ParseError::Header(HeaderError::InvalidHeaderValue))
    ));
}

#[test]
fn chunked_message_in_a_buffer() {
    let raw = b"POST / HTTP/1.1\r\nTransfer-Encoding: chunked\r\n\r\n\
                5\r\nHello\r\n6\r\n World\r\n0\r\n\r\n";
    let request = Request::try_from(raw.as_slice()).unwrap();
    assert_eq!(request.body(), &Body::Content(b"Hello World".to_vec()));
    let raw = b"POST / HTTP/1.1\r\nTransfer-Encoding: chunked\r\n\r\n0\r\n\r\n";
    assert_eq!(Request::try_from(raw.as_slice()).unwrap().body(), &Body::Empty);
    let raw = b"POST / HTTP/1.1\r\nTransfer-Encoding: chunked\r\n\r\nG\r\nHello\r\n0\r\n\r\n";
    assert!(matches!(Request::try_from(raw.as_slice()), Err(ParseError::InvalidChunkFormat)));
}

#[test]
fn text_comparisons() {
    assert!(text_eq("abc", "abc"));
    assert!(!text_eq("abc", "abd"));
    assert!(!text_eq("abc", "ab"));
    assert!(text_eq("", ""));
    assert!(text_contains("gzip, chunked", "chunked"));
    assert!(text_contains("chunked", "chunked"));
    assert!(!text_contains("chunke", "chunked"));
    assert!(!text_contains("", "chunked"));
    assert!(text_contains("", ""));
}
