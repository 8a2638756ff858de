//! The reasons for which a request is refused.

use vstd::prelude::*;
use super::body::{BodyError, BodyErrorView};
use super::header::HeaderError;
use super::query::QueryError;
use super::request_line::{RequestLineError, RequestLineErrorView};

verus! {

/// `std::io::Error`, carried through as it is; nothing is known of what it
/// holds.
#[verifier::external_type_specification]
#[verifier::external_body]
pub struct ExIoError(std::io::Error);

/// Why a request was refused. Each kind fails the request at hand and
/// nothing else.
#[derive(Debug)]
pub enum ParseError {
    /// The header section is not UTF-8.
    InvalidEncoding(std::str::Utf8Error),
    /// There is no start line.
    IncompleteRequest,
    /// Reading from the connection failed.
    IoError(std::io::Error),
    RequestLine(RequestLineError),
    Query(QueryError),
    Header(HeaderError),
    Body(BodyError),
    /// A chunk size is malformed, a chunk is not closed by a line
    /// terminator, or the input ends inside the chunked body.
    InvalidChunkFormat,
}

/// `ParseError` as the proofs see it: the kind, and what the library's own
/// errors carry.
pub enum ParseErrorView {
    InvalidEncoding,
    IncompleteRequest,
    IoError,
    RequestLine(RequestLineErrorView),
    Query(QueryError),
    Header(HeaderError),
    Body(BodyErrorView),
    InvalidChunkFormat,
}

impl View for ParseError {
    type V = ParseErrorView;

    open spec fn view(&self) -> ParseErrorView {
        match self {
            ParseError::InvalidEncoding(_) => ParseErrorView::InvalidEncoding,
            ParseError::IncompleteRequest => ParseErrorView::IncompleteRequest,
            ParseError::IoError(_) => ParseErrorView::IoError,
            ParseError::RequestLine(e) => ParseErrorView::RequestLine(e@),
            ParseError::Query(e) => ParseErrorView::Query(*e),
            ParseError::Header(e) => ParseErrorView::Header(*e),
            ParseError::Body(e) => ParseErrorView::Body(e@),
            ParseError::InvalidChunkFormat => ParseErrorView::InvalidChunkFormat,
        }
    }
}

} // verus!
