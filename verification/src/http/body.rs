//! The message body: absent, or a run of bytes.

use vstd::prelude::*;
use vstd::string::*;
use vstd::utf8::{decode_utf8, encode_utf8, valid_utf8};
use super::text::str_from_utf8;

verus! {

/// Why a body could not be taken from the bytes at hand.
#[derive(Debug)]
pub enum BodyError {
    /// The `Content-Length` value is no number; carries the value.
    InvalidContentLength(String),
    /// Fewer bytes are at hand than the length declared.
    UnexpectedEof { expected: usize, actual: usize },
    MissingContentLength,
}

/// `BodyError` as the proofs see it.
pub enum BodyErrorView {
    InvalidContentLength(Seq<char>),
    UnexpectedEof { expected: usize, actual: usize },
    MissingContentLength,
}

impl View for BodyError {
    type V = BodyErrorView;

    open spec fn view(&self) -> BodyErrorView {
        match self {
            BodyError::InvalidContentLength(v) => BodyErrorView::InvalidContentLength(v@),
            BodyError::UnexpectedEof { expected, actual } => BodyErrorView::UnexpectedEof {
                expected: *expected,
                actual: *actual,
            },
            BodyError::MissingContentLength => BodyErrorView::MissingContentLength,
        }
    }
}

/// A message body. `Empty` and `Content` of no bytes are different values
/// that answer alike when asked for their bytes, their length or whether
/// they are empty.
#[derive(Debug, PartialEq, Clone)]
pub enum Body {
    Empty,
    Content(Vec<u8>),
}

/// `Body` as the proofs see it.
pub enum BodyView {
    Empty,
    Content(Seq<u8>),
}

impl BodyView {
    /// The bytes of the body; none for `Empty`.
    pub open spec fn bytes(self) -> Seq<u8> {
        match self {
            BodyView::Empty => Seq::empty(),
            BodyView::Content(data) => data,
        }
    }
}

impl View for Body {
    type V = BodyView;

    open spec fn view(&self) -> BodyView {
        match self {
            Body::Empty => BodyView::Empty,
            Body::Content(data) => BodyView::Content(data@),
        }
    }
}

/// The body that a declared length cuts from the bytes at hand.
pub open spec fn body_of_length(buf: Seq<u8>, length: usize) -> Result<BodyView, BodyErrorView> {
    if length == 0 {
        Ok(BodyView::Empty)
    } else if buf.len() < length {
        Err(BodyErrorView::UnexpectedEof { expected: length, actual: buf.len() as usize })
    } else {
        Ok(BodyView::Content(buf.take(length as int)))
    }
}

/// A copy of `bytes[from..to]`.
pub fn copy_range(bytes: &[u8], from: usize, to: usize) -> (r: Vec<u8>)
    requires
        from <= to <= bytes@.len(),
    ensures
        r@ == bytes@.subrange(from as int, to as int),
{
    let mut out: Vec<u8> = Vec::new();
    let mut i: usize = from;
    while i < to
        invariant
            from <= i <= to <= bytes@.len(),
            out@ == bytes@.subrange(from as int, i as int),
        decreases to - i,
    {
        out.push(bytes[i]);
        assert(out@ =~= bytes@.subrange(from as int, i + 1));
        i = i + 1;
    }
    out
}

impl Body {
    /// The empty body.
    pub fn new() -> (r: Body)
        ensures
            r@ == BodyView::Empty,
    {
        Body::Empty
    }

    /// Takes the first `length` bytes of `buf` as the body. A declared
    /// length of zero gives `Empty`; a `buf` that is too short is an error
    /// that reports both lengths.
    pub fn from_content_length(buf: &[u8], length: usize) -> (r: Result<Body, BodyError>)
        ensures
            match r {
                Ok(b) => body_of_length(buf@, length) == Ok::<BodyView, BodyErrorView>(b@),
                Err(e) => body_of_length(buf@, length) == Err::<BodyView, BodyErrorView>(e@),
            },
    {
        if length == 0 {
            return Ok(Body::Empty);
        }
        if buf.len() < length {
            return Err(BodyError::UnexpectedEof { expected: length, actual: buf.len() });
        }
        Ok(Body::Content(copy_range(buf, 0, length)))
    }

    /// The bytes of the body; none for `Empty`.
    pub fn as_bytes(&self) -> (r: &[u8])
        ensures
            r@ == self@.bytes(),
    {
        match self {
            Body::Empty => {
                let r: &[u8] = &[];
                assert(r@ =~= Seq::<u8>::empty());
                r
            },
            Body::Content(data) => data.as_slice(),
        }
    }

    /// The body as text: succeeds exactly when the bytes are well-formed
    /// UTF-8.
    pub fn as_str(&self) -> (r: Result<&str, std::str::Utf8Error>)
        ensures
            r is Ok <==> valid_utf8(self@.bytes()),
            r matches Ok(s) ==> s@ == decode_utf8(self@.bytes()),
    {
        str_from_utf8(self.as_bytes())
    }

    /// The number of bytes.
    pub fn len(&self) -> (r: usize)
        ensures
            r == self@.bytes().len(),
    {
        match self {
            Body::Empty => 0,
            Body::Content(data) => data.len(),
        }
    }

    /// True when the body has no bytes: for `Empty`, and for `Content` of
    /// no bytes.
    pub fn is_empty(&self) -> (r: bool)
        ensures
            r == (self@.bytes().len() == 0),
    {
        match self {
            Body::Empty => true,
            Body::Content(data) => data.len() == 0,
        }
    }
}

impl From<String> for Body {
    /// The body that holds the UTF-8 bytes of `s`.
    fn from(s: String) -> (r: Body)
        ensures
            r@ == BodyView::Content(encode_utf8(s@)),
    {
        Body::Content(s.as_str().as_bytes_vec())
    }
}

impl vstd::std_specs::convert::FromSpecImpl<String> for Body {
    /// The conversion is stated by the `ensures` of `from` alone.
    open spec fn obeys_from_spec() -> bool {
        false
    }

    open spec fn from_spec(s: String) -> Body {
        arbitrary()
    }
}

impl From<&str> for Body {
    /// The body that holds the UTF-8 bytes of `s`.
    fn from(s: &str) -> (r: Body)
        ensures
            r@ == BodyView::Content(encode_utf8(s@)),
    {
        Body::Content(s.as_bytes_vec())
    }
}

impl vstd::std_specs::convert::FromSpecImpl<&str> for Body {
    /// The conversion is stated by the `ensures` of `from` alone.
    open spec fn obeys_from_spec() -> bool {
        false
    }

    open spec fn from_spec(s: &str) -> Body {
        arbitrary()
    }
}

impl Default for Body {
    fn default() -> (r: Body)
        ensures
            r@ == BodyView::Empty,
    {
        Body::new()
    }
}

} // verus!
