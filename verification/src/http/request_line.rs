//! The start line of a request: method, target and protocol version.

use vstd::prelude::*;
use vstd::string::*;
use super::method::Method;
use super::text::{
    all_whitespace, chars_of, is_whitespace, lemma_split_whitespace_gap, lemma_split_whitespace_word,
    no_whitespace, span_is, spans_of, split_whitespace, substring, word_spans,
};

verus! {

/// Why a start line was refused.
#[derive(Debug)]
pub enum RequestLineError {
    /// The first token is no known method; carries the token.
    InvalidMethod(String),
    /// The line does not have exactly three tokens.
    InvalidRequestLine,
    /// The third token is not `HTTP/1.1`; carries the token.
    InvalidProtocol(String),
}

/// `RequestLineError` as the proofs see it.
pub enum RequestLineErrorView {
    InvalidMethod(Seq<char>),
    InvalidRequestLine,
    InvalidProtocol(Seq<char>),
}

impl View for RequestLineError {
    type V = RequestLineErrorView;

    open spec fn view(&self) -> RequestLineErrorView {
        match self {
            RequestLineError::InvalidMethod(t) => RequestLineErrorView::InvalidMethod(t@),
            RequestLineError::InvalidRequestLine => RequestLineErrorView::InvalidRequestLine,
            RequestLineError::InvalidProtocol(t) => RequestLineErrorView::InvalidProtocol(t@),
        }
    }
}

/// A parsed start line. The target is kept verbatim.
#[derive(Debug)]
pub struct RequestLine {
    pub method: Method,
    pub httpversion: String,
    pub target: String,
}

/// `RequestLine` as the proofs see it.
pub struct RequestLineView {
    pub method: Method,
    pub httpversion: Seq<char>,
    pub target: Seq<char>,
}

impl View for RequestLine {
    type V = RequestLineView;

    open spec fn view(&self) -> RequestLineView {
        RequestLineView {
            method: self.method,
            httpversion: self.httpversion@,
            target: self.target@,
        }
    }
}

/// What a start line means: three whitespace-separated tokens, a known
/// method first and the one accepted protocol version last.
///
/// Asking the third token to be `HTTP/1.1` is the same as splitting it on
/// `/` and asking for the two parts `HTTP` and `1.1`.
pub open spec fn parse_request_line(line: Seq<char>) -> Result<
    RequestLineView,
    RequestLineErrorView,
> {
    let tokens = split_whitespace(line);
    if tokens.len() != 3 {
        Err(RequestLineErrorView::InvalidRequestLine)
    } else {
        match Method::recognize(tokens[0]) {
            None => Err(RequestLineErrorView::InvalidMethod(tokens[0])),
            Some(method) => if tokens[2] != "HTTP/1.1"@ {
                Err(RequestLineErrorView::InvalidProtocol(tokens[2]))
            } else {
                Ok(RequestLineView { method, httpversion: tokens[2], target: tokens[1] })
            },
        }
    }
}

/// A line made of a method name, a target and `HTTP/1.1`, with whitespace
/// between them and possibly around them, parses to exactly that method and
/// that target.
pub proof fn lemma_valid_line_round_trips(
    method: Method,
    target: Seq<char>,
    lead: Seq<char>,
    gap1: Seq<char>,
    gap2: Seq<char>,
    trail: Seq<char>,
)
    requires
        target.len() > 0,
        no_whitespace(target),
        all_whitespace(lead),
        all_whitespace(gap1),
        all_whitespace(gap2),
        all_whitespace(trail),
        gap1.len() > 0,
        gap2.len() > 0,
    ensures
        parse_request_line(lead + method.name() + gap1 + target + gap2 + "HTTP/1.1"@ + trail)
            == Ok::<RequestLineView, RequestLineErrorView>(
            RequestLineView { method, httpversion: "HTTP/1.1"@, target },
        ),
{
    let name = method.name();
    let version = "HTTP/1.1"@;
    reveal_strlit("GET");
    reveal_strlit("PUT");
    reveal_strlit("POST");
    reveal_strlit("DELETE");
    reveal_strlit("HTTP/1.1");
    assert(no_whitespace(name));
    assert(no_whitespace(version));
    let empty = Seq::<char>::empty();
    assert(split_whitespace(empty) == Seq::<Seq<char>>::empty());
    lemma_split_whitespace_gap(empty, lead);
    assert(empty + lead == lead);
    assert(lead.len() > 0 ==> is_whitespace(lead[lead.len() - 1]));
    lemma_split_whitespace_word(lead, name);
    let a = lead + name;
    lemma_split_whitespace_gap(a, gap1);
    let b = a + gap1;
    assert(is_whitespace(gap1[gap1.len() - 1]));
    lemma_split_whitespace_word(b, target);
    let c = b + target;
    lemma_split_whitespace_gap(c, gap2);
    let d = c + gap2;
    assert(is_whitespace(gap2[gap2.len() - 1]));
    lemma_split_whitespace_word(d, version);
    let e = d + version;
    lemma_split_whitespace_gap(e, trail);
    let tokens = split_whitespace(e + trail);
    assert(tokens == seq![name, target, version]);
    Method::lemma_recognize_name(method);
}

impl RequestLine {
    /// Parses one line of text, given without its line terminator.
    pub fn parse(line: &str) -> (r: Result<RequestLine, RequestLineError>)
        ensures
            match r {
                Ok(l) => parse_request_line(line@) == Ok::<RequestLineView, RequestLineErrorView>(
                    l@,
                ),
                Err(e) => parse_request_line(line@) == Err::<RequestLineView, RequestLineErrorView>(
                    e@,
                ),
            },
    {
        let cs = chars_of(line);
        let spans = word_spans(&cs);
        if spans.len() != 3 {
            return Err(RequestLineError::InvalidRequestLine);
        }
        let ghost tokens = split_whitespace(line@);
        assert(tokens[0] == spans_of(cs@, spans@)[0]);
        assert(tokens[1] == spans_of(cs@, spans@)[1]);
        assert(tokens[2] == spans_of(cs@, spans@)[2]);
        let (a0, b0) = spans[0];
        let (a1, b1) = spans[1];
        let (a2, b2) = spans[2];
        let word = substring(line, a0, b0);
        let method = match Method::from_str(word.as_str()) {
            Ok(m) => m,
            Err(e) => {
                return Err(e);
            },
        };
        let httpversion = substring(line, a2, b2);
        if !span_is(&cs, a2, b2, "HTTP/1.1") {
            return Err(RequestLineError::InvalidProtocol(httpversion));
        }
        let target = substring(line, a1, b1);
        Ok(RequestLine { method, httpversion, target })
    }
}

} // verus!
