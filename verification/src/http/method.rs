//! The request methods this server recognises.

use vstd::prelude::*;
use vstd::string::*;
use super::request_line::RequestLineError;
use super::text::{chars_of, span_is};

verus! {

/// A request method. The set is closed: any other token is a parse error.
#[derive(Debug, Clone, Copy, PartialEq, Eq, Structural)]
pub enum Method {
    GET,
    PUT,
    POST,
    DELETE,
}

impl Method {
    /// The token that spells this method on the wire.
    pub open spec fn name(self) -> Seq<char> {
        match self {
            Method::GET => "GET"@,
            Method::PUT => "PUT"@,
            Method::POST => "POST"@,
            Method::DELETE => "DELETE"@,
        }
    }

    /// The method that `token` spells, compared exactly and with case.
    pub open spec fn recognize(token: Seq<char>) -> Option<Method> {
        if token == "GET"@ {
            Some(Method::GET)
        } else if token == "POST"@ {
            Some(Method::POST)
        } else if token == "PUT"@ {
            Some(Method::PUT)
        } else if token == "DELETE"@ {
            Some(Method::DELETE)
        } else {
            None
        }
    }

    /// Every method is recognised from its own name.
    pub proof fn lemma_recognize_name(m: Method)
        ensures
            Method::recognize(m.name()) == Some(m),
    {
        reveal_strlit("GET");
        reveal_strlit("PUT");
        reveal_strlit("POST");
        reveal_strlit("DELETE");
        assert("GET"@[0] != "POST"@[0]);
        assert("GET"@[0] != "PUT"@[0]);
        assert("GET"@[0] != "DELETE"@[0]);
        assert("POST"@.len() != "PUT"@.len());
        assert("POST"@[0] != "DELETE"@[0]);
        assert("PUT"@[0] != "DELETE"@[0]);
    }

    /// Parses a method token.
    pub fn from_str(s: &str) -> (r: Result<Method, RequestLineError>)
        ensures
            match Method::recognize(s@) {
                Some(m) => r == Ok::<Method, RequestLineError>(m),
                None => r matches Err(RequestLineError::InvalidMethod(t)) && t@ == s@,
            },
    {
        let cs = chars_of(s);
        let n = cs.len();
        assert(cs@.subrange(0, n as int) == s@);
        if span_is(&cs, 0, n, "GET") {
            Ok(Method::GET)
        } else if span_is(&cs, 0, n, "POST") {
            Ok(Method::POST)
        } else if span_is(&cs, 0, n, "PUT") {
            Ok(Method::PUT)
        } else if span_is(&cs, 0, n, "DELETE") {
            Ok(Method::DELETE)
        } else {
            Err(RequestLineError::InvalidMethod(s.to_owned()))
        }
    }

    /// The token that spells this method on the wire.
    pub fn as_str(&self) -> (r: &'static str)
        ensures
            r@ == self.name(),
    {
        match self {
            Method::GET => "GET",
            Method::PUT => "PUT",
            Method::POST => "POST",
            Method::DELETE => "DELETE",
        }
    }
}

impl std::str::FromStr for Method {
    type Err = RequestLineError;

    /// Parses a method token, as `Method::from_str` does.
    fn from_str(s: &str) -> (r: Result<Method, RequestLineError>)
        ensures
            match Method::recognize(s@) {
                Some(m) => r == Ok::<Method, RequestLineError>(m),
                None => r matches Err(RequestLineError::InvalidMethod(t)) && t@ == s@,
            },
    {
        Method::from_str(s)
    }
}

} // verus!
