//! The HTTP message model and its parsers.

pub mod body;
pub mod bytes;
pub mod chunked;
pub mod error;
pub mod framing;
pub mod header;
pub mod method;
pub mod number;
pub mod percent;
pub mod query;
pub mod reader;
pub mod request;
pub mod request_line;
pub mod response;
pub mod status_code;
pub mod text;

pub use body::Body;
pub use header::Headers;
pub use method::Method;
pub use query::{Query, QueryError};
pub use request::{ParseError, Request};
pub use request_line::RequestLine;
pub use response::Response;
pub use status_code::StatusCode;
