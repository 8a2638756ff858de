//! An HTTP/1.1 message-framing engine: request parsing with unambiguous
//! body framing, and response serialisation.

pub mod http;
pub mod server;
