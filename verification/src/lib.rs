//! A single-pass parser for one buffered HTTP/1.x message.
//!
//! `parse_http` takes the bytes of one complete message, a request or a
//! response, and gives the message as a value or the reason why the bytes are
//! none. What the bytes mean is laid down in `grammar`; the parser in `parser`
//! is proved to give exactly that.

pub mod cursor;
pub mod error;
pub mod grammar;
pub mod headers;
pub mod laws;
pub mod message;
pub mod parser;
pub mod text;

pub use crate::error::ParseError;
pub use crate::headers::HeaderMap;
pub use crate::message::{HttpMessage, HttpMethod, HttpRequest, HttpResponse, HttpVersion};
pub use crate::parser::parse_http;
