//! The parsed message: a request or a response, owned by the caller.

use vstd::prelude::*;
use crate::error::ParseError;
use crate::headers::HeaderMap;

verus! {

/// The protocol versions that the parser knows.
#[derive(Debug, Clone, Copy, PartialEq, Eq, Hash)]
pub enum HttpVersion {
    Version0_9,
    Version1_0,
    Version1_1,
    Version2_0,
}

/// The request methods that the parser knows. There are no others: an unknown
/// method is rejected, not stored.
#[derive(Debug, Clone, Copy, PartialEq, Eq, Hash)]
pub enum HttpMethod {
    GET,
    PUT,
    POST,
    HEAD,
    DELETE,
    PATCH,
    OPTIONS,
}

/// A request: its request line, its header fields and its body.
#[derive(Debug, PartialEq, Eq)]
pub struct HttpRequest {
    pub version: HttpVersion,
    pub method: HttpMethod,
    /// The resource as it was written, not decoded.
    pub resource: String,
    pub headers: HeaderMap,
    /// The bytes after the blank line, if there are any.
    pub body: Option<Vec<u8>>,
}

/// A response: its status line, its header fields and its body.
#[derive(Debug, PartialEq, Eq)]
pub struct HttpResponse {
    pub version: HttpVersion,
    /// The three digits of the status code, as the bytes that were read.
    pub status_code: [u8; 3],
    pub reason_phrase: String,
    pub headers: HeaderMap,
    /// The bytes after the blank line, if there are any.
    pub body: Option<Vec<u8>>,
}

/// One parsed message.
#[derive(Debug, PartialEq, Eq)]
pub enum HttpMessage {
    Request(HttpRequest),
    Response(HttpResponse),
}

/// What a request holds, as plain mathematical values.
#[verifier::ext_equal]
pub struct RequestView {
    pub version: HttpVersion,
    pub method: HttpMethod,
    pub resource: Seq<char>,
    pub headers: Map<Seq<char>, Seq<char>>,
    pub body: Option<Seq<u8>>,
}

/// What a response holds, as plain mathematical values.
#[verifier::ext_equal]
pub struct ResponseView {
    pub version: HttpVersion,
    pub status_code: Seq<u8>,
    pub reason_phrase: Seq<char>,
    pub headers: Map<Seq<char>, Seq<char>>,
    pub body: Option<Seq<u8>>,
}

/// What a message holds, as plain mathematical values.
#[verifier::ext_equal]
pub enum MessageView {
    Request(RequestView),
    Response(ResponseView),
}

impl MessageView {
    /// The header fields of the message, request or response.
    pub open spec fn headers(self) -> Map<Seq<char>, Seq<char>> {
        match self {
            MessageView::Request(request) => request.headers,
            MessageView::Response(response) => response.headers,
        }
    }

    /// The body of the message, request or response.
    pub open spec fn body(self) -> Option<Seq<u8>> {
        match self {
            MessageView::Request(request) => request.body,
            MessageView::Response(response) => response.body,
        }
    }
}

/// A body by the bytes it holds.
pub open spec fn body_view(body: Option<Vec<u8>>) -> Option<Seq<u8>> {
    match body {
        Some(bytes) => Some(bytes@),
        None => None,
    }
}

/// What a parser hands back, seen as plain values: the value by its view, the
/// failure as it is.
pub open spec fn outcome<T: View>(res: Result<T, ParseError>) -> Result<T::V, ParseError> {
    match res {
        Ok(value) => Ok(value@),
        Err(e) => Err(e),
    }
}

/// What the body extractor hands back, seen as plain values.
pub open spec fn body_outcome(res: Result<Option<Vec<u8>>, ParseError>) -> Result<
    Option<Seq<u8>>,
    ParseError,
> {
    match res {
        Ok(body) => Ok(body_view(body)),
        Err(e) => Err(e),
    }
}

impl View for HttpRequest {
    type V = RequestView;

    open spec fn view(&self) -> RequestView {
        RequestView {
            version: self.version,
            method: self.method,
            resource: self.resource@,
            headers: self.headers@,
            body: body_view(self.body),
        }
    }
}

impl View for HttpResponse {
    type V = ResponseView;

    open spec fn view(&self) -> ResponseView {
        ResponseView {
            version: self.version,
            status_code: self.status_code@,
            reason_phrase: self.reason_phrase@,
            headers: self.headers@,
            body: body_view(self.body),
        }
    }
}

impl View for HttpMessage {
    type V = MessageView;

    open spec fn view(&self) -> MessageView {
        match self {
            HttpMessage::Request(request) => MessageView::Request(request@),
            HttpMessage::Response(response) => MessageView::Response(response@),
        }
    }
}

} // verus!
