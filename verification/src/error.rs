//! The reasons for which a buffer is rejected.

use vstd::prelude::*;

verus! {

/// Why a buffer could not be read as one HTTP/1.x message.
///
/// Every failure ends the parse: no partial message is handed out and
/// nothing is retried.
#[derive(Debug, Clone, Copy, PartialEq, Eq, Hash, Structural)]
pub enum ParseError {
    /// A read, a peek or an advance would have gone past the end of the buffer.
    UnexpectedEnd,
    /// The leading bytes announce neither a request nor a response, the
    /// resource of a request line is empty, or the reason phrase of a status
    /// line is not set off by a space.
    MalformedStartLine,
    /// The method is none of the seven known spellings, trailing space included.
    MalformedMethod,
    /// The version is none of `HTTP/0.9`, `HTTP/1.0`, `HTTP/1.1`, `HTTP/2`.
    MalformedVersion,
    /// The status code is not a space followed by three ASCII digits.
    MalformedStatusCode,
    /// A line that has to end in CR LF ends in something else.
    MalformedHeader,
}

} // verus!
