//! What the bytes of a message mean.
//!
//! A function whose name ends in `_at` reads a buffer `s` from a position
//! `pos` and gives a pair: what was read, or the reason why nothing could be,
//! and the position at which reading stopped. A message is read front to
//! back, each part starting where the part before it stopped, and the first
//! failure is the failure of the whole.

use vstd::prelude::*;
use crate::cursor::{
    agreement, find_byte, find_crlf, holds_at, lemma_find_byte, lemma_find_crlf, literal_at, COLON,
    CR, LF, SP,
};
use crate::error::ParseError;
use crate::headers::header_map;
use crate::message::{HttpMethod, HttpVersion, MessageView, RequestView, ResponseView};
use crate::text::latin1;

verus! {

/// How a method is written in a request line, the space after it included.
pub open spec fn method_spelling(method: HttpMethod) -> Seq<u8> {
    match method {
        // "GET "
        HttpMethod::GET => seq![71u8, 69u8, 84u8, 32u8],
        // "PUT "
        HttpMethod::PUT => seq![80u8, 85u8, 84u8, 32u8],
        // "POST "
        HttpMethod::POST => seq![80u8, 79u8, 83u8, 84u8, 32u8],
        // "HEAD "
        HttpMethod::HEAD => seq![72u8, 69u8, 65u8, 68u8, 32u8],
        // "DELETE "
        HttpMethod::DELETE => seq![68u8, 69u8, 76u8, 69u8, 84u8, 69u8, 32u8],
        // "PATCH "
        HttpMethod::PATCH => seq![80u8, 65u8, 84u8, 67u8, 72u8, 32u8],
        // "OPTIONS "
        HttpMethod::OPTIONS => seq![79u8, 80u8, 84u8, 73u8, 79u8, 78u8, 83u8, 32u8],
    }
}

/// How a version is written. Of version 2 only `HTTP/2` is read: what follows
/// the digit is left to whatever comes next.
pub open spec fn version_spelling(version: HttpVersion) -> Seq<u8> {
    match version {
        // "HTTP/0.9"
        HttpVersion::Version0_9 => seq![72u8, 84u8, 84u8, 80u8, 47u8, 48u8, 46u8, 57u8],
        // "HTTP/1.0"
        HttpVersion::Version1_0 => seq![72u8, 84u8, 84u8, 80u8, 47u8, 49u8, 46u8, 48u8],
        // "HTTP/1.1"
        HttpVersion::Version1_1 => seq![72u8, 84u8, 84u8, 80u8, 47u8, 49u8, 46u8, 49u8],
        // "HTTP/2"
        HttpVersion::Version2_0 => seq![72u8, 84u8, 84u8, 80u8, 47u8, 50u8],
    }
}

/// The larger of two numbers.
pub open spec fn larger(a: nat, b: nat) -> nat {
    if a >= b {
        a
    } else {
        b
    }
}

/// The length of the longest start of any method spelling that the buffer
/// holds at `pos`.
pub open spec fn method_reach(s: Seq<u8>, pos: int) -> nat {
    larger(
        agreement(s, pos, method_spelling(HttpMethod::GET)),
        larger(
            agreement(s, pos, method_spelling(HttpMethod::PUT)),
            larger(
                agreement(s, pos, method_spelling(HttpMethod::POST)),
                larger(
                    agreement(s, pos, method_spelling(HttpMethod::HEAD)),
                    larger(
                        agreement(s, pos, method_spelling(HttpMethod::DELETE)),
                        larger(
                            agreement(s, pos, method_spelling(HttpMethod::PATCH)),
                            agreement(s, pos, method_spelling(HttpMethod::OPTIONS)),
                        ),
                    ),
                ),
            ),
        ),
    )
}

/// The length of the longest start of any version spelling that the buffer
/// holds at `pos`.
pub open spec fn version_reach(s: Seq<u8>, pos: int) -> nat {
    larger(
        agreement(s, pos, version_spelling(HttpVersion::Version0_9)),
        larger(
            agreement(s, pos, version_spelling(HttpVersion::Version1_0)),
            larger(
                agreement(s, pos, version_spelling(HttpVersion::Version1_1)),
                agreement(s, pos, version_spelling(HttpVersion::Version2_0)),
            ),
        ),
    )
}

/// What is left when none of a set of spellings is found at `pos`, `reach`
/// being the longest start of any of them that is: the bytes of that start are
/// consumed; if the buffer ends there, that is the failure; if not, the byte
/// that fits no spelling is consumed too and the failure is `malformed`.
pub open spec fn no_spelling<T>(s: Seq<u8>, pos: int, reach: nat, malformed: ParseError) -> (
    Result<T, ParseError>,
    int,
) {
    if pos + reach >= s.len() {
        (Err(ParseError::UnexpectedEnd), pos + reach)
    } else {
        (Err(malformed), pos + reach + 1)
    }
}

/// The method at `pos`: the one whose spelling the buffer holds there. Reading
/// stops behind the spelling.
pub open spec fn method_at(s: Seq<u8>, pos: int) -> (Result<HttpMethod, ParseError>, int) {
    if holds_at(s, pos, method_spelling(HttpMethod::GET)) {
        (Ok(HttpMethod::GET), pos + method_spelling(HttpMethod::GET).len())
    } else if holds_at(s, pos, method_spelling(HttpMethod::PUT)) {
        (Ok(HttpMethod::PUT), pos + method_spelling(HttpMethod::PUT).len())
    } else if holds_at(s, pos, method_spelling(HttpMethod::POST)) {
        (Ok(HttpMethod::POST), pos + method_spelling(HttpMethod::POST).len())
    } else if holds_at(s, pos, method_spelling(HttpMethod::HEAD)) {
        (Ok(HttpMethod::HEAD), pos + method_spelling(HttpMethod::HEAD).len())
    } else if holds_at(s, pos, method_spelling(HttpMethod::DELETE)) {
        (Ok(HttpMethod::DELETE), pos + method_spelling(HttpMethod::DELETE).len())
    } else if holds_at(s, pos, method_spelling(HttpMethod::PATCH)) {
        (Ok(HttpMethod::PATCH), pos + method_spelling(HttpMethod::PATCH).len())
    } else if holds_at(s, pos, method_spelling(HttpMethod::OPTIONS)) {
        (Ok(HttpMethod::OPTIONS), pos + method_spelling(HttpMethod::OPTIONS).len())
    } else {
        no_spelling(s, pos, method_reach(s, pos), ParseError::MalformedMethod)
    }
}

/// The version at `pos`: the one whose spelling the buffer holds there. Reading
/// stops behind the spelling.
pub open spec fn version_at(s: Seq<u8>, pos: int) -> (Result<HttpVersion, ParseError>, int) {
    if holds_at(s, pos, version_spelling(HttpVersion::Version0_9)) {
        (Ok(HttpVersion::Version0_9), pos + version_spelling(HttpVersion::Version0_9).len())
    } else if holds_at(s, pos, version_spelling(HttpVersion::Version1_0)) {
        (Ok(HttpVersion::Version1_0), pos + version_spelling(HttpVersion::Version1_0).len())
    } else if holds_at(s, pos, version_spelling(HttpVersion::Version1_1)) {
        (Ok(HttpVersion::Version1_1), pos + version_spelling(HttpVersion::Version1_1).len())
    } else if holds_at(s, pos, version_spelling(HttpVersion::Version2_0)) {
        (Ok(HttpVersion::Version2_0), pos + version_spelling(HttpVersion::Version2_0).len())
    } else {
        no_spelling(s, pos, version_reach(s, pos), ParseError::MalformedVersion)
    }
}

/// Whether a buffer holds a request (`true`) or a response (`false`), decided
/// from its first two bytes.
pub open spec fn classify(s: Seq<u8>) -> Result<bool, ParseError> {
    if s.len() < 2 {
        Err(ParseError::UnexpectedEnd)
    } else if s[0] == 72u8 {
        // H: HEAD is a request, HTTP/ a response
        if s[1] == 84u8 {
            Ok(false)
        } else if s[1] == 69u8 {
            Ok(true)
        } else {
            Err(ParseError::MalformedStartLine)
        }
    } else if s[0] == 71u8 || s[0] == 80u8 || s[0] == 68u8 || s[0] == 79u8 {
        // G, P, D, O
        Ok(true)
    } else {
        Err(ParseError::MalformedStartLine)
    }
}

/// The resource at `pos`: the bytes up to the next space, which is consumed
/// with them. A resource is not empty.
pub open spec fn resource_at(s: Seq<u8>, pos: int) -> (Result<Seq<char>, ParseError>, int) {
    let end = find_byte(s, pos, SP);
    if pos >= s.len() {
        (Err(ParseError::UnexpectedEnd), pos)
    } else if s[pos] == SP {
        (Err(ParseError::MalformedStartLine), pos)
    } else if end >= s.len() {
        (Err(ParseError::UnexpectedEnd), end)
    } else {
        (Ok(latin1(s.subrange(pos, end))), end + 1)
    }
}

/// Whether a byte is an ASCII digit.
pub open spec fn is_digit(byte: u8) -> bool {
    48 <= byte <= 57
}

/// The number of digits that stand at `pos`, counted up to `limit`.
pub open spec fn digit_run(s: Seq<u8>, pos: int, limit: nat) -> nat
    decreases limit,
{
    if limit > 0 && 0 <= pos < s.len() && is_digit(s[pos]) {
        1 + digit_run(s, pos + 1, (limit - 1) as nat)
    } else {
        0
    }
}

/// The status code at `pos`: a space, then three digits. The bytes are read in
/// order, and the first that does not fit is consumed.
pub open spec fn status_code_at(s: Seq<u8>, pos: int) -> (Result<Seq<u8>, ParseError>, int) {
    let digits = digit_run(s, pos + 1, 3);
    if pos >= s.len() {
        (Err(ParseError::UnexpectedEnd), pos)
    } else if s[pos] != SP {
        (Err(ParseError::MalformedStatusCode), pos + 1)
    } else if digits == 3 {
        (Ok(s.subrange(pos + 1, pos + 4)), pos + 4)
    } else if pos + 1 + digits >= s.len() {
        (Err(ParseError::UnexpectedEnd), pos + 1 + digits)
    } else {
        (Err(ParseError::MalformedStatusCode), pos + 2 + digits)
    }
}

/// The reason phrase at `pos`: a space, then the bytes up to the next CR, which
/// is left standing. The phrase may be empty.
pub open spec fn reason_phrase_at(s: Seq<u8>, pos: int) -> (Result<Seq<char>, ParseError>, int) {
    let end = find_byte(s, pos + 1, CR);
    if pos >= s.len() {
        (Err(ParseError::UnexpectedEnd), pos)
    } else if s[pos] != SP {
        (Err(ParseError::MalformedStartLine), pos + 1)
    } else if end >= s.len() {
        (Err(ParseError::UnexpectedEnd), end)
    } else {
        (Ok(latin1(s.subrange(pos + 1, end))), end)
    }
}

/// The end of a line at `pos`: CR, then LF.
pub open spec fn line_end_at(s: Seq<u8>, pos: int) -> (Result<(), ParseError>, int) {
    let (matched, stop) = literal_at(s, pos, seq![CR, LF]);
    match matched {
        Ok(true) => (Ok(()), stop),
        Ok(false) => (Err(ParseError::MalformedHeader), stop),
        Err(e) => (Err(e), stop),
    }
}

/// The name of a header field at `pos`: the bytes up to the next colon, which
/// is consumed with them.
pub open spec fn header_key_at(s: Seq<u8>, pos: int) -> (Result<Seq<char>, ParseError>, int) {
    let end = find_byte(s, pos, COLON);
    if end >= s.len() {
        (Err(ParseError::UnexpectedEnd), end)
    } else {
        (Ok(latin1(s.subrange(pos, end))), end + 1)
    }
}

/// Where a header value begins when the colon was consumed at `pos`: one space,
/// if there is one, is skipped.
pub open spec fn value_start(s: Seq<u8>, pos: int) -> int {
    if 0 <= pos < s.len() && s[pos] == SP {
        pos + 1
    } else {
        pos
    }
}

/// The value of a header field at `pos`: after one optional space, the bytes
/// up to the next CR that stands before an LF. Both are consumed. A CR before
/// any other byte belongs to the value.
pub open spec fn header_value_at(s: Seq<u8>, pos: int) -> (Result<Seq<char>, ParseError>, int) {
    let start = value_start(s, pos);
    let end = find_crlf(s, start);
    if pos >= s.len() {
        (Err(ParseError::UnexpectedEnd), pos)
    } else if end >= s.len() {
        (Err(ParseError::UnexpectedEnd), end)
    } else {
        (Ok(latin1(s.subrange(start, end))), end + 2)
    }
}

/// One header line at `pos`: name, colon, value, CR LF.
pub open spec fn header_line_at(s: Seq<u8>, pos: int) -> (
    Result<(Seq<char>, Seq<char>), ParseError>,
    int,
) {
    let (name, after_name) = header_key_at(s, pos);
    match name {
        Err(e) => (Err(e), after_name),
        Ok(name) => {
            let (value, after_value) = header_value_at(s, after_name);
            match value {
                Err(e) => (Err(e), after_value),
                Ok(value) => (Ok((name, value)), after_value),
            }
        },
    }
}

/// A header line consumes at least its colon and its CR LF.
pub proof fn lemma_header_line_advances(s: Seq<u8>, pos: int)
    requires
        0 <= pos,
        header_line_at(s, pos).0 is Ok,
    ensures
        pos + 3 <= header_line_at(s, pos).1 <= s.len(),
{
    lemma_find_byte(s, pos, COLON);
    let after_name = find_byte(s, pos, COLON) + 1;
    let start = value_start(s, after_name);
    lemma_find_crlf(s, start);
}

/// The header lines from `pos` on, up to the blank line, which is left
/// standing. There is at least one line. After each line the next two bytes
/// are looked at: CR LF ends the block; a buffer that ends where they would
/// stand is a failure.
pub open spec fn header_lines_at(s: Seq<u8>, pos: int) -> (
    Result<Seq<(Seq<char>, Seq<char>)>, ParseError>,
    int,
)
    decreases s.len() - pos,
    when 0 <= pos
    via header_lines_at_decreases
{
    let (line, stop) = header_line_at(s, pos);
    match line {
        Err(e) => (Err(e), stop),
        Ok(line) => {
            if stop >= s.len() {
                (Err(ParseError::UnexpectedEnd), stop)
            } else if s[stop] == CR && stop + 1 >= s.len() {
                (Err(ParseError::UnexpectedEnd), stop)
            } else if s[stop] == CR && s[stop + 1] == LF {
                (Ok(seq![line]), stop)
            } else {
                let (rest, end) = header_lines_at(s, stop);
                match rest {
                    Err(e) => (Err(e), end),
                    Ok(rest) => (Ok(seq![line] + rest), end),
                }
            }
        },
    }
}

#[via_fn]
proof fn header_lines_at_decreases(s: Seq<u8>, pos: int) {
    if header_line_at(s, pos).0 is Ok {
        lemma_header_line_advances(s, pos);
    }
}

/// The header block at `pos`: the CR LF that ends the start line, then the
/// header lines, entered into a map in the order in which they stand.
pub open spec fn headers_at(s: Seq<u8>, pos: int) -> (
    Result<Map<Seq<char>, Seq<char>>, ParseError>,
    int,
) {
    let (line_end, start) = line_end_at(s, pos);
    match line_end {
        Err(e) => (Err(e), start),
        Ok(_) => {
            let (lines, stop) = header_lines_at(s, start);
            match lines {
                Err(e) => (Err(e), stop),
                Ok(lines) => (Ok(header_map(lines)), stop),
            }
        },
    }
}

/// The body at `pos`: the CR LF of the blank line, then all the bytes that
/// are left, if any are. The position stays behind the blank line.
pub open spec fn body_at(s: Seq<u8>, pos: int) -> (Result<Option<Seq<u8>>, ParseError>, int) {
    let (line_end, start) = line_end_at(s, pos);
    match line_end {
        Err(e) => (Err(e), start),
        Ok(_) => if start >= s.len() {
            (Ok(None), start)
        } else {
            (Ok(Some(s.subrange(start, s.len() as int))), start)
        },
    }
}

/// The buffer read as a request: method, resource, version, header block, body.
pub open spec fn request_of(s: Seq<u8>) -> Result<RequestView, ParseError> {
    let (method, after_method) = method_at(s, 0);
    let (resource, after_resource) = resource_at(s, after_method);
    let (version, after_version) = version_at(s, after_resource);
    let (headers, after_headers) = headers_at(s, after_version);
    let (body, _) = body_at(s, after_headers);
    if method is Err {
        Err(method->Err_0)
    } else if resource is Err {
        Err(resource->Err_0)
    } else if version is Err {
        Err(version->Err_0)
    } else if headers is Err {
        Err(headers->Err_0)
    } else if body is Err {
        Err(body->Err_0)
    } else {
        Ok(
            RequestView {
                version: version->Ok_0,
                method: method->Ok_0,
                resource: resource->Ok_0,
                headers: headers->Ok_0,
                body: body->Ok_0,
            },
        )
    }
}

/// The buffer read as a response: version, status code, reason phrase, header
/// block, body.
pub open spec fn response_of(s: Seq<u8>) -> Result<ResponseView, ParseError> {
    let (version, after_version) = version_at(s, 0);
    let (status_code, after_code) = status_code_at(s, after_version);
    let (reason_phrase, after_phrase) = reason_phrase_at(s, after_code);
    let (headers, after_headers) = headers_at(s, after_phrase);
    let (body, _) = body_at(s, after_headers);
    if version is Err {
        Err(version->Err_0)
    } else if status_code is Err {
        Err(status_code->Err_0)
    } else if reason_phrase is Err {
        Err(reason_phrase->Err_0)
    } else if headers is Err {
        Err(headers->Err_0)
    } else if body is Err {
        Err(body->Err_0)
    } else {
        Ok(
            ResponseView {
                version: version->Ok_0,
                status_code: status_code->Ok_0,
                reason_phrase: reason_phrase->Ok_0,
                headers: headers->Ok_0,
                body: body->Ok_0,
            },
        )
    }
}

/// The message that a buffer holds, or the reason why it holds none.
pub open spec fn message_of(s: Seq<u8>) -> Result<MessageView, ParseError> {
    match classify(s) {
        Err(e) => Err(e),
        Ok(true) => match request_of(s) {
            Ok(request) => Ok(MessageView::Request(request)),
            Err(e) => Err(e),
        },
        Ok(false) => match response_of(s) {
            Ok(response) => Ok(MessageView::Response(response)),
            Err(e) => Err(e),
        },
    }
}

/// Where the start line of a message stops: at the CR LF that ends it.
pub open spec fn start_line_end(s: Seq<u8>) -> int {
    if classify(s) == Ok::<bool, ParseError>(true) {
        version_at(s, resource_at(s, method_at(s, 0).1).1).1
    } else {
        reason_phrase_at(s, status_code_at(s, version_at(s, 0).1).1).1
    }
}

/// The header lines of a message, in the order in which they stand.
pub open spec fn header_lines_of(s: Seq<u8>) -> Seq<(Seq<char>, Seq<char>)> {
    match header_lines_at(s, line_end_at(s, start_line_end(s)).1).0 {
        Ok(lines) => lines,
        Err(_) => Seq::empty(),
    }
}

/// Where the body of a message begins: behind the blank line that ends the
/// header block.
pub open spec fn body_start(s: Seq<u8>) -> int {
    body_at(s, headers_at(s, start_line_end(s)).1).1
}

} // verus!
