//! What holds of every buffer: the laws of the parser, proved from the grammar
//! that its contract is stated in.

use vstd::prelude::*;
use crate::cursor::{
    agreement_from, find_byte, holds_at, lemma_find_byte, lemma_find_crlf, COLON, CR, LF, SP,
};
use crate::error::ParseError;
use crate::grammar::{
    body_at, body_start, classify, digit_run, header_line_at, header_lines_at, header_lines_of,
    headers_at, is_digit, lemma_header_line_advances, line_end_at, message_of, method_at,
    method_spelling, request_of, response_of, start_line_end, status_code_at, value_start,
    version_at, version_spelling,
};
use crate::headers::{header_map, lemma_header_map_last_wins};
use crate::message::{outcome, HttpMessage, HttpMethod, HttpVersion, MessageView};

verus! {

/// Parsing is a function of the bytes: whatever `parse_http` gives for a
/// buffer, it gives the same message, or the same error, each time.
pub proof fn lemma_parse_is_deterministic(
    bytes: Seq<u8>,
    first: Result<HttpMessage, ParseError>,
    second: Result<HttpMessage, ParseError>,
)
    requires
        outcome(first) == message_of(bytes),
        outcome(second) == message_of(bytes),
    ensures
        outcome(first) == outcome(second),
{
}

/// A buffer that begins with the spelling of a method, its space included, is
/// classified as a request.
pub proof fn lemma_method_announces_request(bytes: Seq<u8>, method: HttpMethod)
    requires
        holds_at(bytes, 0, method_spelling(method)),
    ensures
        classify(bytes) == Ok::<bool, ParseError>(true),
{
    let lit = method_spelling(method);
    assert(bytes.subrange(0, lit.len() as int)[0] == bytes[0]);
    assert(bytes.subrange(0, lit.len() as int)[1] == bytes[1]);
}

/// A buffer that begins with `HTTP/` is classified as a response.
pub proof fn lemma_protocol_announces_response(bytes: Seq<u8>)
    requires
        holds_at(bytes, 0, seq![72u8, 84u8, 84u8, 80u8, 47u8]),
    ensures
        classify(bytes) == Ok::<bool, ParseError>(false),
{
    assert(bytes.subrange(0, 5)[0] == bytes[0]);
    assert(bytes.subrange(0, 5)[1] == bytes[1]);
}

/// A message is of the kind that its first two bytes announce.
pub proof fn lemma_kind_follows_classification(bytes: Seq<u8>)
    requires
        message_of(bytes) is Ok,
    ensures
        message_of(bytes)->Ok_0 is Request <==> classify(bytes) == Ok::<bool, ParseError>(true),
        message_of(bytes)->Ok_0 is Response <==> classify(bytes) == Ok::<bool, ParseError>(false),
{
}

/// The header fields of a parsed message are its header lines, entered in
/// their order.
pub proof fn lemma_headers_are_the_lines(bytes: Seq<u8>)
    requires
        message_of(bytes) is Ok,
    ensures
        message_of(bytes)->Ok_0.headers() == header_map(header_lines_of(bytes)),
{
}

/// Last write wins: where a message holds several header lines of one name,
/// the parsed header map gives that name the value of the last of them.
pub proof fn lemma_later_header_wins(bytes: Seq<u8>, i: int)
    requires
        message_of(bytes) is Ok,
        0 <= i < header_lines_of(bytes).len(),
        forall|j: int|
            i < j < header_lines_of(bytes).len() ==> (#[trigger] header_lines_of(bytes)[j]).0
                != header_lines_of(bytes)[i].0,
    ensures
        message_of(bytes)->Ok_0.headers().contains_key(header_lines_of(bytes)[i].0),
        message_of(bytes)->Ok_0.headers()[header_lines_of(bytes)[i].0] == header_lines_of(
            bytes,
        )[i].1,
{
    lemma_headers_are_the_lines(bytes);
    lemma_header_map_last_wins(header_lines_of(bytes), i);
}

/// A header line ends in CR LF.
proof fn lemma_header_line_ends_in_crlf(s: Seq<u8>, pos: int)
    requires
        0 <= pos,
        header_line_at(s, pos).0 is Ok,
    ensures
        pos + 3 <= header_line_at(s, pos).1 <= s.len(),
        s[header_line_at(s, pos).1 - 2] == CR,
        s[header_line_at(s, pos).1 - 1] == LF,
{
    lemma_header_line_advances(s, pos);
    lemma_find_byte(s, pos, COLON);
    let after_name = find_byte(s, pos, COLON) + 1;
    lemma_find_crlf(s, value_start(s, after_name));
}

/// A header block stops at a blank line: the CR LF of its last line, then
/// CR LF again.
proof fn lemma_header_lines_stop_at_blank_line(s: Seq<u8>, pos: int)
    requires
        0 <= pos,
        header_lines_at(s, pos).0 is Ok,
    ensures
        pos + 3 <= header_lines_at(s, pos).1,
        header_lines_at(s, pos).1 + 2 <= s.len(),
        s[header_lines_at(s, pos).1 - 2] == CR,
        s[header_lines_at(s, pos).1 - 1] == LF,
        s[header_lines_at(s, pos).1] == CR,
        s[header_lines_at(s, pos).1 + 1] == LF,
    decreases s.len() - pos,
{
    lemma_header_line_ends_in_crlf(s, pos);
    let stop = header_line_at(s, pos).1;
    if !(s[stop] == CR && s[stop + 1] == LF) {
        lemma_header_lines_stop_at_blank_line(s, stop);
    }
}

/// The line end at `pos` is found exactly where CR LF stands there.
proof fn lemma_line_end(s: Seq<u8>, pos: int)
    requires
        0 <= pos,
    ensures
        line_end_at(s, pos).0 is Ok <==> pos + 2 <= s.len() && s[pos] == CR && s[pos + 1] == LF,
        line_end_at(s, pos).0 is Ok ==> line_end_at(s, pos).1 == pos + 2,
{
    reveal_with_fuel(agreement_from, 3);
}

/// What the start line leaves: where a message parses, its start line stops
/// inside the buffer.
proof fn lemma_start_line_end(bytes: Seq<u8>)
    requires
        message_of(bytes) is Ok,
    ensures
        0 <= start_line_end(bytes),
        headers_at(bytes, start_line_end(bytes)).0 is Ok,
        body_at(bytes, headers_at(bytes, start_line_end(bytes)).1).0 is Ok,
        message_of(bytes)->Ok_0.body() == body_at(
            bytes,
            headers_at(bytes, start_line_end(bytes)).1,
        ).0->Ok_0,
{
    if classify(bytes) == Ok::<bool, ParseError>(true) {
        assert(request_of(bytes) is Ok);
        lemma_find_byte(bytes, method_at(bytes, 0).1, SP);
    } else {
        assert(response_of(bytes) is Ok);
        let after_code = status_code_at(bytes, version_at(bytes, 0).1).1;
        lemma_find_byte(bytes, after_code + 1, CR);
    }
}

/// Body presence: a parsed message has no body exactly where the buffer ends
/// with the blank line that closes the header block; otherwise its body is all
/// the bytes behind that blank line, as they stand.
pub proof fn lemma_body_is_what_follows_the_blank_line(bytes: Seq<u8>)
    requires
        message_of(bytes) is Ok,
    ensures
        4 <= body_start(bytes) <= bytes.len(),
        bytes.subrange(body_start(bytes) - 4, body_start(bytes)) == seq![CR, LF, CR, LF],
        message_of(bytes)->Ok_0.body() is None <==> body_start(bytes) == bytes.len(),
        body_start(bytes) < bytes.len() ==> message_of(bytes)->Ok_0.body() == Some(
            bytes.subrange(body_start(bytes), bytes.len() as int),
        ),
{
    lemma_start_line_end(bytes);
    let start = start_line_end(bytes);
    lemma_line_end(bytes, start);
    let first = line_end_at(bytes, start).1;
    lemma_header_lines_stop_at_blank_line(bytes, first);
    let blank = header_lines_at(bytes, first).1;
    assert(headers_at(bytes, start).1 == blank);
    lemma_line_end(bytes, blank);
    assert(bytes.subrange(body_start(bytes) - 4, body_start(bytes)) =~= seq![CR, LF, CR, LF]);
}

/// Status code shape: a status code with a byte that is no digit, at any of
/// its three places that the buffer reaches, is malformed.
pub proof fn lemma_status_code_needs_digits(s: Seq<u8>, pos: int, i: int)
    requires
        0 <= pos,
        0 <= i < 3,
        pos + 1 + i < s.len(),
        !is_digit(s[pos + 1 + i]),
    ensures
        status_code_at(s, pos).0 == Err::<Seq<u8>, ParseError>(ParseError::MalformedStatusCode),
{
    reveal_with_fuel(digit_run, 4);
}

/// Status code shape, for the whole message: a response whose status code
/// holds a byte that is no digit is rejected as `MalformedStatusCode`.
pub proof fn lemma_response_needs_digits(bytes: Seq<u8>, i: int)
    requires
        classify(bytes) == Ok::<bool, ParseError>(false),
        version_at(bytes, 0).0 is Ok,
        0 <= i < 3,
        version_at(bytes, 0).1 + 1 + i < bytes.len(),
        !is_digit(bytes[version_at(bytes, 0).1 + 1 + i]),
    ensures
        message_of(bytes) == Err::<MessageView, ParseError>(ParseError::MalformedStatusCode),
{
    lemma_status_code_needs_digits(bytes, version_at(bytes, 0).1, i);
}

/// The status code of a parsed response is three ASCII digits.
pub proof fn lemma_status_code_is_three_digits(bytes: Seq<u8>)
    requires
        message_of(bytes) is Ok,
        message_of(bytes)->Ok_0 is Response,
    ensures
        message_of(bytes)->Ok_0->Response_0.status_code.len() == 3,
        forall|i: int|
            0 <= i < 3 ==> is_digit(#[trigger] message_of(bytes)->Ok_0->Response_0.status_code[i]),
{
    reveal_with_fuel(digit_run, 4);
    assert(response_of(bytes) is Ok);
}

/// Where the buffer holds a literal, it holds each of its bytes.
proof fn lemma_held_byte(s: Seq<u8>, pos: int, lit: Seq<u8>, i: int)
    requires
        holds_at(s, pos, lit),
        0 <= i < lit.len(),
    ensures
        s[pos + i] == lit[i],
{
    assert(s.subrange(pos, pos + lit.len())[i] == s[pos + i]);
}

/// The two bytes of the buffer that a method spelling fixes first, where the
/// buffer holds it.
proof fn lemma_method_head(s: Seq<u8>, pos: int, method: HttpMethod)
    requires
        holds_at(s, pos, method_spelling(method)),
    ensures
        s[pos] == method_spelling(method)[0],
        s[pos + 1] == method_spelling(method)[1],
{
    lemma_held_byte(s, pos, method_spelling(method), 0);
    lemma_held_byte(s, pos, method_spelling(method), 1);
}

/// The method read at a position is the one whose spelling the buffer holds
/// there, space included: no buffer holds two spellings at one place.
pub proof fn lemma_method_is_its_spelling(s: Seq<u8>, pos: int, method: HttpMethod)
    ensures
        method_at(s, pos).0 == Ok::<HttpMethod, ParseError>(method) <==> holds_at(
            s,
            pos,
            method_spelling(method),
        ),
{
    if holds_at(s, pos, method_spelling(method)) {
        lemma_method_head(s, pos, method);
        if holds_at(s, pos, method_spelling(HttpMethod::GET)) {
            lemma_method_head(s, pos, HttpMethod::GET);
        }
        if holds_at(s, pos, method_spelling(HttpMethod::PUT)) {
            lemma_method_head(s, pos, HttpMethod::PUT);
        }
        if holds_at(s, pos, method_spelling(HttpMethod::POST)) {
            lemma_method_head(s, pos, HttpMethod::POST);
        }
        if holds_at(s, pos, method_spelling(HttpMethod::HEAD)) {
            lemma_method_head(s, pos, HttpMethod::HEAD);
        }
        if holds_at(s, pos, method_spelling(HttpMethod::DELETE)) {
            lemma_method_head(s, pos, HttpMethod::DELETE);
        }
        if holds_at(s, pos, method_spelling(HttpMethod::PATCH)) {
            lemma_method_head(s, pos, HttpMethod::PATCH);
        }
    }
}

/// The bytes behind `HTTP/` that tell the version spellings apart, where the
/// buffer holds one.
proof fn lemma_version_tail(s: Seq<u8>, pos: int, version: HttpVersion)
    requires
        holds_at(s, pos, version_spelling(version)),
    ensures
        s[pos + 5] == version_spelling(version)[5],
        version != HttpVersion::Version2_0 ==> s[pos + 7] == version_spelling(version)[7],
{
    lemma_held_byte(s, pos, version_spelling(version), 5);
    if version != HttpVersion::Version2_0 {
        lemma_held_byte(s, pos, version_spelling(version), 7);
    }
}

/// The version read at a position is the one whose spelling the buffer holds
/// there: no buffer holds two spellings at one place.
pub proof fn lemma_version_is_its_spelling(s: Seq<u8>, pos: int, version: HttpVersion)
    ensures
        version_at(s, pos).0 == Ok::<HttpVersion, ParseError>(version) <==> holds_at(
            s,
            pos,
            version_spelling(version),
        ),
{
    if holds_at(s, pos, version_spelling(version)) {
        lemma_version_tail(s, pos, version);
        if holds_at(s, pos, version_spelling(HttpVersion::Version0_9)) {
            lemma_version_tail(s, pos, HttpVersion::Version0_9);
        }
        if holds_at(s, pos, version_spelling(HttpVersion::Version1_0)) {
            lemma_version_tail(s, pos, HttpVersion::Version1_0);
        }
        if holds_at(s, pos, version_spelling(HttpVersion::Version1_1)) {
            lemma_version_tail(s, pos, HttpVersion::Version1_1);
        }
    }
}

} // verus!
