//! The parser: one pass over the buffer, through the read position.

use vstd::prelude::*;
use crate::cursor::{
    agreement, agreement_from, check_bytes, find_byte, find_crlf, get_byte, holds_at,
    increment_position, lemma_agreement_bounds, lemma_agreement_prefix, lemma_agreement_split,
    lemma_agreement_whole, peek_byte_at_offset, skip_white_space, COLON, CR, LF, SP,
};
use crate::error::ParseError;
use crate::grammar::{
    body_at, classify, digit_run, header_key_at, header_line_at, header_lines_at,
    header_value_at, headers_at, lemma_header_line_advances, line_end_at, message_of, method_at,
    method_spelling, reason_phrase_at, resource_at, status_code_at, value_start, version_at,
    version_spelling,
};
use crate::headers::{header_map, HeaderMap};
use crate::message::{
    body_outcome, outcome, HttpMessage, HttpMethod, HttpRequest, HttpResponse, HttpVersion,
};
use crate::text::{latin1, lemma_latin1_subrange_step, push_byte};

verus! {

/// Decides from the first two bytes whether the buffer holds a request
/// (`true`) or a response (`false`). Nothing is consumed.
pub fn determine_request(bytes: &Vec<u8>) -> (res: Result<bool, ParseError>)
    ensures
        res == classify(bytes@),
{
    if bytes.len() < 2 {
        return Err(ParseError::UnexpectedEnd);
    }
    let position: usize = 0;
    let first = peek_byte_at_offset(bytes, &position, 0)?;
    if first == 72u8 {
        // H: HEAD or HTTP/
        let second = peek_byte_at_offset(bytes, &position, 1)?;
        if second == 84u8 {
            Ok(false)
        } else if second == 69u8 {
            Ok(true)
        } else {
            Err(ParseError::MalformedStartLine)
        }
    } else if first == 71u8 || first == 80u8 || first == 68u8 || first == 79u8 {
        // G, P, D, O
        Ok(true)
    } else {
        Err(ParseError::MalformedStartLine)
    }
}

/// Reads the method of a request line, the space after it included.
///
/// The first byte, and after `P` the second, chooses the spelling that the
/// rest is matched against.
pub fn get_method(bytes: &Vec<u8>, position: &mut usize) -> (res: Result<HttpMethod, ParseError>)
    ensures
        (res, *final(position) as int) == method_at(bytes@, *old(position) as int),
{
    let ghost s = bytes@;
    let ghost pos = *position as int;
    proof {
        reveal_with_fuel(agreement_from, 2);
        lemma_agreement_whole(s, pos, method_spelling(HttpMethod::GET));
        lemma_agreement_whole(s, pos, method_spelling(HttpMethod::PUT));
        lemma_agreement_whole(s, pos, method_spelling(HttpMethod::POST));
        lemma_agreement_whole(s, pos, method_spelling(HttpMethod::HEAD));
        lemma_agreement_whole(s, pos, method_spelling(HttpMethod::DELETE));
        lemma_agreement_whole(s, pos, method_spelling(HttpMethod::PATCH));
        lemma_agreement_whole(s, pos, method_spelling(HttpMethod::OPTIONS));
    }
    let first = get_byte(bytes, position)?;
    let found = if first == 71u8 {
        // G, then E T space
        let tail = [69u8, 84u8, 32u8];
        proof {
            let lit = method_spelling(HttpMethod::GET);
            lemma_agreement_split(s, pos, lit, 1);
            assert(lit.subrange(1, lit.len() as int) =~= tail@);
        }
        if check_bytes(bytes, position, &tail)? {
            Some(HttpMethod::GET)
        } else {
            None
        }
    } else if first == 80u8 {
        // P, then U, O or A
        let second = get_byte(bytes, position)?;
        if second == 85u8 {
            // U, then T space
            let tail = [84u8, 32u8];
            proof {
                let lit = method_spelling(HttpMethod::PUT);
                lemma_agreement_split(s, pos, lit, 2);
                assert(lit.subrange(2, lit.len() as int) =~= tail@);
            }
            if check_bytes(bytes, position, &tail)? {
                Some(HttpMethod::PUT)
            } else {
                None
            }
        } else if second == 79u8 {
            // O, then S T space
            let tail = [83u8, 84u8, 32u8];
            proof {
                let lit = method_spelling(HttpMethod::POST);
                lemma_agreement_split(s, pos, lit, 2);
                assert(lit.subrange(2, lit.len() as int) =~= tail@);
            }
            if check_bytes(bytes, position, &tail)? {
                Some(HttpMethod::POST)
            } else {
                None
            }
        } else if second == 65u8 {
            // A, then T C H space
            let tail = [84u8, 67u8, 72u8, 32u8];
            proof {
                let lit = method_spelling(HttpMethod::PATCH);
                lemma_agreement_split(s, pos, lit, 2);
                assert(lit.subrange(2, lit.len() as int) =~= tail@);
            }
            if check_bytes(bytes, position, &tail)? {
                Some(HttpMethod::PATCH)
            } else {
                None
            }
        } else {
            None
        }
    } else if first == 72u8 {
        // H, then E A D space
        let tail = [69u8, 65u8, 68u8, 32u8];
        proof {
            let lit = method_spelling(HttpMethod::HEAD);
            lemma_agreement_split(s, pos, lit, 1);
            assert(lit.subrange(1, lit.len() as int) =~= tail@);
        }
        if check_bytes(bytes, position, &tail)? {
            Some(HttpMethod::HEAD)
        } else {
            None
        }
    } else if first == 68u8 {
        // D, then E L E T E space
        let tail = [69u8, 76u8, 69u8, 84u8, 69u8, 32u8];
        proof {
            let lit = method_spelling(HttpMethod::DELETE);
            lemma_agreement_split(s, pos, lit, 1);
            assert(lit.subrange(1, lit.len() as int) =~= tail@);
        }
        if check_bytes(bytes, position, &tail)? {
            Some(HttpMethod::DELETE)
        } else {
            None
        }
    } else if first == 79u8 {
        // O, then P T I O N S space
        let tail = [80u8, 84u8, 73u8, 79u8, 78u8, 83u8, 32u8];
        proof {
            let lit = method_spelling(HttpMethod::OPTIONS);
            lemma_agreement_split(s, pos, lit, 1);
            assert(lit.subrange(1, lit.len() as int) =~= tail@);
        }
        if check_bytes(bytes, position, &tail)? {
            Some(HttpMethod::OPTIONS)
        } else {
            None
        }
    } else {
        None
    };
    match found {
        Some(method) => Ok(method),
        None => Err(ParseError::MalformedMethod),
    }
}

/// Reads the bytes up to the next `delimiter` as text. The delimiter is left
/// standing; without one the buffer is read to its end and the call fails.
fn get_text_before(bytes: &Vec<u8>, position: &mut usize, delimiter: u8) -> (res: Result<
    String,
    ParseError,
>)
    ensures
        *final(position) == find_byte(bytes@, *old(position) as int, delimiter),
        *final(position) >= bytes@.len() ==> res == Err::<String, ParseError>(
            ParseError::UnexpectedEnd,
        ),
        *final(position) < bytes@.len() ==> res is Ok && res->Ok_0@ == latin1(
            bytes@.subrange(*old(position) as int, *final(position) as int),
        ),
{
    let ghost s = bytes@;
    let ghost start = *position as int;
    let mut text = String::new();
    assert(start <= s.len() ==> text@ =~= latin1(s.subrange(start, start)));
    loop
        invariant
            s == bytes@,
            start == *old(position),
            start <= *position,
            start <= s.len() ==> *position <= s.len() && text@ == latin1(
                s.subrange(start, *position as int),
            ),
            find_byte(s, start, delimiter) == find_byte(s, *position as int, delimiter),
        decreases s.len() - *position,
    {
        if peek_byte_at_offset(bytes, position, 0)? == delimiter {
            return Ok(text);
        }
        let byte = get_byte(bytes, position)?;
        proof {
            lemma_latin1_subrange_step(s, start, *position - 1);
        }
        push_byte(&mut text, byte);
    }
}

/// Reads the resource of a request line and the space after it.
pub fn get_resource(bytes: &Vec<u8>, position: &mut usize) -> (res: Result<String, ParseError>)
    ensures
        (outcome(res), *final(position) as int) == resource_at(bytes@, *old(position) as int),
{
    if peek_byte_at_offset(bytes, position, 0)? == SP {
        return Err(ParseError::MalformedStartLine);
    }
    let resource = get_text_before(bytes, position, SP)?;
    increment_position(bytes, position, 1)?;
    Ok(resource)
}

/// What the four version spellings agree on with the buffer, once `HTTP/` has
/// been matched against it.
proof fn lemma_version_prefix(s: Seq<u8>, pos: int, version: HttpVersion)
    requires
        0 <= pos,
    ensures
        ({
            let lit = version_spelling(version);
            let start = agreement(s, pos, seq![72u8, 84u8, 84u8, 80u8, 47u8]);
            &&& holds_at(s, pos, lit) <==> agreement(s, pos, lit) == lit.len()
            &&& if start < 5 {
                agreement(s, pos, lit) == start
            } else {
                agreement(s, pos, lit) == 5 + agreement(
                    s,
                    pos + 5,
                    lit.subrange(5, lit.len() as int),
                )
            }
        }),
{
    let lit = version_spelling(version);
    lemma_agreement_whole(s, pos, lit);
    assert(lit.subrange(0, 5) =~= seq![72u8, 84u8, 84u8, 80u8, 47u8]);
    lemma_agreement_prefix(s, pos, lit, 5, 0);
    if agreement(s, pos, lit) >= 5 {
        lemma_agreement_split(s, pos, lit, 5);
    }
}

/// Reads the version: `HTTP/`, then `0.9`, `1.0`, `1.1` or `2`.
pub fn get_version(bytes: &Vec<u8>, position: &mut usize) -> (res: Result<HttpVersion, ParseError>)
    ensures
        (res, *final(position) as int) == version_at(bytes@, *old(position) as int),
{
    let ghost s = bytes@;
    let ghost pos = *position as int;
    proof {
        reveal_with_fuel(agreement_from, 4);
        lemma_version_prefix(s, pos, HttpVersion::Version0_9);
        lemma_version_prefix(s, pos, HttpVersion::Version1_0);
        lemma_version_prefix(s, pos, HttpVersion::Version1_1);
        lemma_version_prefix(s, pos, HttpVersion::Version2_0);
        assert(version_spelling(HttpVersion::Version0_9).subrange(5, 8) =~= seq![48u8, 46u8, 57u8]);
        assert(version_spelling(HttpVersion::Version1_0).subrange(5, 8) =~= seq![49u8, 46u8, 48u8]);
        assert(version_spelling(HttpVersion::Version1_1).subrange(5, 8) =~= seq![49u8, 46u8, 49u8]);
        assert(version_spelling(HttpVersion::Version2_0).subrange(5, 6) =~= seq![50u8]);
    }
    // H T T P /
    let protocol = [72u8, 84u8, 84u8, 80u8, 47u8];
    assert(protocol@ =~= seq![72u8, 84u8, 84u8, 80u8, 47u8]);
    proof {
        lemma_agreement_bounds(s, pos, protocol@, 0);
    }
    if !check_bytes(bytes, position, &protocol)? {
        return Err(ParseError::MalformedVersion);
    }
    let major = get_byte(bytes, position)?;
    if major == 48u8 {
        // 0, then . 9
        let minor = [46u8, 57u8];
        if check_bytes(bytes, position, &minor)? {
            return Ok(HttpVersion::Version0_9);
        }
    } else if major == 49u8 {
        // 1, then . and 0 or 1
        let dot = [46u8];
        if check_bytes(bytes, position, &dot)? {
            let minor = get_byte(bytes, position)?;
            if minor == 48u8 {
                return Ok(HttpVersion::Version1_0);
            } else if minor == 49u8 {
                return Ok(HttpVersion::Version1_1);
            }
        }
    } else if major == 50u8 {
        // 2
        return Ok(HttpVersion::Version2_0);
    }
    Err(ParseError::MalformedVersion)
}

/// Reads the status code of a status line: the space that sets it off, then
/// three digits.
pub fn get_status_code(bytes: &Vec<u8>, position: &mut usize) -> (res: Result<[u8; 3], ParseError>)
    ensures
        (outcome(res), *final(position) as int) == status_code_at(bytes@, *old(position) as int),
{
    let ghost s = bytes@;
    let ghost pos = *position as int;
    if get_byte(bytes, position)? != SP {
        return Err(ParseError::MalformedStatusCode);
    }
    let mut status_code: [u8; 3] = [0u8; 3];
    let mut i: usize = 0;
    while i < 3
        invariant
            0 <= i <= 3,
            s == bytes@,
            pos == *old(position),
            pos < s.len(),
            s[pos] == SP,
            *position == pos + 1 + i,
            *position <= s.len(),
            digit_run(s, pos + 1, 3) == i + digit_run(s, pos + 1 + i, (3 - i) as nat),
            forall|j: int| 0 <= j < i ==> status_code@[j] == s[pos + 1 + j],
        decreases 3 - i,
    {
        let byte = get_byte(bytes, position)?;
        if 48u8 <= byte && byte <= 57u8 {
            status_code[i] = byte;
        } else {
            return Err(ParseError::MalformedStatusCode);
        }
        i = i + 1;
    }
    assert(status_code@ =~= s.subrange(pos + 1, pos + 4));
    Ok(status_code)
}

/// Reads the reason phrase of a status line: the space that sets it off, then
/// the text up to the CR that ends the line.
pub fn get_reason_phrase(bytes: &Vec<u8>, position: &mut usize) -> (res: Result<
    String,
    ParseError,
>)
    ensures
        (outcome(res), *final(position) as int) == reason_phrase_at(
            bytes@,
            *old(position) as int,
        ),
{
    if get_byte(bytes, position)? != SP {
        return Err(ParseError::MalformedStartLine);
    }
    get_text_before(bytes, position, CR)
}

/// Reads the CR LF that ends a line.
pub fn check_and_go_past_end_line(bytes: &Vec<u8>, position: &mut usize) -> (res: Result<
    (),
    ParseError,
>)
    ensures
        (res, *final(position) as int) == line_end_at(bytes@, *old(position) as int),
{
    let line_end = [CR, LF];
    assert(line_end@ =~= seq![CR, LF]);
    if check_bytes(bytes, position, &line_end)? {
        Ok(())
    } else {
        Err(ParseError::MalformedHeader)
    }
}

/// Reads the name of a header field and the colon after it.
pub fn get_header_key(bytes: &Vec<u8>, position: &mut usize) -> (res: Result<String, ParseError>)
    ensures
        (outcome(res), *final(position) as int) == header_key_at(bytes@, *old(position) as int),
{
    let header_key = get_text_before(bytes, position, COLON)?;
    increment_position(bytes, position, 1)?;
    Ok(header_key)
}

/// Reads the value of a header field: one space is skipped if there is one,
/// then the text runs up to the CR LF that ends the line, which is consumed.
pub fn get_header_value(bytes: &Vec<u8>, position: &mut usize) -> (res: Result<
    String,
    ParseError,
>)
    ensures
        (outcome(res), *final(position) as int) == header_value_at(
            bytes@,
            *old(position) as int,
        ),
{
    let ghost s = bytes@;
    skip_white_space(bytes, position)?;
    let ghost start = *position as int;
    let mut header_value = String::new();
    assert(header_value@ =~= latin1(s.subrange(start, start)));
    loop
        invariant_except_break
            header_value@ == latin1(s.subrange(start, *position as int)),
            find_crlf(s, start) == find_crlf(s, *position as int),
        invariant
            s == bytes@,
            *old(position) < s.len(),
            start == value_start(s, *old(position) as int),
            start <= *position <= s.len(),
        ensures
            *position == find_crlf(s, start) + 1 < s.len(),
            header_value@ == latin1(s.subrange(start, *position - 1)),
        decreases s.len() - *position,
    {
        let byte = get_byte(bytes, position)?;
        if byte == CR {
            // a CR ends the value only where an LF follows it
            proof {
                if *position >= s.len() {
                    assert(find_crlf(s, *position as int) == s.len());
                }
            }
            if peek_byte_at_offset(bytes, position, 0)? == LF {
                break ;
            }
        }
        proof {
            lemma_latin1_subrange_step(s, start, *position - 1);
        }
        push_byte(&mut header_value, byte);
    }
    increment_position(bytes, position, 1)?;
    Ok(header_value)
}

/// The lines read so far, put before what reading on gives.
spec fn lines_then(
    done: Seq<(Seq<char>, Seq<char>)>,
    rest: (Result<Seq<(Seq<char>, Seq<char>)>, ParseError>, int),
) -> (Result<Seq<(Seq<char>, Seq<char>)>, ParseError>, int) {
    match rest.0 {
        Ok(lines) => (Ok(done + lines), rest.1),
        Err(e) => (Err(e), rest.1),
    }
}

/// Reads the header block: the CR LF that ends the start line, then header
/// lines up to the blank line, which is left standing. Each field is entered
/// into the map as it is read, so that of two fields with one name the later
/// one stays.
pub fn get_headers(bytes: &Vec<u8>, position: &mut usize) -> (res: Result<HeaderMap, ParseError>)
    ensures
        (outcome(res), *final(position) as int) == headers_at(bytes@, *old(position) as int),
{
    check_and_go_past_end_line(bytes, position)?;
    let ghost s = bytes@;
    let ghost first = *position as int;
    let mut headers = HeaderMap::new();
    let ghost mut done: Seq<(Seq<char>, Seq<char>)> = Seq::empty();
    proof {
        let all = header_lines_at(s, first);
        if all.0 is Ok {
            assert(done + all.0->Ok_0 =~= all.0->Ok_0);
        }
    }
    loop
        invariant
            s == bytes@,
            line_end_at(s, *old(position) as int) == (Ok::<(), ParseError>(()), first),
            0 <= first <= *position,
            headers@ == header_map(done),
            header_lines_at(s, first) == lines_then(done, header_lines_at(s, *position as int)),
        decreases s.len() - *position,
    {
        let ghost here = *position as int;
        let header_key = get_header_key(bytes, position)?;
        let header_value = get_header_value(bytes, position)?;
        let ghost line = (header_key@, header_value@);
        proof {
            assert(header_line_at(s, here) == (
                Ok::<(Seq<char>, Seq<char>), ParseError>(line),
                *position as int,
            ));
            lemma_header_line_advances(s, here);
            assert(done.push(line).drop_last() =~= done);
            assert(done.push(line) =~= done + seq![line]);
        }
        headers.insert(header_key, header_value);
        if peek_byte_at_offset(bytes, position, 0)? == CR {
            if peek_byte_at_offset(bytes, position, 1)? == LF {
                return Ok(headers);
            }
        }
        proof {
            let next = header_lines_at(s, *position as int);
            if next.0 is Ok {
                assert(done.push(line) + next.0->Ok_0 =~= done + (seq![line] + next.0->Ok_0));
            }
            done = done.push(line);
        }
    }
}

/// Reads the blank line that ends the header block, then takes all the bytes
/// that are left as the body. The position stays behind the blank line.
pub fn get_body(bytes: &Vec<u8>, position: &mut usize) -> (res: Result<
    Option<Vec<u8>>,
    ParseError,
>)
    ensures
        (body_outcome(res), *final(position) as int) == body_at(bytes@, *old(position) as int),
{
    check_and_go_past_end_line(bytes, position)?;
    proof {
        lemma_agreement_bounds(bytes@, *old(position) as int, seq![CR, LF], 0);
    }
    if *position >= bytes.len() {
        return Ok(None);
    }
    let remaining = bytes.len() - *position;
    let mut body: Vec<u8> = Vec::new();
    let mut i: usize = 0;
    while i < remaining
        invariant
            0 <= i <= remaining,
            *position + remaining == bytes@.len(),
            body@ == bytes@.subrange(*position as int, *position + i),
        decreases remaining - i,
    {
        let byte = peek_byte_at_offset(bytes, position, i)?;
        body.push(byte);
        assert(body@ =~= bytes@.subrange(*position as int, *position + i + 1));
        i = i + 1;
    }
    Ok(Some(body))
}

impl HttpMessage {
    /// Reads a buffer that holds one complete message.
    ///
    /// The first two bytes decide between request and response. The parts of
    /// the message are then read in their order, each through the one read
    /// position, and the first part that fails ends the parse with its error.
    pub fn new(bytes: &Vec<u8>) -> (res: Result<HttpMessage, ParseError>)
        ensures
            outcome(res) == message_of(bytes@),
    {
        let mut position: usize = 0;
        let is_request = determine_request(bytes)?;
        if is_request {
            let method = get_method(bytes, &mut position)?;
            let resource = get_resource(bytes, &mut position)?;
            let version = get_version(bytes, &mut position)?;
            let headers = get_headers(bytes, &mut position)?;
            let body = get_body(bytes, &mut position)?;
            Ok(HttpMessage::Request(HttpRequest { version, method, resource, headers, body }))
        } else {
            let version = get_version(bytes, &mut position)?;
            let status_code = get_status_code(bytes, &mut position)?;
            let reason_phrase = get_reason_phrase(bytes, &mut position)?;
            let headers = get_headers(bytes, &mut position)?;
            let body = get_body(bytes, &mut position)?;
            Ok(
                HttpMessage::Response(
                    HttpResponse { version, status_code, reason_phrase, headers, body },
                ),
            )
        }
    }
}

/// Parses one complete, buffered HTTP/1.x message.
///
/// The result is the message that `message_of` gives for the bytes, or the
/// error that it gives: the buffer is read once, front to back, and either a
/// whole message comes back or none.
pub fn parse_http(bytes: &Vec<u8>) -> (res: Result<HttpMessage, ParseError>)
    ensures
        outcome(res) == message_of(bytes@),
{
    HttpMessage::new(bytes)
}

} // verus!
