use rs_http::parse_http;
use rs_http::HeaderMap;
use rs_http::HttpMessage;
use rs_http::HttpMethod;
use rs_http::HttpRequest;
use rs_http::HttpResponse;
use rs_http::HttpVersion;
use rs_http::ParseError;

fn parse(text: &[u8]) -> Result<HttpMessage, ParseError> {
    parse_http(&text.to_vec())
}

fn fields(list: &[(&str, &str)]) -> HeaderMap {
    let mut headers = HeaderMap::new();
    for (name, value) in list {
        headers.insert(String::from(*name), String::from(*value));
    }
    headers
}

fn body_of(message: HttpMessage) -> Option<Vec<u8>> {
    match message {
        HttpMessage::Request(request) => request.body,
        HttpMessage::Response(response) => response.body,
    }
}

fn headers_of(message: HttpMessage) -> HeaderMap {
    match message {
        HttpMessage::Request(request) => request.headers,
        HttpMessage::Response(response) => response.headers,
    }
}

#[test]
fn new_reads_a_message_as_parse_http_does() {
    let bytes = b"PUT /x HTTP/1.0\r\nA: b\r\n\r\n".to_vec();
    assert_eq!(HttpMessage::new(&bytes), parse_http(&bytes));
    let bad = b"PUT /x HTTP/1.0\r\nA".to_vec();
    assert_eq!(HttpMessage::new(&bad), Err(ParseError::UnexpectedEnd));
}

#[test]
fn a_request_with_a_body() {
    let expected = HttpMessage::Request(HttpRequest {
        version: HttpVersion::Version1_0,
        method: HttpMethod::POST,
        resource: String::from("/submit?x=1"),
        headers: fields(&[("Content-Length", "3"), ("Host", "h")]),
        body: Some(b"a=b".to_vec()),
    });
    assert_eq!(parse(b"POST /submit?x=1 HTTP/1.0\r\nHost: h\r\nContent-Length: 3\r\n\r\na=b"), Ok(expected));
}

#[test]
fn each_method_makes_a_request() {
    let spellings: [(&[u8], HttpMethod); 7] = [
        (b"GET", HttpMethod::GET),
        (b"PUT", HttpMethod::PUT),
        (b"POST", HttpMethod::POST),
        (b"HEAD", HttpMethod::HEAD),
        (b"DELETE", HttpMethod::DELETE),
        (b"PATCH", HttpMethod::PATCH),
        (b"OPTIONS", HttpMethod::OPTIONS),
    ];
    for (spelling, method) in spellings {
        let mut bytes = spelling.to_vec();
        bytes.extend_from_slice(b" / HTTP/1.1\r\nA: b\r\n\r\n");
        let expected = HttpMessage::Request(HttpRequest {
            version: HttpVersion::Version1_1,
            method,
            resource: String::from("/"),
            headers: fields(&[("A", "b")]),
            body: None,
        });
        assert_eq!(parse_http(&bytes), Ok(expected));
    }
}

#[test]
fn each_version_makes_a_response() {
    let spellings: [(&[u8], HttpVersion); 4] = [
        (b"HTTP/0.9", HttpVersion::Version0_9),
        (b"HTTP/1.0", HttpVersion::Version1_0),
        (b"HTTP/1.1", HttpVersion::Version1_1),
        (b"HTTP/2", HttpVersion::Version2_0),
    ];
    for (spelling, version) in spellings {
        let mut bytes = spelling.to_vec();
        bytes.extend_from_slice(b" 204 No Content\r\nA: b\r\n\r\n");
        let expected = HttpMessage::Response(HttpResponse {
            version,
            status_code: [50u8, 48u8, 52u8],
            reason_phrase: String::from("No Content"),
            headers: fields(&[("A", "b")]),
            body: None,
        });
        assert_eq!(parse_http(&bytes), Ok(expected));
    }
}

#[test]
fn a_request_of_version_two() {
    let expected = HttpMessage::Request(HttpRequest {
        version: HttpVersion::Version2_0,
        method: HttpMethod::GET,
        resource: String::from("/"),
        headers: fields(&[("A", "b")]),
        body: None,
    });
    assert_eq!(parse(b"GET / HTTP/2\r\nA: b\r\n\r\n"), Ok(expected));
    // what follows the 2 has to be the line end
    assert_eq!(parse(b"GET / HTTP/2.0\r\nA: b\r\n\r\n"), Err(ParseError::MalformedHeader));
    assert_eq!(parse(b"HTTP/2.0 200 OK\r\nA: b\r\n\r\n"), Err(ParseError::MalformedStatusCode));
}

#[test]
fn a_response_with_an_empty_reason_phrase() {
    let expected = HttpMessage::Response(HttpResponse {
        version: HttpVersion::Version1_1,
        status_code: [48u8, 48u8, 49u8],
        reason_phrase: String::new(),
        headers: fields(&[("A", "b")]),
        body: None,
    });
    assert_eq!(parse(b"HTTP/1.1 001 \r\nA: b\r\n\r\n"), Ok(expected));
}

#[test]
fn parsing_twice_gives_the_same() {
    let inputs: [&[u8]; 6] = [
        b"GET /index.html HTTP/1.1\r\nHost: example.com\r\n\r\n",
        b"HTTP/1.1 200 OK\r\nContent-Type: text/plain\r\n\r\nHello",
        b"GET/x HTTP/1.1\r\n\r\n",
        b"HTTP/1.1 2x0 OK\r\n",
        b"",
        b"HTTP/1.1 200 OK\r\nA: 1\r\nA: 2\r\n\r\n",
    ];
    for input in inputs {
        let bytes = input.to_vec();
        assert_eq!(parse_http(&bytes), parse_http(&bytes));
        assert_eq!(parse_http(&bytes), parse_http(&bytes.clone()));
    }
}

#[test]
fn the_later_of_two_header_lines_wins() {
    let parsed = parse(b"HTTP/1.1 200 OK\r\nSet: one\r\nOther: x\r\nSet: two\r\n\r\n").unwrap();
    let headers = headers_of(parsed);
    assert_eq!(headers.len(), 2);
    assert_eq!(headers.get("Set"), Some(&String::from("two")));
    assert_eq!(headers, fields(&[("Other", "x"), ("Set", "two")]));
}

#[test]
fn the_body_is_absent_where_nothing_follows_the_blank_line() {
    let parsed = parse(b"GET / HTTP/1.1\r\nA: b\r\n\r\n").unwrap();
    assert_eq!(body_of(parsed), None);
}

#[test]
fn the_body_is_every_byte_behind_the_blank_line() {
    let parsed = parse(b"GET / HTTP/1.1\r\nContent-Length: 1\r\n\r\n\r\n\r\nmore\0").unwrap();
    // no length is looked at and nothing is cut
    assert_eq!(body_of(parsed), Some(b"\r\n\r\nmore\0".to_vec()));
    let parsed = parse(b"HTTP/1.0 200 OK\r\nA: b\r\n\r\n ").unwrap();
    assert_eq!(body_of(parsed), Some(b" ".to_vec()));
}

#[test]
fn a_status_code_that_is_not_three_digits_is_malformed() {
    assert_eq!(parse(b"HTTP/1.1 2x0 OK\r\nA: b\r\n\r\n"), Err(ParseError::MalformedStatusCode));
    assert_eq!(parse(b"HTTP/1.1 abc OK\r\nA: b\r\n\r\n"), Err(ParseError::MalformedStatusCode));
    assert_eq!(parse(b"HTTP/1.1 20 OK\r\nA: b\r\n\r\n"), Err(ParseError::MalformedStatusCode));
    assert_eq!(parse(b"HTTP/1.1 -20 OK\r\nA: b\r\n\r\n"), Err(ParseError::MalformedStatusCode));
    assert_eq!(parse(b"HTTP/1.1200 OK\r\nA: b\r\n\r\n"), Err(ParseError::MalformedStatusCode));
}

#[test]
fn each_error_has_an_input() {
    assert_eq!(parse(b"GET / HTTP/1.1\r\nHost: a"), Err(ParseError::UnexpectedEnd));
    assert_eq!(parse(b"XET / HTTP/1.1\r\nA: b\r\n\r\n"), Err(ParseError::MalformedStartLine));
    assert_eq!(parse(b"GIT / HTTP/1.1\r\nA: b\r\n\r\n"), Err(ParseError::MalformedMethod));
    assert_eq!(parse(b"GET / HTTP/1.2\r\nA: b\r\n\r\n"), Err(ParseError::MalformedVersion));
    assert_eq!(parse(b"HTTP/1.1 2000 OK\r\nA: b\r\n\r\n"), Err(ParseError::MalformedStartLine));
    assert_eq!(parse(b"HTTP/1.1 20a OK\r\nA: b\r\n\r\n"), Err(ParseError::MalformedStatusCode));
    assert_eq!(parse(b"GET / HTTP/1.1\nA: b\r\n\r\n"), Err(ParseError::MalformedHeader));
}

#[test]
fn a_start_line_that_fits_no_grammar_is_malformed() {
    assert_eq!(parse(b"get / HTTP/1.1\r\n\r\n"), Err(ParseError::MalformedStartLine));
    assert_eq!(parse(b"HX"), Err(ParseError::MalformedStartLine));
    assert_eq!(parse(b"GET  HTTP/1.1\r\nA: b\r\n\r\n"), Err(ParseError::MalformedStartLine));
    assert_eq!(parse(b"HTTP/1.1 200\r\nA: b\r\n\r\n"), Err(ParseError::MalformedStartLine));
}

#[test]
fn a_request_that_begins_like_a_response_is_held_to_the_method_grammar() {
    // H E chooses the request grammar, which then wants HEAD
    assert_eq!(parse(b"HELP / HTTP/1.1\r\nA: b\r\n\r\n"), Err(ParseError::MalformedMethod));
    // H T chooses the response grammar, which then wants HTTP/
    assert_eq!(parse(b"HTML/1.1 200 OK\r\nA: b\r\n\r\n"), Err(ParseError::MalformedVersion));
}

#[test]
fn a_message_without_header_lines_is_not_complete() {
    assert_eq!(parse(b"GET / HTTP/1.1\r\n\r\n"), Err(ParseError::UnexpectedEnd));
    assert_eq!(parse(b"HTTP/1.1 200 OK\r\n\r\n"), Err(ParseError::UnexpectedEnd));
}

#[test]
fn a_message_cut_short_ends_unexpectedly() {
    let whole = b"HTTP/1.1 200 OK\r\nContent-Type: text/plain\r\n\r\n".to_vec();
    assert!(parse_http(&whole).is_ok());
    for cut in 0..whole.len() {
        let part = whole[..cut].to_vec();
        assert_eq!(parse_http(&part), Err(ParseError::UnexpectedEnd));
    }
}
