use rs_http::parser::check_and_go_past_end_line;
use rs_http::parser::get_body;
use rs_http::parser::get_header_key;
use rs_http::parser::get_header_value;
use rs_http::parser::get_headers;
use rs_http::HeaderMap;
use rs_http::ParseError;

fn header_value_of(text: &[u8]) -> (Result<String, ParseError>, usize) {
    let bytes = text.to_vec();
    let mut position = 0usize;
    let value = get_header_value(&bytes, &mut position);
    (value, position)
}

fn headers_in(text: &[u8]) -> (Result<HeaderMap, ParseError>, usize) {
    let bytes = text.to_vec();
    let mut position = 0usize;
    let headers = get_headers(&bytes, &mut position);
    (headers, position)
}

fn body_in(text: &[u8]) -> (Result<Option<Vec<u8>>, ParseError>, usize) {
    let bytes = text.to_vec();
    let mut position = 0usize;
    let body = get_body(&bytes, &mut position);
    (body, position)
}

fn map_of(fields: &[(&str, &str)]) -> HeaderMap {
    let mut headers = HeaderMap::new();
    for (name, value) in fields {
        headers.insert(String::from(*name), String::from(*value));
    }
    headers
}

#[test]
fn a_line_end_is_cr_lf() {
    let bytes = b"\r\nx".to_vec();
    let mut position = 0usize;
    assert_eq!(check_and_go_past_end_line(&bytes, &mut position), Ok(()));
    assert_eq!(position, 2);
}

#[test]
fn anything_else_where_a_line_has_to_end_is_a_malformed_header() {
    let bytes = b"\n\r".to_vec();
    let mut position = 0usize;
    assert_eq!(check_and_go_past_end_line(&bytes, &mut position), Err(ParseError::MalformedHeader));
    assert_eq!(position, 1);
    let bare = b"\rx".to_vec();
    let mut position = 0usize;
    assert_eq!(check_and_go_past_end_line(&bare, &mut position), Err(ParseError::MalformedHeader));
    assert_eq!(position, 2);
}

#[test]
fn a_line_end_cut_short_ends_unexpectedly() {
    let bytes = b"\r".to_vec();
    let mut position = 0usize;
    assert_eq!(check_and_go_past_end_line(&bytes, &mut position), Err(ParseError::UnexpectedEnd));
    assert_eq!(position, 1);
    let mut at_the_end = 1usize;
    assert_eq!(check_and_go_past_end_line(&bytes, &mut at_the_end), Err(ParseError::UnexpectedEnd));
    assert_eq!(at_the_end, 1);
}

#[test]
fn a_header_name_runs_up_to_the_colon() {
    let bytes = b"Content-Type: text/plain\r\n".to_vec();
    let mut position = 0usize;
    assert_eq!(get_header_key(&bytes, &mut position), Ok(String::from("Content-Type")));
    assert_eq!(position, 13);
}

#[test]
fn a_header_name_may_be_empty() {
    let bytes = b": x\r\n".to_vec();
    let mut position = 0usize;
    assert_eq!(get_header_key(&bytes, &mut position), Ok(String::new()));
    assert_eq!(position, 1);
}

#[test]
fn a_header_name_without_a_colon_ends_unexpectedly() {
    let bytes = b"Content-Type\r\n".to_vec();
    let mut position = 0usize;
    assert_eq!(get_header_key(&bytes, &mut position), Err(ParseError::UnexpectedEnd));
    assert_eq!(position, 14);
}

#[test]
fn a_header_value_runs_up_to_cr_lf() {
    assert_eq!(header_value_of(b" text/plain\r\nx"), (Ok(String::from("text/plain")), 13));
    assert_eq!(header_value_of(b"text/plain\r\nx"), (Ok(String::from("text/plain")), 12));
    assert_eq!(header_value_of(b" \r\n"), (Ok(String::new()), 3));
    assert_eq!(header_value_of(b"\r\n"), (Ok(String::new()), 2));
}

#[test]
fn only_one_space_before_a_header_value_is_skipped() {
    assert_eq!(header_value_of(b"  two\r\n"), (Ok(String::from(" two")), 7));
    assert_eq!(header_value_of(b" a b \r\n"), (Ok(String::from("a b ")), 7));
}

#[test]
fn a_carriage_return_alone_belongs_to_the_header_value() {
    assert_eq!(header_value_of(b" a\rb\r\n"), (Ok(String::from("a\rb")), 6));
    assert_eq!(header_value_of(b" a\r\r\n"), (Ok(String::from("a\r")), 5));
    assert_eq!(header_value_of(b" a\nb\r\n"), (Ok(String::from("a\nb")), 6));
}

#[test]
fn a_header_value_without_cr_lf_ends_unexpectedly() {
    assert_eq!(header_value_of(b""), (Err(ParseError::UnexpectedEnd), 0));
    assert_eq!(header_value_of(b" "), (Err(ParseError::UnexpectedEnd), 1));
    assert_eq!(header_value_of(b" abc"), (Err(ParseError::UnexpectedEnd), 4));
    assert_eq!(header_value_of(b" abc\r"), (Err(ParseError::UnexpectedEnd), 5));
    assert_eq!(header_value_of(b" abc\rd"), (Err(ParseError::UnexpectedEnd), 6));
}

#[test]
fn a_header_block_is_read_up_to_the_blank_line() {
    let (headers, position) = headers_in(b"\r\nHost: example.com\r\nAccept: */*\r\n\r\nbody");
    assert_eq!(headers, Ok(map_of(&[("Host", "example.com"), ("Accept", "*/*")])));
    // the blank line is left standing
    assert_eq!(position, 34);
}

#[test]
fn of_two_fields_with_one_name_the_later_one_stays() {
    let (headers, _) = headers_in(b"\r\nX: first\r\nY: other\r\nX: second\r\n\r\n");
    let headers = headers.unwrap();
    assert_eq!(headers.len(), 2);
    assert_eq!(headers.get("X"), Some(&String::from("second")));
    assert_eq!(headers.get("Y"), Some(&String::from("other")));
}

#[test]
fn header_names_are_compared_exactly() {
    let (headers, _) = headers_in(b"\r\nHost: a\r\nhost: b\r\n\r\n");
    let headers = headers.unwrap();
    assert_eq!(headers.len(), 2);
    assert_eq!(headers.get("Host"), Some(&String::from("a")));
    assert_eq!(headers.get("host"), Some(&String::from("b")));
    assert_eq!(headers.get("HOST"), None);
}

#[test]
fn a_header_block_holds_at_least_one_line() {
    // the blank line is read as the beginning of a name
    assert_eq!(headers_in(b"\r\n\r\n"), (Err(ParseError::UnexpectedEnd), 4));
    let (headers, position) = headers_in(b"\r\n\r\nA: b\r\n\r\n");
    assert_eq!(headers, Ok(map_of(&[("\r\nA", "b")])));
    assert_eq!(position, 10);
}

#[test]
fn a_header_block_needs_the_line_end_of_the_start_line() {
    assert_eq!(headers_in(b"Host: a\r\n\r\n"), (Err(ParseError::MalformedHeader), 1));
    assert_eq!(headers_in(b"\rHost: a\r\n\r\n"), (Err(ParseError::MalformedHeader), 2));
    assert_eq!(headers_in(b""), (Err(ParseError::UnexpectedEnd), 0));
}

#[test]
fn a_header_block_without_a_blank_line_ends_unexpectedly() {
    assert_eq!(headers_in(b"\r\nHost: a\r\n"), (Err(ParseError::UnexpectedEnd), 11));
    assert_eq!(headers_in(b"\r\nHost: a\r\n\r"), (Err(ParseError::UnexpectedEnd), 11));
    assert_eq!(headers_in(b"\r\nHost: a\r\nAccept"), (Err(ParseError::UnexpectedEnd), 17));
    assert_eq!(headers_in(b"\r\nHost: a\r\nAccept: x"), (Err(ParseError::UnexpectedEnd), 20));
}

#[test]
fn a_body_is_all_that_follows_the_blank_line() {
    assert_eq!(body_in(b"\r\nHello"), (Ok(Some(b"Hello".to_vec())), 2));
    assert_eq!(body_in(b"\r\n\r\n"), (Ok(Some(b"\r\n".to_vec())), 2));
    assert_eq!(body_in(&[13u8, 10u8, 0u8, 255u8]), (Ok(Some(vec![0u8, 255u8])), 2));
}

#[test]
fn no_bytes_behind_the_blank_line_are_no_body() {
    assert_eq!(body_in(b"\r\n"), (Ok(None), 2));
}

#[test]
fn a_body_needs_the_blank_line_before_it() {
    assert_eq!(body_in(b"Hello"), (Err(ParseError::MalformedHeader), 1));
    assert_eq!(body_in(b"\r"), (Err(ParseError::UnexpectedEnd), 1));
    assert_eq!(body_in(b""), (Err(ParseError::UnexpectedEnd), 0));
}
