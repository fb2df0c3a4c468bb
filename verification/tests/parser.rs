use http_server::http_request::{HttpMethod, HttpVersion};
use http_server::request_parser::{parse_request, ParseFailure, RequestParser};

#[test]
fn parses_a_get_request() {
    let (result, used) = parse_request(b"GET /index.html HTTP/1.1\r\nHost: example.org\r\n\r\n");
    let request = result.unwrap().unwrap();
    assert_eq!(request.method, HttpMethod::GET);
    assert_eq!(request.http_version, HttpVersion::V1_1);
    assert_eq!(request.url, "/index.html");
    assert_eq!(request.header.get("host"), "example.org");
    assert_eq!(request.header.get("HOST"), "example.org");
    assert!(request.body.is_empty());
    assert_eq!(used, 47);
}

#[test]
fn body_is_the_announced_bytes() {
    let input = b"POST /hello HTTP/1.1\r\nContent-Length: 5\r\n\r\nhello";
    let (result, used) = parse_request(input);
    let request = result.unwrap().unwrap();
    assert_eq!(request.method, HttpMethod::POST);
    assert_eq!(request.body, b"hello".to_vec());
    assert_eq!(used, input.len());
}

#[test]
fn body_may_hold_any_bytes() {
    let mut input = b"PUT /blob HTTP/1.1\r\ncontent-length: 6\r\n\r\n".to_vec();
    let body = vec![0u8, 255, 13, 10, 13, 10];
    input.extend_from_slice(&body);
    let (result, used) = parse_request(&input);
    let request = result.unwrap().unwrap();
    assert_eq!(request.method, HttpMethod::PUT);
    assert_eq!(request.body, body);
    assert_eq!(used, input.len());
}

#[test]
fn bytes_after_the_body_are_left_alone() {
    let input = b"POST / HTTP/1.1\r\nContent-Length: 2\r\n\r\nabGET / HTTP/1.1\r\n\r\n";
    let (result, used) = parse_request(input);
    let request = result.unwrap().unwrap();
    assert_eq!(request.body, b"ab".to_vec());
    assert_eq!(used, 40);
    let (next, used_next) = parse_request(&input[used..]);
    let second = next.unwrap().unwrap();
    assert_eq!(second.method, HttpMethod::GET);
    assert_eq!(used_next, 18);
}

#[test]
fn empty_stream_yields_nothing() {
    let (result, used) = parse_request(b"");
    assert!(matches!(result, Ok(None)));
    assert_eq!(used, 0);
    let parser = RequestParser::new();
    assert!(parser.needs_more());
    assert!(matches!(parser.finish(), Ok(None)));
}

#[test]
fn stream_that_ends_in_the_header_is_incomplete() {
    let (result, used) = parse_request(b"GET / HTTP/1.1\r\nHost: a\r\n");
    assert_eq!(result.err(), Some(ParseFailure::IncompleteHeader));
    assert_eq!(used, 25);
    let (one, _) = parse_request(b"G");
    assert_eq!(one.err(), Some(ParseFailure::IncompleteHeader));
}

#[test]
fn stream_that_ends_in_the_body_is_incomplete() {
    let (result, used) = parse_request(b"POST / HTTP/1.1\r\nContent-Length: 10\r\n\r\nabc");
    assert_eq!(result.err(), Some(ParseFailure::IncompleteBody));
    assert_eq!(used, 42);
}

#[test]
fn request_line_of_two_words_is_malformed() {
    let (result, used) = parse_request(b"GET /\r\nContent-Length: 3\r\n\r\nabc");
    assert_eq!(result.err(), Some(ParseFailure::MalformedRequestLine));
    assert_eq!(used, 28);
}

#[test]
fn request_line_of_four_words_is_malformed() {
    let (result, _) = parse_request(b"GET / HTTP/1.1 extra\r\n\r\n");
    assert_eq!(result.err(), Some(ParseFailure::MalformedRequestLine));
}

#[test]
fn request_line_with_two_spaces_in_a_row_is_malformed() {
    let (result, _) = parse_request(b"GET  / HTTP/1.1\r\n\r\n");
    assert_eq!(result.err(), Some(ParseFailure::MalformedRequestLine));
    let (empty, used) = parse_request(b"\r\n\r\n");
    assert_eq!(empty.err(), Some(ParseFailure::MalformedRequestLine));
    assert_eq!(used, 4);
}

#[test]
fn header_block_must_be_utf8() {
    let (result, used) = parse_request(b"GET /\xff HTTP/1.1\r\n\r\n");
    assert_eq!(result.err(), Some(ParseFailure::InvalidUtf8));
    assert_eq!(used, 19);
    let (ok, _) = parse_request("GET /caf\u{e9} HTTP/1.1\r\n\r\n".as_bytes());
    assert_eq!(ok.unwrap().unwrap().url, "/caf\u{e9}");
}

#[test]
fn content_length_must_be_a_number() {
    let (result, used) = parse_request(b"POST / HTTP/1.1\r\nContent-Length: abc\r\n\r\nabc");
    assert_eq!(result.err(), Some(ParseFailure::InvalidContentLength));
    assert_eq!(used, 40);
    let (negative, _) = parse_request(b"POST / HTTP/1.1\r\nContent-Length: -1\r\n\r\n");
    assert_eq!(negative.err(), Some(ParseFailure::InvalidContentLength));
    let (sign, _) = parse_request(b"POST / HTTP/1.1\r\nContent-Length: +\r\n\r\n");
    assert_eq!(sign.err(), Some(ParseFailure::InvalidContentLength));
    let (inner, _) = parse_request(b"POST / HTTP/1.1\r\nContent-Length: 1 2\r\n\r\n");
    assert_eq!(inner.err(), Some(ParseFailure::InvalidContentLength));
}

#[test]
fn content_length_must_fit_in_32_bits() {
    let (most, _) = parse_request(b"POST / HTTP/1.1\r\nContent-Length: 4294967295\r\n\r\n");
    assert_eq!(most.err(), Some(ParseFailure::IncompleteBody));
    let (over, _) = parse_request(b"POST / HTTP/1.1\r\nContent-Length: 4294967296\r\n\r\n");
    assert_eq!(over.err(), Some(ParseFailure::InvalidContentLength));
    let (long, _) = parse_request(
        b"POST / HTTP/1.1\r\nContent-Length: 99999999999999999999999999\r\n\r\n",
    );
    assert_eq!(long.err(), Some(ParseFailure::InvalidContentLength));
}

#[test]
fn content_length_may_have_a_plus_and_leading_zeros() {
    let (result, _) = parse_request(b"POST / HTTP/1.1\r\nContent-Length: +003\r\n\r\nabc");
    assert_eq!(result.unwrap().unwrap().body, b"abc".to_vec());
}

#[test]
fn absent_or_empty_content_length_means_no_body() {
    let (absent, used) = parse_request(b"POST / HTTP/1.1\r\n\r\nabc");
    assert!(absent.unwrap().unwrap().body.is_empty());
    assert_eq!(used, 19);
    let (empty, _) = parse_request(b"POST / HTTP/1.1\r\nContent-Length:\r\n\r\nabc");
    assert!(empty.unwrap().unwrap().body.is_empty());
    let (zero, _) = parse_request(b"POST / HTTP/1.1\r\nContent-Length: 0\r\n\r\nabc");
    assert!(zero.unwrap().unwrap().body.is_empty());
}

#[test]
fn header_value_is_what_follows_the_first_colon() {
    let (result, _) = parse_request(b"GET / HTTP/1.1\r\nHost: localhost:3000\r\n\r\n");
    let request = result.unwrap().unwrap();
    assert_eq!(request.header.get("host"), "localhost:3000");
}

#[test]
fn white_space_around_name_and_value_is_dropped() {
    let (result, _) = parse_request(b"GET / HTTP/1.1\r\n  Accept \t:\t text/html  \r\nX:a b\r\n\r\n");
    let request = result.unwrap().unwrap();
    assert_eq!(request.header.get("accept"), "text/html");
    assert_eq!(request.header.get("x"), "a b");
}

#[test]
fn lines_without_a_colon_are_skipped() {
    let (result, _) = parse_request(b"GET / HTTP/1.1\r\nnonsense\r\nHost: a\r\n\r\n");
    let request = result.unwrap().unwrap();
    assert_eq!(request.header.to_map().len(), 1);
    assert_eq!(request.header.get("host"), "a");
}

#[test]
fn repeated_header_keeps_the_last_value() {
    let (result, _) = parse_request(b"GET / HTTP/1.1\r\nAccept: a\r\naccept: b\r\n\r\n");
    let request = result.unwrap().unwrap();
    assert_eq!(request.header.get("Accept"), "b");
    assert_eq!(request.header.to_map().len(), 1);
}

#[test]
fn unknown_method_and_version_are_kept_as_unknown() {
    let (result, _) = parse_request(b"PATCH /x HTTP/1.0\r\n\r\n");
    let request = result.unwrap().unwrap();
    assert_eq!(request.method, HttpMethod::UNKNOWN);
    assert_eq!(request.http_version, HttpVersion::UNKNOWN);
    assert_eq!(request.url, "/x");
    let (two, _) = parse_request(b"DELETE /y HTTP/2\r\n\r\n");
    let second = two.unwrap().unwrap();
    assert_eq!(second.method, HttpMethod::DELETE);
    assert_eq!(second.http_version, HttpVersion::V2);
}

#[test]
fn query_string_stays_in_the_target() {
    let (result, _) = parse_request(b"GET /find?q=a%20b&x=1 HTTP/1.1\r\n\r\n");
    assert_eq!(result.unwrap().unwrap().url, "/find?q=a%20b&x=1");
}

#[test]
fn feeding_byte_by_byte_stops_at_the_end_of_the_request() {
    let input = b"POST /p HTTP/1.1\r\nContent-Length: 3\r\n\r\nxyz";
    let mut parser = RequestParser::new();
    let mut fed = 0;
    for byte in input.iter() {
        fed += 1;
        let more = parser.feed(*byte);
        assert_eq!(more, fed < input.len());
        assert_eq!(parser.needs_more(), more);
    }
    assert!(!parser.feed(b'!'));
    let request = parser.finish().unwrap().unwrap();
    assert_eq!(request.body, b"xyz".to_vec());
}

#[test]
fn failed_parser_takes_no_more_bytes() {
    let mut parser = RequestParser::new();
    for byte in b"bad\r\n\r\n".iter() {
        parser.feed(*byte);
    }
    assert!(!parser.needs_more());
    assert!(!parser.feed(b'x'));
    assert_eq!(parser.finish().err(), Some(ParseFailure::MalformedRequestLine));
}

#[test]
fn header_ends_at_the_first_blank_line() {
    let (result, used) = parse_request(b"GET / HTTP/1.1\r\n\r\n\r\n\r\n");
    assert!(result.unwrap().is_some());
    assert_eq!(used, 18);
}

#[test]
fn keep_alive_is_read_from_the_connection_header() {
    let input = b"GET /a HTTP/1.1\r\nConnection: keep-alive\r\n\r\nGET /b HTTP/1.1\r\nconnection: Keep-Alive\r\n\r\nGET /c HTTP/1.1\r\nConnection: close\r\n\r\nGET /d HTTP/1.1\r\n\r\n";
    let mut rest: &[u8] = input;
    let mut seen = Vec::new();
    while !rest.is_empty() {
        let (result, used) = parse_request(rest);
        let request = result.unwrap().unwrap();
        seen.push((request.url.clone(), request.keep_alive()));
        rest = &rest[used..];
    }
    assert_eq!(
        seen,
        vec![
            ("/a".to_string(), true),
            ("/b".to_string(), true),
            ("/c".to_string(), false),
            ("/d".to_string(), false),
        ]
    );
}
