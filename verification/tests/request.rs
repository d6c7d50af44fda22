use my_server::http::Method;
use my_server::http::ParseError;
use my_server::http::Request;
use my_server::http::Value;

#[test]
fn parses_request_with_query_and_header() {
    let bytes = b"GET /foo?bar=1&bar=2 HTTP/1.1\r\nHost: x\r\n\r\n";
    let request = Request::parse(bytes).unwrap();
    assert_eq!(*request.method(), Method::GET);
    assert_eq!(request.path(), "/foo");
    let query = request.query_string().unwrap();
    assert_eq!(query.get("bar"), Some(&Value::Multiple(vec!["1", "2"])));
    assert_eq!(request.get_header("host"), Some(&"x"));
    assert_eq!(request.get_header("Host"), Some(&"x"));
    assert_eq!(request.get_header("accept"), None);
    assert_eq!(request.body(), None);
}

#[test]
fn try_from_reads_as_parse_does() {
    let bytes: &[u8] = b"DELETE /item HTTP/1.1\r\n\r\n";
    let request = Request::try_from(bytes).unwrap();
    assert_eq!(*request.method(), Method::DELETE);
    assert_eq!(request.path(), "/item");
    assert!(request.query_string().is_none());
}

#[test]
fn wrong_version_is_invalid_version() {
    let r = Request::parse(b"POST /x HTTP/1.0\r\n\r\n");
    assert_eq!(r.err(), Some(ParseError::InvalidVersion));
}

#[test]
fn invalid_utf8_is_invalid_encoding() {
    let bytes: [u8; 6] = [0x47, 0x45, 0x54, 0x20, 0xff, 0xfe];
    let r = Request::parse(&bytes);
    assert_eq!(r.err(), Some(ParseError::InvalidEncoding));
}

#[test]
fn missing_protocol_is_invalid_uri() {
    let r = Request::parse(b"GET /\r\n\r\n");
    assert_eq!(r.err(), Some(ParseError::InvalidUri));
}

#[test]
fn header_line_without_separator_is_invalid_header() {
    let r = Request::parse(b"GET / HTTP/1.1\r\nBadHeader\r\n\r\n");
    assert_eq!(r.err(), Some(ParseError::InvalidHeader));
}

#[test]
fn request_line_without_space_is_invalid_request() {
    let r = Request::parse(b"GET\r\n\r\n");
    assert_eq!(r.err(), Some(ParseError::InvalidRequest));
    let r = Request::parse(b"\r\n\r\n");
    assert_eq!(r.err(), Some(ParseError::InvalidRequest));
}

#[test]
fn unknown_verb_is_invalid_method() {
    let r = Request::parse(b"FETCH / HTTP/1.1\r\n\r\n");
    assert_eq!(r.err(), Some(ParseError::InvalidMethod));
    let r = Request::parse(b"get / HTTP/1.1\r\n\r\n");
    assert_eq!(r.err(), Some(ParseError::InvalidMethod));
}

#[test]
fn missing_blank_line_is_invalid_body() {
    let r = Request::parse(b"GET / HTTP/1.1\r\nHost: x\r\n");
    assert_eq!(r.err(), Some(ParseError::InvalidBody));
    let r = Request::parse(b"");
    assert_eq!(r.err(), Some(ParseError::InvalidBody));
}

#[test]
fn first_error_wins() {
    let r = Request::parse(b"FETCH / HTTP/1.0\r\nBadHeader\r\n\r\n");
    assert_eq!(r.err(), Some(ParseError::InvalidVersion));
    let r = Request::parse(b"FETCH / HTTP/1.1\r\nBadHeader\r\n\r\n");
    assert_eq!(r.err(), Some(ParseError::InvalidHeader));
    let r = Request::parse(b"GET / HTTP/1.1 extra\r\n\r\n");
    assert_eq!(r.err(), Some(ParseError::InvalidVersion));
}

#[test]
fn body_is_what_follows_the_blank_line() {
    let request = Request::parse(b"POST /submit HTTP/1.1\r\nContent-Length: 5\r\n\r\nhello").unwrap();
    assert_eq!(*request.method(), Method::POST);
    assert_eq!(request.body(), Some("hello"));
    assert_eq!(request.get_header("content-length"), Some(&"5"));
    let request = Request::parse(b"POST /submit HTTP/1.1\r\n\r\na\r\n\r\nb").unwrap();
    assert_eq!(request.body(), Some("a\r\n\r\nb"));
}

#[test]
fn header_names_are_lower_cased_and_values_kept() {
    let request =
        Request::parse(b"GET / HTTP/1.1\r\nX-Mixed-CASE: Some: Value \r\naccept: */*\r\n\r\n").unwrap();
    assert_eq!(request.get_header("x-mixed-case"), Some(&"Some: Value "));
    assert_eq!(request.get_header("X-MIXED-CASE"), Some(&"Some: Value "));
    assert_eq!(request.get_header("Accept"), Some(&"*/*"));
}

#[test]
fn later_header_of_one_name_wins() {
    let request = Request::parse(b"GET / HTTP/1.1\r\nHost: a\r\nhost: b\r\n\r\n").unwrap();
    assert_eq!(request.get_header("host"), Some(&"b"));
}

#[test]
fn non_ascii_header_name_is_lower_cased() {
    let bytes = "GET / HTTP/1.1\r\n\u{c9}tat: on\r\n\r\n".as_bytes();
    let request = Request::parse(bytes).unwrap();
    assert_eq!(request.get_header("\u{e9}tat"), Some(&"on"));
}

#[test]
fn query_is_present_only_with_question_mark() {
    let request = Request::parse(b"GET /a HTTP/1.1\r\n\r\n").unwrap();
    assert!(request.query_string().is_none());
    let request = Request::parse(b"GET /a?x=1?y HTTP/1.1\r\n\r\n").unwrap();
    assert_eq!(request.path(), "/a");
    let query = request.query_string().unwrap();
    assert_eq!(query.get("x"), Some(&Value::Single("1?y")));
}

#[test]
fn every_method_is_read() {
    let verbs = [
        ("GET", Method::GET),
        ("DELETE", Method::DELETE),
        ("POST", Method::POST),
        ("PUT", Method::PUT),
        ("HEAD", Method::HEAD),
        ("CONNECT", Method::CONNECT),
        ("OPTIONS", Method::OPTIONS),
        ("TRACE", Method::TRACE),
        ("PATCH", Method::PATCH),
    ];
    for (verb, method) in verbs {
        let text = format!("{} / HTTP/1.1\r\n\r\n", verb);
        let request = Request::parse(text.as_bytes()).unwrap();
        assert_eq!(*request.method(), method);
        assert_eq!(verb.parse::<Method>(), Ok(method));
    }
    assert!("Get".parse::<Method>().is_err());
}

#[test]
fn error_messages_are_fixed() {
    assert_eq!(ParseError::InvalidRequest.message(), "Invalid request");
    assert_eq!(ParseError::InvalidEncoding.message(), "Invalid encoding");
    assert_eq!(ParseError::InvalidProtocol.message(), "Invalid protocol");
    assert_eq!(ParseError::InvalidMethod.message(), "Invalid method");
    assert_eq!(ParseError::InvalidUri.message(), "Invalid uri");
    assert_eq!(ParseError::InvalidVersion.message(), "Invalid version");
    assert_eq!(ParseError::InvalidHeader.message(), "Invalid header");
    assert_eq!(ParseError::InvalidBody.message(), "Invalid body");
}

#[test]
fn written_request_is_read_back() {
    let headers = [("Host", "example.org:8080"), ("X-Empty", ""), ("Accept", "text/html, */*")];
    let body = "line one\r\n\r\nline two";
    let mut text = String::from("PUT /a/b?k=v&k=w HTTP/1.1");
    for (name, value) in headers {
        text.push_str("\r\n");
        text.push_str(name);
        text.push_str(": ");
        text.push_str(value);
    }
    text.push_str("\r\n\r\n");
    text.push_str(body);
    let request = Request::parse(text.as_bytes()).unwrap();
    assert_eq!(*request.method(), Method::PUT);
    assert_eq!(request.path(), "/a/b");
    let query = request.query_string().unwrap();
    assert_eq!(query.get("k"), Some(&Value::Multiple(vec!["v", "w"])));
    for (name, value) in headers {
        assert_eq!(request.get_header(name), Some(&value));
    }
    assert_eq!(request.get_header("content-type"), None);
    assert_eq!(request.body(), Some(body));
}

#[test]
fn header_lines_may_end_in_a_bare_line_feed() {
    let request = Request::parse(b"GET / HTTP/1.1\r\nA: 1\nB: 2\r\n\r\n").unwrap();
    assert_eq!(request.get_header("a"), Some(&"1"));
    assert_eq!(request.get_header("b"), Some(&"2"));
    let r = Request::parse(b"GET / HTTP/1.1\r\nA: 1\n\nB: 2\r\n\r\n");
    assert_eq!(r.err(), Some(ParseError::InvalidHeader));
}

#[test]
fn empty_path_and_empty_tokens_are_kept() {
    let request = Request::parse(b"GET  HTTP/1.1\r\n\r\n").unwrap();
    assert_eq!(request.path(), "");
    let request = Request::parse(b"GET ?a HTTP/1.1\r\n\r\n").unwrap();
    assert_eq!(request.path(), "");
    assert_eq!(request.query_string().unwrap().get("a"), Some(&Value::Single("")));
    let r = Request::parse(b" / HTTP/1.1\r\n\r\n");
    assert_eq!(r.err(), Some(ParseError::InvalidMethod));
}

#[test]
fn zero_padded_buffer_has_the_padding_as_body() {
    let mut buffer = [0u8; 32];
    let text = b"GET / HTTP/1.1\r\n\r\n";
    buffer[..text.len()].copy_from_slice(text);
    let request = Request::parse(&buffer).unwrap();
    assert_eq!(request.body().map(|b| b.len()), Some(32 - text.len()));
}
