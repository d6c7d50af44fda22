use my_server::http::Response;
use my_server::http::StatusCode;

#[test]
fn not_found_without_body_is_status_line_and_blank_line() {
    let response = Response::new(StatusCode::NotFound, None);
    assert_eq!(response.render(), "HTTP/1.1 404 Not Found\r\n\r\n");
}

#[test]
fn ok_with_body_carries_content_length() {
    let response = Response::new(StatusCode::OK, Some("hi".to_string()));
    assert_eq!(response.render(), "HTTP/1.1 200 OK\r\nContent-Length: 2\r\n\r\nhi");
}

#[test]
fn content_length_counts_bytes() {
    let response = Response::new(StatusCode::OK, Some("h\u{e9}".to_string()));
    assert_eq!(response.render(), "HTTP/1.1 200 OK\r\nContent-Length: 3\r\n\r\nh\u{e9}");
    let response = Response::new(StatusCode::OK, Some(String::new()));
    assert_eq!(response.render(), "HTTP/1.1 200 OK\r\nContent-Length: 0\r\n\r\n");
}

#[test]
fn every_status_has_its_line() {
    assert_eq!(Response::new(StatusCode::OK, None).render(), "HTTP/1.1 200 OK\r\n\r\n");
    assert_eq!(Response::new(StatusCode::BadRequest, None).render(), "HTTP/1.1 400 Bad Request\r\n\r\n");
    assert_eq!(Response::new(StatusCode::NotFound, None).render(), "HTTP/1.1 404 Not Found\r\n\r\n");
    assert_eq!(
        Response::new(StatusCode::InternalServerError, None).render(),
        "HTTP/1.1 500 Internal Server Error\r\n\r\n"
    );
    assert_eq!(StatusCode::NotFound.code(), 404);
    assert_eq!(StatusCode::InternalServerError.reason_phrase(), "Internal Server Error");
}

#[test]
fn to_bytes_is_the_text_in_utf8() {
    let response = Response::new(StatusCode::NotFound, Some("n\u{f6}".to_string()));
    assert_eq!(response.to_bytes(), response.render().into_bytes());
    assert_eq!(response.status_code(), StatusCode::NotFound);
    assert_eq!(response.body(), Some("n\u{f6}"));
}
