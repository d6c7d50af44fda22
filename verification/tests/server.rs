use my_server::http::ParseError;
use my_server::http::Request;
use my_server::http::Response;
use my_server::http::StatusCode;
use my_server::server::respond;
use my_server::server::Action;
use my_server::server::Event;
use my_server::server::State;
use my_server::server::BUFFER_SIZE;
use my_server::Handler;
use my_server::Server;

struct Echo {
    seen: Vec<String>,
}

impl Handler for Echo {
    fn handle_request(&mut self, request: &Request) -> Response {
        self.seen.push(request.path().to_string());
        if request.path() == "/" {
            Response::new(StatusCode::OK, Some("home".to_string()))
        } else {
            Response::new(StatusCode::NotFound, None)
        }
    }
}

struct Strict;

impl Handler for Strict {
    fn handle_request(&mut self, _request: &Request) -> Response {
        Response::new(StatusCode::OK, None)
    }

    fn handle_bad_request(&mut self, e: &ParseError) -> Response {
        Response::new(StatusCode::InternalServerError, Some(e.message().to_string()))
    }
}

fn sent(action: Action) -> Response {
    match action {
        Action::Send(response) => response,
        other => panic!("expected a response to send, got {:?}", other),
    }
}

#[test]
fn new_server_keeps_address_and_default_buffer() {
    let server = Server::new("127.0.0.1:8080".to_string());
    assert_eq!(server.addr(), "127.0.0.1:8080");
    assert_eq!(server.buffer_size(), 1024);
    assert_eq!(BUFFER_SIZE, 1024);
    let server = Server::with_buffer_size("[::1]:80".to_string(), 16);
    assert_eq!(server.addr(), "[::1]:80");
    assert_eq!(server.buffer_size(), 16);
}

#[test]
fn respond_hands_request_to_handler() {
    let mut handler = Echo { seen: Vec::new() };
    let response = respond(&mut handler, b"GET / HTTP/1.1\r\n\r\n");
    assert_eq!(response.render(), "HTTP/1.1 200 OK\r\nContent-Length: 4\r\n\r\nhome");
    let response = respond(&mut handler, b"GET /nowhere?x=1 HTTP/1.1\r\n\r\n");
    assert_eq!(response.render(), "HTTP/1.1 404 Not Found\r\n\r\n");
    assert_eq!(handler.seen, vec!["/".to_string(), "/nowhere".to_string()]);
}

#[test]
fn default_bad_request_is_400_without_body() {
    let mut handler = Echo { seen: Vec::new() };
    let response = respond(&mut handler, b"nonsense");
    assert_eq!(response.status_code(), StatusCode::BadRequest);
    assert_eq!(response.body(), None);
    assert_eq!(response.render(), "HTTP/1.1 400 Bad Request\r\n\r\n");
    assert!(handler.seen.is_empty());
}

#[test]
fn overridden_bad_request_is_used() {
    let mut handler = Strict;
    let response = respond(&mut handler, b"GET / HTTP/2\r\n\r\n");
    assert_eq!(
        response.render(),
        "HTTP/1.1 500 Internal Server Error\r\nContent-Length: 15\r\n\r\nInvalid version"
    );
}

#[test]
fn bind_failure_stops_the_server() {
    let server = Server::new("0.0.0.0:1".to_string());
    let mut handler = Strict;
    let (state, action) = server.start();
    assert_eq!(state, State::Starting);
    assert!(matches!(action, Action::Bind));
    let (state, action) = server.step(state, Event::BindFailed, &mut handler);
    assert_eq!(state, State::Stopped);
    assert!(matches!(action, Action::Abort));
    let (state, action) = server.step(state, Event::Bound, &mut handler);
    assert_eq!(state, State::Stopped);
    assert!(matches!(action, Action::Abort));
}

#[test]
fn connection_runs_from_accept_to_send() {
    let server = Server::with_buffer_size("localhost:8080".to_string(), 64);
    let mut handler = Echo { seen: Vec::new() };
    let (state, _) = server.start();
    let (state, action) = server.step(state, Event::Bound, &mut handler);
    assert_eq!(state, State::Listening);
    assert!(matches!(action, Action::Accept));
    let (state, action) = server.step(state, Event::Accepted, &mut handler);
    assert_eq!(state, State::Reading);
    assert!(matches!(action, Action::Read(64)));
    let (state, action) = server.step(state, Event::Received(b"GET / HTTP/1.1\r\n\r\n"), &mut handler);
    assert_eq!(state, State::Sending);
    assert_eq!(sent(action).to_bytes(), b"HTTP/1.1 200 OK\r\nContent-Length: 4\r\n\r\nhome".to_vec());
    let (state, action) = server.step(state, Event::Sent, &mut handler);
    assert_eq!(state, State::Listening);
    assert!(matches!(action, Action::Accept));
}

#[test]
fn failures_on_a_connection_lead_back_to_listening() {
    let server = Server::new("localhost:8080".to_string());
    let mut handler = Echo { seen: Vec::new() };
    let (state, action) = server.step(State::Listening, Event::AcceptFailed, &mut handler);
    assert_eq!(state, State::Listening);
    assert!(matches!(action, Action::Accept));
    let (state, action) = server.step(State::Reading, Event::ReadFailed, &mut handler);
    assert_eq!(state, State::Listening);
    assert!(matches!(action, Action::Accept));
    let (state, action) = server.step(State::Sending, Event::SendFailed, &mut handler);
    assert_eq!(state, State::Listening);
    assert!(matches!(action, Action::Accept));
    assert!(handler.seen.is_empty());
}

#[test]
fn malformed_request_does_not_spoil_the_next_connection() {
    let server = Server::new("localhost:8080".to_string());
    let mut handler = Echo { seen: Vec::new() };
    let (state, _) = server.step(State::Listening, Event::Accepted, &mut handler);
    let (state, action) = server.step(state, Event::Received(b"\xff\xfe garbage"), &mut handler);
    assert_eq!(state, State::Sending);
    assert_eq!(sent(action).render(), "HTTP/1.1 400 Bad Request\r\n\r\n");
    let (state, _) = server.step(state, Event::SendFailed, &mut handler);
    assert_eq!(state, State::Listening);
    let (state, action) = server.step(state, Event::Accepted, &mut handler);
    assert!(matches!(action, Action::Read(1024)));
    let (state, action) = server.step(state, Event::Received(b"GET / HTTP/1.1\r\nHost: x\r\n\r\n"), &mut handler);
    assert_eq!(state, State::Sending);
    assert_eq!(sent(action).render(), "HTTP/1.1 200 OK\r\nContent-Length: 4\r\n\r\nhome");
    assert_eq!(handler.seen, vec!["/".to_string()]);
}

#[test]
fn refuse_is_400_for_every_error() {
    for e in [
        ParseError::InvalidRequest,
        ParseError::InvalidEncoding,
        ParseError::InvalidProtocol,
        ParseError::InvalidMethod,
        ParseError::InvalidUri,
        ParseError::InvalidVersion,
        ParseError::InvalidHeader,
        ParseError::InvalidBody,
    ] {
        let response = my_server::server::refuse(&e);
        assert_eq!(response.render(), "HTTP/1.1 400 Bad Request\r\n\r\n");
    }
}
