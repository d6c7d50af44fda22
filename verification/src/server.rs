//! The server: what it does with each connection, as a machine that is told
//! what happened on the socket and answers with what to do next.
//!
//! The machine touches no socket. Whoever drives it binds, accepts, reads and
//! writes, and reports each outcome as an `Event`.

use crate::http::request::request_of;
use crate::http::request::ParseError;
use crate::http::request::Request;
use crate::http::request::RequestView;
use crate::http::response::Response;
use crate::http::response::ResponseView;
use crate::http::status_code::StatusCode;
use vstd::prelude::*;

verus! {

/// How many bytes are read from a connection where nothing else is asked
/// for. A request longer than this is cut off.
pub const BUFFER_SIZE: usize = 1024;

/// The answer to a request that could not be read: status 400, no body.
pub open spec fn bad_request() -> ResponseView {
    ResponseView { status: StatusCode::BadRequest, body: None }
}

/// The plain answer to bytes that were no request: status 400 and no body,
/// whatever the error was.
pub fn refuse(e: &ParseError) -> (response: Response)
    ensures
        response@ == bad_request(),
{
    Response::new(StatusCode::BadRequest, None)
}

/// What turns requests into responses.
///
/// `answers` and `rejects` are the handler's own account of itself: which
/// responses it may give, and how it may change while it does. The server
/// promises of a response no more than what they say. An account that is not
/// given allows everything.
pub trait Handler: Sized {
    /// Whether the handler, being `self`, may answer `request` with
    /// `response` and be `after` then.
    open spec fn answers(&self, request: RequestView, response: ResponseView, after: &Self) -> bool {
        true
    }

    /// Whether the handler, being `self`, may answer bytes refused with
    /// `error` by `response` and be `after` then, other than by the plain
    /// status 400. A handler that keeps to the plain answer, and wants that
    /// known, says `false` here.
    open spec fn rejects(&self, error: ParseError, response: ResponseView, after: &Self) -> bool {
        true
    }

    /// Answers a request.
    fn handle_request(&mut self, request: &Request) -> (response: Response)
        ensures
            old(self).answers(request@, response@, final(self)),
    ;

    /// Answers bytes that were no request. Unless a handler has a rule of
    /// its own, the answer is that of `refuse`, and the handler stays as it
    /// was.
    fn handle_bad_request(&mut self, e: &ParseError) -> (response: Response)
        ensures
            (response@ == bad_request() && *final(self) == *old(self)) || old(self).rejects(
                *e,
                response@,
                final(self),
            ),
    {
        refuse(e)
    }
}

/// Whether `handler`, handed what `bytes` stand for, may give `response` and
/// be `after` then: the request where the bytes are one, the error where
/// they are not.
pub open spec fn serves<H: Handler>(
    handler: &H,
    bytes: Seq<u8>,
    response: ResponseView,
    after: &H,
) -> bool {
    match request_of(bytes) {
        Ok(request) => handler.answers(request, response, after),
        Err(e) => (response == bad_request() && *after == *handler) || handler.rejects(
            e,
            response,
            after,
        ),
    }
}

/// Reads `buf` and hands the outcome to `handler`: the request to
/// `handle_request`, an error to `handle_bad_request`.
pub fn respond<H: Handler>(handler: &mut H, buf: &[u8]) -> (response: Response)
    ensures
        serves(old(handler), buf@, response@, final(handler)),
{
    match Request::parse(buf) {
        Ok(request) => handler.handle_request(&request),
        Err(e) => handler.handle_bad_request(&e),
    }
}

/// Where the server stands.
#[derive(Debug, Clone, Copy, PartialEq, Eq, Structural)]
pub enum State {
    /// The socket is not bound yet.
    Starting,
    /// Waiting for a connection.
    Listening,
    /// A connection is open and its bytes are awaited.
    Reading,
    /// A response is being written to the connection.
    Sending,
    /// The socket could not be bound. Nothing follows.
    Stopped,
}

/// What happened on the socket.
#[derive(Debug, Clone, Copy)]
pub enum Event<'a> {
    Bound,
    BindFailed,
    Accepted,
    AcceptFailed,
    /// One read from the connection gave these bytes.
    Received(&'a [u8]),
    ReadFailed,
    Sent,
    SendFailed,
}

/// What to do next.
#[derive(Debug)]
pub enum Action {
    /// Bind the listening socket to the server's address.
    Bind,
    /// Wait for the next connection. A connection still open is closed.
    Accept,
    /// Read once from the connection, at most this many bytes.
    Read(usize),
    /// Write this response to the connection.
    Send(Response),
    /// Give up: the socket could not be bound.
    Abort,
}

/// The state that follows `state` on `event`.
///
/// Each state awaits one thing. While starting, anything but a bound socket
/// stops the server for good. After that nothing stops it: what is not the
/// awaited success ends the connection at hand, and the server listens
/// again.
pub open spec fn next_state(state: State, event: Event) -> State {
    match (state, event) {
        (State::Starting, Event::Bound) => State::Listening,
        (State::Starting, _) => State::Stopped,
        (State::Stopped, _) => State::Stopped,
        (State::Listening, Event::Accepted) => State::Reading,
        (State::Reading, Event::Received(_)) => State::Sending,
        (_, _) => State::Listening,
    }
}

/// The state after a sequence of events, one after the other.
pub open spec fn state_after(state: State, events: Seq<Event>) -> State
    decreases events.len(),
{
    if events.len() == 0 {
        state
    } else {
        next_state(state_after(state, events.drop_last()), events.last())
    }
}

/// Whether the server is up: bound and not stopped.
pub open spec fn is_up(state: State) -> bool {
    state == State::Listening || state == State::Reading || state == State::Sending
}

/// The events of one connection, from the accept to its end: an accept that
/// failed; an accept and a read that failed; or an accept, a read and the
/// outcome of the write.
pub open spec fn is_exchange(events: Seq<Event>) -> bool {
    ||| events.len() == 1 && events[0] is AcceptFailed
    ||| events.len() == 2 && events[0] is Accepted && events[1] is ReadFailed
    ||| events.len() == 3 && events[0] is Accepted && events[1] is Received && (events[2] is Sent
        || events[2] is SendFailed)
}

/// A server that is up stays up, whatever happens on its connections.
pub proof fn lemma_server_stays_up(state: State, events: Seq<Event>)
    requires
        is_up(state),
    ensures
        is_up(state_after(state, events)),
    decreases events.len(),
{
    if events.len() > 0 {
        lemma_server_stays_up(state, events.drop_last());
    }
}

/// No connection leaves a trace in the server. Whatever its bytes were, a
/// request or not, and whether or not the write went through, the server
/// listens again when the connection is over, and the next connection finds
/// it as the first one did.
pub proof fn lemma_exchange_ends_listening(events: Seq<Event>)
    requires
        is_exchange(events),
    ensures
        state_after(State::Listening, events) == State::Listening,
{
    reveal_with_fuel(state_after, 4);
}

/// A server: the address it listens on and how much it reads from a
/// connection.
pub struct Server {
    addr: String,
    buffer_size: usize,
}

impl Server {
    /// The address the server listens on.
    pub closed spec fn address(&self) -> Seq<char> {
        self.addr@
    }

    /// How many bytes the server reads from a connection at most.
    pub closed spec fn read_limit(&self) -> nat {
        self.buffer_size as nat
    }

    /// Whether `action` is what is to be done in `state`. In `Sending` that
    /// is to send a response; which one, the handler has said.
    pub open spec fn pending(&self, state: State, action: Action) -> bool {
        match state {
            State::Starting => action is Bind,
            State::Listening => action is Accept,
            State::Reading => action == Action::Read(self.read_limit() as usize),
            State::Sending => action is Send,
            State::Stopped => action is Abort,
        }
    }

    /// A server for `addr` that reads up to `BUFFER_SIZE` bytes from a
    /// connection.
    pub fn new(addr: String) -> (server: Server)
        ensures
            server.address() == addr@,
            server.read_limit() == BUFFER_SIZE,
    {
        Server { addr, buffer_size: BUFFER_SIZE }
    }

    /// A server for `addr` that reads up to `buffer_size` bytes from a
    /// connection.
    pub fn with_buffer_size(addr: String, buffer_size: usize) -> (server: Server)
        ensures
            server.address() == addr@,
            server.read_limit() == buffer_size,
    {
        Server { addr, buffer_size }
    }

    /// The address the server listens on.
    pub fn addr(&self) -> (addr: &str)
        ensures
            addr@ == self.address(),
    {
        self.addr.as_str()
    }

    /// How many bytes the server reads from a connection at most.
    pub fn buffer_size(&self) -> (limit: usize)
        ensures
            limit == self.read_limit(),
    {
        self.buffer_size
    }

    /// Where a server begins: nothing is bound, and binding is the first
    /// thing to do.
    pub fn start(&self) -> (first: (State, Action))
        ensures
            first.0 == State::Starting,
            first.1 is Bind,
    {
        (State::Starting, Action::Bind)
    }

    /// One step of the server: the state that follows `state` on `event`,
    /// and what to do in it.
    ///
    /// The handler is called on one occasion only, when the bytes of a
    /// connection have arrived: the response to send is the one it gave for
    /// them. On every other occasion the handler stays as it was.
    pub fn step<H: Handler>(&self, state: State, event: Event<'_>, handler: &mut H) -> (next: (
        State,
        Action,
    ))
        ensures
            next.0 == next_state(state, event),
            self.pending(next.0, next.1),
            match (state, event) {
                (State::Reading, Event::Received(bytes)) => next.1 matches Action::Send(response)
                    && serves(old(handler), bytes@, response@, final(handler)),
                _ => *final(handler) == *old(handler),
            },
    {
        match (state, event) {
            (State::Starting, Event::Bound) => (State::Listening, Action::Accept),
            (State::Starting, _) => (State::Stopped, Action::Abort),
            (State::Stopped, _) => (State::Stopped, Action::Abort),
            (State::Listening, Event::Accepted) => (State::Reading, Action::Read(self.buffer_size)),
            (State::Reading, Event::Received(bytes)) => {
                let response = respond(handler, bytes);
                (State::Sending, Action::Send(response))
            },
            (_, _) => (State::Listening, Action::Accept),
        }
    }
}

} // verus!
