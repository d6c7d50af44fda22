//! The request methods this server knows.

use crate::text::free_of;
use crate::text::str_eq;
use vstd::prelude::*;

verus! {

/// A request method. The set is closed: a request with any other verb is
/// refused.
#[derive(Debug, Clone, Copy, PartialEq, Eq, Structural)]
pub enum Method {
    GET,
    DELETE,
    POST,
    PUT,
    HEAD,
    CONNECT,
    OPTIONS,
    TRACE,
    PATCH,
}

/// The text was none of the known verbs.
#[derive(Debug, Clone, Copy, PartialEq, Eq, Structural)]
pub struct MethodError;

impl Method {
    /// The verb as it stands in a request line.
    pub open spec fn token(self) -> Seq<char> {
        match self {
            Method::GET => "GET"@,
            Method::DELETE => "DELETE"@,
            Method::POST => "POST"@,
            Method::PUT => "PUT"@,
            Method::HEAD => "HEAD"@,
            Method::CONNECT => "CONNECT"@,
            Method::OPTIONS => "OPTIONS"@,
            Method::TRACE => "TRACE"@,
            Method::PATCH => "PATCH"@,
        }
    }

    /// The method whose verb is exactly `s`, letter for letter and case for
    /// case.
    pub open spec fn of_token(s: Seq<char>) -> Option<Method> {
        if s == Method::GET.token() {
            Some(Method::GET)
        } else if s == Method::DELETE.token() {
            Some(Method::DELETE)
        } else if s == Method::POST.token() {
            Some(Method::POST)
        } else if s == Method::PUT.token() {
            Some(Method::PUT)
        } else if s == Method::HEAD.token() {
            Some(Method::HEAD)
        } else if s == Method::CONNECT.token() {
            Some(Method::CONNECT)
        } else if s == Method::OPTIONS.token() {
            Some(Method::OPTIONS)
        } else if s == Method::TRACE.token() {
            Some(Method::TRACE)
        } else if s == Method::PATCH.token() {
            Some(Method::PATCH)
        } else {
            None
        }
    }

    /// No two methods share a verb: reading a method's verb gives that
    /// method, and a text that reads as a method is that method's verb.
    pub proof fn lemma_token_identifies(m: Method, s: Seq<char>)
        ensures
            Method::of_token(m.token()) == Some(m),
            Method::of_token(s) == Some(m) <==> s == m.token(),
    {
        reveal_strlit("GET");
        reveal_strlit("DELETE");
        reveal_strlit("POST");
        reveal_strlit("PUT");
        reveal_strlit("HEAD");
        reveal_strlit("CONNECT");
        reveal_strlit("OPTIONS");
        reveal_strlit("TRACE");
        reveal_strlit("PATCH");
        assert("GET"@[0] == 'G');
        assert("DELETE"@[0] == 'D');
        assert("POST"@[1] == 'O');
        assert("PUT"@[1] == 'U');
        assert("HEAD"@[0] == 'H');
        assert("CONNECT"@[0] == 'C');
        assert("OPTIONS"@[0] == 'O');
        assert("TRACE"@[0] == 'T');
        assert("PATCH"@[1] == 'A');
    }

    /// A verb holds no space and no line break.
    pub proof fn lemma_token_is_word(m: Method)
        ensures
            free_of(m.token(), ' '),
            free_of(m.token(), '\r'),
            free_of(m.token(), '\n'),
            m.token().len() > 0,
    {
        reveal_strlit("GET");
        reveal_strlit("DELETE");
        reveal_strlit("POST");
        reveal_strlit("PUT");
        reveal_strlit("HEAD");
        reveal_strlit("CONNECT");
        reveal_strlit("OPTIONS");
        reveal_strlit("TRACE");
        reveal_strlit("PATCH");
    }

    /// Reads a verb. The match is exact and case-sensitive.
    pub fn from_token(s: &str) -> (r: Result<Method, MethodError>)
        ensures
            r == match Method::of_token(s@) {
                Some(m) => Ok::<Method, MethodError>(m),
                None => Err(MethodError),
            },
    {
        if str_eq(s, "GET") {
            Ok(Method::GET)
        } else if str_eq(s, "DELETE") {
            Ok(Method::DELETE)
        } else if str_eq(s, "POST") {
            Ok(Method::POST)
        } else if str_eq(s, "PUT") {
            Ok(Method::PUT)
        } else if str_eq(s, "HEAD") {
            Ok(Method::HEAD)
        } else if str_eq(s, "CONNECT") {
            Ok(Method::CONNECT)
        } else if str_eq(s, "OPTIONS") {
            Ok(Method::OPTIONS)
        } else if str_eq(s, "TRACE") {
            Ok(Method::TRACE)
        } else if str_eq(s, "PATCH") {
            Ok(Method::PATCH)
        } else {
            Err(MethodError)
        }
    }
}

impl core::str::FromStr for Method {
    type Err = MethodError;

    /// Reads a verb, as `Method::from_token` does.
    fn from_str(s: &str) -> (r: Result<Method, MethodError>)
        ensures
            r == match Method::of_token(s@) {
                Some(m) => Ok::<Method, MethodError>(m),
                None => Err(MethodError),
            },
    {
        Method::from_token(s)
    }
}

} // verus!
