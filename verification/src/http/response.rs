//! Responses and their form on the wire.

use crate::http::status_code::StatusCode;
use crate::text::decimal;
use crate::text::push_decimal;
use vstd::prelude::*;
use vstd::string::StrSliceExecFns;
use vstd::string::StringExecFns;
use vstd::utf8::encode_utf8;

verus! {

/// What a response says: its status and, where it has one, its body.
pub struct ResponseView {
    pub status: StatusCode,
    pub body: Option<Seq<char>>,
}

/// A response: a status and an optional body. It is built once and then
/// written out.
#[derive(Debug)]
pub struct Response {
    status_code: StatusCode,
    body: Option<String>,
}

impl View for Response {
    type V = ResponseView;

    closed spec fn view(&self) -> ResponseView {
        ResponseView {
            status: self.status_code,
            body: match self.body {
                Some(text) => Some(text@),
                None => None,
            },
        }
    }
}

/// The first line of a response: the protocol, the status number and its
/// reason, and a line break.
pub open spec fn status_line(status: StatusCode) -> Seq<char> {
    "HTTP/1.1 "@ + decimal(status.number()) + " "@ + status.reason() + "\r\n"@
}

/// The text of a response on the wire. With a body: the status line, a
/// `Content-Length` header that gives the body's length in bytes, an empty
/// line and the body. Without one: the status line and an empty line.
pub open spec fn wire_text(response: ResponseView) -> Seq<char> {
    match response.body {
        Some(body) => status_line(response.status) + "Content-Length: "@ + decimal(
            encode_utf8(body).len(),
        ) + "\r\n"@ + "\r\n"@ + body,
        None => status_line(response.status) + "\r\n"@,
    }
}

impl Response {
    /// A response with the given status and body.
    pub fn new(status_code: StatusCode, body: Option<String>) -> (r: Response)
        ensures
            r@.status == status_code,
            r@.body == match body {
                Some(text) => Some(text@),
                None => None::<Seq<char>>,
            },
    {
        Response { status_code, body }
    }

    /// The status of the response.
    pub fn status_code(&self) -> (status: StatusCode)
        ensures
            status == self@.status,
    {
        self.status_code
    }

    /// The body of the response, if it has one.
    pub fn body(&self) -> (body: Option<&str>)
        ensures
            match body {
                Some(text) => self@.body == Some(text@),
                None => self@.body is None,
            },
    {
        match &self.body {
            Some(text) => Some(text.as_str()),
            None => None,
        }
    }

    /// The response as it goes on the wire.
    pub fn render(&self) -> (text: String)
        ensures
            text@ == wire_text(self@),
    {
        let mut text = String::new();
        text.append("HTTP/1.1 ");
        push_decimal(&mut text, self.status_code.code() as usize);
        text.append(" ");
        text.append(self.status_code.reason_phrase());
        text.append("\r\n");
        assert(text@ =~= status_line(self@.status));
        match &self.body {
            Some(body) => {
                text.append("Content-Length: ");
                push_decimal(&mut text, body.as_str().as_bytes().len());
                text.append("\r\n");
                text.append("\r\n");
                text.append(body.as_str());
            },
            None => {
                text.append("\r\n");
            },
        }
        assert(text@ =~= wire_text(self@));
        text
    }

    /// The bytes of the response on the wire: its text in UTF-8.
    pub fn to_bytes(&self) -> (bytes: Vec<u8>)
        ensures
            bytes@ == encode_utf8(wire_text(self@)),
    {
        self.render().as_str().as_bytes_vec()
    }
}

} // verus!
