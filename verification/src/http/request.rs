//! Requests: what one holds, and how the bytes of a request are read.

use crate::http::method::Method;
use crate::http::method::MethodError;
use crate::http::query_string::query_of;
use crate::http::query_string::QueryString;
use crate::text::halves;
use crate::text::lines;
use crate::text::lines_of;
use crate::text::lowercase;
use crate::text::split_once;
use crate::text::str_eq;
use crate::text::to_lowercase;
use crate::text::views;
use core::str::Utf8Error;
use vstd::hash_map::StringHashMap;
use vstd::prelude::*;
use vstd::std_specs::convert::FromSpecImpl;
use vstd::std_specs::convert::TryFromSpecImpl;
use vstd::string::StringSliceAdditionalSpecFns;
use vstd::utf8::decode_utf8;
use vstd::utf8::valid_utf8;

verus! {

/// Why the bytes of a request were refused.
#[derive(Debug, Clone, Copy, PartialEq, Eq, Structural)]
pub enum ParseError {
    InvalidRequest,
    InvalidEncoding,
    InvalidProtocol,
    InvalidMethod,
    InvalidUri,
    InvalidVersion,
    InvalidHeader,
    InvalidBody,
}

impl ParseError {
    /// The fixed message of the error.
    pub open spec fn message_text(self) -> Seq<char> {
        match self {
            ParseError::InvalidRequest => "Invalid request"@,
            ParseError::InvalidEncoding => "Invalid encoding"@,
            ParseError::InvalidProtocol => "Invalid protocol"@,
            ParseError::InvalidMethod => "Invalid method"@,
            ParseError::InvalidUri => "Invalid uri"@,
            ParseError::InvalidVersion => "Invalid version"@,
            ParseError::InvalidHeader => "Invalid header"@,
            ParseError::InvalidBody => "Invalid body"@,
        }
    }

    /// The fixed message of the error.
    pub fn message(&self) -> (text: &str)
        ensures
            text@ == self.message_text(),
    {
        match self {
            ParseError::InvalidRequest => "Invalid request",
            ParseError::InvalidEncoding => "Invalid encoding",
            ParseError::InvalidProtocol => "Invalid protocol",
            ParseError::InvalidMethod => "Invalid method",
            ParseError::InvalidUri => "Invalid uri",
            ParseError::InvalidVersion => "Invalid version",
            ParseError::InvalidHeader => "Invalid header",
            ParseError::InvalidBody => "Invalid body",
        }
    }
}

impl From<MethodError> for ParseError {
    fn from(e: MethodError) -> (r: ParseError) {
        ParseError::InvalidMethod
    }
}

impl FromSpecImpl<MethodError> for ParseError {
    open spec fn obeys_from_spec() -> bool {
        true
    }

    open spec fn from_spec(e: MethodError) -> ParseError {
        ParseError::InvalidMethod
    }
}

/// The error type of `core::str::from_utf8`. Nothing is read from it.
#[verifier::external_type_specification]
#[verifier::external_body]
pub struct ExUtf8Error(Utf8Error);

impl From<Utf8Error> for ParseError {
    fn from(e: Utf8Error) -> (r: ParseError) {
        ParseError::InvalidEncoding
    }
}

impl FromSpecImpl<Utf8Error> for ParseError {
    open spec fn obeys_from_spec() -> bool {
        true
    }

    open spec fn from_spec(e: Utf8Error) -> ParseError {
        ParseError::InvalidEncoding
    }
}

/// `core::str::from_utf8` of the standard library. Believed, not proved: it
/// succeeds exactly on the byte sequences that are valid UTF-8, and the
/// string it then returns is made of the very bytes it was given.
pub assume_specification[ core::str::from_utf8 ](bytes: &[u8]) -> (r: Result<&str, Utf8Error>)
    ensures
        r is Ok <==> valid_utf8(bytes@),
        r matches Ok(text) ==> text.spec_bytes() == bytes@,
;

/// What a request holds.
pub struct RequestView {
    /// The path of the target: what stands before its first `?`.
    pub path: Seq<char>,
    /// The query of the target, where the target has a `?`.
    pub query_string: Option<Map<Seq<char>, Seq<Seq<char>>>>,
    pub method: Method,
    /// The header values, each under the lower-case form of its name.
    pub headers: Map<Seq<char>, Seq<char>>,
    /// What follows the empty line, unless nothing does.
    pub body: Option<Seq<char>>,
}

/// The headers that a sequence of header lines stands for, or `None` where a
/// line lacks the `": "` between name and value. A line is cut at its first
/// `": "`. The value is kept as it stands and filed under the lower-case
/// form of the name: of two lines with one name, the later one stays.
pub open spec fn headers_of(lines: Seq<Seq<char>>) -> Option<Map<Seq<char>, Seq<char>>>
    decreases lines.len(),
{
    if lines.len() == 0 {
        Some(Map::<Seq<char>, Seq<char>>::empty())
    } else {
        match (headers_of(lines.drop_last()), halves(lines.last(), ": "@)) {
            (Some(headers), Some((name, value))) => Some(headers.insert(lowercase(name), value)),
            _ => None,
        }
    }
}

/// Where the first `n` lines cannot be read as headers, no more can all of
/// them.
pub proof fn lemma_headers_of_prefix(lines: Seq<Seq<char>>, n: int)
    requires
        0 <= n <= lines.len(),
        headers_of(lines.take(n)) is None,
    ensures
        headers_of(lines) is None,
    decreases lines.len(),
{
    if n == lines.len() {
        assert(lines.take(n) =~= lines);
    } else {
        assert(lines.drop_last().take(n) =~= lines.take(n));
        lemma_headers_of_prefix(lines.drop_last(), n);
    }
}

/// The name under which a header line is filed: the lower-case form of what
/// stands before its first `": "`.
pub open spec fn line_name(line: Seq<char>) -> Seq<char> {
    lowercase((halves(line, ": "@)->0).0)
}

/// The value of a header line: what stands after its first `": "`.
pub open spec fn line_value(line: Seq<char>) -> Seq<char> {
    (halves(line, ": "@)->0).1
}

/// The headers are read exactly where every line has its `": "`. A name is
/// then among them where a line has it, and of the lines with one name the
/// last one counts.
pub proof fn lemma_last_header_counts(lines: Seq<Seq<char>>, name: Seq<char>)
    ensures
        headers_of(lines) is Some <==> forall|i: int|
            0 <= i < lines.len() ==> halves(#[trigger] lines[i], ": "@) is Some,
        headers_of(lines) matches Some(headers) ==> {
            &&& headers.contains_key(name) <==> exists|i: int|
                0 <= i < lines.len() && line_name(#[trigger] lines[i]) == name
            &&& forall|i: int|
                0 <= i < lines.len() && line_name(#[trigger] lines[i]) == name && (forall|j: int|
                    i < j < lines.len() ==> line_name(#[trigger] lines[j]) != name)
                    ==> headers[name] == line_value(lines[i])
        },
    decreases lines.len(),
{
    if lines.len() > 0 {
        let front = lines.drop_last();
        lemma_last_header_counts(front, name);
        assert forall|i: int| 0 <= i < front.len() implies front[i] == lines[i] by {}
        if headers_of(lines) is Some {
            let headers = headers_of(lines)->0;
            let before = headers_of(front)->0;
            assert forall|i: int| 0 <= i < lines.len() implies halves(
                #[trigger] lines[i],
                ": "@,
            ) is Some by {
                if i < front.len() {
                    assert(front[i] == lines[i]);
                }
            }
            if line_name(lines.last()) == name {
                assert(line_name(lines[lines.len() - 1]) == name);
            } else if before.contains_key(name) {
                let i = choose|i: int| 0 <= i < front.len() && line_name(#[trigger] front[i]) == name;
                assert(line_name(lines[i]) == name);
            }
            assert forall|i: int|
                0 <= i < lines.len() && line_name(#[trigger] lines[i]) == name && (forall|j: int|
                    i < j < lines.len() ==> line_name(#[trigger] lines[j]) != name)
                    implies headers[name] == line_value(lines[i]) by {
                if i < front.len() {
                    assert(line_name(lines[lines.len() - 1]) != name);
                    assert(line_name(front[i]) == name);
                    assert forall|j: int| i < j < front.len() implies line_name(
                        #[trigger] front[j],
                    ) != name by {
                        assert(front[j] == lines[j]);
                    }
                }
            }
        } else {
            if forall|i: int| 0 <= i < lines.len() ==> halves(#[trigger] lines[i], ": "@) is Some {
                assert(halves(lines[lines.len() - 1], ": "@) is Some);
                assert forall|i: int| 0 <= i < front.len() implies halves(
                    #[trigger] front[i],
                    ": "@,
                ) is Some by {
                    assert(front[i] == lines[i]);
                }
            }
        }
    }
}

/// The path of a request target: what stands before its first `?`, or all
/// of it where it has none.
pub open spec fn target_path(target: Seq<char>) -> Seq<char> {
    match halves(target, "?"@) {
        Some((path, _)) => path,
        None => target,
    }
}

/// The query of a request target: what the text after its first `?` stands
/// for, or `None` where the target has no `?`.
pub open spec fn target_query(target: Seq<char>) -> Option<Map<Seq<char>, Seq<Seq<char>>>> {
    match halves(target, "?"@) {
        Some((_, raw)) => Some(query_of(raw)),
        None => None,
    }
}

/// The body of a request: `None` where nothing follows the empty line.
pub open spec fn body_of(rest: Seq<char>) -> Option<Seq<char>> {
    if rest.len() == 0 {
        None
    } else {
        Some(rest)
    }
}

/// What the text of a request stands for, or the first error met in it.
///
/// The text is cut at the first empty line into head and body; a text
/// without an empty line is refused with `InvalidBody`. The head is cut at
/// its first line break into request line and header block; a head of one
/// line has no headers. The request line is cut at its first two spaces into
/// verb, target and protocol. The errors come in this order: `InvalidRequest`
/// where the request line has no space, `InvalidUri` where it has only one,
/// `InvalidVersion` where the protocol is not exactly `HTTP/1.1`,
/// `InvalidHeader` where a header line lacks `": "`, `InvalidMethod` where
/// the verb is unknown.
pub open spec fn request_of_text(text: Seq<char>) -> Result<RequestView, ParseError> {
    match halves(text, "\r\n\r\n"@) {
        None => Err(ParseError::InvalidBody),
        Some((head, rest)) => {
            let (request_line, header_block) = match halves(head, "\r\n"@) {
                Some(cut) => cut,
                None => (head, Seq::<char>::empty()),
            };
            match halves(request_line, " "@) {
                None => Err(ParseError::InvalidRequest),
                Some((verb, after_verb)) => match halves(after_verb, " "@) {
                    None => Err(ParseError::InvalidUri),
                    Some((target, protocol)) => if protocol != "HTTP/1.1"@ {
                        Err(ParseError::InvalidVersion)
                    } else {
                        match headers_of(lines_of(header_block)) {
                            None => Err(ParseError::InvalidHeader),
                            Some(headers) => match Method::of_token(verb) {
                                None => Err(ParseError::InvalidMethod),
                                Some(method) => Ok(
                                    RequestView {
                                        path: target_path(target),
                                        query_string: target_query(target),
                                        method,
                                        headers,
                                        body: body_of(rest),
                                    },
                                ),
                            },
                        }
                    },
                },
            }
        },
    }
}

/// What the bytes of a request stand for, or the first error met in them:
/// `InvalidEncoding` where they are not UTF-8, else what their text stands
/// for.
pub open spec fn request_of(bytes: Seq<u8>) -> Result<RequestView, ParseError> {
    if valid_utf8(bytes) {
        request_of_text(decode_utf8(bytes))
    } else {
        Err(ParseError::InvalidEncoding)
    }
}

/// The texts that a map of strings holds under each of its keys.
pub open spec fn header_texts(headers: Map<Seq<char>, &str>) -> Map<Seq<char>, Seq<char>> {
    Map::new(|name: Seq<char>| headers.contains_key(name), |name: Seq<char>| headers[name]@)
}

/// A request, read from a buffer of bytes. Its texts are stretches of that
/// buffer, so it lives no longer than the buffer does.
pub struct Request<'buf> {
    path: &'buf str,
    query_string: Option<QueryString<'buf>>,
    method: Method,
    headers: StringHashMap<&'buf str>,
    body: Option<&'buf str>,
}

impl<'buf> View for Request<'buf> {
    type V = RequestView;

    closed spec fn view(&self) -> RequestView {
        RequestView {
            path: self.path@,
            query_string: match self.query_string {
                Some(query) => Some(query@),
                None => None,
            },
            method: self.method,
            headers: header_texts(self.headers@),
            body: match self.body {
                Some(text) => Some(text@),
                None => None,
            },
        }
    }
}

/// Cuts `request` at its first space: the word before it and what follows.
pub fn get_next_word(request: &str) -> (r: Option<(&str, &str)>)
    ensures
        match r {
            Some((word, rest)) => halves(request@, " "@) == Some((word@, rest@)),
            None => halves(request@, " "@) is None,
        },
{
    split_once(request, " ")
}

/// Reads the header lines into a map.
fn read_headers<'buf>(block: &'buf str) -> (r: Option<StringHashMap<&'buf str>>)
    ensures
        match r {
            Some(headers) => headers_of(lines_of(block@)) == Some(header_texts(headers@)),
            None => headers_of(lines_of(block@)) is None,
        },
{
    let header_lines = lines(block);
    let mut headers: StringHashMap<&'buf str> = StringHashMap::new();
    let mut i: usize = 0;
    assert(views(header_lines@).take(0) =~= Seq::<Seq<char>>::empty());
    assert(header_texts(headers@) =~= Map::<Seq<char>, Seq<char>>::empty());
    while i < header_lines.len()
        invariant
            i <= header_lines@.len(),
            views(header_lines@) == lines_of(block@),
            headers_of(views(header_lines@).take(i as int)) == Some(header_texts(headers@)),
        decreases header_lines@.len() - i,
    {
        let line = header_lines[i];
        let ghost seen = views(header_lines@).take(i as int);
        let ghost before = headers@;
        assert(views(header_lines@).take(i + 1).drop_last() =~= seen);
        assert(views(header_lines@).take(i + 1).last() == line@);
        match split_once(line, ": ") {
            None => {
                proof {
                    lemma_headers_of_prefix(views(header_lines@), i + 1);
                }
                return None;
            },
            Some((name, value)) => {
                let key = to_lowercase(name);
                headers.insert(key, value);
                assert(header_texts(headers@) =~= header_texts(before).insert(
                    lowercase(name@),
                    value@,
                ));
            },
        }
        i += 1;
    }
    assert(views(header_lines@).take(i as int) =~= views(header_lines@));
    Some(headers)
}

impl<'buf> Request<'buf> {
    /// The path of the request target.
    pub fn path(&self) -> (path: &str)
        ensures
            path@ == self@.path,
    {
        self.path
    }

    /// The method of the request.
    pub fn method(&self) -> (method: &Method)
        ensures
            *method == self@.method,
    {
        &self.method
    }

    /// The query of the request target, where it has one.
    pub fn query_string(&self) -> (query: Option<&QueryString<'buf>>)
        ensures
            match query {
                Some(q) => self@.query_string == Some(q@),
                None => self@.query_string is None,
            },
    {
        match &self.query_string {
            Some(q) => Some(q),
            None => None,
        }
    }

    /// The value of the header `key`. Names are compared by their lower-case
    /// form.
    pub fn get_header(&self, key: &str) -> (value: Option<&&'buf str>)
        ensures
            match value {
                Some(text) => self@.headers.contains_key(lowercase(key@)) && text@
                    == self@.headers[lowercase(key@)],
                None => !self@.headers.contains_key(lowercase(key@)),
            },
    {
        let name = to_lowercase(key);
        self.headers.get(name.as_str())
    }

    /// The body of the request, where it has one.
    pub fn body(&self) -> (body: Option<&str>)
        ensures
            match body {
                Some(text) => self@.body == Some(text@),
                None => self@.body is None,
            },
    {
        self.body
    }

    /// Reads a request from the bytes of `buf`.
    pub fn parse(buf: &'buf [u8]) -> (r: Result<Request<'buf>, ParseError>)
        ensures
            match r {
                Ok(request) => request_of(buf@) == Ok::<RequestView, ParseError>(request@),
                Err(e) => request_of(buf@) == Err::<RequestView, ParseError>(e),
            },
    {
        let text = match core::str::from_utf8(buf) {
            Ok(text) => text,
            Err(e) => {
                return Err(ParseError::from(e));
            },
        };
        proof {
            vstd::utf8::encode_utf8_decode_utf8(text@);
        }
        let (head, rest) = match split_once(text, "\r\n\r\n") {
            Some(cut) => cut,
            None => {
                return Err(ParseError::InvalidBody);
            },
        };
        let (request_line, header_block) = match split_once(head, "\r\n") {
            Some(cut) => cut,
            None => {
                proof {
                    reveal_strlit("");
                }
                assert(""@ =~= Seq::<char>::empty());
                (head, "")
            },
        };
        let (verb, after_verb) = match get_next_word(request_line) {
            Some(cut) => cut,
            None => {
                return Err(ParseError::InvalidRequest);
            },
        };
        let (target, protocol) = match get_next_word(after_verb) {
            Some(cut) => cut,
            None => {
                return Err(ParseError::InvalidUri);
            },
        };
        if !str_eq(protocol, "HTTP/1.1") {
            return Err(ParseError::InvalidVersion);
        }
        let (path, query_string) = match split_once(target, "?") {
            Some((path, raw)) => (path, Some(QueryString::parse(raw))),
            None => (target, None),
        };
        let body = if rest.is_empty() {
            None
        } else {
            Some(rest)
        };
        let headers = match read_headers(header_block) {
            Some(headers) => headers,
            None => {
                return Err(ParseError::InvalidHeader);
            },
        };
        let method = match Method::from_token(verb) {
            Ok(method) => method,
            Err(e) => {
                return Err(ParseError::from(e));
            },
        };
        Ok(Request { path, query_string, method, headers, body })
    }
}

impl<'buf> TryFrom<&'buf [u8]> for Request<'buf> {
    type Error = ParseError;

    /// Reads a request from the bytes of `buf`, as `Request::parse` does.
    fn try_from(buf: &'buf [u8]) -> (r: Result<Request<'buf>, ParseError>)
        ensures
            match r {
                Ok(request) => request_of(buf@) == Ok::<RequestView, ParseError>(request@),
                Err(e) => request_of(buf@) == Err::<RequestView, ParseError>(e),
            },
    {
        Request::parse(buf)
    }
}

impl<'buf> TryFromSpecImpl<&'buf [u8]> for Request<'buf> {
    /// Two requests with one view need not be one value, so the result is
    /// stated over views, in the `ensures` of `try_from`.
    open spec fn obeys_try_from_spec() -> bool {
        false
    }

    open spec fn try_from_spec(buf: &'buf [u8]) -> Result<Self, ParseError> {
        Err(ParseError::InvalidRequest)
    }
}

} // verus!
