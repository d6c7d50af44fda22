//! The text of a request as a client writes it, and the law that reading
//! undoes writing.

use crate::http::method::Method;
use crate::http::query_string::query_of;
use crate::http::request::body_of;
use crate::http::request::headers_of;
use crate::http::request::request_of;
use crate::http::request::request_of_text;
use crate::http::request::ParseError;
use crate::http::request::RequestView;
use crate::text::free_of;
use crate::text::halves;
use crate::text::joined;
use crate::text::lemma_halves_absent;
use crate::text::lemma_halves_of_joint;
use crate::text::lemma_joined_front;
use crate::text::lemma_lines_of_joined;
use crate::text::lemma_occurrence_chars;
use crate::text::lines_of;
use crate::text::lowercase;
use crate::text::occurs_at;
use vstd::prelude::*;
use vstd::utf8::encode_utf8;

verus! {

/// A header as it is written: a name and a value.
pub struct Header {
    pub name: Seq<char>,
    pub value: Seq<char>,
}

/// `s` holds no carriage return and no line feed.
pub open spec fn is_plain(s: Seq<char>) -> bool {
    free_of(s, '\r') && free_of(s, '\n')
}

/// `s` holds no space, no carriage return and no line feed.
pub open spec fn is_word(s: Seq<char>) -> bool {
    is_plain(s) && free_of(s, ' ')
}

/// A header that can be written on one line and read back: neither part
/// holds a line break, and the name does not hold the `": "` that ends it.
pub open spec fn is_header(header: Header) -> bool {
    &&& is_plain(header.name)
    &&& is_plain(header.value)
    &&& forall|j: int| !occurs_at(header.name, ": "@, j)
}

/// Parts that can be written as a request and read back: the path is a word
/// without `?`, the query is a word, and each header is one.
pub open spec fn is_writable(path: Seq<char>, query: Option<Seq<char>>, headers: Seq<Header>) -> bool {
    &&& is_word(path)
    &&& free_of(path, '?')
    &&& query matches Some(raw) ==> is_word(raw)
    &&& forall|i: int| 0 <= i < headers.len() ==> is_header(#[trigger] headers[i])
}

/// The target of a request: the path and, after a `?`, the query.
pub open spec fn target_text(path: Seq<char>, query: Option<Seq<char>>) -> Seq<char> {
    match query {
        Some(raw) => path + "?"@ + raw,
        None => path,
    }
}

/// The first line of a request: verb, target and protocol, a space between
/// them.
pub open spec fn request_line(method: Method, path: Seq<char>, query: Option<Seq<char>>) -> Seq<
    char,
> {
    method.token() + " "@ + target_text(path, query) + " "@ + "HTTP/1.1"@
}

/// A header on its line: the name, `": "`, the value.
pub open spec fn header_line(header: Header) -> Seq<char> {
    header.name + ": "@ + header.value
}

/// The lines of the head of a request: the request line, then one line for
/// each header.
pub open spec fn head_lines(
    method: Method,
    path: Seq<char>,
    query: Option<Seq<char>>,
    headers: Seq<Header>,
) -> Seq<Seq<char>> {
    seq![request_line(method, path, query)] + headers.map_values(|h: Header| header_line(h))
}

/// The text of a request: the lines of its head with a line break between
/// them, an empty line, and the body.
pub open spec fn request_text(
    method: Method,
    path: Seq<char>,
    query: Option<Seq<char>>,
    headers: Seq<Header>,
    body: Seq<char>,
) -> Seq<char> {
    joined(head_lines(method, path, query, headers), "\r\n"@) + "\r\n\r\n"@ + body
}

/// The headers that a reader finds in written headers: each value under the
/// lower-case form of its name, the later of two with one name.
pub open spec fn headers_written(headers: Seq<Header>) -> Map<Seq<char>, Seq<char>>
    decreases headers.len(),
{
    if headers.len() == 0 {
        Map::<Seq<char>, Seq<char>>::empty()
    } else {
        headers_written(headers.drop_last()).insert(
            lowercase(headers.last().name),
            headers.last().value,
        )
    }
}

/// What a reader finds in a written request.
pub open spec fn request_written(
    method: Method,
    path: Seq<char>,
    query: Option<Seq<char>>,
    headers: Seq<Header>,
    body: Seq<char>,
) -> RequestView {
    RequestView {
        path,
        query_string: match query {
            Some(raw) => Some(query_of(raw)),
            None => None,
        },
        method,
        headers: headers_written(headers),
        body: body_of(body),
    }
}

/// A text whose line breaks stand between lines that are not empty: it is
/// not empty, does not end in a carriage return or a line feed, and no line
/// feed in it is followed by a carriage return.
spec fn is_head(head: Seq<char>) -> bool {
    &&& head.len() > 0
    &&& head.last() != '\r'
    &&& head.last() != '\n'
    &&& forall|i: int| 0 <= i < head.len() - 1 && #[trigger] head[i] == '\n' ==> head[i + 1] != '\r'
}

/// Plain lines that are not empty, joined by line breaks, make a head.
proof fn lemma_joined_is_head(lines: Seq<Seq<char>>)
    requires
        lines.len() >= 1,
        forall|i: int| 0 <= i < lines.len() ==> is_plain(#[trigger] lines[i]) && lines[i].len() > 0,
    ensures
        is_head(joined(lines, "\r\n"@)),
    decreases lines.len(),
{
    reveal_strlit("\r\n");
    let head = joined(lines, "\r\n"@);
    if lines.len() == 1 {
        assert(head == lines[0]);
    } else {
        let front = lines.drop_last();
        assert forall|i: int| 0 <= i < front.len() implies is_plain(#[trigger] front[i])
            && front[i].len() > 0 by {
            assert(front[i] == lines[i]);
        }
        lemma_joined_is_head(front);
        let before = joined(front, "\r\n"@);
        let last = lines.last();
        let n = before.len() as int;
        assert(head == before + "\r\n"@ + last);
        assert(head.len() == n + 2 + last.len());
        assert(head.last() == last.last());
        assert forall|i: int| 0 <= i < head.len() - 1 && #[trigger] head[i] == '\n' implies head[i + 1]
            != '\r' by {
            if i + 1 < n {
                assert(head[i] == before[i]);
                assert(head[i + 1] == before[i + 1]);
            } else if i == n - 1 {
                assert(head[i] == before.last());
            } else if i == n {
                assert(head[i] == '\r');
            } else if i == n + 1 {
                assert(head[i + 1] == last[0]);
            } else {
                assert(head[i] == last[i - n - 2]);
            }
        }
    }
}

/// A head, an empty line and a body are cut at the empty line into the head
/// and the body, whatever the body holds.
proof fn lemma_cut_at_empty_line(head: Seq<char>, body: Seq<char>)
    requires
        is_head(head),
    ensures
        halves(head + "\r\n\r\n"@ + body, "\r\n\r\n"@) == Some((head, body)),
{
    reveal_strlit("\r\n\r\n");
    let sep = "\r\n\r\n"@;
    let text = head + sep + body;
    let n = head.len() as int;
    assert forall|j: int| 0 <= j < n implies !occurs_at(text, sep, j) by {
        if occurs_at(text, sep, j) {
            lemma_occurrence_chars(text, sep, j, 0);
            lemma_occurrence_chars(text, sep, j, 1);
            lemma_occurrence_chars(text, sep, j, 2);
            if j + 2 < n {
                assert(text[j + 1] == head[j + 1]);
                assert(text[j + 2] == head[j + 2]);
            } else if j + 2 == n {
                assert(text[j + 1] == head.last());
            } else {
                assert(text[j] == head.last());
            }
        }
    }
    lemma_halves_of_joint(head, sep, body);
}

/// A word, a space and more text are cut at the space into the word and the
/// rest.
proof fn lemma_cut_at_space(word: Seq<char>, rest: Seq<char>)
    requires
        free_of(word, ' '),
    ensures
        halves(word + " "@ + rest, " "@) == Some((word, rest)),
{
    reveal_strlit(" ");
    let text = word + " "@ + rest;
    assert forall|j: int| 0 <= j < word.len() implies !occurs_at(text, " "@, j) by {
        if occurs_at(text, " "@, j) {
            lemma_occurrence_chars(text, " "@, j, 0);
            assert(text[j] == word[j]);
        }
    }
    lemma_halves_of_joint(word, " "@, rest);
}

/// The target is cut at its `?` into path and query, and a target without
/// query is not cut.
proof fn lemma_cut_target(path: Seq<char>, query: Option<Seq<char>>)
    requires
        free_of(path, '?'),
    ensures
        halves(target_text(path, query), "?"@) == match query {
            Some(raw) => Some((path, raw)),
            None => None::<(Seq<char>, Seq<char>)>,
        },
{
    reveal_strlit("?");
    match query {
        Some(raw) => {
            let text = path + "?"@ + raw;
            assert forall|j: int| 0 <= j < path.len() implies !occurs_at(text, "?"@, j) by {
                if occurs_at(text, "?"@, j) {
                    lemma_occurrence_chars(text, "?"@, j, 0);
                    assert(text[j] == path[j]);
                }
            }
            lemma_halves_of_joint(path, "?"@, raw);
        },
        None => {
            lemma_halves_absent(path, "?"@);
        },
    }
}

/// A header line is cut at its first `": "` into name and value.
proof fn lemma_cut_header_line(header: Header)
    requires
        is_header(header),
    ensures
        halves(header_line(header), ": "@) == Some((header.name, header.value)),
{
    reveal_strlit(": ");
    let line = header_line(header);
    let n = header.name.len() as int;
    assert forall|j: int| 0 <= j < n implies !occurs_at(line, ": "@, j) by {
        if occurs_at(line, ": "@, j) {
            lemma_occurrence_chars(line, ": "@, j, 0);
            lemma_occurrence_chars(line, ": "@, j, 1);
            if j + 2 <= n {
                assert(header.name.subrange(j, j + 2) =~= ": "@) by {
                    assert(line[j] == header.name[j]);
                    assert(line[j + 1] == header.name[j + 1]);
                }
                assert(occurs_at(header.name, ": "@, j));
            } else {
                assert(line[j + 1] == ':');
            }
        }
    }
    lemma_halves_of_joint(header.name, ": "@, header.value);
}

/// The lines of written headers are read as those headers.
proof fn lemma_header_lines_read(headers: Seq<Header>)
    requires
        forall|i: int| 0 <= i < headers.len() ==> is_header(#[trigger] headers[i]),
    ensures
        headers_of(headers.map_values(|h: Header| header_line(h))) == Some(
            headers_written(headers),
        ),
    decreases headers.len(),
{
    let lines = headers.map_values(|h: Header| header_line(h));
    if headers.len() > 0 {
        let front = headers.drop_last();
        assert forall|i: int| 0 <= i < front.len() implies is_header(#[trigger] front[i]) by {
            assert(front[i] == headers[i]);
        }
        lemma_header_lines_read(front);
        assert(lines.drop_last() =~= front.map_values(|h: Header| header_line(h)));
        assert(lines.last() == header_line(headers.last()));
        lemma_cut_header_line(headers.last());
    }
}

/// A written header line is plain and not empty.
proof fn lemma_header_line_is_plain(header: Header)
    requires
        is_header(header),
    ensures
        is_plain(header_line(header)),
        header_line(header).len() > 0,
{
    reveal_strlit(": ");
    let line = header_line(header);
    let n = header.name.len() as int;
    assert forall|i: int| 0 <= i < line.len() implies line[i] != '\r' && line[i] != '\n' by {
        if i < n {
            assert(line[i] == header.name[i]);
        } else if i >= n + 2 {
            assert(line[i] == header.value[i - n - 2]);
        }
    }
}

/// A written request line is plain and not empty.
proof fn lemma_request_line_is_plain(method: Method, path: Seq<char>, query: Option<Seq<char>>)
    requires
        is_word(path),
        query matches Some(raw) ==> is_word(raw),
    ensures
        is_plain(request_line(method, path, query)),
        request_line(method, path, query).len() > 0,
{
    reveal_strlit(" ");
    reveal_strlit("?");
    reveal_strlit("HTTP/1.1");
    Method::lemma_token_is_word(method);
    let verb = method.token();
    let target = target_text(path, query);
    assert(is_plain(target)) by {
        match query {
            Some(raw) => {
                assert forall|i: int| 0 <= i < target.len() implies target[i] != '\r' && target[i]
                    != '\n' by {
                    if i < path.len() {
                        assert(target[i] == path[i]);
                    } else if i > path.len() {
                        assert(target[i] == raw[i - path.len() - 1]);
                    }
                }
            },
            None => {},
        }
    }
    let line = request_line(method, path, query);
    let a = verb.len() as int;
    let b = a + 1 + target.len();
    assert forall|i: int| 0 <= i < line.len() implies line[i] != '\r' && line[i] != '\n' by {
        if i < a {
            assert(line[i] == verb[i]);
        } else if i == a {
        } else if i < b {
            assert(line[i] == target[i - a - 1]);
        } else if i == b {
        } else {
            assert(line[i] == "HTTP/1.1"@[i - b - 1]);
        }
    }
}

/// The request line is cut at its first two spaces into verb, target and
/// protocol.
proof fn lemma_cut_request_line(method: Method, path: Seq<char>, query: Option<Seq<char>>)
    requires
        is_word(path),
        query matches Some(raw) ==> is_word(raw),
    ensures
        halves(request_line(method, path, query), " "@) == Some(
            (method.token(), target_text(path, query) + " "@ + "HTTP/1.1"@),
        ),
        halves(target_text(path, query) + " "@ + "HTTP/1.1"@, " "@) == Some(
            (target_text(path, query), "HTTP/1.1"@),
        ),
{
    reveal_strlit("?");
    Method::lemma_token_is_word(method);
    let target = target_text(path, query);
    assert(free_of(target, ' ')) by {
        match query {
            Some(raw) => {
                assert forall|i: int| 0 <= i < target.len() implies target[i] != ' ' by {
                    if i < path.len() {
                        assert(target[i] == path[i]);
                    } else if i > path.len() {
                        assert(target[i] == raw[i - path.len() - 1]);
                    }
                }
            },
            None => {},
        }
    }
    let rest = target + " "@ + "HTTP/1.1"@;
    assert(request_line(method, path, query) =~= method.token() + " "@ + rest);
    lemma_cut_at_space(method.token(), rest);
    lemma_cut_at_space(target, "HTTP/1.1"@);
}

/// Reading undoes writing. A request written from a method, a path, a
/// query, headers and a body is read as a request with that method, that
/// path, what the query stands for, those headers under their lower-case
/// names, and that body.
pub proof fn lemma_written_request_is_read(
    method: Method,
    path: Seq<char>,
    query: Option<Seq<char>>,
    headers: Seq<Header>,
    body: Seq<char>,
)
    requires
        is_writable(path, query, headers),
    ensures
        request_of_text(request_text(method, path, query, headers, body)) == Ok::<
            RequestView,
            ParseError,
        >(request_written(method, path, query, headers, body)),
{
    reveal_strlit("\r\n");
    let line = request_line(method, path, query);
    let header_lines = headers.map_values(|h: Header| header_line(h));
    let lines = head_lines(method, path, query, headers);
    let head = joined(lines, "\r\n"@);
    let text = request_text(method, path, query, headers, body);

    lemma_request_line_is_plain(method, path, query);
    assert forall|i: int| 0 <= i < header_lines.len() implies is_plain(#[trigger] header_lines[i])
        && header_lines[i].len() > 0 by {
        lemma_header_line_is_plain(headers[i]);
    }
    assert forall|i: int| 0 <= i < lines.len() implies is_plain(#[trigger] lines[i]) && lines[i].len()
        > 0 by {
        if i > 0 {
            assert(lines[i] == header_lines[i - 1]);
        }
    }
    lemma_joined_is_head(lines);
    lemma_cut_at_empty_line(head, body);
    assert(halves(text, "\r\n\r\n"@) == Some((head, body)));

    let block = if headers.len() == 0 {
        Seq::<char>::empty()
    } else {
        joined(header_lines, "\r\n"@)
    };
    if headers.len() == 0 {
        assert(lines =~= seq![line]);
        assert(head == line);
        lemma_halves_absent(head, "\r\n"@);
        assert(header_lines =~= Seq::<Seq<char>>::empty());
        assert(joined(header_lines, "\r\n"@) =~= Seq::<char>::empty());
    } else {
        lemma_joined_front(line, header_lines, "\r\n"@);
        assert forall|j: int| 0 <= j < line.len() implies !occurs_at(
            line + "\r\n"@ + block,
            "\r\n"@,
            j,
        ) by {
            if occurs_at(line + "\r\n"@ + block, "\r\n"@, j) {
                lemma_occurrence_chars(line + "\r\n"@ + block, "\r\n"@, j, 0);
                assert((line + "\r\n"@ + block)[j] == line[j]);
            }
        }
        lemma_halves_of_joint(line, "\r\n"@, block);
        assert(halves(head, "\r\n"@) == Some((line, block)));
    }
    assert(lines_of(block) == header_lines) by {
        lemma_lines_of_joined(header_lines);
    }
    lemma_header_lines_read(headers);
    lemma_cut_request_line(method, path, query);
    lemma_cut_target(path, query);
    Method::lemma_token_identifies(method, method.token());
}

/// Reading undoes writing, on the wire: the bytes of a written request, its
/// text in UTF-8, are read as that request.
pub proof fn lemma_written_bytes_are_read(
    method: Method,
    path: Seq<char>,
    query: Option<Seq<char>>,
    headers: Seq<Header>,
    body: Seq<char>,
)
    requires
        is_writable(path, query, headers),
    ensures
        request_of(encode_utf8(request_text(method, path, query, headers, body))) == Ok::<
            RequestView,
            ParseError,
        >(request_written(method, path, query, headers, body)),
{
    let text = request_text(method, path, query, headers, body);
    vstd::utf8::encode_utf8_valid_utf8(text);
    vstd::utf8::encode_utf8_decode_utf8(text);
    lemma_written_request_is_read(method, path, query, headers, body);
}

} // verus!
