//! Searching and cutting text.
//!
//! Every function here speaks of a string through its view, the sequence of
//! its characters, and positions are character positions.

use vstd::prelude::*;
use vstd::string::StrSliceExecFns;
use vstd::string::StringExecFns;

verus! {

/// `needle` stands in `hay` at position `at`.
pub open spec fn occurs_at(hay: Seq<char>, needle: Seq<char>, at: int) -> bool {
    &&& 0 <= at
    &&& at + needle.len() <= hay.len()
    &&& hay.subrange(at, at + needle.len()) == needle
}

/// `needle` stands in `hay` at position `at` and nowhere before it.
pub open spec fn is_first_occurrence(hay: Seq<char>, needle: Seq<char>, at: int) -> bool {
    &&& occurs_at(hay, needle, at)
    &&& forall|j: int| 0 <= j < at ==> !occurs_at(hay, needle, j)
}

/// The position of the first occurrence of `needle` in `hay`, if there is one.
pub open spec fn first_occurrence(hay: Seq<char>, needle: Seq<char>) -> Option<int> {
    if exists|at: int| is_first_occurrence(hay, needle, at) {
        Some(choose|at: int| is_first_occurrence(hay, needle, at))
    } else {
        None
    }
}

/// A first occurrence is the only one: `first_occurrence` names it.
pub proof fn lemma_first_occurrence_found(hay: Seq<char>, needle: Seq<char>, at: int)
    requires
        is_first_occurrence(hay, needle, at),
    ensures
        first_occurrence(hay, needle) == Some(at),
{
    let found = choose|k: int| is_first_occurrence(hay, needle, k);
    assert(is_first_occurrence(hay, needle, found));
    if found < at {
        assert(!occurs_at(hay, needle, found));
    } else if at < found {
        assert(!occurs_at(hay, needle, at));
    }
}

/// Where `needle` stands nowhere in `hay`, there is no first occurrence.
pub proof fn lemma_first_occurrence_absent(hay: Seq<char>, needle: Seq<char>)
    requires
        forall|j: int| !occurs_at(hay, needle, j),
    ensures
        first_occurrence(hay, needle) is None,
{
}

/// `first_occurrence` returns a position exactly when `needle` occurs, and
/// then the smallest one.
pub proof fn lemma_first_occurrence_is_least(hay: Seq<char>, needle: Seq<char>)
    ensures
        match first_occurrence(hay, needle) {
            Some(at) => is_first_occurrence(hay, needle, at),
            None => forall|j: int| !occurs_at(hay, needle, j),
        },
{
    if first_occurrence(hay, needle) is None {
        assert forall|j: int| !occurs_at(hay, needle, j) by {
            if occurs_at(hay, needle, j) {
                lemma_least_occurrence_exists(hay, needle, j);
            }
        }
    }
}

/// An occurrence at `at` gives a first occurrence at or before `at`.
proof fn lemma_least_occurrence_exists(hay: Seq<char>, needle: Seq<char>, at: int)
    requires
        occurs_at(hay, needle, at),
    ensures
        exists|k: int| 0 <= k <= at && is_first_occurrence(hay, needle, k),
    decreases at,
{
    if exists|j: int| 0 <= j < at && occurs_at(hay, needle, j) {
        let j = choose|j: int| 0 <= j < at && occurs_at(hay, needle, j);
        lemma_least_occurrence_exists(hay, needle, j);
    } else {
        assert(is_first_occurrence(hay, needle, at));
    }
}

/// The characters of `s`, in order.
pub fn chars_of(s: &str) -> (chars: Vec<char>)
    ensures
        chars@ == s@,
{
    let mut chars: Vec<char> = Vec::new();
    for c in it: s.chars()
        invariant
            it.seq() == s@,
            chars@ == it.seq().take(it.index() as int),
    {
        chars.push(c);
    }
    chars
}

/// Whether `needle` stands in `hay` at position `at`.
fn matches_at(hay: &[char], needle: &[char], at: usize) -> (r: bool)
    requires
        at + needle@.len() <= hay@.len(),
    ensures
        r == occurs_at(hay@, needle@, at as int),
{
    let _ = hay.len();
    let mut k: usize = 0;
    while k < needle.len()
        invariant
            k <= needle@.len(),
            at + needle@.len() <= hay@.len() <= usize::MAX,
            forall|j: int| 0 <= j < k ==> hay@[at + j] == needle@[j],
        decreases needle@.len() - k,
    {
        if hay[at + k] != needle[k] {
            assert(hay@.subrange(at as int, at + needle@.len())[k as int] == hay@[at + k]);
            return false;
        }
        k += 1;
    }
    assert(hay@.subrange(at as int, at + needle@.len()) =~= needle@);
    true
}

/// The position of the first occurrence of `needle` in `hay`.
pub fn find(hay: &[char], needle: &[char]) -> (r: Option<usize>)
    ensures
        match r {
            Some(at) => first_occurrence(hay@, needle@) == Some(at as int),
            None => first_occurrence(hay@, needle@) is None,
        },
{
    if needle.len() > hay.len() {
        proof {
            lemma_first_occurrence_absent(hay@, needle@);
        }
        return None;
    }
    let last: usize = hay.len() - needle.len();
    let mut at: usize = 0;
    loop
        invariant
            last == hay@.len() - needle@.len(),
            at <= last,
            forall|j: int| 0 <= j < at ==> !occurs_at(hay@, needle@, j),
        decreases last - at,
    {
        if matches_at(hay, needle, at) {
            proof {
                lemma_first_occurrence_found(hay@, needle@, at as int);
            }
            return Some(at);
        }
        if at == last {
            proof {
                lemma_first_occurrence_absent(hay@, needle@);
            }
            return None;
        }
        at += 1;
    }
}

/// `s` cut at the first occurrence of `sep`: what stands before it and what
/// stands after it. `None` where `sep` does not occur.
pub open spec fn halves(s: Seq<char>, sep: Seq<char>) -> Option<(Seq<char>, Seq<char>)> {
    match first_occurrence(s, sep) {
        Some(at) => Some((s.subrange(0, at), s.subrange(at + sep.len(), s.len() as int))),
        None => None,
    }
}

/// Cutting loses nothing: the halves with `sep` between them are `s` again,
/// and `sep` begins nowhere inside the first half. A text is not cut only
/// where `sep` stands nowhere in it.
pub proof fn lemma_halves_joined(s: Seq<char>, sep: Seq<char>)
    ensures
        match halves(s, sep) {
            Some((left, right)) => left + sep + right == s && is_first_occurrence(
                s,
                sep,
                left.len() as int,
            ),
            None => forall|j: int| !occurs_at(s, sep, j),
        },
{
    lemma_first_occurrence_is_least(s, sep);
    if let Some(at) = first_occurrence(s, sep) {
        let left = s.subrange(0, at);
        let right = s.subrange(at + sep.len(), s.len() as int);
        assert(s.subrange(at, at + sep.len()) == sep);
        assert(left + sep + right =~= s);
    }
}

/// Cuts `s` at the first occurrence of `sep`.
pub fn split_once<'a>(s: &'a str, sep: &str) -> (r: Option<(&'a str, &'a str)>)
    ensures
        match r {
            Some((left, right)) => halves(s@, sep@) == Some((left@, right@)),
            None => halves(s@, sep@) is None,
        },
{
    let hay = chars_of(s);
    let needle = chars_of(sep);
    let end = hay.len();
    match find(hay.as_slice(), needle.as_slice()) {
        Some(at) => {
            proof {
                lemma_first_occurrence_is_least(s@, sep@);
                assert(occurs_at(s@, sep@, at as int));
            }
            let left = s.substring_char(0, at);
            let right = s.substring_char(at + needle.len(), end);
            Some((left, right))
        },
        None => None,
    }
}

/// Whether two strings hold the same characters.
pub fn str_eq(a: &str, b: &str) -> (r: bool)
    ensures
        r == (a@ == b@),
{
    let x = a.as_bytes();
    let y = b.as_bytes();
    proof {
        vstd::utf8::encode_utf8_decode_utf8(a@);
        vstd::utf8::encode_utf8_decode_utf8(b@);
    }
    if x.len() != y.len() {
        return false;
    }
    let mut k: usize = 0;
    while k < x.len()
        invariant
            k <= x@.len(),
            x@.len() == y@.len(),
            (a@ == b@) == (x@ == y@),
            forall|j: int| 0 <= j < k ==> x@[j] == y@[j],
        decreases x@.len() - k,
    {
        if x[k] != y[k] {
            assert(x@[k as int] != y@[k as int]);
            return false;
        }
        k += 1;
    }
    assert(x@ =~= y@);
    true
}

/// The character sequences of a sequence of strings.
pub open spec fn views(parts: Seq<&str>) -> Seq<Seq<char>> {
    parts.map_values(|p: &str| p@)
}

/// `s` cut at every `sep`: the stretches between one `sep` and the next, in
/// order. There is always at least one piece, and one more than there are
/// `sep` in `s`.
pub open spec fn pieces(s: Seq<char>, sep: char) -> Seq<Seq<char>>
    decreases s.len(),
{
    if s.len() == 0 {
        seq![Seq::<char>::empty()]
    } else {
        let before = pieces(s.drop_last(), sep);
        if s.last() == sep {
            before.push(Seq::<char>::empty())
        } else {
            before.drop_last().push(before.last().push(s.last()))
        }
    }
}

/// `parts` written one after the other with `sep` between them.
pub open spec fn joined(parts: Seq<Seq<char>>, sep: Seq<char>) -> Seq<char>
    decreases parts.len(),
{
    if parts.len() == 0 {
        Seq::<char>::empty()
    } else if parts.len() == 1 {
        parts[0]
    } else {
        joined(parts.drop_last(), sep) + sep + parts.last()
    }
}

/// Cutting at `sep` loses nothing and leaves no `sep`: the pieces joined by
/// `sep` are `s` again, and no piece holds a `sep`.
pub proof fn lemma_pieces_joined(s: Seq<char>, sep: char)
    ensures
        pieces(s, sep).len() >= 1,
        joined(pieces(s, sep), seq![sep]) == s,
        forall|i: int| 0 <= i < pieces(s, sep).len() ==> !(#[trigger] pieces(s, sep)[i]).contains(sep),
    decreases s.len(),
{
    if s.len() == 0 {
        assert(joined(pieces(s, sep), seq![sep]) =~= s);
    } else {
        let front = s.drop_last();
        let before = pieces(front, sep);
        lemma_pieces_joined(front, sep);
        let now = pieces(s, sep);
        if s.last() == sep {
            assert(now.drop_last() =~= before);
            assert(joined(now, seq![sep]) =~= s);
        } else {
            let grown = before.last().push(s.last());
            assert(now.last() == grown);
            assert(front.push(s.last()) =~= s);
            if before.len() == 1 {
                assert(now =~= seq![grown]);
                assert(joined(before, seq![sep]) == before[0]);
                assert(joined(now, seq![sep]) == now[0]);
            } else {
                assert(now.drop_last() =~= before.drop_last());
                assert(joined(before, seq![sep]) == joined(before.drop_last(), seq![sep]) + seq![sep]
                    + before.last());
                assert(joined(now, seq![sep]) =~= s);
            }
            assert forall|i: int| 0 <= i < now.len() implies !(#[trigger] now[i]).contains(sep) by {
                if i == now.len() - 1 {
                    assert(!before[i].contains(sep));
                    if grown.contains(sep) {
                        let k = choose|k: int| 0 <= k < grown.len() && grown[k] == sep;
                        assert(before[i][k] == sep);
                    }
                } else {
                    assert(now[i] == before[i]);
                }
            }
        }
    }
}

/// Cuts `s` at every `sep`.
pub fn split<'a>(s: &'a str, sep: char) -> (parts: Vec<&'a str>)
    ensures
        views(parts@) == pieces(s@, sep),
{
    let chars = chars_of(s);
    let mut parts: Vec<&'a str> = Vec::new();
    let mut start: usize = 0;
    let mut at: usize = 0;
    assert(s@.take(0) =~= Seq::<char>::empty());
    assert(views(parts@).push(s@.subrange(0, 0)) =~= pieces(s@.take(0), sep));
    while at < chars.len()
        invariant
            chars@ == s@,
            start <= at <= chars@.len(),
            pieces(s@.take(at as int), sep) == views(parts@).push(
                s@.subrange(start as int, at as int),
            ),
        decreases chars@.len() - at,
    {
        let ghost before = pieces(s@.take(at as int), sep);
        let ghost done = parts@;
        let ghost open = s@.subrange(start as int, at as int);
        assert(s@.take(at + 1).drop_last() =~= s@.take(at as int));
        assert(s@.take(at + 1).last() == s@[at as int]);
        if chars[at] == sep {
            let part = s.substring_char(start, at);
            parts.push(part);
            start = at + 1;
            assert(views(parts@) =~= views(done).push(open));
            assert(s@.subrange(start as int, at + 1) =~= Seq::<char>::empty());
        } else {
            assert(before.drop_last() =~= views(done));
            assert(open.push(s@[at as int]) =~= s@.subrange(start as int, at + 1));
        }
        at += 1;
    }
    assert(s@.take(at as int) =~= s@);
    let part = s.substring_char(start, at);
    parts.push(part);
    assert(views(parts@) =~= pieces(s@, sep));
    parts
}

/// `line` without a carriage return at its end.
pub open spec fn without_cr(line: Seq<char>) -> Seq<char> {
    if line.len() > 0 && line.last() == '\r' {
        line.drop_last()
    } else {
        line
    }
}

/// The lines of `s`. A line ends at a line feed; the line feed, and a
/// carriage return just before it, belong to no line. What follows the last
/// line feed is a line of its own unless it is empty.
pub open spec fn lines_of(s: Seq<char>) -> Seq<Seq<char>> {
    let parts = pieces(s, '\n');
    let ended = parts.drop_last().map_values(|line: Seq<char>| without_cr(line));
    if parts.last().len() == 0 {
        ended
    } else {
        ended.push(parts.last())
    }
}

/// Drops a carriage return at the end of `line`.
fn strip_cr<'a>(line: &'a str) -> (r: &'a str)
    ensures
        r@ == without_cr(line@),
{
    let chars = chars_of(line);
    let n = chars.len();
    if n > 0 && chars[n - 1] == '\r' {
        line.substring_char(0, n - 1)
    } else {
        line
    }
}

/// Cuts `s` into its lines.
pub fn lines<'a>(s: &'a str) -> (r: Vec<&'a str>)
    ensures
        views(r@) == lines_of(s@),
{
    let parts = split(s, '\n');
    proof {
        lemma_pieces_joined(s@, '\n');
    }
    let n = parts.len();
    assert(views(parts@).len() == n);
    let mut out: Vec<&'a str> = Vec::new();
    let mut i: usize = 0;
    while i + 1 < n
        invariant
            n == parts@.len(),
            n >= 1,
            i + 1 <= n,
            out@.len() == i,
            forall|j: int| 0 <= j < i ==> (#[trigger] out@[j])@ == without_cr(parts@[j]@),
        decreases n - i,
    {
        out.push(strip_cr(parts[i]));
        i += 1;
    }
    let rest = parts[n - 1];
    let ghost ended = pieces(s@, '\n').drop_last().map_values(|line: Seq<char>| without_cr(line));
    assert(views(out@) =~= ended) by {
        assert forall|j: int| 0 <= j < i implies views(out@)[j] == ended[j] by {
            assert(views(parts@)[j] == parts@[j]@);
        }
    }
    assert(views(parts@)[n - 1] == rest@);
    if !rest.is_empty() {
        out.push(rest);
        assert(views(out@) =~= ended.push(rest@));
    }
    out
}

/// The lower-case form of a sequence of characters, as Unicode defines it.
pub uninterp spec fn lowercase(s: Seq<char>) -> Seq<char>;

/// `str::to_lowercase` of the standard library. Believed, not proved: the
/// string returned holds the lower-case form of `s`, which `lowercase` names.
#[verifier::external_body]
pub(crate) fn to_lowercase(s: &str) -> (r: String)
    ensures
        r@ == lowercase(s@),
{
    s.to_lowercase()
}

/// The decimal digit for `d`.
pub open spec fn digit(d: nat) -> char {
    if d == 0 {
        '0'
    } else if d == 1 {
        '1'
    } else if d == 2 {
        '2'
    } else if d == 3 {
        '3'
    } else if d == 4 {
        '4'
    } else if d == 5 {
        '5'
    } else if d == 6 {
        '6'
    } else if d == 7 {
        '7'
    } else if d == 8 {
        '8'
    } else {
        '9'
    }
}

/// `n` written in decimal, without leading zeros.
pub open spec fn decimal(n: nat) -> Seq<char>
    decreases n,
{
    if n < 10 {
        seq![digit(n)]
    } else {
        decimal(n / 10).push(digit(n % 10))
    }
}

/// The one-character string for the digit `d`.
fn digit_str(d: usize) -> (r: &'static str)
    requires
        d < 10,
    ensures
        r@ == seq![digit(d as nat)],
{
    proof {
        reveal_strlit("0");
        reveal_strlit("1");
        reveal_strlit("2");
        reveal_strlit("3");
        reveal_strlit("4");
        reveal_strlit("5");
        reveal_strlit("6");
        reveal_strlit("7");
        reveal_strlit("8");
        reveal_strlit("9");
    }
    let r = if d == 0 {
        "0"
    } else if d == 1 {
        "1"
    } else if d == 2 {
        "2"
    } else if d == 3 {
        "3"
    } else if d == 4 {
        "4"
    } else if d == 5 {
        "5"
    } else if d == 6 {
        "6"
    } else if d == 7 {
        "7"
    } else if d == 8 {
        "8"
    } else {
        "9"
    };
    assert(r@ =~= seq![digit(d as nat)]);
    r
}

/// Appends `n` in decimal to `out`.
pub fn push_decimal(out: &mut String, n: usize)
    ensures
        final(out)@ == old(out)@ + decimal(n as nat),
    decreases n,
{
    if n >= 10 {
        push_decimal(out, n / 10);
    }
    out.append(digit_str(n % 10));
    assert(out@ =~= old(out)@ + decimal(n as nat));
}

/// `s` holds no `c`.
pub open spec fn free_of(s: Seq<char>, c: char) -> bool {
    forall|i: int| 0 <= i < s.len() ==> s[i] != c
}

/// Where `needle` stands at `at`, each of its characters stands in `hay`.
pub proof fn lemma_occurrence_chars(hay: Seq<char>, needle: Seq<char>, at: int, k: int)
    requires
        occurs_at(hay, needle, at),
        0 <= k < needle.len(),
    ensures
        hay[at + k] == needle[k],
{
    assert(hay.subrange(at, at + needle.len())[k] == hay[at + k]);
}

/// Where `sep` begins nowhere inside `left`, cutting `left + sep + right` at
/// its first `sep` gives `left` and `right` back.
pub proof fn lemma_halves_of_joint(left: Seq<char>, sep: Seq<char>, right: Seq<char>)
    requires
        forall|j: int| 0 <= j < left.len() ==> !occurs_at(left + sep + right, sep, j),
    ensures
        halves(left + sep + right, sep) == Some((left, right)),
{
    let s = left + sep + right;
    let at = left.len() as int;
    assert(s.subrange(at, at + sep.len()) =~= sep);
    assert(is_first_occurrence(s, sep, at));
    lemma_first_occurrence_found(s, sep, at);
    assert(s.subrange(0, at) =~= left);
    assert(s.subrange(at + sep.len(), s.len() as int) =~= right);
}

/// A text that does not hold the first character of `sep` cannot be cut at
/// `sep`.
pub proof fn lemma_halves_absent(s: Seq<char>, sep: Seq<char>)
    requires
        sep.len() > 0,
        free_of(s, sep[0]),
    ensures
        halves(s, sep) is None,
{
    assert forall|j: int| !occurs_at(s, sep, j) by {
        if occurs_at(s, sep, j) {
            lemma_occurrence_chars(s, sep, j, 0);
        }
    }
    lemma_first_occurrence_absent(s, sep);
}

/// Text without `sep`, added at the end, lengthens the last piece and
/// leaves the others.
pub proof fn lemma_pieces_append(s: Seq<char>, t: Seq<char>, sep: char)
    requires
        free_of(t, sep),
    ensures
        pieces(s, sep).len() >= 1,
        pieces(s + t, sep) == pieces(s, sep).drop_last().push(pieces(s, sep).last() + t),
    decreases t.len(),
{
    lemma_pieces_joined(s, sep);
    let parts = pieces(s, sep);
    if t.len() == 0 {
        assert(s + t =~= s);
        assert(parts.last() + t =~= parts.last());
        assert(parts.drop_last().push(parts.last()) =~= parts);
    } else {
        let shorter = t.drop_last();
        lemma_pieces_append(s, shorter, sep);
        assert((s + t).drop_last() =~= s + shorter);
        assert((s + t).last() == t[t.len() - 1]);
        let before = pieces(s + shorter, sep);
        assert(before.drop_last() =~= parts.drop_last());
        assert((parts.last() + shorter).push(t.last()) =~= parts.last() + t);
    }
}

/// Lines joined by line breaks are cut into those lines again, where no line
/// holds a line feed and the last line is not empty.
pub proof fn lemma_lines_of_joined(lines: Seq<Seq<char>>)
    requires
        forall|i: int| 0 <= i < lines.len() ==> free_of(#[trigger] lines[i], '\n'),
        lines.len() > 0 ==> lines.last().len() > 0,
    ensures
        lines_of(joined(lines, "\r\n"@)) == lines,
{
    if lines.len() == 0 {
        assert(lines_of(joined(lines, "\r\n"@)) =~= lines);
    } else {
        lemma_pieces_of_joined(lines);
        let parts = pieces(joined(lines, "\r\n"@), '\n');
        let ended = parts.drop_last().map_values(|line: Seq<char>| without_cr(line));
        assert(ended =~= lines.drop_last()) by {
            assert forall|i: int| 0 <= i < ended.len() implies ended[i] == lines[i] by {
                assert(parts[i] == lines[i].push('\r'));
                assert(lines[i].push('\r').drop_last() =~= lines[i]);
            }
        }
        assert(ended.push(parts.last()) =~= lines);
    }
}

/// The pieces between the line feeds of lines joined by line breaks: each
/// line but the last with a carriage return at its end, then the last line.
proof fn lemma_pieces_of_joined(lines: Seq<Seq<char>>)
    requires
        lines.len() >= 1,
        forall|i: int| 0 <= i < lines.len() ==> free_of(#[trigger] lines[i], '\n'),
    ensures
        pieces(joined(lines, "\r\n"@), '\n') == lines.drop_last().map_values(
            |line: Seq<char>| line.push('\r'),
        ).push(lines.last()),
    decreases lines.len(),
{
    reveal_strlit("\r\n");
    let with_cr = |line: Seq<char>| line.push('\r');
    let nothing = Seq::<char>::empty();
    if lines.len() == 1 {
        lemma_pieces_append(nothing, lines[0], '\n');
        assert(nothing + lines[0] =~= lines[0]);
        assert(pieces(nothing, '\n') =~= seq![nothing]);
        assert(pieces(lines[0], '\n') =~= seq![lines[0]]);
        assert(lines.drop_last().map_values(with_cr).push(lines.last()) =~= seq![lines[0]]);
    } else {
        let front = lines.drop_last();
        let text = joined(front, "\r\n"@);
        assert forall|i: int| 0 <= i < front.len() implies free_of(#[trigger] front[i], '\n') by {
            assert(front[i] == lines[i]);
        }
        lemma_pieces_of_joined(front);
        let parts = pieces(text, '\n');
        let text_cr = text.push('\r');
        let text_crlf = text_cr.push('\n');
        assert(text_cr.drop_last() =~= text);
        assert(text_crlf.drop_last() =~= text_cr);
        let parts_cr = pieces(text_cr, '\n');
        assert(parts_cr == parts.drop_last().push(parts.last().push('\r')));
        let parts_crlf = pieces(text_crlf, '\n');
        assert(parts_crlf == parts_cr.push(nothing));
        lemma_pieces_append(text_crlf, lines.last(), '\n');
        assert(text + "\r\n"@ =~= text_crlf);
        assert(joined(lines, "\r\n"@) == text_crlf + lines.last());
        assert(parts_crlf.drop_last() =~= parts_cr);
        assert(nothing + lines.last() =~= lines.last());
        assert(parts.last() == front.last());
        assert(parts.drop_last() =~= front.drop_last().map_values(with_cr));
        assert(parts_cr =~= front.map_values(with_cr));
    }
}

/// Joining can be read from the front: the first part, the separator, and
/// the rest joined.
pub proof fn lemma_joined_front(first: Seq<char>, rest: Seq<Seq<char>>, sep: Seq<char>)
    requires
        rest.len() >= 1,
    ensures
        joined(seq![first] + rest, sep) == first + sep + joined(rest, sep),
    decreases rest.len(),
{
    let all = seq![first] + rest;
    assert(all.drop_last() =~= seq![first] + rest.drop_last());
    assert(all.last() == rest.last());
    if rest.len() == 1 {
        assert(all.drop_last() =~= seq![first]);
        assert(joined(all.drop_last(), sep) == first);
        assert(joined(rest, sep) == rest[0]);
    } else {
        lemma_joined_front(first, rest.drop_last(), sep);
        assert(joined(all, sep) =~= first + sep + joined(rest, sep));
    }
}

} // verus!
