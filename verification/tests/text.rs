use my_server::text::chars_of;
use my_server::text::find;
use my_server::text::lines;
use my_server::text::push_decimal;
use my_server::text::split;
use my_server::text::split_once;
use my_server::text::str_eq;
use my_server::http::request::get_next_word;

#[test]
fn chars_of_gives_characters_not_bytes() {
    assert_eq!(chars_of("h\u{e9}!"), vec!['h', '\u{e9}', '!']);
    assert_eq!(chars_of(""), Vec::<char>::new());
}

#[test]
fn find_gives_first_position() {
    let hay = chars_of("abcabc");
    assert_eq!(find(&hay, &chars_of("bc")), Some(1));
    assert_eq!(find(&hay, &chars_of("abcabc")), Some(0));
    assert_eq!(find(&hay, &chars_of("cb")), None);
    assert_eq!(find(&hay, &chars_of("abcabcd")), None);
    assert_eq!(find(&hay, &chars_of("")), Some(0));
    assert_eq!(find(&chars_of(""), &chars_of("")), Some(0));
    assert_eq!(find(&chars_of("aab"), &chars_of("ab")), Some(1));
}

#[test]
fn split_once_cuts_at_first_separator() {
    assert_eq!(split_once("key: value: more", ": "), Some(("key", "value: more")));
    assert_eq!(split_once("novalue", ": "), None);
    assert_eq!(split_once(": x", ": "), Some(("", "x")));
    assert_eq!(split_once("x: ", ": "), Some(("x", "")));
    assert_eq!(split_once("\u{e9}t\u{e9}=\u{fc}", "="), Some(("\u{e9}t\u{e9}", "\u{fc}")));
}

#[test]
fn get_next_word_cuts_at_first_space() {
    assert_eq!(get_next_word("GET / HTTP/1.1"), Some(("GET", "/ HTTP/1.1")));
    assert_eq!(get_next_word("GET"), None);
    assert_eq!(get_next_word(" x"), Some(("", "x")));
}

#[test]
fn split_gives_every_piece() {
    assert_eq!(split("a&b&c", '&'), vec!["a", "b", "c"]);
    assert_eq!(split("", '&'), vec![""]);
    assert_eq!(split("&", '&'), vec!["", ""]);
    assert_eq!(split("a&&b&", '&'), vec!["a", "", "b", ""]);
    assert_eq!(split("a&b&c", '&').join("&"), "a&b&c");
}

#[test]
fn lines_end_at_line_feeds() {
    assert_eq!(lines("a\r\nb\nc"), vec!["a", "b", "c"]);
    assert_eq!(lines("a\r\nb\r\n"), vec!["a", "b"]);
    assert_eq!(lines(""), Vec::<&str>::new());
    assert_eq!(lines("\n"), vec![""]);
    assert_eq!(lines("a\n\nb"), vec!["a", "", "b"]);
    assert_eq!(lines("a\rb\r"), vec!["a\rb\r"]);
    assert_eq!(lines("a\r\r\n"), vec!["a\r"]);
}

#[test]
fn lines_agree_with_std() {
    for text in ["", "x", "x\n", "x\r\n", "\r\n\r\n", "a\r\nb\r", "\r", "a\n\rb\n", "one: 1\r\ntwo: 2"] {
        let expected: Vec<&str> = text.lines().collect();
        assert_eq!(lines(text), expected);
    }
}

#[test]
fn str_eq_compares_characters() {
    assert!(str_eq("HTTP/1.1", "HTTP/1.1"));
    assert!(!str_eq("HTTP/1.1", "HTTP/1.0"));
    assert!(!str_eq("HTTP/1.1", "HTTP/1.1 "));
    assert!(str_eq("", ""));
}

#[test]
fn decimal_has_no_leading_zeros() {
    for (n, text) in [(0usize, "0"), (7, "7"), (10, "10"), (404, "404"), (1024, "1024"), (90071, "90071")] {
        let mut out = String::from("n=");
        push_decimal(&mut out, n);
        assert_eq!(out, format!("n={}", text));
    }
    let mut out = String::new();
    push_decimal(&mut out, usize::MAX);
    assert_eq!(out, usize::MAX.to_string());
}
