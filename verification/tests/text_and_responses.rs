use raspberry_pos::debug_mode::{change_debug, print_debug, DebugMode};
use raspberry_pos::response::{
    build_response, file_status_line, page_to_serve, sse_frame, NOT_FOUND_STATUS_LINE,
    OK_STATUS_LINE,
};
use raspberry_pos::text::{first_line_len, is_whitespace, split_chars, to_char_vec, words_of_prefix};
use raspberry_pos::utf8_text::decode_utf8_chars;

fn chars(s: &str) -> Vec<char> {
    s.chars().collect()
}

#[test]
fn decodes_utf8_like_std() {
    let samples: [&[u8]; 10] = [
        b"",
        b"plain ascii",
        "h\u{e9}llo \u{20ac} \u{1f600}".as_bytes(),
        &[0xc0, 0x80],
        &[0xed, 0xa0, 0x80],
        &[0xe2, 0x82],
        &[0xf4, 0x90, 0x80, 0x80],
        &[0x80],
        &[0xf8, 0x88, 0x80, 0x80, 0x80],
        &[0xef, 0xbf, 0xbf, 0xf4, 0x8f, 0xbf, 0xbf],
    ];
    for bytes in samples {
        let expected = std::str::from_utf8(bytes).ok().map(|s| s.chars().collect::<Vec<char>>());
        assert_eq!(decode_utf8_chars(bytes), expected, "{:?}", bytes);
    }
}

#[test]
fn whitespace_is_unicode_white_space() {
    for c in ['\t', '\n', '\u{b}', '\u{c}', '\r', ' ', '\u{85}', '\u{a0}', '\u{1680}', '\u{2000}', '\u{200a}', '\u{2028}', '\u{2029}', '\u{202f}', '\u{205f}', '\u{3000}'] {
        assert!(is_whitespace(c), "{:?}", c);
        assert!(c.is_whitespace());
    }
    for c in ['a', '\0', '\u{200b}', '\u{feff}', '\u{180e}', '/'] {
        assert!(!is_whitespace(c), "{:?}", c);
        assert_eq!(c.is_whitespace(), false);
    }
}

#[test]
fn splits_like_std() {
    for s in ["", "a", "/", "a/b", "/a/b/", "//", "é/ü"] {
        let expected: Vec<Vec<char>> = s.split('/').map(chars).collect();
        assert_eq!(split_chars(&chars(s), '/'), expected);
    }
    for s in ["", "  ", "a b", " a\t b  c ", "x\u{3000}y"] {
        let expected: Vec<Vec<char>> = s.split_whitespace().map(chars).collect();
        let c = chars(s);
        assert_eq!(words_of_prefix(&c, c.len()), expected);
    }
}

#[test]
fn first_line_ends_at_crlf() {
    assert_eq!(first_line_len(&chars("GET / HTTP/1.1\r\nHost: x\r\n")), 14);
    assert_eq!(first_line_len(&chars("no line end")), 11);
    assert_eq!(first_line_len(&chars("a\rb\nc\r\n")), 5);
    assert_eq!(first_line_len(&chars("\r\n")), 0);
    assert_eq!(first_line_len(&chars("")), 0);
    assert_eq!(first_line_len(&chars("ab\r")), 3);
}

#[test]
fn copies_characters() {
    assert_eq!(to_char_vec(&chars("abc")), chars("abc"));
}

#[test]
fn status_lines() {
    assert_eq!(file_status_line(true), "HTTP/1.1 200 OK\r\n\r\n");
    assert_eq!(file_status_line(false), "HTTP/1.1 404 NOT FOUND\r\n\r\n");
}

#[test]
fn missing_files_are_answered_with_the_not_found_page() {
    assert_eq!(page_to_serve(&chars("menu.html"), true), (OK_STATUS_LINE, chars("menu.html")));
    assert_eq!(page_to_serve(&chars("menu.html"), false), (NOT_FOUND_STATUS_LINE, chars("not_found.html")));
}

#[test]
fn responses_are_status_then_body() {
    assert_eq!(build_response(OK_STATUS_LINE, b"<p>hi</p>"), b"HTTP/1.1 200 OK\r\n\r\n<p>hi</p>".to_vec());
    assert_eq!(build_response("", b""), Vec::<u8>::new());
    assert_eq!(build_response("\u{e9}", &[0xff]), vec![0xc3, 0xa9, 0xff]);
}

#[test]
fn server_sent_event_frame() {
    let expected = "HTTP/1.1 200 OK\r\nContent-Type: text/event-stream\r\nCache-Control: no-cache\r\n\r\ndata: <img src=\"image/test.jpg\" alt=\"sample\">\r\n\r\n";
    assert_eq!(sse_frame(), expected.as_bytes().to_vec());
}

#[test]
fn debug_mode_reads_back_what_was_set() {
    let mut mode = DebugMode::new();
    assert!(!print_debug(&mode));
    change_debug(&mut mode, true);
    assert!(print_debug(&mode));
    change_debug(&mut mode, true);
    assert!(print_debug(&mode));
    change_debug(&mut mode, false);
    assert!(!print_debug(&mode));
}

#[test]
fn request_uri_pieces() {
    // /aaa/bbb/ccc.html -> {"", "aaa", "bbb", "ccc.html"}
    assert_eq!(
        split_chars(&chars("/aaa/bbb/ccc.html"), '/'),
        vec![chars(""), chars("aaa"), chars("bbb"), chars("ccc.html")]
    );
    // ccc.html -> {"ccc", "html"}
    assert_eq!(split_chars(&chars("ccc.html"), '.'), vec![chars("ccc"), chars("html")]);
}
