use raspberry_pos::request::{
    is_api, parse_request, plan_request, remove_first_slash, resource_format, RequestError,
    ResourceFormat, Route,
};

fn chars(s: &str) -> Vec<char> {
    s.chars().collect()
}

/// A request as the server reads it: the text, then zero bytes up to the
/// size of its read buffer.
fn buffer(text: &str) -> Vec<u8> {
    let mut b = text.as_bytes().to_vec();
    b.resize(8000, 0);
    b
}

#[test]
fn serves_html_pages() {
    let req = buffer("GET /index.html HTTP/1.1\r\nHost: pos\r\n\r\n");
    assert_eq!(parse_request(&req), Ok(Route::ServeHtml(chars("index.html"))));
    let req = buffer("GET /menu/drinks.html HTTP/1.1\r\n\r\n");
    assert_eq!(parse_request(&req), Ok(Route::ServeHtml(chars("menu/drinks.html"))));
}

#[test]
fn serves_jpg_images() {
    let req = buffer("GET /image/test.jpg HTTP/1.1\r\n\r\n");
    assert_eq!(parse_request(&req), Ok(Route::ServeJpg(chars("image/test.jpg"))));
}

#[test]
fn root_has_no_format_and_is_not_implemented() {
    // "/" names index.html, but the format is read from the last segment of
    // the target, which is empty.
    let req = buffer("GET / HTTP/1.1\r\n\r\n");
    assert_eq!(parse_request(&req), Ok(Route::NotImplemented));
}

#[test]
fn other_formats_are_not_implemented() {
    assert_eq!(parse_request(&buffer("GET /a.png HTTP/1.1\r\n")), Ok(Route::NotImplemented));
    assert_eq!(parse_request(&buffer("GET /a.b.html HTTP/1.1\r\n")), Ok(Route::NotImplemented));
    assert_eq!(parse_request(&buffer("GET /dir/ HTTP/1.1\r\n")), Ok(Route::NotImplemented));
    assert_eq!(parse_request(&buffer("GET /html HTTP/1.1\r\n")), Ok(Route::NotImplemented));
}

#[test]
fn post_and_put_are_not_implemented_other_methods_undefined() {
    assert_eq!(parse_request(&buffer("POST /a.html HTTP/1.1\r\n")), Ok(Route::NotImplemented));
    assert_eq!(parse_request(&buffer("PUT /a.html HTTP/1.1\r\n")), Ok(Route::NotImplemented));
    assert_eq!(parse_request(&buffer("DELETE /a.html HTTP/1.1\r\n")), Ok(Route::UndefinedMethod));
    assert_eq!(parse_request(&buffer("get /a.html HTTP/1.1\r\n")), Ok(Route::UndefinedMethod));
}

#[test]
fn api_calls() {
    assert_eq!(parse_request(&buffer("GET /api/test_sse.rs HTTP/1.1\r\n")), Ok(Route::ApiTestSse));
    assert_eq!(parse_request(&buffer("GET /api/test_sse.rs/more HTTP/1.1\r\n")), Ok(Route::ApiTestSse));
    assert_eq!(parse_request(&buffer("GET /api/other HTTP/1.1\r\n")), Ok(Route::ApiGetFallback));
    assert_eq!(parse_request(&buffer("GET /api HTTP/1.1\r\n")), Ok(Route::ApiGetFallback));
    assert_eq!(parse_request(&buffer("POST /api/test_sse.rs HTTP/1.1\r\n")), Ok(Route::ApiFallback));
    assert_eq!(parse_request(&buffer("PUT /api/x.html HTTP/1.1\r\n")), Ok(Route::ApiFallback));
    // The first segment must be exactly "api".
    assert_eq!(parse_request(&buffer("GET /apis/x.html HTTP/1.1\r\n")), Ok(Route::ServeHtml(chars("apis/x.html"))));
}

#[test]
fn malformed_requests_are_refused() {
    assert_eq!(parse_request(&buffer("")), Err(RequestError::MissingTarget));
    assert_eq!(parse_request(&buffer("GET\r\n/index.html\r\n")), Err(RequestError::MissingTarget));
    assert_eq!(parse_request(&buffer("GET index.html HTTP/1.1\r\n")), Err(RequestError::TargetWithoutSlash));
    assert_eq!(parse_request(&[0x47, 0x45, 0x54, 0x20, 0xff, 0x2f]), Err(RequestError::InvalidUtf8));
    // A multi-byte character cut at the end of the buffer.
    assert_eq!(parse_request("GET /é".as_bytes().split_last().unwrap().1), Err(RequestError::InvalidUtf8));
}

#[test]
fn words_are_split_on_unicode_whitespace() {
    let req = buffer("GET\u{3000}/x.html\u{a0}HTTP/1.1\r\n");
    assert_eq!(parse_request(&req), Ok(Route::ServeHtml(chars("x.html"))));
    let req = buffer("  GET \t /x.jpg\r\n");
    assert_eq!(parse_request(&req), Ok(Route::ServeJpg(chars("x.jpg"))));
}

#[test]
fn a_request_line_without_crlf_runs_to_the_end_of_the_buffer() {
    // The zero bytes are not whitespace: they stick to the last word.
    let req = buffer("GET /x.html");
    assert_eq!(parse_request(&req), Ok(Route::NotImplemented));
    let req = buffer("GET /x.html HTTP/1.1");
    assert_eq!(parse_request(&req), Ok(Route::ServeHtml(chars("x.html"))));
}

#[test]
fn non_ascii_targets_are_kept() {
    let req = buffer("GET /caf\u{e9}/men\u{fc}.html HTTP/1.1\r\n");
    assert_eq!(parse_request(&req), Ok(Route::ServeHtml(chars("caf\u{e9}/men\u{fc}.html"))));
}

#[test]
fn plan_from_text() {
    assert_eq!(plan_request(&chars("GET /a.html HTTP/1.1")), Ok(Route::ServeHtml(chars("a.html"))));
    assert_eq!(plan_request(&chars("GET //a.html")), Ok(Route::ServeHtml(chars("/a.html"))));
    assert_eq!(plan_request(&chars("GET xapi/a.jpg")), Ok(Route::ApiGetFallback));
    assert_eq!(plan_request(&chars("GET x/api/a.jpg")), Ok(Route::ServeJpg(chars("/api/a.jpg"))));
    assert_eq!(plan_request(&chars("GET")), Err(RequestError::MissingTarget));
}

#[test]
fn removes_the_first_character() {
    let empty: &[char] = &[];
    assert_eq!(remove_first_slash(&chars("/index.html")), &chars("index.html")[..]);
    assert_eq!(remove_first_slash(&chars("/")), empty);
    assert_eq!(remove_first_slash(empty), empty);
    assert_eq!(remove_first_slash(&chars("\u{e9}x")), &chars("x")[..]);
}

#[test]
fn api_names() {
    assert!(is_api(&chars("api")));
    assert!(is_api(&chars("api/test_sse.rs")));
    assert!(!is_api(&chars("apis/x")));
    assert!(!is_api(&chars("/api/x")));
    assert!(!is_api(&chars("index.html")));
    assert!(!is_api(&chars("")));
}

#[test]
fn resource_formats() {
    assert_eq!(resource_format(&chars("index")), ResourceFormat::NoExtension);
    assert_eq!(resource_format(&chars("")), ResourceFormat::NoExtension);
    assert_eq!(resource_format(&chars("index.html")), ResourceFormat::Extension(chars("html")));
    assert_eq!(resource_format(&chars("index.")), ResourceFormat::Extension(Vec::new()));
    assert_eq!(resource_format(&chars("a.tar.gz")), ResourceFormat::Unrecognized);
}

#[test]
fn headers_and_body_do_not_change_the_route() {
    let a = buffer("GET /a.html HTTP/1.1\r\nHost: one\r\n\r\n");
    let b = buffer("GET /a.html HTTP/1.1\r\nX: GET /b.jpg\r\n\r\nbody\u{3000}text");
    let c = buffer("GET /a.html HTTP/1.1");
    assert_eq!(parse_request(&a), parse_request(&b));
    assert_eq!(parse_request(&a), parse_request(&c));
}

#[test]
fn bytes_and_text_are_handled_alike() {
    for text in ["GET /a.html HTTP/1.1\r\n", "POST /api/x", "GET caf\u{e9}", "X /\u{1f600}.jpg", ""] {
        assert_eq!(parse_request(text.as_bytes()), plan_request(&chars(text)));
    }
}
