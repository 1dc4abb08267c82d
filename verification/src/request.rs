use vstd::prelude::*;
use vstd::utf8::*;

use crate::text::{first_line, has_crlf, lemma_first_line_of_lines, lemma_split_on_last_piece, first_line_len, split_chars, split_on, to_char_vec, views, words, words_of_prefix};
use crate::utf8_text::decode_utf8_chars;

verus! {

broadcast use vstd::seq::group_seq_axioms;

/// The method name `GET`.
pub open spec fn get_method() -> Seq<char> {
    seq!['G', 'E', 'T']
}

/// The method name `POST`.
pub open spec fn post_method() -> Seq<char> {
    seq!['P', 'O', 'S', 'T']
}

/// The method name `PUT`.
pub open spec fn put_method() -> Seq<char> {
    seq!['P', 'U', 'T']
}

/// The page served for the target `/`: `index.html`.
pub open spec fn index_page() -> Seq<char> {
    seq!['i', 'n', 'd', 'e', 'x', '.', 'h', 't', 'm', 'l']
}

/// The first path segment of the calls to the server's API: `api`.
pub open spec fn api_segment() -> Seq<char> {
    seq!['a', 'p', 'i']
}

/// The API resource that streams server-sent events: `test_sse.rs`.
pub open spec fn sse_resource() -> Seq<char> {
    seq!['t', 'e', 's', 't', '_', 's', 's', 'e', '.', 'r', 's']
}

/// The extension of the pages served as text: `html`.
pub open spec fn html_extension() -> Seq<char> {
    seq!['h', 't', 'm', 'l']
}

/// The extension of the images served as bytes: `jpg`.
pub open spec fn jpg_extension() -> Seq<char> {
    seq!['j', 'p', 'g']
}

/// Why a request cannot be handled at all; the server drops the connection.
#[derive(Debug, Clone, Copy, PartialEq, Eq, Structural)]
pub enum RequestError {
    /// The bytes read from the connection are not valid UTF-8.
    InvalidUtf8,
    /// The request line has fewer than two words (method and target).
    MissingTarget,
    /// The target holds no `/`, so it has no path segment.
    TargetWithoutSlash,
}

/// What the server does with a request.
#[derive(Debug, PartialEq, Eq)]
pub enum Route {
    /// Serve the named page (relative to the document root) as text.
    ServeHtml(Vec<char>),
    /// Serve the named image (relative to the document root) as bytes.
    ServeJpg(Vec<char>),
    /// Answer `NOT IMPLEMENTED`.
    NotImplemented,
    /// A method other than GET, POST or PUT: close the connection unanswered.
    UndefinedMethod,
    /// A GET of the server-sent-events resource of the API: stream events.
    ApiTestSse,
    /// Any other GET of the API: answer `NOT IMPLEMENTED`.
    ApiGetFallback,
    /// An API call with another method: close the connection unanswered.
    ApiFallback,
}

/// A `Route` with the names as character sequences.
pub enum RouteView {
    ServeHtml(Seq<char>),
    ServeJpg(Seq<char>),
    NotImplemented,
    UndefinedMethod,
    ApiTestSse,
    ApiGetFallback,
    ApiFallback,
}

impl View for Route {
    type V = RouteView;

    open spec fn view(&self) -> RouteView {
        match self {
            Route::ServeHtml(name) => RouteView::ServeHtml(name@),
            Route::ServeJpg(name) => RouteView::ServeJpg(name@),
            Route::NotImplemented => RouteView::NotImplemented,
            Route::UndefinedMethod => RouteView::UndefinedMethod,
            Route::ApiTestSse => RouteView::ApiTestSse,
            Route::ApiGetFallback => RouteView::ApiGetFallback,
            Route::ApiFallback => RouteView::ApiFallback,
        }
    }
}

/// `s` without its first character (unchanged when empty).
pub open spec fn drop_first_char(s: Seq<char>) -> Seq<char> {
    if s.len() == 0 {
        s
    } else {
        s.drop_first()
    }
}

/// The file that a target names: `index.html` for `/`, otherwise the
/// target without its first character.
pub open spec fn target_filename(target: Seq<char>) -> Seq<char> {
    if target == seq!['/'] {
        index_page()
    } else {
        drop_first_char(target)
    }
}

/// Whether a file name is a call to the API: its part before the first `/`
/// is `api`.
pub open spec fn is_api_name(filename: Seq<char>) -> bool {
    split_on(filename, '/')[0] == api_segment()
}

/// The path segments of a target: its pieces between `/`, without the one
/// before the first `/`.
pub open spec fn uri_segments(target: Seq<char>) -> Seq<Seq<char>> {
    split_on(target, '/').drop_first()
}

/// The route of a request with method `method` and target `target`, for a
/// target that holds a `/`.
pub open spec fn route_of(method: Seq<char>, target: Seq<char>) -> RouteView {
    let filename = target_filename(target);
    let segments = uri_segments(target);
    let format = split_on(segments.last(), '.');
    if is_api_name(filename) {
        if method == get_method() {
            if segments.len() > 1 && segments[1] == sse_resource() {
                RouteView::ApiTestSse
            } else {
                RouteView::ApiGetFallback
            }
        } else {
            RouteView::ApiFallback
        }
    } else if method == get_method() {
        if format.len() == 2 && format[1] == html_extension() {
            RouteView::ServeHtml(filename)
        } else if format.len() == 2 && format[1] == jpg_extension() {
            RouteView::ServeJpg(filename)
        } else {
            RouteView::NotImplemented
        }
    } else if method == post_method() || method == put_method() {
        RouteView::NotImplemented
    } else {
        RouteView::UndefinedMethod
    }
}

/// How a request whose text is `text` is handled: the first two words of
/// its first line are the method and the target.
pub open spec fn plan_of_text(text: Seq<char>) -> Result<RouteView, RequestError> {
    let tokens = words(first_line(text));
    if tokens.len() < 2 {
        Err(RequestError::MissingTarget)
    } else if split_on(tokens[1], '/').len() < 2 {
        Err(RequestError::TargetWithoutSlash)
    } else {
        Ok(route_of(tokens[0], tokens[1]))
    }
}

/// How a request read as the bytes `bytes` is handled.
pub open spec fn plan_of_bytes(bytes: Seq<u8>) -> Result<RouteView, RequestError> {
    if valid_utf8(bytes) {
        plan_of_text(decode_utf8(bytes))
    } else {
        Err(RequestError::InvalidUtf8)
    }
}

/// Whether two character sequences are equal.
fn chars_equal(a: &[char], b: &[char]) -> (r: bool)
    ensures
        r == (a@ == b@),
{
    if a.len() != b.len() {
        return false;
    }
    let n = a.len();
    let mut i: usize = 0;
    while i < n
        invariant
            n == a@.len() == b@.len(),
            i <= n,
            forall|k: int| 0 <= k < i ==> a@[k] == b@[k],
        decreases n - i,
    {
        if a[i] != b[i] {
            return false;
        }
        i = i + 1;
    }
    assert(a@ =~= b@);
    true
}

/// Whether `s` is `GET`.
fn is_get(s: &[char]) -> (r: bool)
    ensures
        r == (s@ == get_method()),
{
    let lit = vec!['G', 'E', 'T'];
    assert(lit@ =~= get_method());
    chars_equal(s, lit.as_slice())
}

/// Whether `s` is `POST` or `PUT`.
fn is_post_or_put(s: &[char]) -> (r: bool)
    ensures
        r == (s@ == post_method() || s@ == put_method()),
{
    let post = vec!['P', 'O', 'S', 'T'];
    let put = vec!['P', 'U', 'T'];
    assert(post@ =~= post_method());
    assert(put@ =~= put_method());
    chars_equal(s, post.as_slice()) || chars_equal(s, put.as_slice())
}

/// The target without its first character (the leading `/` of a path);
/// empty for an empty target.
pub fn remove_first_slash(target: &[char]) -> (r: &[char])
    ensures
        r@ == drop_first_char(target@),
{
    if target.len() == 0 {
        target
    } else {
        let r = &target[1..target.len()];
        assert(r@ =~= target@.drop_first());
        r
    }
}

/// Whether a file name is a call to the API: its part before the first `/`
/// is `api`.
pub fn is_api(requests: &[char]) -> (r: bool)
    ensures
        r == is_api_name(requests@),
{
    let parts = split_chars(requests, '/');
    assert(views(parts@).len() == parts@.len());
    assert(views(parts@)[0] == parts@[0]@);
    let api = vec!['a', 'p', 'i'];
    assert(api@ =~= api_segment());
    chars_equal(parts[0].as_slice(), api.as_slice())
}

/// The kind of resource named by the last path segment of a request.
#[derive(Debug, PartialEq, Eq)]
pub enum ResourceFormat {
    /// The segment holds no `.`.
    NoExtension,
    /// The segment holds one `.`; this is what follows it.
    Extension(Vec<char>),
    /// The segment holds more than one `.`.
    Unrecognized,
}

/// Reads the format of a resource from the last segment of its path.
pub fn resource_format(segment: &[char]) -> (r: ResourceFormat)
    ensures
        match r {
            ResourceFormat::NoExtension => split_on(segment@, '.').len() == 1,
            ResourceFormat::Extension(ext) => split_on(segment@, '.').len() == 2 && ext@
                == split_on(segment@, '.')[1],
            ResourceFormat::Unrecognized => split_on(segment@, '.').len() > 2,
        },
{
    let parts = split_chars(segment, '.');
    if parts.len() == 1 {
        ResourceFormat::NoExtension
    } else if parts.len() == 2 {
        let ext = parts[1].clone();
        assert(ext@ == parts@[1]@);
        ResourceFormat::Extension(ext)
    } else {
        ResourceFormat::Unrecognized
    }
}

/// The file that a target names: `index.html` for `/`, otherwise the
/// target without its first character.
fn filename_of_target(target: &[char]) -> (r: Vec<char>)
    ensures
        r@ == target_filename(target@),
{
    let slash = vec!['/'];
    assert(slash@ =~= seq!['/']);
    if chars_equal(target, slash.as_slice()) {
        let name = vec!['i', 'n', 'd', 'e', 'x', '.', 'h', 't', 'm', 'l'];
        assert(name@ =~= index_page());
        name
    } else {
        to_char_vec(remove_first_slash(target))
    }
}

/// Decides what to do with a request of method `method` and target
/// `target`, whose pieces between `/` are `pieces`.
fn route(method: &[char], target: &[char], pieces: &Vec<Vec<char>>) -> (r: Route)
    requires
        views(pieces@) == split_on(target@, '/'),
        pieces@.len() >= 2,
    ensures
        r@ == route_of(method@, target@),
{
    let filename = filename_of_target(target);
    let n = pieces.len();
    let last = &pieces[n - 1];
    let ghost segments = uri_segments(target@);
    assert(segments.last() == last@);
    if is_api(filename.as_slice()) {
        if is_get(method) {
            let sse = vec!['t', 'e', 's', 't', '_', 's', 's', 'e', '.', 'r', 's'];
            assert(sse@ =~= sse_resource());
            if n > 2 && chars_equal(pieces[2].as_slice(), sse.as_slice()) {
                assert(segments[1] == pieces@[2]@);
                Route::ApiTestSse
            } else {
                assert(n > 2 ==> segments[1] == pieces@[2]@);
                Route::ApiGetFallback
            }
        } else {
            Route::ApiFallback
        }
    } else if is_get(method) {
        let html = vec!['h', 't', 'm', 'l'];
        let jpg = vec!['j', 'p', 'g'];
        assert(html@ =~= html_extension());
        assert(jpg@ =~= jpg_extension());
        match resource_format(last.as_slice()) {
            ResourceFormat::Extension(ext) => {
                if chars_equal(ext.as_slice(), html.as_slice()) {
                    Route::ServeHtml(filename)
                } else if chars_equal(ext.as_slice(), jpg.as_slice()) {
                    Route::ServeJpg(filename)
                } else {
                    Route::NotImplemented
                }
            },
            _ => Route::NotImplemented,
        }
    } else if is_post_or_put(method) {
        Route::NotImplemented
    } else {
        Route::UndefinedMethod
    }
}

/// Decides what to do with a request, given its text.
///
/// The method and the target are the first two words of the text's first
/// line (up to the first `"\r\n"`). Fails when there are fewer than two
/// words, or when the target holds no `/`.
pub fn plan_request(text: &[char]) -> (r: Result<Route, RequestError>)
    ensures
        match r {
            Ok(route) => plan_of_text(text@) == Ok::<RouteView, RequestError>(route@),
            Err(e) => plan_of_text(text@) == Err::<RouteView, RequestError>(e),
        },
{
    let end = first_line_len(text);
    let tokens = words_of_prefix(text, end);
    if tokens.len() < 2 {
        return Err(RequestError::MissingTarget);
    }
    let method = tokens[0].as_slice();
    let target = tokens[1].as_slice();
    assert(method@ == words(first_line(text@))[0]);
    assert(target@ == words(first_line(text@))[1]);
    let pieces = split_chars(target, '/');
    if pieces.len() < 2 {
        return Err(RequestError::TargetWithoutSlash);
    }
    Ok(route(method, target, &pieces))
}

/// Decides what to do with a request, given the bytes read from the
/// connection: they must be valid UTF-8, then as `plan_request`.
pub fn parse_request(bytes: &[u8]) -> (r: Result<Route, RequestError>)
    ensures
        match r {
            Ok(route) => plan_of_bytes(bytes@) == Ok::<RouteView, RequestError>(route@),
            Err(e) => plan_of_bytes(bytes@) == Err::<RouteView, RequestError>(e),
        },
{
    match decode_utf8_chars(bytes) {
        None => Err(RequestError::InvalidUtf8),
        Some(text) => plan_request(text.as_slice()),
    }
}

/// Law: only the request line decides how a request is handled; the
/// headers and the body after the first `"\r\n"` do not matter.
pub proof fn lemma_only_request_line_matters(line: Seq<char>, rest: Seq<char>)
    requires
        !has_crlf(line),
    ensures
        plan_of_text(line + seq!['\r', '\n'] + rest) == plan_of_text(line),
{
    lemma_first_line_of_lines(line, rest);
}

/// Law: a request read as the UTF-8 bytes of a text is handled as the
/// text itself: `parse_request` on the bytes agrees with `plan_request` on
/// the text.
pub proof fn lemma_bytes_of_text(text: Seq<char>)
    ensures
        plan_of_bytes(encode_utf8(text)) == plan_of_text(text),
{
    encode_utf8_valid_utf8(text);
    encode_utf8_decode_utf8(text);
}

/// Law: a GET of a target that is not an API call is routed by the
/// extension of the target's last `/`-separated segment, however many
/// directories come before it: when that segment is `name.ext` with no
/// further `.`, an `html` extension serves the page and a `jpg` extension
/// the image named by the target without its first character, and any
/// other extension is not implemented. (For instance `GET /a/b/c.html`
/// serves `a/b/c.html`.)
pub proof fn lemma_get_routes_by_last_segment(dirs: Seq<char>, name: Seq<char>, ext: Seq<char>)
    requires
        !name.contains('/'),
        !name.contains('.'),
        !ext.contains('/'),
        !ext.contains('.'),
        !is_api_name((dirs + seq!['/'] + name + seq!['.'] + ext).drop_first()),
    ensures
        ({
            let target = dirs + seq!['/'] + name + seq!['.'] + ext;
            &&& split_on(target, '/').len() >= 2
            &&& (ext == html_extension() ==> route_of(get_method(), target) == RouteView::ServeHtml(
                target.drop_first(),
            ))
            &&& (ext == jpg_extension() ==> route_of(get_method(), target) == RouteView::ServeJpg(
                target.drop_first(),
            ))
            &&& (ext != html_extension() && ext != jpg_extension() ==> route_of(
                get_method(),
                target,
            ) == RouteView::NotImplemented)
        }),
{
    let segment = name + seq!['.'] + ext;
    let target = dirs + seq!['/'] + name + seq!['.'] + ext;
    assert(target =~= dirs + seq!['/'] + segment);
    assert(!segment.contains('/')) by {
        if segment.contains('/') {
            let k = choose|k: int| 0 <= k < segment.len() && segment[k] == '/';
            if k < name.len() {
                assert(name[k] == '/');
            } else if k > name.len() {
                assert(ext[k - name.len() - 1] == '/');
            }
        }
    }
    lemma_split_on_last_piece(dirs, segment, '/');
    lemma_split_on_last_piece(name, ext, '.');
    let pieces = split_on(target, '/');
    assert(pieces.len() >= 2);
    let segments = uri_segments(target);
    assert(segments.last() == pieces.last());
    assert(split_on(segments.last(), '.') == seq![name, ext]);
    assert(target.len() >= 2);
    assert(target != seq!['/']);
}

} // verus!
