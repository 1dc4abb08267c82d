use vstd::prelude::*;
use vstd::string::StringSliceAdditionalSpecFns;

verus! {

broadcast use vstd::seq::group_seq_axioms;

/// Status line and blank line of a successful answer.
pub const OK_STATUS_LINE: &'static str = "HTTP/1.1 200 OK\r\n\r\n";

/// Status line and blank line of an answer for a file that does not exist.
pub const NOT_FOUND_STATUS_LINE: &'static str = "HTTP/1.1 404 NOT FOUND\r\n\r\n";

/// Status line and headers that open a stream of server-sent events.
pub const SSE_STATUS_LINE: &'static str =
    "HTTP/1.1 200 OK\r\nContent-Type: text/event-stream\r\nCache-Control: no-cache\r\n\r\n";

/// The event that the test stream sends.
pub const SSE_EVENT: &'static str = "data: <img src=\"image/test.jpg\" alt=\"sample\">\r\n\r\n";

/// The answer to requests that the server does not handle.
pub const NOT_IMPLEMENTED: &'static str = "NOT IMPLEMENTED";

/// The page served in place of a file that does not exist.
pub open spec fn not_found_page() -> Seq<char> {
    seq!['n', 'o', 't', '_', 'f', 'o', 'u', 'n', 'd', '.', 'h', 't', 'm', 'l']
}

/// The status line of an answer that serves a file: `200 OK` when the file
/// exists, `404 NOT FOUND` otherwise.
pub fn file_status_line(found: bool) -> (r: &'static str)
    ensures
        found ==> r@ == OK_STATUS_LINE@,
        !found ==> r@ == NOT_FOUND_STATUS_LINE@,
{
    if found {
        OK_STATUS_LINE
    } else {
        NOT_FOUND_STATUS_LINE
    }
}

/// The status line and the file to send for a request of `filename`:
/// the file itself with `200 OK` when it exists, otherwise `not_found.html`
/// with `404 NOT FOUND`.
pub fn page_to_serve(filename: &[char], found: bool) -> (r: (&'static str, Vec<char>))
    ensures
        found ==> r.0@ == OK_STATUS_LINE@ && r.1@ == filename@,
        !found ==> r.0@ == NOT_FOUND_STATUS_LINE@ && r.1@ == not_found_page(),
{
    if found {
        (file_status_line(true), crate::text::to_char_vec(filename))
    } else {
        let page = vec!['n', 'o', 't', '_', 'f', 'o', 'u', 'n', 'd', '.', 'h', 't', 'm', 'l'];
        assert(page@ =~= not_found_page());
        (file_status_line(false), page)
    }
}

/// An answer: the UTF-8 bytes of the status line (with its headers),
/// followed by the body.
pub fn build_response(status: &str, body: &[u8]) -> (r: Vec<u8>)
    ensures
        r@ == status.spec_bytes() + body@,
{
    let head = status.as_bytes();
    let mut r: Vec<u8> = Vec::new();
    let mut i: usize = 0;
    while i < head.len()
        invariant
            i <= head@.len(),
            r@ == head@.take(i as int),
        decreases head@.len() - i,
    {
        r.push(head[i]);
        i = i + 1;
        assert(r@ =~= head@.take(i as int));
    }
    assert(head@.take(head@.len() as int) =~= head@);
    let mut j: usize = 0;
    while j < body.len()
        invariant
            j <= body@.len(),
            r@ == head@ + body@.take(j as int),
        decreases body@.len() - j,
    {
        r.push(body[j]);
        j = j + 1;
        assert(r@ =~= head@ + body@.take(j as int));
    }
    assert(body@.take(body@.len() as int) =~= body@);
    r
}

/// One message of the test stream of server-sent events: the headers of the
/// stream followed by the event (the stream repeats both each time).
pub fn sse_frame() -> (r: Vec<u8>)
    ensures
        r@ == SSE_STATUS_LINE.spec_bytes() + SSE_EVENT.spec_bytes(),
{
    build_response(SSE_STATUS_LINE, SSE_EVENT.as_bytes())
}

} // verus!
