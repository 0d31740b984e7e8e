//! The HTTP endpoint that shows the metrics.

use crate::message::text_from_utf8;
use crate::observability::registry::{Metrics, MetricsError};
use crate::text::{chars_of, occurs_here, push_decimal};
use vstd::prelude::*;
use vstd::slice::{slice_subrange, slice_to_vec};

verus! {

broadcast use vstd::string::group_string_axioms;

/// The longest head of a request that is read, in bytes.
pub const MAX_HEAD_BYTES: usize = 8_192;

// ---- the head of a request ----

/// Two line ends in a row.
pub open spec fn blank_line() -> Seq<u8> {
    seq![13u8, 10u8, 13u8, 10u8]
}

/// The first blank line of `bytes` stands at `at`.
pub open spec fn blank_line_first_at(bytes: Seq<u8>, at: int) -> bool {
    &&& crate::text::occurs_at(bytes, blank_line(), at)
    &&& forall|k: int| k < at ==> !#[trigger] crate::text::occurs_at(bytes, blank_line(), k)
}

/// `bytes` have no blank line.
pub open spec fn no_blank_line(bytes: Seq<u8>) -> bool {
    forall|k: int| !#[trigger] crate::text::occurs_at(bytes, blank_line(), k)
}

/// Finds the blank line that ends the head of a request.
pub fn find_double_crlf(buf: &[u8]) -> (found: Option<usize>)
    ensures
        match found {
            Some(at) => blank_line_first_at(buf@, at as int),
            None => no_blank_line(buf@),
        },
{
    let mut at: usize = 0;
    while at < buf.len() && buf.len() - at >= 4
        invariant
            at <= buf@.len(),
            forall|k: int| k < at ==> !#[trigger] crate::text::occurs_at(buf@, blank_line(), k),
        decreases buf@.len() - at,
    {
        if buf[at] == 13 && buf[at + 1] == 10 && buf[at + 2] == 13 && buf[at + 3] == 10 {
            assert(buf@.subrange(at as int, at + 4) =~= blank_line());
            return Some(at);
        }
        assert(!crate::text::occurs_at(buf@, blank_line(), at as int)) by {
            if crate::text::occurs_at(buf@, blank_line(), at as int) {
                let w = buf@.subrange(at as int, at + 4);
                assert(w[0] == 13 && w[1] == 10 && w[2] == 13 && w[3] == 10);
            }
        }
        at = at + 1;
    }
    None
}

/// How far a request has been read.
#[derive(Debug, Clone, Copy, PartialEq, Eq, Structural)]
pub enum HeadStep {
    /// The head has that many bytes.
    Complete(usize),
    /// The head goes on.
    More,
    /// The head is longer than any that is read; the connection is dropped.
    TooLong,
}

/// How far a request has been read.
pub fn head_step(buf: &[u8]) -> (step: HeadStep)
    ensures
        match step {
            HeadStep::Complete(end) => end >= 4 && blank_line_first_at(buf@, end - 4),
            HeadStep::More => no_blank_line(buf@) && buf@.len() < MAX_HEAD_BYTES,
            HeadStep::TooLong => no_blank_line(buf@) && buf@.len() >= MAX_HEAD_BYTES,
        },
{
    let read: usize = buf.len();
    match find_double_crlf(buf) {
        Some(at) => {
            assert(at + 4 <= read);
            HeadStep::Complete(at + 4)
        },
        None => if read >= MAX_HEAD_BYTES {
            HeadStep::TooLong
        } else {
            HeadStep::More
        },
    }
}

// ---- the request line ----

/// Unicode white space.
pub open spec fn blank(c: char) -> bool {
    ||| '\t' <= c <= '\r'
    ||| c == ' '
    ||| c == '\u{85}'
    ||| c == '\u{a0}'
    ||| c == '\u{1680}'
    ||| '\u{2000}' <= c <= '\u{200a}'
    ||| c == '\u{2028}'
    ||| c == '\u{2029}'
    ||| c == '\u{202f}'
    ||| c == '\u{205f}'
    ||| c == '\u{3000}'
}

fn is_blank(c: char) -> (is: bool)
    ensures
        is == blank(c),
{
    ('\t' <= c && c <= '\r') || c == ' ' || c == '\u{85}' || c == '\u{a0}' || c == '\u{1680}' || ('\u{2000}' <= c
        && c <= '\u{200a}') || c == '\u{2028}' || c == '\u{2029}' || c == '\u{202f}' || c == '\u{205f}' || c
        == '\u{3000}'
}

/// The end of the first line.
pub open spec fn line_end(s: Seq<char>, from: int) -> int
    decreases s.len() - from,
{
    if from >= s.len() || (from + 1 < s.len() && s[from] == '\r' && s[from + 1] == '\n') {
        from
    } else {
        line_end(s, from + 1)
    }
}

/// The end of the run of blanks, or of other characters, that begins at `from`.
pub open spec fn run_end(s: Seq<char>, from: int, blanks: bool) -> int
    decreases s.len() - from,
{
    if from >= s.len() || blank(s[from]) != blanks {
        from
    } else {
        run_end(s, from + 1, blanks)
    }
}

/// The bounds of the first word from `from` on.
pub open spec fn word_at(s: Seq<char>, from: int) -> (int, int) {
    let start = run_end(s, from, true);
    (start, run_end(s, start, false))
}

/// The first two words of the first line of a request: the method and the path.
pub open spec fn request_of(head: Seq<char>) -> (Seq<char>, Seq<char>) {
    let line = head.take(line_end(head, 0));
    let (a, b) = word_at(line, 0);
    let (c, d) = word_at(line, b);
    (line.subrange(a, b), line.subrange(c, d))
}

/// What a request asks for.
#[derive(Debug, Clone, Copy, PartialEq, Eq, Structural)]
pub enum Route {
    Metrics,
    Health,
    NotFound,
}

/// The path names `place`, with or without a query.
pub open spec fn names_place(path: Seq<char>, place: Seq<char>, with_query: Seq<char>) -> bool {
    path == place || crate::text::starts_with_text(path, with_query)
}

/// What a request asks for.
pub open spec fn route_of(head: Seq<char>) -> Route {
    let (method, path) = request_of(head);
    if method == "GET"@ && names_place(path, "/metrics"@, "/metrics?"@) {
        Route::Metrics
    } else if method == "GET"@ && names_place(path, "/health"@, "/health?"@) {
        Route::Health
    } else {
        Route::NotFound
    }
}

fn find_line_end(s: &Vec<char>) -> (end: usize)
    ensures
        end == line_end(s@, 0),
        end <= s@.len(),
{
    let mut i: usize = 0;
    while i < s.len()
        invariant
            i <= s@.len(),
            line_end(s@, 0) == line_end(s@, i as int),
        decreases s@.len() - i,
    {
        if s.len() - i > 1 && s[i] == '\r' && s[i + 1] == '\n' {
            return i;
        }
        i = i + 1;
    }
    i
}

fn find_run_end(s: &Vec<char>, from: usize, blanks: bool) -> (end: usize)
    requires
        from <= s@.len(),
    ensures
        end == run_end(s@, from as int, blanks),
        from <= end <= s@.len(),
{
    let mut i: usize = from;
    while i < s.len()
        invariant
            from <= i <= s@.len(),
            run_end(s@, from as int, blanks) == run_end(s@, i as int, blanks),
        decreases s@.len() - i,
    {
        if is_blank(s[i]) != blanks {
            return i;
        }
        i = i + 1;
    }
    i
}

/// Whether the characters from `start` to `end` are `word`.
fn word_is(s: &Vec<char>, start: usize, end: usize, word: &str) -> (is: bool)
    requires
        start <= end <= s@.len(),
    ensures
        is == (s@.subrange(start as int, end as int) == word@),
{
    let chars = chars_of(word);
    chars.len() == end - start && occurs_here(s, &chars, start)
}

/// Whether the characters from `start` to `end` begin with `prefix`.
fn word_starts_with(s: &Vec<char>, start: usize, end: usize, prefix: &str) -> (is: bool)
    requires
        start <= end <= s@.len(),
    ensures
        is == crate::text::starts_with_text(s@.subrange(start as int, end as int), prefix@),
{
    let chars = chars_of(prefix);
    let ghost word = s@.subrange(start as int, end as int);
    proof {
        if chars@.len() <= end - start {
            assert(word.subrange(0, chars@.len() as int) =~= s@.subrange(start as int, start + chars@.len()));
        }
    }
    chars.len() <= end - start && occurs_here(s, &chars, start)
}

/// Reads what a request asks for out of its head.
pub fn route(head: &str) -> (asked: Route)
    ensures
        asked == route_of(head@),
{
    let chars = chars_of(head);
    let end: usize = find_line_end(&chars);
    let line: Vec<char> = slice_to_vec(slice_subrange(chars.as_slice(), 0, end));
    assert(line@ =~= head@.take(line_end(head@, 0)));
    let a: usize = find_run_end(&line, 0, true);
    let b: usize = find_run_end(&line, a, false);
    let c: usize = find_run_end(&line, b, true);
    let d: usize = find_run_end(&line, c, false);
    if !word_is(&line, a, b, "GET") {
        return Route::NotFound;
    }
    if word_is(&line, c, d, "/metrics") || word_starts_with(&line, c, d, "/metrics?") {
        Route::Metrics
    } else if word_is(&line, c, d, "/health") || word_starts_with(&line, c, d, "/health?") {
        Route::Health
    } else {
        Route::NotFound
    }
}

// ---- the response ----

/// The phrase of a status.
pub open spec fn reason_of(status: u16) -> Seq<char> {
    if status == 200 {
        "OK"@
    } else if status == 404 {
        "Not Found"@
    } else if status == 500 {
        "Internal Server Error"@
    } else {
        "Status"@
    }
}

/// The head of a response.
pub open spec fn response_head(status: u16, content_type: Seq<char>, length: nat) -> Seq<char> {
    "HTTP/1.1 "@ + crate::text::decimal(status as nat) + " "@ + reason_of(status) + "\r\nContent-Type: "@ + content_type
        + "\r\nContent-Length: "@ + crate::text::decimal(length) + "\r\nConnection: close\r\n\r\n"@
}

/// A response.
pub open spec fn response_bytes(status: u16, content_type: Seq<char>, body: Seq<u8>) -> Seq<u8> {
    vstd::utf8::encode_utf8(response_head(status, content_type, body.len())) + body
}

/// A response with that status, type and body, after which the connection is
/// closed.
pub fn http_response(status: u16, content_type: &str, body: &[u8]) -> (response: Vec<u8>)
    ensures
        response@ == response_bytes(status, content_type@, body@),
{
    let reason = if status == 200 {
        "OK"
    } else if status == 404 {
        "Not Found"
    } else if status == 500 {
        "Internal Server Error"
    } else {
        "Status"
    };
    let mut head = "HTTP/1.1 ".to_owned();
    push_decimal(&mut head, status as u64);
    head.append(" ");
    head.append(reason);
    head.append("\r\nContent-Type: ");
    head.append(content_type);
    head.append("\r\nContent-Length: ");
    push_decimal(&mut head, body.len() as u64);
    head.append("\r\nConnection: close\r\n\r\n");
    let mut response: Vec<u8> = slice_to_vec(head.as_str().as_bytes());
    response.extend_from_slice(body);
    assert(response@ =~= response_bytes(status, content_type@, body@));
    response
}

/// The text of a failure to show the metrics.
pub open spec fn failure_text(error: MetricsError) -> Seq<char> {
    "metrics encode failed: "@ + (match error {
        MetricsError::Registration => "a metric was refused"@,
        MetricsError::Encoding => "the metrics have no text form"@,
    })
}

/// The response to a request for the metrics.
pub open spec fn metrics_page(gathered: Result<Seq<u8>, MetricsError>) -> Seq<u8> {
    match gathered {
        Ok(body) => response_bytes(200, "text/plain; version=0.0.4; charset=utf-8"@, body),
        Err(error) => response_bytes(
            500,
            "text/plain; charset=utf-8"@,
            vstd::utf8::encode_utf8(failure_text(error)),
        ),
    }
}

/// The response to a request for the metrics, whose text is `gathered`.
pub fn metrics_response(gathered: Result<Vec<u8>, MetricsError>) -> (response: Vec<u8>)
    ensures
        response@ == metrics_page(
            match gathered {
                Ok(body) => Ok(body@),
                Err(error) => Err(error),
            },
        ),
{
    match gathered {
        Ok(body) => http_response(200, "text/plain; version=0.0.4; charset=utf-8", body.as_slice()),
        Err(error) => {
            let mut text = "metrics encode failed: ".to_owned();
            text.append(
                match error {
                    MetricsError::Registration => "a metric was refused",
                    MetricsError::Encoding => "the metrics have no text form",
                },
            );
            http_response(500, "text/plain; charset=utf-8", text.as_str().as_bytes())
        },
    }
}

/// The response to a request with that head.
pub open spec fn page(head: Seq<char>, gathered: Result<Seq<u8>, MetricsError>) -> Seq<u8> {
    match route_of(head) {
        Route::Metrics => metrics_page(gathered),
        Route::Health => response_bytes(200, "text/plain; charset=utf-8"@, vstd::utf8::encode_utf8("ok\n"@)),
        Route::NotFound => response_bytes(
            404,
            "text/plain; charset=utf-8"@,
            vstd::utf8::encode_utf8("not found\n"@),
        ),
    }
}

/// Answers the request with that head; there is no answer to one that is not
/// UTF-8.
pub fn handle_request(head: Vec<u8>, metrics: &Metrics) -> (response: Option<Vec<u8>>)
    ensures
        match response {
            Some(bytes) => vstd::utf8::valid_utf8(head@) && bytes@ == page(
                vstd::utf8::decode_utf8(head@),
                crate::observability::registry::metrics_text("oxide"@, metrics.metric_list()),
            ),
            None => !vstd::utf8::valid_utf8(head@),
        },
{
    match text_from_utf8(head) {
        None => None,
        Some(text) => Some(
            match route(text.as_str()) {
                Route::Metrics => metrics_response(metrics.gather_text()),
                Route::Health => http_response(200, "text/plain; charset=utf-8", "ok\n".as_bytes()),
                Route::NotFound => http_response(404, "text/plain; charset=utf-8", "not found\n".as_bytes()),
            },
        ),
    }
}

/// Every request but a `GET` of the metrics or of the liveness probe is
/// answered with 404, whatever the metrics are.
pub proof fn other_requests_are_not_found(head: Seq<char>, gathered: Result<Seq<u8>, MetricsError>)
    requires
        ({
            let (method, path) = request_of(head);
            method != "GET"@ || !(names_place(path, "/metrics"@, "/metrics?"@) || names_place(
                path,
                "/health"@,
                "/health?"@,
            ))
        }),
    ensures
        page(head, gathered) == response_bytes(
            404,
            "text/plain; charset=utf-8"@,
            vstd::utf8::encode_utf8("not found\n"@),
        ),
{
}

/// A `GET` of the metrics is answered with their text.
pub proof fn metrics_are_shown(head: Seq<char>, text: Seq<u8>)
    requires
        request_of(head) == ("GET"@, "/metrics"@),
    ensures
        page(head, Ok(text)) == response_bytes(200, "text/plain; version=0.0.4; charset=utf-8"@, text),
{
}

proof fn line_goes_on(s: Seq<char>, from: int, to: int)
    requires
        0 <= from <= to <= s.len(),
        forall|i: int| from <= i < to ==> #[trigger] s[i] != '\r',
    ensures
        line_end(s, from) == line_end(s, to),
        from <= line_end(s, to),
    decreases to - from,
{
    if from < to {
        line_goes_on(s, from + 1, to);
    } else {
        line_end_is_behind(s, to);
    }
}

proof fn line_end_is_behind(s: Seq<char>, from: int)
    requires
        0 <= from <= s.len(),
    ensures
        from <= line_end(s, from) <= s.len(),
    decreases s.len() - from,
{
    if !(from >= s.len() || (from + 1 < s.len() && s[from] == '\r' && s[from + 1] == '\n')) {
        line_end_is_behind(s, from + 1);
    }
}

proof fn run_goes_to(s: Seq<char>, from: int, to: int, blanks: bool)
    requires
        0 <= from <= to <= s.len(),
        forall|i: int| from <= i < to ==> blank(#[trigger] s[i]) == blanks,
        to < s.len() ==> blank(s[to]) != blanks,
    ensures
        run_end(s, from, blanks) == to,
    decreases to - from,
{
    if from < to {
        run_goes_to(s, from + 1, to, blanks);
    }
}

/// The method and the path of a request are the first two words of its first
/// line, as the client wrote them.
pub proof fn requests_are_read_by_their_words(method: Seq<char>, path: Seq<char>, rest: Seq<char>)
    requires
        method.len() > 0,
        path.len() > 0,
        forall|i: int| 0 <= i < method.len() ==> !blank(#[trigger] method[i]),
        forall|i: int| 0 <= i < path.len() ==> !blank(#[trigger] path[i]),
    ensures
        request_of(method + seq![' '] + path + seq![' '] + rest) == (method, path),
        request_of(method + seq![' '] + path) == (method, path),
        request_of(method + seq![' '] + path + seq!['\r', '\n'] + rest) == (method, path),
{
    words_are_read(method, path, seq![' '] + rest);
    assert(method + seq![' '] + path + (seq![' '] + rest) =~= method + seq![' '] + path + seq![' '] + rest);
    words_are_read(method, path, Seq::empty());
    assert(method + seq![' '] + path + Seq::<char>::empty() =~= method + seq![' '] + path);
    words_are_read(method, path, seq!['\r', '\n'] + rest);
    assert(method + seq![' '] + path + (seq!['\r', '\n'] + rest) =~= method + seq![' '] + path + seq!['\r', '\n']
        + rest);
}

proof fn words_are_read(method: Seq<char>, path: Seq<char>, after: Seq<char>)
    requires
        method.len() > 0,
        path.len() > 0,
        forall|i: int| 0 <= i < method.len() ==> !blank(#[trigger] method[i]),
        forall|i: int| 0 <= i < path.len() ==> !blank(#[trigger] path[i]),
        after.len() > 0 ==> blank(after[0]),
    ensures
        request_of(method + seq![' '] + path + after) == (method, path),
{
    let head = method + seq![' '] + path + after;
    let m = method.len() as int;
    let p = m + 1 + path.len();
    assert forall|i: int| 0 <= i < p implies #[trigger] head[i] != '\r' by {
        if i < m {
            assert(head[i] == method[i]);
            assert(!blank(method[i]));
        } else if i > m {
            assert(head[i] == path[i - m - 1]);
            assert(!blank(path[i - m - 1]));
        }
    }
    line_goes_on(head, 0, p);
    line_end_is_behind(head, p);
    let line = head.take(line_end(head, 0));
    assert(forall|i: int| 0 <= i < m ==> #[trigger] line[i] == method[i]);
    assert(line[m] == ' ');
    assert(forall|i: int| m + 1 <= i < p ==> #[trigger] line[i] == path[i - m - 1]);
    if p < line.len() {
        assert(line[p] == after[0]);
    }
    run_goes_to(line, 0, 0, true);
    run_goes_to(line, 0, m, false);
    run_goes_to(line, m, m + 1, true);
    run_goes_to(line, m + 1, p, false);
    assert(line.subrange(0, m) =~= method);
    assert(line.subrange(m + 1, p) =~= path);
}

/// Which page a `GET` shows: the metrics or the liveness probe, by the path up to
/// a question mark, and nothing at any other path.
pub proof fn pages_are_found_by_their_path(path: Seq<char>, query: Seq<char>, rest: Seq<char>)
    requires
        path.len() > 0,
        forall|i: int| 0 <= i < path.len() ==> !blank(#[trigger] path[i]),
        forall|i: int| 0 <= i < path.len() ==> path[i] != '?',
        forall|i: int| 0 <= i < query.len() ==> !blank(#[trigger] query[i]),
    ensures
        ({
            let plain = route_of("GET"@ + seq![' '] + path + seq![' '] + rest);
            let asked = route_of("GET"@ + seq![' '] + (path + seq!['?'] + query) + seq![' '] + rest);
            &&& plain == Route::Metrics <==> path == "/metrics"@
            &&& plain == Route::Health <==> path == "/health"@
            &&& asked == plain
        }),
{
    reveal_strlit("GET");
    reveal_strlit("/metrics");
    reveal_strlit("/metrics?");
    reveal_strlit("/health");
    reveal_strlit("/health?");
    assert("GET"@ =~= seq!['G', 'E', 'T']);
    requests_are_read_by_their_words("GET"@, path, rest);
    let full = path + seq!['?'] + query;
    assert forall|i: int| 0 <= i < full.len() implies !blank(#[trigger] full[i]) by {
        if i < path.len() {
            assert(full[i] == path[i]);
        } else if i > path.len() {
            assert(full[i] == query[i - path.len() - 1]);
        }
    }
    requests_are_read_by_their_words("GET"@, full, rest);
    assert("/metrics"@.len() == 8 && "/metrics"@[1] == 'm');
    assert("/health"@.len() == 7 && "/health"@[1] == 'h');
    places_are_named(path, query, "/metrics"@, "/metrics?"@);
    places_are_named(path, query, "/health"@, "/health?"@);
}

proof fn places_are_named(path: Seq<char>, query: Seq<char>, place: Seq<char>, with_query: Seq<char>)
    requires
        forall|i: int| 0 <= i < path.len() ==> path[i] != '?',
        forall|i: int| 0 <= i < place.len() ==> place[i] != '?',
        with_query =~= place + seq!['?'],
    ensures
        names_place(path, place, with_query) <==> path == place,
        names_place(path + seq!['?'] + query, place, with_query) <==> path == place,
{
    let full = path + seq!['?'] + query;
    let n = place.len() as int;
    assert(with_query[n] == '?');
    if crate::text::starts_with_text(path, with_query) {
        assert(path.subrange(0, n + 1)[n] == path[n]);
    }
    assert(full[path.len() as int] == '?');
    if full == place {
        assert(place[path.len() as int] == '?');
    }
    if path == place {
        assert(full.subrange(0, n + 1) =~= with_query);
    }
    if crate::text::starts_with_text(full, with_query) {
        let begun = full.subrange(0, n + 1);
        assert(begun == with_query);
        assert(full[n] == begun[n]);
        assert(path.len() == n) by {
            if path.len() > n {
                assert(full[n] == path[n]);
            }
            if path.len() < n {
                assert(begun[path.len() as int] == full[path.len() as int]);
                assert(with_query[path.len() as int] == place[path.len() as int]);
            }
        }
        assert forall|i: int| 0 <= i < n implies path[i] == place[i] by {
            assert(begun[i] == full[i]);
            assert(with_query[i] == place[i]);
        }
        assert(path =~= place);
    }
}

/// A response ends in its body, as it was given.
pub proof fn responses_end_in_their_body(status: u16, content_type: Seq<char>, body: Seq<u8>)
    ensures
        ({
            let bytes = response_bytes(status, content_type, body);
            let head = bytes.len() - body.len();
            &&& head > 0
            &&& bytes.skip(head) == body
            &&& bytes.take(head) == vstd::utf8::encode_utf8(
                "HTTP/1.1 "@ + crate::text::decimal(status as nat) + " "@ + (if status == 200 {
                    "OK"@
                } else if status == 404 {
                    "Not Found"@
                } else if status == 500 {
                    "Internal Server Error"@
                } else {
                    "Status"@
                }) + "\r\nContent-Type: "@ + content_type + "\r\nContent-Length: "@ + crate::text::decimal(body.len())
                    + "\r\nConnection: close\r\n\r\n"@,
            )
        }),
{
    let head = response_head(status, content_type, body.len());
    reveal_strlit("HTTP/1.1 ");
    assert(head.len() > 0);
    reveal_with_fuel(vstd::utf8::encode_utf8, 2);
    let bytes = response_bytes(status, content_type, body);
    assert(bytes.skip(bytes.len() - body.len()) =~= body);
    assert(bytes.take(bytes.len() - body.len()) =~= vstd::utf8::encode_utf8(head));
}

/// Where the head of a request ends: behind the first carriage return and line
/// feed that another such pair follows.
pub proof fn heads_end_at_the_first_blank_line(bytes: Seq<u8>, at: int)
    requires
        0 <= at,
        at + 4 <= bytes.len(),
        bytes[at] == 13 && bytes[at + 1] == 10 && bytes[at + 2] == 13 && bytes[at + 3] == 10,
        forall|k: int|
            0 <= k < at ==> !(bytes[k] == 13 && bytes[k + 1] == 10 && bytes[k + 2] == 13 && #[trigger] bytes[k + 3] == 10),
    ensures
        blank_line_first_at(bytes, at),
        !no_blank_line(bytes),
{
    assert(bytes.subrange(at, at + 4) =~= blank_line());
    assert(crate::text::occurs_at(bytes, blank_line(), at));
    assert forall|k: int| k < at implies !#[trigger] crate::text::occurs_at(bytes, blank_line(), k) by {
        if crate::text::occurs_at(bytes, blank_line(), k) {
            let w = bytes.subrange(k, k + 4);
            assert(w[0] == 13 && w[1] == 10 && w[2] == 13 && w[3] == 10);
            assert(bytes[k + 3] == 10);
        }
    }
}

/// The pages: the text of the metrics, or why there is none; the liveness probe;
/// and nothing else.
pub proof fn pages_hold_what_was_asked_for(head: Seq<char>, text: Seq<u8>, error: MetricsError)
    ensures
        route_of(head) == Route::Metrics ==> page(head, Ok(text)) == response_bytes(
            200,
            "text/plain; version=0.0.4; charset=utf-8"@,
            text,
        ),
        route_of(head) == Route::Metrics ==> page(head, Err(error)) == response_bytes(
            500,
            "text/plain; charset=utf-8"@,
            vstd::utf8::encode_utf8(
                "metrics encode failed: "@ + if error == MetricsError::Registration {
                    "a metric was refused"@
                } else {
                    "the metrics have no text form"@
                },
            ),
        ),
        route_of(head) == Route::Health ==> page(head, Ok(text)) == response_bytes(
            200,
            "text/plain; charset=utf-8"@,
            vstd::utf8::encode_utf8("ok\n"@),
        ),
        route_of(head) == Route::NotFound ==> page(head, Ok(text)) == response_bytes(
            404,
            "text/plain; charset=utf-8"@,
            vstd::utf8::encode_utf8("not found\n"@),
        ),
{
}

} // verus!
