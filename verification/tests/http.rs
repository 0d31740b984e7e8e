use oxide_kv::observability::registry::{Metrics, MetricsError};
use oxide_kv::observability::server::{
    find_double_crlf, handle_request, head_step, http_response, metrics_response, route, HeadStep, Route,
    MAX_HEAD_BYTES,
};

#[test]
fn http_response_formats_status_line_and_headers() {
    let body = b"hello world";
    let resp = http_response(200, "text/plain", body);
    let s = std::str::from_utf8(&resp).expect("utf-8");
    assert!(s.starts_with("HTTP/1.1 200 OK\r\n"), "status line: {}", s);
    assert!(s.contains("Content-Type: text/plain\r\n"), "ct: {}", s);
    assert!(s.contains("Content-Length: 11\r\n"), "len: {}", s);
    assert!(s.contains("Connection: close\r\n"), "conn: {}", s);
    assert!(s.ends_with("hello world"), "body: {}", s);
}

#[test]
fn http_response_handles_404() {
    let resp = http_response(404, "text/plain", b"not found\n");
    let s = std::str::from_utf8(&resp).expect("utf-8");
    assert!(s.starts_with("HTTP/1.1 404 Not Found\r\n"), "status: {}", s);
    assert!(s.contains("Content-Length: 10\r\n"), "len: {}", s);
}

#[test]
fn find_double_crlf_finds_terminator() {
    let buf = b"GET /metrics HTTP/1.1\r\nHost: x\r\n\r\nbody";
    assert_eq!(find_double_crlf(buf), Some(buf.len() - b"body".len() - 4));
}

#[test]
fn find_double_crlf_returns_none_when_missing() {
    let buf = b"GET /metrics HTTP/1.1\r\nHost: x\r\n";
    assert_eq!(find_double_crlf(buf), None);
}

#[test]
fn metrics_endpoint_round_trip() {
    let mut metrics = Metrics::new();
    metrics.raft_term = 13;
    metrics.raft_role = 2;
    let request = b"GET /metrics HTTP/1.1\r\nHost: x\r\n\r\n".to_vec();
    let resp = handle_request(request, &metrics).expect("an answer");
    let s = std::str::from_utf8(&resp).expect("utf-8");
    assert!(s.starts_with("HTTP/1.1 200 OK\r\n"), "status: {}", s);
    assert!(s.contains("oxide_raft_term 13"), "term: {}", s);
    assert!(s.contains("oxide_raft_role 2"), "role: {}", s);
}

#[test]
fn unknown_path_returns_404() {
    let metrics = Metrics::new();
    let request = b"GET /not-metrics HTTP/1.1\r\nHost: x\r\n\r\n".to_vec();
    let resp = handle_request(request, &metrics).expect("an answer");
    let s = std::str::from_utf8(&resp).expect("utf-8");
    assert!(s.starts_with("HTTP/1.1 404 Not Found\r\n"), "status: {}", s);
}

#[test]
fn requests_are_routed_by_method_and_path() {
    assert_eq!(route("GET /metrics HTTP/1.1\r\n\r\n"), Route::Metrics);
    assert_eq!(route("GET /metrics?x=1 HTTP/1.1\r\n\r\n"), Route::Metrics);
    assert_eq!(route("  GET\t/health  HTTP/1.1\r\n\r\n"), Route::Health);
    assert_eq!(route("GET /health?x HTTP/1.1\r\n\r\n"), Route::Health);
    assert_eq!(route("GET /metricsx HTTP/1.1\r\n\r\n"), Route::NotFound);
    assert_eq!(route("POST /metrics HTTP/1.1\r\n\r\n"), Route::NotFound);
    assert_eq!(route("GET\r\n/metrics\r\n\r\n"), Route::NotFound);
    assert_eq!(route("GET\u{2003}/metrics HTTP/1.1\r\n\r\n"), Route::Metrics);
    assert_eq!(route(""), Route::NotFound);
}

#[test]
fn the_liveness_probe_says_ok() {
    let metrics = Metrics::new();
    let resp = handle_request(b"GET /health HTTP/1.1\r\n\r\n".to_vec(), &metrics).unwrap();
    assert_eq!(
        resp,
        b"HTTP/1.1 200 OK\r\nContent-Type: text/plain; charset=utf-8\r\nContent-Length: 3\r\nConnection: close\r\n\r\nok\n"
            .to_vec()
    );
}

#[test]
fn a_head_that_is_no_text_has_no_answer() {
    let metrics = Metrics::new();
    assert!(handle_request(vec![0xff, 0xfe, b'\r', b'\n', b'\r', b'\n'], &metrics).is_none());
}

#[test]
fn a_failure_to_gather_is_a_server_error() {
    let resp = metrics_response(Err(MetricsError::Encoding));
    let s = std::str::from_utf8(&resp).expect("utf-8");
    assert!(s.starts_with("HTTP/1.1 500 Internal Server Error\r\n"), "{}", s);
    assert!(s.ends_with("metrics encode failed: the metrics have no text form"), "{}", s);
    let resp = metrics_response(Err(MetricsError::Registration));
    let s = std::str::from_utf8(&resp).expect("utf-8");
    assert!(s.ends_with("metrics encode failed: a metric was refused"), "{}", s);
}

#[test]
fn heads_are_read_up_to_a_limit() {
    assert_eq!(head_step(b"GET / HTTP/1.1\r\n\r\nbody"), HeadStep::Complete(18));
    assert_eq!(head_step(b"GET / HTTP/1.1\r\n"), HeadStep::More);
    assert_eq!(head_step(&vec![b'a'; MAX_HEAD_BYTES - 1]), HeadStep::More);
    assert_eq!(head_step(&vec![b'a'; MAX_HEAD_BYTES]), HeadStep::TooLong);
}

#[test]
fn other_statuses_have_a_plain_phrase() {
    let resp = http_response(503, "text/plain", b"");
    assert!(resp.starts_with(b"HTTP/1.1 503 Status\r\n"));
}
