use oxide_kv::observability::tracer::{NoopTracer, Span, Tracer};

#[test]
fn noop_tracer_returns_span() {
    let t = NoopTracer;
    let _span = t.start_span("raft.append_entries");
}

#[test]
fn span_record_error_is_safe() {
    let mut s = Span::new();
    s.record_error("simulated failure");
}

#[test]
fn trait_is_object_safe() {
    let t: Box<dyn Tracer> = Box::new(NoopTracer);
    let _ = t.start_span("raft.become_leader");
}
