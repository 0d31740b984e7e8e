use oxide_kv::observability::registry::{Metrics, MetricsError};

#[test]
fn new_registers_all_metrics() {
    let m = Metrics::with_peers(&vec!["127.0.0.1:9002".to_string()]);
    let buf = m.gather_text().expect("encode");
    let s = std::str::from_utf8(&buf).expect("utf-8");
    assert!(s.contains("oxide_raft_term"), "missing raft_term: {}", s);
    assert!(
        s.contains("oxide_raft_commit_index"),
        "missing raft_commit_index"
    );
    assert!(
        s.contains("oxide_raft_last_applied"),
        "missing raft_last_applied"
    );
    assert!(
        s.contains("oxide_raft_log_length"),
        "missing raft_log_length"
    );
    assert!(s.contains("oxide_raft_role"), "missing raft_role");
    assert!(
        s.contains("oxide_raft_snapshot_age_seconds"),
        "missing raft_snapshot_age_seconds"
    );
    assert!(
        s.contains("oxide_raft_snapshot_bytes"),
        "missing raft_snapshot_bytes"
    );
    assert!(
        s.contains("oxide_tx_pending_count"),
        "missing tx_pending_count"
    );
    assert!(
        s.contains("oxide_tx_timeout_aborted_total"),
        "missing tx_timeout_aborted_total"
    );
    assert!(
        s.contains("oxide_tx_admin_aborted_total"),
        "missing tx_admin_aborted_total"
    );
    assert!(
        s.contains("oxide_peer_match_index"),
        "missing peer_match_index"
    );
    assert!(
        s.contains("oxide_peer_next_index"),
        "missing peer_next_index"
    );
}

#[test]
fn typed_setters_appear_in_gather() {
    let mut m = Metrics::with_peers(&vec!["127.0.0.1:9002".to_string()]);
    m.raft_term = 7;
    m.raft_commit_index = 42;
    m.raft_log_length = 99;
    m.raft_role = 2;
    m.set_peer_match_index("127.0.0.1:9002", 17);
    m.set_peer_next_index("127.0.0.1:9002", 18);
    m.tx_pending_count = 3;
    m.tx_admin_aborted_total += 1;

    let buf = m.gather_text().expect("encode");
    let s = std::str::from_utf8(&buf).expect("utf-8");

    assert!(
        s.lines()
            .any(|l| l.starts_with("oxide_raft_term ") && l.ends_with(" 7")),
        "raft_term value missing:\n{}",
        s
    );
    assert!(
        s.lines()
            .any(|l| l.starts_with("oxide_raft_commit_index ") && l.ends_with(" 42")),
        "commit_index missing:\n{}",
        s
    );
    assert!(
        s.lines().any(|l| l.starts_with("oxide_peer_match_index{")
            && l.contains("9002")
            && l.ends_with(" 17")),
        "peer_match_index missing:\n{}",
        s
    );
    assert!(
        s.lines()
            .any(|l| l.starts_with("oxide_tx_admin_aborted_total ") && l.ends_with(" 1")),
        "admin_aborted_total missing:\n{}",
        s
    );
}

#[test]
fn counters_are_monotonic() {
    let mut m = Metrics::new();
    m.tx_timeout_aborted_total += 3;
    m.tx_admin_aborted_total += 1;
    let buf = m.gather_text().expect("encode");
    let s = std::str::from_utf8(&buf).expect("utf-8");
    assert!(
        s.lines()
            .any(|l| l.starts_with("oxide_tx_timeout_aborted_total ") && l.ends_with(" 3")),
        "timeout counter wrong:\n{}",
        s
    );
    assert!(
        s.lines()
            .any(|l| l.starts_with("oxide_tx_admin_aborted_total ") && l.ends_with(" 1")),
        "admin counter wrong:\n{}",
        s
    );
}

#[test]
fn registry_with_custom_namespace() {
    let m = Metrics::new();
    let buf = m.gather_text().expect("encode");
    let s = std::str::from_utf8(&buf).expect("utf-8");
    assert!(
        s.contains("# HELP oxide_raft_term"),
        "namespace prefix missing on HELP: {}",
        s
    );
    assert!(
        s.contains("oxide_raft_term 0"),
        "namespace prefix missing on value line: {}",
        s
    );
    assert!(
        !s.contains("# HELP raft_term\n"),
        "unprefixed HELP line leaked: {}",
        s
    );
}

#[test]
fn an_unknown_peer_gets_no_match_index_gauge() {
    let mut m = Metrics::with_peers(&vec!["n2".to_string()]);
    m.set_peer_match_index("n3", 5);
    m.set_peer_next_index("n3", 6);
    let buf = m.gather_text().expect("encode");
    let s = std::str::from_utf8(&buf).expect("utf-8");
    assert!(s.contains("oxide_peer_match_index{peer=\"n2\"} 0"), "{}", s);
    assert!(!s.contains("oxide_peer_match_index{peer=\"n3\"}"), "{}", s);
    assert!(s.contains("oxide_peer_next_index{peer=\"n3\"} 6"), "{}", s);
}

#[test]
fn nothing_is_known_of_snapshots_before_the_first() {
    let m = Metrics::new();
    let buf = m.gather_text().expect("encode");
    let s = std::str::from_utf8(&buf).expect("utf-8");
    assert!(s.contains("oxide_raft_snapshot_age_seconds -1"), "{}", s);
    assert!(s.contains("oxide_raft_snapshot_bytes -1"), "{}", s);
}

#[test]
fn a_name_is_registered_once() {
    let m = Metrics::new();
    let mut list = m.metrics();
    list.push(Metrics::new().metrics().remove(0));
    assert_eq!(
        oxide_kv::observability::registry::expose("oxide", &list),
        Err(MetricsError::Registration)
    );
}
