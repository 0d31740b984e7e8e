use oxide_kv::raft::net::{classify_rpc_err, classify_texts, rpc_timeout_ms, TransportError};
use oxide_kv::raft::rpc::{
    AppendEntriesArgs, InstallSnapshotReplyArgs, RaftMessage, RequestVoteArgs,
};
use oxide_kv::time::Duration;

#[test]
fn classify_rpc_err_connection_refused_is_unreachable() {
    let err = anyhow::Error::msg("Connection refused (os error 61)");
    match classify_rpc_err(err) {
        TransportError::Unreachable(_) => {}
        other => panic!("expected Unreachable, got {:?}", other),
    }
}

#[test]
fn classify_rpc_err_deadline_is_timeout() {
    let err = anyhow::Error::msg("deadline has elapsed");
    match classify_rpc_err(err) {
        TransportError::Timeout(_) => {}
        other => panic!("expected Timeout, got {:?}", other),
    }
}

#[test]
fn classify_rpc_err_other_is_protocol() {
    let err = anyhow::Error::msg("malformed envelope");
    match classify_rpc_err(err) {
        TransportError::Protocol(_) => {}
        other => panic!("expected Protocol, got {:?}", other),
    }
}

#[test]
fn classified_errors_keep_their_message() {
    let err = anyhow::Error::msg("Connection refused (os error 61)");
    assert_eq!(
        classify_rpc_err(err),
        TransportError::Unreachable("Connection refused (os error 61)".to_string())
    );
    let err = anyhow::Error::msg("malformed envelope");
    assert_eq!(classify_rpc_err(err), TransportError::Protocol("malformed envelope".to_string()));
}

#[test]
fn causes_count_but_are_not_shown() {
    let err = anyhow::Error::msg("No route to host").context("dialing n2");
    assert_eq!(classify_rpc_err(err), TransportError::Unreachable("dialing n2".to_string()));
}

#[test]
fn every_word_of_a_timeout_is_known() {
    for chain in ["the deadline is over", "operation timed out", "Timeout"] {
        assert_eq!(
            classify_texts(chain, "shown".to_string()),
            TransportError::Timeout(Duration { nanos: 0 })
        );
    }
    assert_eq!(
        classify_texts("timeout", "shown".to_string()),
        TransportError::Protocol("shown".to_string())
    );
    assert_eq!(
        classify_texts("Connection refused after a Timeout", "shown".to_string()),
        TransportError::Unreachable("shown".to_string())
    );
}

#[test]
fn errors_have_messages() {
    assert_eq!(
        TransportError::Unreachable("n2".to_string()).to_string(),
        "peer unreachable: n2"
    );
    assert_eq!(
        TransportError::Timeout(Duration::from_secs(2)).to_string(),
        "rpc timeout after 2s"
    );
    assert_eq!(
        TransportError::Timeout(Duration::from_millis(1_500)).to_string(),
        "rpc timeout after 1.5s"
    );
    assert_eq!(
        TransportError::Protocol("bad frame".to_string()).to_string(),
        "protocol error: bad frame"
    );
    assert_eq!(TransportError::Canceled.to_string(), "transport canceled");
}

#[test]
fn entries_may_take_longer_than_votes() {
    let vote = RaftMessage::RequestVote(RequestVoteArgs {
        term: 1,
        candidate_id: "n1".to_string(),
        last_log_index: 0,
        last_log_term: 0,
    });
    let append = RaftMessage::AppendEntries(AppendEntriesArgs {
        term: 1,
        leader_id: "n1".to_string(),
        prev_log_index: 0,
        prev_log_term: 0,
        entries: vec![],
        leader_commit: 0,
    });
    let reply = RaftMessage::InstallSnapshotReply(InstallSnapshotReplyArgs { term: 1 });
    assert_eq!(rpc_timeout_ms(&vote, 500, 2_000), 500);
    assert_eq!(rpc_timeout_ms(&append, 500, 2_000), 2_000);
    assert_eq!(rpc_timeout_ms(&reply, 500, 2_000), 500);
}
