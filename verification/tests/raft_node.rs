use oxide_kv::config::Config;
use oxide_kv::coordination::VoteRequest;
use oxide_kv::observability::registry::Metrics;
use oxide_kv::protocol::{
    AbortTxError, Command, Configuration, LogEntry, MembershipError, ReadIndex, ServerId, Snapshot, TxDecision, TxOp,
};
use oxide_kv::raft::node::{NodeState, RaftNode};
use oxide_kv::raft::rpc::{
    AppendEntriesArgs, AppendReplyArgs, InstallSnapshotArgs, JoinClusterRequest, RaftMessage, RequestVoteArgs,
    VoteResponseArgs,
};
use oxide_kv::raft::storage::{RaftStorage, StorageWrite};
use oxide_kv::state_machine::StateMachine;
use oxide_kv::text_map::TextMap;
use oxide_kv::time::{Clock, Duration, Instant};

const UNIX_MS: u64 = 1_700_000_000_000;

fn now() -> Instant {
    Instant { nanos: 100_000_000_000 }
}

fn make_node(node_id: &str, peers: Vec<String>) -> RaftNode {
    RaftNode::new_with_clock(
        node_id.to_string(),
        peers,
        StateMachine::new(),
        RaftStorage::new(),
        Clock { now: now(), unix_ms: UNIX_MS },
    )
}

fn assert_node_state(node: &RaftNode, key: &str, expected: Option<&str>) {
    assert_eq!(
        node.state_machine.get(key),
        expected.map(|s| s.to_string()),
        "state machine mismatch for key={key}"
    );
}

fn sm_data(node: &RaftNode) -> TextMap<String> {
    node.state_machine.snapshot_data()
}

fn seed_pending_tx(node: &mut RaftNode, tx_id: &str, ops: Vec<TxOp>) -> (String, u64, u64) {
    node.state_machine.begin_tx_at(tx_id.to_string(), ops, UNIX_MS);
    let entry = LogEntry {
        term: 1,
        index: 1,
        command: Command::BeginTx {
            tx_id: tx_id.to_string(),
            ops: vec![TxOp::Put { key: "k".into(), value: "v".into() }],
        },
    };
    let _ = node.storage.append_wal_log(&entry);
    node.log.push(entry);
    (tx_id.to_string(), 1, 1)
}

fn make_leader_with_committed_sets(node_id: &str, n: usize) -> RaftNode {
    let mut node = make_node(node_id, vec![]);
    node.state = NodeState::Leader;
    node.current_term = 1;
    for i in 1..=n {
        node.state_machine.set(&format!("k{i}"), &format!("v{i}"));
        node.log.push(LogEntry {
            term: 1,
            index: i,
            command: Command::SetKey { key: format!("k{i}"), value: format!("v{i}") },
        });
        node.commit_index = i as u64;
        node.last_applied = i as u64;
    }
    for i in 1..=n {
        node.storage.append_wal_log(&node.log[i - 1]).unwrap();
    }
    node
}

fn make_join_cluster_leader() -> RaftNode {
    let mut node = make_node("n1", vec!["n2".to_string(), "n3".to_string()]);
    node.state = NodeState::Leader;
    node.current_term = 1;
    node
}

fn make_leader_with_pending_tx(tx_id: &str) -> RaftNode {
    let mut node = make_node(tx_id, vec![]);
    node.state = NodeState::Leader;
    node.log.push(LogEntry {
        term: 1,
        index: 1,
        command: Command::BeginTx {
            tx_id: tx_id.to_string(),
            ops: vec![TxOp::Put { key: "k".into(), value: "v".into() }],
        },
    });
    node.commit_index = 1;
    node.apply_logs();
    node
}

fn vote_args(term: u64, candidate: &str, last_idx: u64, last_term: u64) -> RequestVoteArgs {
    RequestVoteArgs {
        term,
        candidate_id: candidate.to_string(),
        last_log_index: last_idx,
        last_log_term: last_term,
    }
}

fn append_args(term: u64, leader: &str, prev_idx: u64, prev_term: u64,
               entries: Vec<LogEntry>, leader_commit: u64) -> AppendEntriesArgs {
    AppendEntriesArgs {
        term,
        leader_id: leader.to_string(),
        prev_log_index: prev_idx,
        prev_log_term: prev_term,
        entries,
        leader_commit,
    }
}

fn make_entry(term: u64, index: usize, key: &str, value: &str) -> LogEntry {
    LogEntry {
        term,
        index,
        command: Command::SetKey {
            key: key.to_string(),
            value: value.to_string(),
        },
    }
}

#[test]
fn vote_rejects_when_candidate_term_is_older() {
    let mut node = make_node("n1", vec!["n2".into()]);
    node.current_term = 5;

    let reply = node.handle_request_vote(&vote_args(4, "n2", 0, 0));

    assert!(!reply.vote_granted);
    assert_eq!(reply.term, 5);
    assert_eq!(node.current_term, 5);
    assert!(node.vote_for.is_none());
}

#[test]
fn vote_steps_down_and_grants_on_newer_term_when_log_is_up_to_date() {
    let mut node = make_node("n1", vec!["n2".into()]);
    node.state = NodeState::Candidate;
    node.current_term = 1;
    node.vote_for = Some("n1".into());
    node.log = vec![make_entry(1, 1, "k", "v")];

    let reply = node.handle_request_vote(&vote_args(2, "n2", 1, 1));

    assert!(reply.vote_granted);
    assert_eq!(reply.term, 2);
    assert_eq!(node.state, NodeState::Follower);
    assert_eq!(node.current_term, 2);
    assert_eq!(node.vote_for.as_deref(), Some("n2"));
}

#[test]
fn vote_denies_when_already_voted_for_someone_else_in_same_term() {
    let mut node = make_node("n1", vec!["n2".into(), "n3".into()]);
    node.current_term = 3;
    node.vote_for = Some("n2".into());

    let reply = node.handle_request_vote(&vote_args(3, "n3", 0, 0));

    assert!(!reply.vote_granted);
    assert_eq!(node.vote_for.as_deref(), Some("n2"));
}

#[test]
fn vote_grants_when_voted_for_same_candidate_in_same_term() {
    let mut node = make_node("n1", vec!["n2".into()]);
    node.current_term = 2;
    node.vote_for = Some("n2".into());

    let reply = node.handle_request_vote(&vote_args(2, "n2", 0, 0));

    assert!(reply.vote_granted);
}

#[test]
fn vote_denies_when_candidate_log_is_behind_election_restriction() {
    let mut node = make_node("n1", vec!["n2".into()]);
    node.current_term = 5;
    node.log = vec![make_entry(2, 1, "a", "1"), make_entry(3, 2, "b", "2")];

    let reply = node.handle_request_vote(&vote_args(5, "n2", 1, 2));

    assert!(!reply.vote_granted);
    assert!(node.vote_for.is_none(), "must not vote when log is stale");
}

#[test]
fn vote_grants_when_candidate_log_is_strictly_ahead() {
    let mut node = make_node("n1", vec!["n2".into()]);
    node.current_term = 3;
    node.log = vec![make_entry(2, 1, "a", "1")];

    let reply = node.handle_request_vote(&vote_args(3, "n2", 2, 3));

    assert!(reply.vote_granted);
}

#[test]
fn append_rejects_stale_term() {
    let mut node = make_node("n1", vec!["n2".into()]);
    node.current_term = 5;

    let reply = node.handle_append_entries(&append_args(4, "n2", 0, 0, vec![], 0));

    assert!(!reply.success);
    assert_eq!(reply.term, 5);
}

#[test]
fn append_steps_down_on_newer_term() {
    let mut node = make_node("n1", vec!["n2".into()]);
    node.state = NodeState::Candidate;
    node.current_term = 1;
    node.vote_for = Some("n1".into());

    let reply = node.handle_append_entries(&append_args(2, "n2", 0, 0, vec![], 0));

    assert!(reply.success);
    assert_eq!(node.state, NodeState::Follower);
    assert_eq!(node.current_term, 2);
}

#[test]
fn append_heartbeat_with_empty_entries_succeeds() {
    let mut node = make_node("n1", vec!["n2".into()]);
    node.current_term = 2;
    node.log = vec![make_entry(2, 1, "k", "v")];

    let reply = node.handle_append_entries(&append_args(2, "n2", 1, 2, vec![], 0));

    assert!(reply.success);
    assert_eq!(node.log.len(), 1, "no entries should be added");
}

#[test]
fn append_rejects_when_prev_log_term_mismatches() {
    let mut node = make_node("n1", vec!["n2".into()]);
    node.current_term = 2;
    node.log = vec![make_entry(1, 1, "a", "1"), make_entry(1, 2, "b", "2")];

    let reply = node.handle_append_entries(&append_args(2, "n2", 2, 2, vec![], 0));

    assert!(!reply.success);
}

#[test]
fn append_truncates_conflicting_entries_then_appends_new() {
    let mut node = make_node("n1", vec!["n2".into()]);
    node.current_term = 2;
    node.log = vec![
        make_entry(1, 1, "a", "1"),
        make_entry(1, 2, "b", "2"),
    ];

    let new_entries = vec![
        LogEntry { term: 2, index: 2, command: Command::SetKey { key: "b".into(), value: "v2".into() } },
        LogEntry { term: 2, index: 3, command: Command::SetKey { key: "c".into(), value: "v3".into() } },
    ];

    let reply = node.handle_append_entries(&append_args(2, "n2", 1, 1, new_entries, 0));

    assert!(reply.success);
    assert_eq!(node.log.len(), 3);
    assert_eq!(node.log[1].term, 2, "conflicting entry must be replaced");
    assert_eq!(node.log[2].term, 2, "new entry must be appended");
}

#[test]
fn append_advances_commit_index_and_applies_logs() {
    let mut node = make_node("n1", vec!["n2".into()]);
    node.current_term = 2;
    node.log = vec![make_entry(1, 1, "a", "1")];

    let entries = vec![
        LogEntry { term: 2, index: 2, command: Command::SetKey { key: "b".into(), value: "B".into() } },
        LogEntry { term: 2, index: 3, command: Command::SetKey { key: "c".into(), value: "C".into() } },
    ];

    let _ = node.handle_append_entries(&append_args(2, "n2", 1, 1, entries, 2));

    assert_eq!(node.commit_index, 2);
    assert_eq!(node.last_applied, 2);
    assert_node_state(&node, "b", Some("B"));
}

#[test]
fn append_does_not_advance_commit_beyond_local_log() {
    let mut node = make_node("n1", vec!["n2".into()]);
    node.current_term = 1;
    node.log = vec![make_entry(1, 1, "a", "1")];

    let _ = node.handle_append_entries(&append_args(1, "n2", 0, 0, vec![], 10));

    assert_eq!(node.commit_index, 1);
}

#[test]
fn commit_advances_when_majority_replicates() {
    let mut node = make_node("n1", vec!["n2".into(), "n3".into()]);
    node.state = NodeState::Leader;
    node.current_term = 2;
    node.log = vec![
        make_entry(2, 1, "a", "1"),
        make_entry(2, 2, "b", "2"),
    ];
    node.match_index.insert("n2".into(), 2);
    node.match_index.insert("n3".into(), 1);

    node.maybe_commit();

    assert_eq!(node.commit_index, 2);
    assert_eq!(node.last_applied, 2);
}

#[test]
fn commit_does_not_advance_without_majority() {
    let mut node = make_node("n1", vec!["n2".into(), "n3".into()]);
    node.state = NodeState::Leader;
    node.current_term = 1;
    node.log = vec![make_entry(1, 1, "a", "1"), make_entry(1, 2, "b", "2")];
    node.match_index.insert("n2".into(), 0);
    node.match_index.insert("n3".into(), 0);

    node.maybe_commit();

    assert_eq!(node.commit_index, 0, "no peer replication means no commit");
}

#[test]
fn commit_safety_does_not_commit_previous_term_entries() {
    let mut node = make_node("n1", vec!["n2".into(), "n3".into()]);
    node.state = NodeState::Leader;
    node.current_term = 2;
    node.log = vec![
        make_entry(1, 1, "a", "1"),
        make_entry(1, 2, "b", "2"),
        make_entry(2, 3, "c", "3"),
    ];
    node.match_index.insert("n2".into(), 3);
    node.match_index.insert("n3".into(), 3);

    node.maybe_commit();

    assert_eq!(node.commit_index, 3, "must skip ahead to current-term entry");
    assert_eq!(node.last_applied, 3);
}

#[test]
fn commit_noop_when_not_leader() {
    let mut node = make_node("n1", vec!["n2".into()]);
    node.state = NodeState::Follower;
    node.current_term = 1;
    node.log = vec![make_entry(1, 1, "a", "1")];
    node.match_index.insert("n2".into(), 1);

    node.maybe_commit();

    assert_eq!(node.commit_index, 0);
}

#[test]
fn propose_rejects_when_not_leader() {
    let mut node = make_node("n1", vec!["n2".into()]);
    node.state = NodeState::Follower;

    let accepted = node.propose(Command::SetKey {
        key: "k".into(),
        value: "v".into(),
    });

    assert!(!accepted);
    assert!(node.log.is_empty());
}

#[test]
fn propose_increments_index_per_call() {
    let mut node = make_node("n1", vec![]);
    node.state = NodeState::Leader;
    node.current_term = 1;

    node.propose(Command::SetKey { key: "a".into(), value: "1".into() }).then_some(()).unwrap();
    node.propose(Command::SetKey { key: "b".into(), value: "2".into() }).then_some(()).unwrap();
    node.propose(Command::SetKey { key: "c".into(), value: "3".into() }).then_some(()).unwrap();

    assert_eq!(node.log.len(), 3);
    assert_eq!(node.log[0].index, 1);
    assert_eq!(node.log[1].index, 2);
    assert_eq!(node.log[2].index, 3);
}

#[test]
fn apply_logs_skips_compact_noops() {
    let mut node = make_node("n1", vec![]);
    node.log = vec![LogEntry {
        term: 1,
        index: 1,
        command: Command::Compact,
    }];
    node.commit_index = 1;

    node.apply_logs();

    assert_eq!(node.last_applied, 1);
    assert_node_state(&node, "k", None);
}

#[test]
fn apply_logs_handles_delete_command() {
    let mut node = make_node("n1", vec![]);
    node.log = vec![
        make_entry(1, 1, "k", "v"),
        LogEntry { term: 1, index: 2, command: Command::Delete { key: "k".into() } },
    ];
    node.commit_index = 2;

    node.apply_logs();

    assert_eq!(node.last_applied, 2);
    assert_node_state(&node, "k", None);
}

#[test]
fn last_log_info_on_empty_log_is_zero_zero() {
    let node = make_node("n1", vec![]);
    let (idx, term) = node.get_last_log_info();
    assert_eq!((idx, term), (0, 0));
}

#[test]
fn last_log_info_reflects_most_recent_entry() {
    let mut node = make_node("n1", vec![]);
    node.log = vec![make_entry(1, 1, "a", "1"), make_entry(3, 2, "b", "2")];

    let (idx, term) = node.get_last_log_info();
    assert_eq!(idx, 2);
    assert_eq!(term, 3);
}

#[test]
fn become_leader_initializes_next_index_to_log_tail_plus_one() {
    let mut node = make_node("n1", vec!["n2".into(), "n3".into()]);
    node.log = vec![make_entry(1, 1, "a", "1"), make_entry(1, 2, "b", "2")];

    node.become_leader();

    assert_eq!(node.state, NodeState::Leader);
    assert_eq!(node.next_index.get("n2"), Some(&3));
    assert_eq!(node.next_index.get("n3"), Some(&3));
}

#[test]
fn become_leader_is_idempotent() {
    let mut node = make_node("n1", vec!["n2".into()]);
    node.become_leader();
    let next_idx_before = *node.next_index.get("n2").unwrap();

    node.become_leader();
    assert_eq!(node.next_index.get("n2"), Some(&next_idx_before));
}

fn snapshot_args(term: u64, leader: &str, last_idx: u64, last_term: u64,
                 data: TextMap<String>) -> InstallSnapshotArgs {
    InstallSnapshotArgs {
        term,
        leader_id: leader.to_string(),
        last_included_index: last_idx,
        last_included_term: last_term,
        snapshot: Snapshot {
            last_included_index: last_idx,
            last_included_term: last_term,
            data,
        },
    }
}

#[test]
fn install_snapshot_rejects_stale_term() {
    let mut node = make_node("n1", vec!["n2".into()]);
    node.current_term = 5;

    let reply = node.handle_install_snapshot(&snapshot_args(4, "n2", 1, 1, TextMap::new()));

    assert_eq!(reply.term, 5);
    assert_eq!(node.current_term, 5, "must not regress term");
}

#[test]
fn install_snapshot_steps_down_and_updates_term_on_newer() {
    let mut node = make_node("n1", vec!["n2".into()]);
    node.state = NodeState::Candidate;
    node.current_term = 1;
    node.vote_for = Some("n1".into());

    let reply = node.handle_install_snapshot(&snapshot_args(2, "n2", 1, 1, TextMap::new()));

    assert_eq!(reply.term, 2);
    assert_eq!(node.state, NodeState::Follower);
    assert_eq!(node.current_term, 2);
    assert!(node.vote_for.is_none());
}

#[test]
fn install_snapshot_replaces_state_machine_contents() {
    let mut node = make_node("n1", vec!["n2".into()]);
    {
        let sm = &mut node.state_machine;
        sm.set("old", "stale");
        sm.set("keep", "maybe");
    }

    let mut data = TextMap::new();
    data.insert("alpha".into(), "1".into());
    data.insert("beta".into(), "2".into());

    node.handle_install_snapshot(&snapshot_args(1, "n2", 5, 1, data));

    let sm = sm_data(&node);
    assert_eq!(sm.get("alpha").map(String::as_str), Some("1"));
    assert_eq!(sm.get("beta").map(String::as_str), Some("2"));
    assert!(sm.get("old").is_none(), "snapshot must wipe stale data");
    assert!(sm.get("keep").is_none(), "snapshot must wipe stale data");
}

#[test]
fn install_snapshot_discards_covered_log_entries() {
    let mut node = make_node("n1", vec!["n2".into()]);
    node.log = vec![
        make_entry(1, 1, "a", "1"),
        make_entry(1, 2, "b", "2"),
        make_entry(1, 3, "c", "3"),
        make_entry(1, 4, "d", "4"),
    ];

    node.handle_install_snapshot(&snapshot_args(1, "n2", 3, 1, TextMap::new()));

    assert_eq!(node.log.len(), 1);
    assert_eq!(node.log[0].index, 4);
}

#[test]
fn install_snapshot_advances_commit_index_to_snapshot_position() {
    let mut node = make_node("n1", vec!["n2".into()]);
    node.log = vec![make_entry(1, 1, "a", "1"), make_entry(1, 2, "b", "2")];
    node.commit_index = 0;
    node.last_applied = 0;

    node.handle_install_snapshot(&snapshot_args(1, "n2", 2, 1, TextMap::new()));

    assert_eq!(node.commit_index, 2);
    assert_eq!(node.last_applied, 2);
}

#[test]
fn install_snapshot_rewrites_wal_on_disk() {
    let mut node = make_node("n1", vec!["n2".into()]);
    node.log = vec![make_entry(1, 1, "a", "1"), make_entry(1, 2, "b", "2"), make_entry(1, 3, "c", "3")];

    for entry in &node.log {
        node.storage.append_wal_log(entry).unwrap();
    }
    assert_eq!(node.storage.restore_wal_log().len(), 3);

    node.handle_install_snapshot(&snapshot_args(1, "n2", 2, 1, TextMap::new()));

    assert_eq!(node.storage.restore_wal_log().len(), 1);
}

#[test]
fn maybe_snapshot_noop_below_threshold() {
    let mut node = make_node("n1", vec!["n2".into()]);
    node.state = NodeState::Leader;
    node.current_term = 1;
    node.log = vec![make_entry(1, 1, "a", "1")];
    node.commit_index = 1;

    assert!(!node.maybe_snapshot(100));
}

#[test]
fn maybe_snapshot_noop_when_not_leader() {
    let mut node = make_node("n1", vec!["n2".into()]);
    node.state = NodeState::Follower;
    for i in 1..=10 {
        node.log.push(make_entry(1, i, "k", "v"));
    }
    node.commit_index = 10;

    assert!(!node.maybe_snapshot(5));
}

#[test]
fn maybe_snapshot_noop_when_commit_index_is_zero() {
    let mut node = make_node("n1", vec!["n2".into()]);
    node.state = NodeState::Leader;
    node.log = vec![make_entry(1, 1, "k", "v"), make_entry(1, 2, "k", "v")];

    assert!(!node.maybe_snapshot(1));
}

#[test]
fn confirm_read_returns_false_when_not_leader() {
    let mut node = make_node("n1", vec!["n2".into()]);
    node.state = NodeState::Leader;
    node.last_applied = 5;
    node.commit_index = 5;
    node.last_quorum_heartbeat_at = Some(now());
    let ri = ReadIndex { index: 5, issued_at: now() };

    node.state = NodeState::Follower;
    assert!(!node.confirm_read(ri));
}

#[test]
fn confirm_read_returns_false_when_state_machine_lags() {
    let mut node = make_node("n1", vec!["n2".into()]);
    node.state = NodeState::Leader;
    node.commit_index = 10;
    node.last_applied = 3;
    node.last_quorum_heartbeat_at = Some(now());

    let ri = ReadIndex { index: 5, issued_at: now() };
    assert!(!node.confirm_read(ri));
}

#[test]
fn confirm_read_returns_false_when_no_quorum_evidence() {
    let mut node = make_node("n1", vec!["n2".into()]);
    node.state = NodeState::Leader;
    node.last_applied = 5;
    node.commit_index = 5;
    node.last_quorum_heartbeat_at = None;

    let ri = ReadIndex { index: 5, issued_at: now() };
    assert!(!node.confirm_read(ri));
}

#[test]
fn confirm_read_returns_true_when_all_conditions_met() {
    let mut node = make_node("n1", vec!["n2".into()]);
    node.state = NodeState::Leader;
    node.last_applied = 5;
    node.commit_index = 5;
    let now = now();
    node.last_quorum_heartbeat_at = Some(now);

    let ri = ReadIndex { index: 5, issued_at: now };
    assert!(node.confirm_read(ri));
}

#[test]
fn confirm_read_rejects_after_step_down_even_with_fresh_proof() {
    let mut node = make_node("n1", vec!["n2".into()]);
    node.state = NodeState::Leader;
    node.last_applied = 5;
    node.commit_index = 5;
    let now = now();
    node.last_quorum_heartbeat_at = Some(now);

    let ri = ReadIndex { index: 5, issued_at: now };
    assert!(node.confirm_read(ri), "sanity: leader confirms");

    node.state = NodeState::Follower;
    assert!(!node.confirm_read(ri), "stepped-down node must not serve reads");
}

#[test]
fn replay_logs_applies_committed_tx() {
    let mut node = make_node("n1", vec!["n2".into()]);
    node.log = vec![
        LogEntry {
            term: 1,
            index: 1,
            command: Command::BeginTx {
                tx_id: "tx-replay".into(),
                ops: vec![
                    TxOp::Put { key: "a".into(), value: "1".into() },
                    TxOp::Put { key: "b".into(), value: "2".into() },
                ],
            },
        },
        LogEntry {
            term: 1,
            index: 2,
            command: Command::DecideTx {
                tx_id: "tx-replay".into(),
                decision: TxDecision::Commit,
            },
        },
    ];
    node.commit_index = 2;
    node.replay_logs();

    assert_eq!(node.last_applied, 2);
    assert_node_state(&node, "a", Some("1"));
    assert_node_state(&node, "b", Some("2"));
}

#[test]
fn replay_logs_aborted_tx_has_no_side_effects() {
    let mut node = make_node("n1", vec!["n2".into()]);
    node.log = vec![
        LogEntry {
            term: 1,
            index: 1,
            command: Command::BeginTx {
                tx_id: "tx-abort".into(),
                ops: vec![TxOp::Put {
                    key: "a".into(),
                    value: "should-not-apply".into(),
                }],
            },
        },
        LogEntry {
            term: 1,
            index: 2,
            command: Command::DecideTx {
                tx_id: "tx-abort".into(),
                decision: TxDecision::Abort,
            },
        },
    ];
    node.commit_index = 2;
    node.replay_logs();

    assert_node_state(&node, "a", None);
    assert_eq!(node.last_applied, 2);
}

#[test]
fn propose_batch_appends_contiguous_entries() {
    let mut node = make_node("n1", vec!["n2".into()]);
    node.state = NodeState::Leader;

    let ok = node.propose_batch(vec![
        Command::BeginTx {
            tx_id: "tx-batch".into(),
            ops: vec![TxOp::Put { key: "x".into(), value: "1".into() }],
        },
        Command::DecideTx {
            tx_id: "tx-batch".into(),
            decision: TxDecision::Commit,
        },
    ]);
    assert!(ok);

    assert_eq!(node.log.len(), 2);
    assert_eq!(node.log[0].index, 1);
    assert_eq!(node.log[1].index, 2);
    assert!(matches!(node.log[0].command, Command::BeginTx { .. }));
    assert!(matches!(node.log[1].command, Command::DecideTx { .. }));
}

fn vote_req(term: u64, tx_id: &str, last_idx: u64, last_term: u64) -> VoteRequest {
    VoteRequest {
        term,
        tx_id: tx_id.to_string(),
        last_log_index: last_idx,
        last_log_term: last_term,
    }
}

#[test]
fn tx_vote_rejects_stale_term() {
    let mut node = make_node("n1", vec!["n2".into()]);
    node.current_term = 5;
    let (tx_id, idx, term) = seed_pending_tx(&mut node, "t1", vec![]);

    let resp = node.handle_tx_vote_request(&vote_req(4, &tx_id, idx, term));

    assert!(!resp.vote_granted);
    assert_eq!(resp.term, 5);
    assert!(resp.reason.contains("stale term"));
    assert_eq!(node.current_term, 5);
    let sm = &node.state_machine;
    assert_eq!(sm.pending_tx_count(), 1);
}

#[test]
fn tx_vote_adopts_newer_term_and_steps_down() {
    let mut node = make_node("n1", vec!["n2".into()]);
    node.current_term = 1;
    node.state = NodeState::Leader;
    let (tx_id, idx, term) = seed_pending_tx(&mut node, "t1", vec![]);

    let resp = node.handle_tx_vote_request(&vote_req(3, &tx_id, idx, term));

    assert!(!resp.vote_granted);
    assert_eq!(resp.term, 3);
    assert!(resp.reason.contains("term advance"));
    assert_eq!(node.state, NodeState::Follower);
    assert_eq!(node.current_term, 3);
    assert!(node.vote_for.is_none());
}

#[test]
fn tx_vote_rejects_when_tx_not_pending() {
    let mut node = make_node("n1", vec!["n2".into()]);
    node.current_term = 2;

    let resp = node.handle_tx_vote_request(&vote_req(2, "missing", 0, 0));

    assert!(!resp.vote_granted);
    assert_eq!(resp.term, 2);
    assert!(resp.reason.contains("tx not pending"));
}

#[test]
fn tx_vote_rejects_when_leader_log_is_stale() {
    let mut node = make_node("n1", vec!["n2".into()]);
    node.current_term = 1;
    let (tx_id, _idx, _term) = seed_pending_tx(&mut node, "t1", vec![]);
    let resp = node.handle_tx_vote_request(&vote_req(1, &tx_id, 0, 0));

    assert!(!resp.vote_granted);
    assert!(resp.reason.contains("leader log stale"));
}

#[test]
fn maybe_snapshot_returns_false_when_wal_under_threshold() {
    let mut node = make_leader_with_committed_sets("n1", 3);
    assert!(!node.maybe_snapshot(1024 * 1024));
}

#[test]
fn maybe_snapshot_returns_false_when_not_leader() {
    let mut node = make_leader_with_committed_sets("n2", 3);
    node.state = NodeState::Follower;
    assert!(!node.maybe_snapshot(0));
}

#[test]
fn maybe_snapshot_truncates_wal_and_writes_snapshot_when_over_threshold() {
    let mut node = make_leader_with_committed_sets("n3", 5);
    let wal_before = node.storage.wal_size_bytes();
    assert!(wal_before > 0);

    let took = node.maybe_snapshot(1);
    assert!(took, "snapshot should fire when WAL > threshold");

    let snap = node.storage.load_snapshot().expect("snapshot saved");
    assert_eq!(snap.last_included_index, 5);
    assert_eq!(snap.last_included_term, 1);
    assert!(snap.data.contains_key("k1"));
    assert!(snap.data.contains_key("k5"));
    let wal_after = node.storage.wal_size_bytes();
    assert!(wal_after < wal_before, "WAL must shrink after snapshot");
    assert_eq!(wal_after, 0);
}

#[test]
fn restore_from_snapshot_returns_none_when_no_snapshot_file() {
    let mut node = make_node("n4", vec![]);
    assert!(node.restore_from_snapshot().is_none());
}

#[test]
fn push_log_entry_for_test_assigns_monotonic_index() {
    let mut node = make_node("n1", vec![]);
    node.current_term = 1;

    node.push_log_entry_for_test(Command::Compact);
    assert_eq!(node.log.len(), 1);
    assert_eq!(node.log[0].index, 1, "first push should be index 1");

    node.push_log_entry_for_test(Command::Compact);
    assert_eq!(node.log.len(), 2);
    assert_eq!(node.log[1].index, 2, "second push should be index 2");

    let (idx, term) = node.get_last_log_info();
    assert_eq!(idx, 2);
    assert_eq!(term, 1);
}

#[test]
fn push_log_entry_for_test_does_not_shadow_subsequent_propose() {
    let mut node = make_node("n1", vec![]);
    node.state = NodeState::Leader;
    node.current_term = 1;

    node.push_log_entry_for_test(Command::Compact);
    assert_eq!(node.get_last_log_info().0, 1);

    assert!(node.propose(Command::SetKey {
        key: "k".into(),
        value: "v".into(),
    }));
    assert_eq!(node.log.len(), 2);
    assert_eq!(node.log[1].index, 2, "real propose must follow phantom");
}

#[test]
fn pre_vote_never_mutates_local_state() {
    let mut node = make_node("n1", vec!["n2".into(), "n3".into()]);
    node.current_term = 5;
    let term_before = node.current_term;
    let vote_before = node.vote_for.clone();
    let state_before = node.state;

    let reply = node.handle_pre_vote(&vote_args(term_before + 1, "n2", 0, 0));
    assert!(reply.vote_granted);
    assert_eq!(reply.term, term_before, "reply term must echo OUR term");

    assert_eq!(node.current_term, term_before, "pre-vote must not bump term");
    assert_eq!(node.vote_for, vote_before, "pre-vote must not write vote_for");
    assert_eq!(node.state, state_before, "pre-vote must not change state");

    let reply = node.handle_pre_vote(&vote_args(term_before - 1, "n2", 0, 0));
    assert!(!reply.vote_granted);
    assert_eq!(node.current_term, term_before);
    assert_eq!(node.vote_for, vote_before);
    assert_eq!(node.state, state_before);

    let reply = node.handle_pre_vote(&vote_args(term_before + 2, "n2", 0, 0));
    assert!(!reply.vote_granted);
    assert_eq!(node.current_term, term_before);
    assert_eq!(node.vote_for, vote_before);
    assert_eq!(node.state, state_before);
}

#[test]
fn pre_vote_grants_when_probe_log_is_strictly_ahead() {
    let mut node = make_node("n1", vec!["n2".into()]);
    node.current_term = 3;
    node.log.push(make_entry(3, 1, "k", "v"));

    let reply = node.handle_pre_vote(&vote_args(4, "n2", 2, 3));
    assert!(reply.vote_granted, "ahead probe must grant");
    assert_eq!(reply.term, 3, "must echo local term, not the probe term");
}

#[test]
fn pre_vote_refuses_when_we_are_leader_of_same_term() {
    let mut node = make_node("n1", vec!["n2".into()]);
    node.current_term = 5;
    node.state = NodeState::Leader;
    node.log.push(make_entry(5, 1, "k", "v"));

    let reply = node.handle_pre_vote(&vote_args(5, "n2", 1, 5));
    assert!(!reply.vote_granted);
    assert_eq!(reply.term, 5);
}

#[test]
fn pre_vote_refuses_when_probe_log_is_behind() {
    let mut node = make_node("n1", vec!["n2".into()]);
    node.current_term = 3;
    node.log.push(make_entry(2, 1, "a", "1"));
    node.log.push(make_entry(3, 2, "b", "2"));

    let reply = node.handle_pre_vote(&vote_args(4, "n2", 1, 2));
    assert!(!reply.vote_granted, "behind-log probe must be refused");

    node.state = NodeState::Follower;
    let reply = node.handle_pre_vote(&vote_args(3, "n2", 1, 2));
    assert!(!reply.vote_granted);
}

#[test]
fn pre_vote_refuses_probe_more_than_one_term_ahead() {
    let mut node = make_node("n1", vec!["n2".into()]);
    node.current_term = 5;

    let reply = node.handle_pre_vote(&vote_args(7, "n2", 0, 0));
    assert!(!reply.vote_granted, "probe 2+ terms ahead must be refused");
    assert_eq!(node.current_term, 5, "must not bump");
}

#[test]
fn initial_current_config_is_simple_self_plus_peers() {
    let node = make_node("n1", vec!["n2".into(), "n3".into()]);
    let cfg = &node.current_config;
    assert!(matches!(cfg, Configuration::Simple(_)));
    assert_eq!(cfg.size(), 3);
    assert!(cfg.contains("n1"));
    assert!(cfg.contains("n2"));
    assert!(cfg.contains("n3"));
    assert_eq!(cfg.addr_of("n1"), Some("n1".to_string()));
}

#[test]
fn propose_add_node_requires_leader() {
    let mut node = make_node("n1", vec!["n2".into()]);
    let server = ServerId { node_id: "n3".into(), addr: "n3".into() };
    let result = node.propose_add_node(server);
    assert_eq!(result, Err(MembershipError::NotLeader));
}

#[test]
fn propose_add_node_rejects_already_member() {
    let mut node = make_node("n1", vec!["n2".into()]);
    node.state = NodeState::Leader;
    let server = ServerId { node_id: "n2".into(), addr: "n2".into() };
    let result = node.propose_add_node(server);
    assert_eq!(
        result,
        Err(MembershipError::AlreadyMember("n2".to_string()))
    );
}

#[test]
fn propose_add_node_appends_joint_entry_and_queues_simple() {
    let mut node = make_node("n1", vec!["n2".into()]);
    node.state = NodeState::Leader;
    let server = ServerId { node_id: "n3".into(), addr: "n3".into() };
    let joint_idx = node.propose_add_node(server).expect("leader should propose");
    assert_eq!(joint_idx, 1);
    assert_eq!(node.log.len(), 1);
    match &node.log[0].command {
        Command::InstallConfiguration { config } => match config {
            Configuration::Joint { old, new } => {
                assert_eq!(old.len(), 2);
                assert_eq!(new.len(), 3);
            }
            _ => panic!("expected Joint, got Simple"),
        },
        _ => panic!("expected InstallConfiguration log entry"),
    }
    match &node.pending_post_joint_simple {
        Some(Configuration::Simple(s)) => {
            assert_eq!(s.len(), 3);
            assert!(s.iter().any(|x| x.node_id == "n3"));
        }
        _ => panic!("expected pending Simple(n1,n2,n3)"),
    }
}

#[test]
fn propose_remove_node_rejects_self() {
    let mut node = make_node("n1", vec!["n2".into()]);
    node.state = NodeState::Leader;
    let result = node.propose_remove_node("n1");
    assert_eq!(result, Err(MembershipError::CannotRemoveSelf));
}

#[test]
fn propose_remove_node_rejects_last_server() {
    let mut node = make_node("solo", vec![]);
    node.state = NodeState::Leader;
    let result = node.propose_remove_node("solo");
    assert_eq!(result, Err(MembershipError::CannotRemoveSelf));
}

#[test]
fn propose_remove_node_appends_joint_with_smaller_new() {
    let mut node = make_node("n1", vec!["n2".into(), "n3".into()]);
    node.state = NodeState::Leader;
    let joint_idx = node.propose_remove_node("n3").expect("ok");
    assert_eq!(joint_idx, 1);
    match &node.log[0].command {
        Command::InstallConfiguration { config } => match config {
            Configuration::Joint { old, new } => {
                assert_eq!(old.len(), 3);
                assert_eq!(new.len(), 2);
                assert!(!new.iter().any(|x| x.node_id == "n3"));
            }
            _ => panic!("expected Joint"),
        },
        _ => panic!("expected InstallConfiguration"),
    }
}

#[test]
fn install_configuration_updates_peers_and_current_config() {
    let mut node = make_node("n1", vec!["n2".into()]);
    let new_cfg = Configuration::Simple(vec![
        ServerId { node_id: "n1".into(), addr: "n1".into() },
        ServerId { node_id: "n2".into(), addr: "n2".into() },
        ServerId { node_id: "n3".into(), addr: "n3".into() },
    ]);
    node.install_configuration(&new_cfg);
    assert_eq!(node.current_config, new_cfg);
    assert_eq!(node.peers, vec!["n2".to_string(), "n3".to_string()]);
}

#[test]
fn install_configuration_on_leader_proposes_simple_after_joint() {
    let mut node = make_node("n1", vec!["n2".into()]);
    node.state = NodeState::Leader;
    let pending = Configuration::Simple(vec![
        ServerId { node_id: "n1".into(), addr: "n1".into() },
        ServerId { node_id: "n2".into(), addr: "n2".into() },
        ServerId { node_id: "n3".into(), addr: "n3".into() },
    ]);
    node.pending_post_joint_simple = Some(pending.clone());
    let joint = Configuration::Joint {
        old: vec![
            ServerId { node_id: "n1".into(), addr: "n1".into() },
            ServerId { node_id: "n2".into(), addr: "n2".into() },
        ],
        new: pending.all_servers(),
    };
    node.install_configuration(&joint);
    assert!(node.pending_post_joint_simple.is_none());
    assert_eq!(node.log.len(), 1);
    match &node.log[0].command {
        Command::InstallConfiguration { config } => {
            assert_eq!(*config, pending);
        }
        _ => panic!("expected InstallConfiguration log entry"),
    }
}

#[test]
fn apply_logs_handles_install_configuration() {
    let mut node = make_node("n1", vec!["n2".into()]);
    node.state = NodeState::Leader;
    let new_cfg = Configuration::Simple(vec![
        ServerId { node_id: "n1".into(), addr: "n1".into() },
        ServerId { node_id: "n2".into(), addr: "n2".into() },
        ServerId { node_id: "n3".into(), addr: "n3".into() },
    ]);
    let entry = LogEntry {
        term: 1,
        index: 1,
        command: Command::InstallConfiguration { config: new_cfg.clone() },
    };
    node.log.push(entry);
    node.commit_index = 1;
    node.apply_logs();
    assert_eq!(node.current_config, new_cfg);
    assert_eq!(node.peers, vec!["n2".to_string(), "n3".to_string()]);
    assert_eq!(node.last_applied, 1);
}

#[test]
fn replay_logs_installs_final_configuration() {
    let mut node = make_node("n1", vec!["n2".into()]);
    let joint = Configuration::Joint {
        old: vec![
            ServerId { node_id: "n1".into(), addr: "n1".into() },
            ServerId { node_id: "n2".into(), addr: "n2".into() },
        ],
        new: vec![
            ServerId { node_id: "n1".into(), addr: "n1".into() },
            ServerId { node_id: "n2".into(), addr: "n2".into() },
            ServerId { node_id: "n3".into(), addr: "n3".into() },
        ],
    };
    let simple = Configuration::Simple(vec![
        ServerId { node_id: "n1".into(), addr: "n1".into() },
        ServerId { node_id: "n2".into(), addr: "n2".into() },
        ServerId { node_id: "n3".into(), addr: "n3".into() },
    ]);
    node.log.push(LogEntry {
        term: 1, index: 1,
        command: Command::InstallConfiguration { config: joint.clone() },
    });
    node.log.push(LogEntry {
        term: 1, index: 2,
        command: Command::InstallConfiguration { config: simple.clone() },
    });
    node.replay_logs();
    assert_eq!(node.current_config, simple);
    assert_eq!(node.peers, vec!["n2".to_string(), "n3".to_string()]);
}

#[test]
fn handle_join_cluster_accepts_candidate_on_leader_and_returns_peer_list() {
    let node = make_join_cluster_leader();
    let resp = node.handle_join_cluster(&JoinClusterRequest {
        candidate_addr: "n4".into(),
    });
    assert!(resp.accepted, "expected accept; reason={}", resp.reason);
    assert_eq!(resp.term, 1);
    assert_eq!(resp.leader_addr, "n1");
    let mut got = resp.peer_addrs.clone();
    got.sort();
    assert_eq!(got, vec!["n2".to_string(), "n3".to_string()]);
    assert!(resp.reason.is_empty());
}

#[test]
fn handle_join_cluster_rejects_when_not_leader() {
    let mut node = make_join_cluster_leader();
    node.state = NodeState::Follower;
    let resp = node.handle_join_cluster(&JoinClusterRequest {
        candidate_addr: "n4".into(),
    });
    assert!(!resp.accepted);
    assert_eq!(resp.term, 1);
    assert_eq!(resp.reason, "not leader");
    assert!(resp.peer_addrs.is_empty());
}

#[test]
fn handle_join_cluster_rejects_when_not_leader_candidate_too() {
    let mut node = make_join_cluster_leader();
    node.state = NodeState::Candidate;
    let resp = node.handle_join_cluster(&JoinClusterRequest {
        candidate_addr: "n4".into(),
    });
    assert!(!resp.accepted);
    assert_eq!(resp.reason, "not leader");
}

#[test]
fn handle_join_cluster_rejects_candidate_addr_equal_to_leader_addr() {
    let node = make_join_cluster_leader();
    let resp = node.handle_join_cluster(&JoinClusterRequest {
        candidate_addr: "n1".into(),
    });
    assert!(!resp.accepted);
    assert_eq!(resp.reason, "candidate_addr is the leader itself");
    assert!(resp.peer_addrs.is_empty());
}

#[test]
fn handle_join_cluster_rejects_candidate_addr_already_member() {
    let mut node = make_join_cluster_leader();
    let resp = node.handle_join_cluster(&JoinClusterRequest {
        candidate_addr: "n2".into(),
    });
    assert!(!resp.accepted);
    assert_eq!(resp.reason, "candidate_addr is already a cluster member");
    assert!(resp.peer_addrs.is_empty());
}

#[test]
fn handle_join_cluster_returns_term_even_when_rejected() {
    let mut node = make_join_cluster_leader();
    node.current_term = 7;
    node.state = NodeState::Follower;
    let resp = node.handle_join_cluster(&JoinClusterRequest {
        candidate_addr: "n4".into(),
    });
    assert!(!resp.accepted);
    assert_eq!(resp.term, 7);
    assert_eq!(resp.leader_addr, "n1");
}

#[test]
fn handle_join_cluster_works_under_joint_config_too() {
    let mut node = make_join_cluster_leader();
    let joint = Configuration::Joint {
        old: vec![
            ServerId { node_id: "n1".into(), addr: "n1".into() },
            ServerId { node_id: "n2".into(), addr: "n2".into() },
            ServerId { node_id: "n3".into(), addr: "n3".into() },
        ],
        new: vec![
            ServerId { node_id: "n1".into(), addr: "n1".into() },
            ServerId { node_id: "n2".into(), addr: "n2".into() },
            ServerId { node_id: "n3".into(), addr: "n3".into() },
            ServerId { node_id: "n4".into(), addr: "n4".into() },
        ],
    };
    node.install_configuration(&joint);
    let resp_reject = node.handle_join_cluster(&JoinClusterRequest {
        candidate_addr: "n4".into(),
    });
    assert!(!resp_reject.accepted);
    assert_eq!(resp_reject.reason, "candidate_addr is already a cluster member");
    let resp_accept = node.handle_join_cluster(&JoinClusterRequest {
        candidate_addr: "n5".into(),
    });
    assert!(resp_accept.accepted);
    let mut got = resp_accept.peer_addrs.clone();
    got.sort();
    assert_eq!(
        got,
        vec!["n2".to_string(), "n3".to_string(), "n4".to_string()]
    );
}

#[test]
fn propose_abort_tx_on_leader_appends_decide_tx_abort_entry() {
    let mut node = make_leader_with_pending_tx("tx-happy");
    assert!(node.state_machine.is_tx_pending("tx-happy"));
    let log_len_before = node.log.len();

    let decide_index = node
        .propose_abort_tx("tx-happy")
        .expect("leader should accept abort");

    assert_eq!(node.log.len(), log_len_before + 1);
    assert_eq!(node.log.last().unwrap().index, decide_index as usize);
    match &node.log.last().unwrap().command {
        Command::DecideTx { tx_id, decision } => {
            assert_eq!(tx_id, "tx-happy");
            assert_eq!(*decision, TxDecision::Abort);
        }
        other => panic!("expected DecideTx, got {:?}", other),
    }
}

#[test]
fn propose_abort_tx_returns_not_found_for_unknown_tx_id() {
    let mut node = make_leader_with_pending_tx("alive");
    let err = node
        .propose_abort_tx("ghost")
        .unwrap_err();
    assert_eq!(
        err,
        AbortTxError::NotFound("ghost".to_string())
    );
}

#[test]
fn vote_persists_term_bump_to_disk() {
    let mut node = make_node("n1", vec!["n2".into()]);
    node.current_term = 1;
    node.log = vec![make_entry(1, 1, "k", "v")];

    let _ = node.handle_request_vote(&vote_args(2, "n2", 1, 1));

    let (term, vote, _) = node.storage.load_initial_state();
    assert_eq!(term, 2);
    assert_eq!(vote.as_deref(), Some("n2"));
    assert_eq!(node.storage.take_journal(), vec![StorageWrite::Meta, StorageWrite::Meta]);
}

#[test]
fn propose_appends_entry_and_writes_wal() {
    let mut node = make_node("n1", vec![]);
    node.state = NodeState::Leader;
    node.current_term = 1;

    let accepted = node.propose(Command::SetKey {
        key: "k".into(),
        value: "v".into(),
    });

    assert!(accepted);
    assert_eq!(node.log.len(), 1);
    assert_eq!(node.log[0].index, 1);
    assert_eq!(node.log[0].term, 1);

    assert!(node.storage.wal_size_bytes() > 0, "the log file must have been written");
    assert_eq!(node.storage.restore_wal_log(), node.log);
    assert_eq!(node.storage.take_journal(), vec![StorageWrite::Append]);
}

#[test]
fn replay_logs_restores_state_machine_from_scratch() {
    let mut storage = RaftStorage::new();
    storage.append_wal_log(&make_entry(1, 1, "a", "1")).unwrap();
    storage.append_wal_log(&make_entry(1, 2, "b", "2")).unwrap();
    storage.append_wal_log(&make_entry(1, 3, "c", "3")).unwrap();

    let mut node = RaftNode::new_with_storage("replay_node".to_string(), vec![], StateMachine::new(), storage);
    node.replay_logs();

    assert_eq!(node.last_applied, 3);
    assert_eq!(node.state_machine.get("a"), Some("1".to_string()));
    assert_eq!(node.state_machine.get("b"), Some("2".to_string()));
    assert_eq!(node.state_machine.get("c"), Some("3".to_string()));
}

#[test]
fn install_snapshot_persists_snapshot_file_to_disk() {
    let mut node = make_node("n1", vec!["n2".into()]);
    let mut data = TextMap::new();
    data.insert("k".into(), "v".into());

    node.handle_install_snapshot(&snapshot_args(1, "n2", 1, 1, data));

    let snapshot = node.storage.load_snapshot().expect("snapshot must be on the medium");
    assert_eq!(snapshot.last_included_index, 1);
    assert!(snapshot.data.contains_key("k"));
    assert!(node.storage.take_journal().contains(&StorageWrite::Snapshot));
}

#[test]
fn maybe_snapshot_takes_snapshot_above_threshold() {
    let mut node = make_node("n1", vec!["n2".into()]);
    node.state = NodeState::Leader;
    node.current_term = 1;
    node.state_machine.set("foo", "bar");
    for i in 1..=5 {
        node.log.push(make_entry(1, i, "k", "v"));
    }
    node.commit_index = 5;
    for entry in &node.log {
        node.storage.append_wal_log(entry).unwrap();
    }

    let took = node.maybe_snapshot(3);
    assert!(took);

    let snapshot = node.storage.load_snapshot().expect("snapshot saved");
    assert_eq!(snapshot.last_included_index, 5);
    assert!(snapshot.data.contains_key("foo"));
    assert_eq!(node.storage.restore_wal_log().len(), 0);
}

#[test]
fn restore_from_snapshot_populates_state_machine_and_advances_indices() {
    let mut node = make_leader_with_committed_sets("n5", 4);
    assert!(node.maybe_snapshot(1));
    let snapshot_index = node.storage.load_snapshot().expect("snapshot saved").last_included_index;

    let mut new_node = RaftNode::new_with_storage("n5".into(), vec![], StateMachine::new(), node.storage);

    let restored = new_node.restore_from_snapshot().expect("snapshot present");
    assert_eq!(restored.0, snapshot_index);
    assert_eq!(new_node.commit_index, snapshot_index);
    assert_eq!(new_node.last_applied, snapshot_index);

    let sm = &new_node.state_machine;
    assert_eq!(sm.get("k1").as_deref(), Some("v1"));
    assert_eq!(sm.get("k4").as_deref(), Some("v4"));
}

#[test]
fn begin_read_returns_none_when_follower() {
    let mut node = make_node("n1", vec!["n2".into()]);
    assert!(node.begin_read().is_none());
}

#[test]
fn begin_read_returns_none_when_candidate() {
    let mut node = make_node("n1", vec!["n2".into()]);
    node.state = NodeState::Candidate;
    assert!(node.begin_read().is_none());
}

#[test]
fn begin_read_returns_some_when_leader_and_anchors_at_commit_index() {
    let mut node = make_node("n1", vec!["n2".into()]);
    node.state = NodeState::Leader;
    node.commit_index = 7;
    let (ri, messages) = node.begin_read().expect("leader should begin read");
    assert_eq!(ri.index, 7);
    assert_eq!(ri.issued_at, now());
    assert_eq!(messages.len(), 1);
    assert_eq!(messages[0].0, "n2");
}

#[test]
fn confirm_read_returns_false_when_quorum_evidence_predates_issued_at() {
    let mut node = make_node("n1", vec!["n2".into()]);
    node.state = NodeState::Leader;
    node.last_applied = 5;
    node.commit_index = 5;
    node.last_quorum_heartbeat_at = Some(now());

    let ri = ReadIndex {
        index: 5,
        issued_at: Instant { nanos: now().nanos + Duration::from_secs(60).nanos },
    };
    assert!(!node.confirm_read(ri));
}

#[test]
fn confirm_read_returns_false_when_quorum_evidence_too_stale() {
    let mut node = make_node("n1", vec!["n2".into()]);
    node.state = NodeState::Leader;
    node.last_applied = 5;
    node.commit_index = 5;
    let age = Duration::from_millis(Config::max_election_timeout_ms() + 500);
    let stale = Instant { nanos: now().nanos - age.nanos };
    node.last_quorum_heartbeat_at = Some(stale);

    let ri = ReadIndex { index: 5, issued_at: stale };
    assert!(!node.confirm_read(ri));
}

#[test]
fn tx_vote_grants_and_records_yes_on_pending_tx() {
    let mut node = make_node("n1", vec!["n2".into()]);
    node.current_term = 1;
    let (tx_id, idx, term) = seed_pending_tx(&mut node, "t-yes", vec![]);

    let resp = node.handle_tx_vote_request(&vote_req(1, &tx_id, idx, term));

    assert!(resp.vote_granted, "expected Yes vote, got No: {}", resp.reason);
    assert_eq!(resp.term, 1);
    assert!(resp.reason.is_empty());

    let view = node.state_machine.pending_tx(&tx_id).expect("tx still pending");
    assert_eq!(view.yes_votes, 1);
    assert_eq!(view.no_votes, 0);
}

#[test]
fn become_pre_candidate_single_node_promotes_without_rpc() {
    let mut node = make_node("n1", vec![]);
    let round = node.become_pre_candidate();
    assert!(round.is_none());
    assert_eq!(node.state, NodeState::Leader);
    assert_eq!(node.current_term, 1, "single-node promotes at term 1");
}

#[test]
fn become_pre_candidate_does_not_bump_term_or_write_vote() {
    let mut node = make_node("n1", vec!["n2".into(), "n3".into()]);
    node.current_term = 4;
    let term_before = node.current_term;

    let round = node.become_pre_candidate().expect("peers are asked");

    assert_eq!(round.args.term, 5);
    assert_eq!(round.peers, vec!["n2".to_string(), "n3".to_string()]);
    assert_eq!(node.state, NodeState::PreCandidate);
    assert_eq!(node.current_term, term_before, "pre-vote must not bump term");
    assert!(
        node.vote_for.is_none(),
        "pre-vote must not write vote_for (only the eventual real vote does)"
    );
}

#[test]
fn propose_abort_tx_rejects_non_leader() {
    let mut node = make_node("nl", vec![]);
    node.state = NodeState::Follower;
    node.state_machine.begin_tx_at(
        "nl-tx".into(),
        vec![TxOp::Put { key: "k".into(), value: "v".into() }],
        UNIX_MS,
    );
    let err = node.propose_abort_tx("nl-tx").unwrap_err();
    assert_eq!(err, AbortTxError::NotLeader);
}

#[test]
fn pending_txs_older_than_through_node_uses_state_machine_view() {
    let mut node = make_leader_with_pending_tx("node-old");
    let view = node.state_machine.pending_tx("node-old").unwrap();
    let ops = (0..view.op_count)
        .map(|_| TxOp::Put { key: "k".into(), value: "v".into() })
        .collect();
    node.state_machine.decide_tx("node-old", TxDecision::Abort);
    node.state_machine.begin_tx_at("node-old".into(), ops, UNIX_MS - 1_000);
    let stale = node.pending_txs_older_than(Duration::from_millis(100));
    assert_eq!(stale, vec!["node-old".to_string()]);
}

#[test]
fn a_restarted_node_has_the_log_that_it_had() {
    let mut node = make_node("n1", vec!["n2".into()]);
    let first = AppendEntriesArgs {
        term: 1,
        leader_id: "n2".into(),
        prev_log_index: 0,
        prev_log_term: 0,
        entries: vec![make_entry(1, 1, "a", "1"), make_entry(1, 2, "b", "2"), make_entry(1, 3, "c", "3")],
        leader_commit: 0,
    };
    assert!(node.handle_append_entries(&first).success);
    let second = AppendEntriesArgs {
        term: 2,
        leader_id: "n2".into(),
        prev_log_index: 1,
        prev_log_term: 1,
        entries: vec![make_entry(2, 2, "b", "9")],
        leader_commit: 0,
    };
    assert!(node.handle_append_entries(&second).success);
    let log = vec![make_entry(1, 1, "a", "1"), make_entry(2, 2, "b", "9")];
    assert_eq!(node.log, log);

    let again = RaftNode::new_with_clock(
        "n1".to_string(),
        vec!["n2".into()],
        StateMachine::new(),
        node.storage,
        Clock { now: now(), unix_ms: UNIX_MS },
    );
    assert_eq!(again.log, log);
    assert_eq!(again.current_term, 2);
}

#[test]
fn two_candidates_of_a_term_do_not_both_win() {
    let mut voters: Vec<RaftNode> = ["n1", "n2", "n3"].iter().map(|id| make_node(id, vec![])).collect();
    let ask = |id: &str| RequestVoteArgs {
        term: 1,
        candidate_id: id.to_string(),
        last_log_index: 0,
        last_log_term: 0,
    };
    let first = voters[..2].iter_mut().map(|v| v.handle_request_vote(&ask("n1")).vote_granted);
    assert_eq!(first.filter(|granted| *granted).count(), 2);
    let second = voters.iter_mut().map(|v| v.handle_request_vote(&ask("n3")).vote_granted);
    assert_eq!(second.filter(|granted| *granted).count(), 1);
}

#[test]
fn a_read_of_five_servers_takes_three_of_them() {
    let peers: Vec<String> = ["n2", "n3", "n4", "n5"].iter().map(|p| p.to_string()).collect();
    let mut node = make_node("n1", peers);
    node.state = NodeState::Leader;
    node.current_term = 1;
    let args = node.append_entries_for("n2");
    let taken = RaftMessage::AppendReply(AppendReplyArgs { term: 1, success: true });
    let ri = ReadIndex { index: 0, issued_at: now() };
    node.clock.now = Instant { nanos: now().nanos + 1_000 };
    node.process_append_reply("n2", &args, &taken);
    assert!(!node.confirm_read(ri), "one peer of four is no quorum");
    assert_eq!(node.last_quorum_heartbeat_at, None);
    node.process_append_reply("n2", &args, &taken);
    assert!(!node.confirm_read(ri), "the same peer counts once");
    node.clock.now = Instant { nanos: now().nanos + 2_000 };
    node.process_append_reply("n3", &args, &taken);
    assert!(node.confirm_read(ri));
    assert_eq!(node.last_quorum_heartbeat_at, Some(Instant { nanos: now().nanos + 1_000 }));
    let later = ReadIndex { index: 0, issued_at: node.clock.now };
    assert!(!node.confirm_read(later), "only one peer was heard from since");
    node.process_append_reply("n5", &args, &taken);
    assert!(node.confirm_read(later));
    assert!(node.quorum_heard_since(later.issued_at));
}

#[test]
fn a_larger_configuration_takes_its_own_quorum() {
    let mut node = make_node("n1", vec!["n2".into()]);
    node.state = NodeState::Leader;
    node.current_term = 1;
    let args = node.append_entries_for("n2");
    let taken = RaftMessage::AppendReply(AppendReplyArgs { term: 1, success: true });
    node.process_append_reply("n2", &args, &taken);
    assert_eq!(node.last_quorum_heartbeat_at, Some(now()));
    node.set_peers(vec!["n2".into(), "n3".into(), "n4".into()]);
    assert_eq!(node.last_quorum_heartbeat_at, None);
    node.process_append_reply("n3", &args, &taken);
    assert_eq!(node.last_quorum_heartbeat_at, Some(now()));
}

#[test]
fn a_refusal_ends_a_probe() {
    let mut node = make_node("n1", vec!["n2".into(), "n3".into()]);
    node.current_term = 4;
    node.vote_for = Some("n2".into());
    for term in [4, 5, 9] {
        let mut round = node.become_pre_candidate().expect("peers are asked");
        assert_eq!(node.state, NodeState::PreCandidate);
        let refused = VoteResponseArgs { term, vote_granted: false };
        assert!(node.process_pre_vote_reply(&mut round, &refused).is_none());
        assert_eq!(node.state, NodeState::Follower);
        assert_eq!(node.current_term, 4);
        assert_eq!(node.vote_for.as_deref(), Some("n2"));
        let granted = VoteResponseArgs { term: 4, vote_granted: true };
        assert!(node.process_pre_vote_reply(&mut round, &granted).is_none());
        assert_eq!(node.state, NodeState::Follower);
    }
}

#[test]
fn a_late_refusal_does_not_lower_the_term() {
    let mut node = make_node("n1", vec!["n2".into(), "n3".into()]);
    node.current_term = 2;
    let mut round = node.become_candidate().expect("peers are asked");
    node.current_term = 7;
    node.vote_for = Some("n3".into());
    let refused = VoteResponseArgs { term: 5, vote_granted: false };
    node.process_vote_reply(&mut round, &refused);
    assert_eq!(node.current_term, 7);
    assert_eq!(node.vote_for.as_deref(), Some("n3"));
    let refused = VoteResponseArgs { term: 8, vote_granted: false };
    node.process_vote_reply(&mut round, &refused);
    assert_eq!(node.current_term, 8);
    assert_eq!(node.vote_for, None);
    assert_eq!(node.state, NodeState::Follower);
}

#[test]
fn a_follower_names_no_stale_transactions() {
    let mut node = make_node("n1", vec!["n2".into()]);
    node.state_machine.begin_tx_at("old".into(), vec![], UNIX_MS - 1_000);
    assert!(node.pending_txs_older_than(Duration::from_millis(100)).is_empty());
    node.state = NodeState::Leader;
    assert_eq!(node.pending_txs_older_than(Duration::from_millis(100)), vec!["old".to_string()]);
}

#[test]
fn gauges_show_pending_transactions_and_the_age_of_the_snapshot() {
    let mut node = make_node("n1", vec!["n2".into()]);
    node.set_metrics(Metrics::new(), None, None);
    node.state_machine.begin_tx_at("a".into(), vec![], UNIX_MS);
    node.state_machine.begin_tx_at("b".into(), vec![], UNIX_MS);
    node.refresh_metrics();
    assert_eq!(node.metrics.as_ref().unwrap().tx_pending_count, 2);
    assert_eq!(node.metrics.as_ref().unwrap().raft_snapshot_age_seconds, -1);
    node.handle_install_snapshot(&snapshot_args(1, "n2", 1, 1, TextMap::new()));
    assert_eq!(node.metrics.as_ref().unwrap().tx_pending_count, 0);
    assert_eq!(node.metrics.as_ref().unwrap().raft_snapshot_age_seconds, 0);
    node.clock.unix_ms = UNIX_MS + 61_999;
    node.refresh_metrics();
    assert_eq!(node.metrics.as_ref().unwrap().raft_snapshot_age_seconds, 61);
    node.set_metrics(Metrics::new(), Some(UNIX_MS), None);
    assert_eq!(node.metrics.as_ref().unwrap().raft_snapshot_age_seconds, 61);
}

#[test]
fn a_restarted_node_has_the_data_that_it_had() {
    let mut node = make_node("n1", vec![]);
    node.state = NodeState::Leader;
    node.current_term = 1;
    for (key, value) in [("a", "1"), ("b", "2")] {
        assert!(node.propose(Command::SetKey { key: key.into(), value: value.into() }));
    }
    node.sync_logs();
    assert!(node.maybe_snapshot(1));
    assert!(node.propose(Command::Delete { key: "a".into() }));
    assert!(node.propose(Command::SetKey { key: "c".into(), value: "3".into() }));
    node.sync_logs();
    let data = sm_data(&node);
    let mut again = RaftNode::new_with_clock(
        "n1".to_string(),
        vec![],
        StateMachine::new(),
        node.storage,
        Clock { now: now(), unix_ms: UNIX_MS + 5_000 },
    );
    assert_eq!(again.start_up(), Some((2, 1)));
    assert_eq!(sm_data(&again), data);
    assert_node_state(&again, "a", None);
    assert_node_state(&again, "b", Some("2"));
    assert_node_state(&again, "c", Some("3"));
}
