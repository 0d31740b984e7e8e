use oxide_kv::client::{
    invalid_json_reply, tx_outcome_reply, ClientHandler, MemberChange, Next, PendingChange,
};
use oxide_kv::observability::registry::Metrics;
use oxide_kv::protocol::{
    AbortTxError, Command, Configuration, LogEntry, MembershipError, ServerId, TxDecision, TxOp,
};
use oxide_kv::raft::coordinator::{sweep, PeerVote, TxOutcome};
use oxide_kv::raft::node::{NodeState, RaftNode};
use oxide_kv::raft::rpc::{AppendReplyArgs, RaftMessage};
use oxide_kv::raft::storage::{RaftStorage, StorageFault};
use oxide_kv::state_machine::StateMachine;
use oxide_kv::text_map::TextMap;
use oxide_kv::time::{Clock, Duration, Instant};
use serde_json::Value;

const UNIX_MS: u64 = 1_700_000_000_000;

fn at(ms: u64) -> Clock {
    Clock { now: Instant { nanos: ms as u128 * 1_000_000 }, unix_ms: UNIX_MS }
}

fn make_node(node_id: &str, peers: Vec<String>) -> RaftNode {
    RaftNode::new_with_clock(node_id.to_string(), peers, StateMachine::new(), RaftStorage::new(), at(0))
}

fn make_single_node(node_id: &str) -> RaftNode {
    let mut node = make_node(node_id, vec![]);
    node.state = NodeState::Leader;
    node
}

fn reply(step: (Next, Vec<(String, oxide_kv::raft::rpc::AppendEntriesArgs)>)) -> Value {
    match step.0 {
        Next::Reply(value) => value,
        _ => panic!("expected an answer at once"),
    }
}

fn put(key: &str, value: &str) -> TxOp {
    TxOp::Put { key: key.to_string(), value: value.to_string() }
}

fn set(key: &str, value: &str) -> Command {
    Command::SetKey { key: key.to_string(), value: value.to_string() }
}

fn build_begin_tx_entry(tx_id: &str) -> LogEntry {
    LogEntry {
        term: 1,
        index: 1,
        command: Command::BeginTx { tx_id: tx_id.to_string(), ops: vec![put("k1", "v1")] },
    }
}

#[test]
fn is_single_node_true_when_peers_empty() {
    let node = make_single_node("solo");
    assert!(node.is_single_node());
}

#[test]
fn is_single_node_false_when_peers_present() {
    let node = make_node("n1", vec!["127.0.0.1:9002".into()]);
    assert!(!node.is_single_node());
}

#[test]
fn linearizable_get_returns_value_on_single_node_without_timeout() {
    let mut node = make_single_node("solo");

    let resp = reply(ClientHandler::dispatch_command(set("hello", "world"), &mut node));
    assert_eq!(resp["status"], "ok", "Set must succeed: {resp}");
    assert_eq!(resp["index"], 1);

    let resp = reply(ClientHandler::linearizable_get("hello", &mut node));
    assert_eq!(resp["status"], "ok", "Get must succeed: {resp}");
    assert_eq!(resp["data"], "world");
}

#[test]
fn linearizable_get_returns_not_found_for_missing_key_on_single_node() {
    let mut node = make_single_node("solo");
    let resp = reply(ClientHandler::linearizable_get("missing", &mut node));
    assert_eq!(resp["status"], "not_found");
}

#[test]
fn linearizable_get_rejects_non_leader_on_single_node() {
    let mut node = make_single_node("solo");
    node.state = NodeState::Follower;
    let resp = reply(ClientHandler::linearizable_get("anything", &mut node));
    assert!(resp["error"].as_str().unwrap().contains("Not a leader"));
}

#[test]
fn admin_abort_tx_round_trip_on_single_node_leader() {
    let mut node = make_single_node("n");
    node.metrics = Some(Metrics::new());
    node.log.push(build_begin_tx_entry("aborted-tx"));
    node.commit_index = node.log.len() as u64;
    node.apply_logs();
    assert!(node.state_machine.is_tx_pending("aborted-tx"));

    let resp = reply(ClientHandler::dispatch_command(
        Command::AbortTx { tx_id: "aborted-tx".to_string() },
        &mut node,
    ));
    assert_eq!(resp.get("status").and_then(|v| v.as_str()), Some("ok"));
    assert_eq!(resp.get("decision").and_then(|v| v.as_str()), Some("abort"));
    let decide_index = resp.get("decide_index").and_then(|v| v.as_u64()).unwrap();

    assert_eq!(node.log.last().unwrap().index as u64, decide_index);
    match &node.log.last().unwrap().command {
        Command::DecideTx { tx_id, decision } => {
            assert_eq!(tx_id, "aborted-tx");
            assert_eq!(*decision, TxDecision::Abort);
        }
        other => panic!("expected DecideTx(Abort), got {:?}", other),
    }
    node.commit_index = decide_index;
    node.apply_logs();
    assert!(!node.state_machine.is_tx_pending("aborted-tx"));
    assert_eq!(node.state_machine.get("k1"), None);
    assert_eq!(node.metrics.as_ref().unwrap().tx_admin_aborted_total, 1);
}

#[test]
fn admin_abort_tx_returns_tx_not_found_for_unknown_id() {
    let mut node = make_single_node("n");
    let resp = reply(ClientHandler::dispatch_command(
        Command::AbortTx { tx_id: "never-existed".to_string() },
        &mut node,
    ));
    assert_eq!(resp.get("status").and_then(|v| v.as_str()), Some("error"));
    assert_eq!(resp.get("code").and_then(|v| v.as_str()), Some("tx_not_found"));
    assert_eq!(resp["tx_id"], "never-existed");
    assert_eq!(node.log.len(), 0);
}

#[test]
fn coordinator_sweep_force_aborts_stuck_tx() {
    let mut node = make_single_node("n");
    node.metrics = Some(Metrics::new());
    node.log.push(build_begin_tx_entry("sweep-me"));
    node.commit_index = node.log.len() as u64;
    node.apply_logs();
    node.state_machine.decide_tx("sweep-me", TxDecision::Abort);
    node.state_machine.begin_tx_at("sweep-me".into(), vec![put("k1", "v1")], UNIX_MS - 60_000);
    assert!(node.state_machine.is_tx_pending("sweep-me"));

    let swept = sweep(&mut node, Duration::from_millis(10));
    assert_eq!(swept, vec!["sweep-me".to_string()]);

    let last = node.log.last().expect("log must have entries");
    match &last.command {
        Command::DecideTx { tx_id, decision } => {
            assert_eq!(tx_id, "sweep-me");
            assert_eq!(*decision, TxDecision::Abort);
        }
        other => panic!("expected DecideTx(Abort) appended by sweep, got {:?}", other),
    }
    node.commit_index = node.log.len() as u64;
    node.apply_logs();
    assert!(!node.state_machine.is_tx_pending("sweep-me"));
    assert_eq!(node.state_machine.get("k1"), None);
    assert_eq!(node.metrics.as_ref().unwrap().tx_timeout_aborted_total, 1);
}

#[test]
fn the_sweep_leaves_young_transactions_and_followers_alone() {
    let mut node = make_single_node("n");
    node.state_machine.begin_tx_at("young".into(), vec![], UNIX_MS - 5);
    assert_eq!(sweep(&mut node, Duration::from_millis(10)), Vec::<String>::new());
    node.state_machine.begin_tx_at("stuck".into(), vec![], UNIX_MS - 60_000);
    node.state = NodeState::Follower;
    assert_eq!(sweep(&mut node, Duration::from_millis(10)), Vec::<String>::new());
    assert!(node.log.is_empty());
}

#[test]
fn a_follower_refuses_every_command() {
    let mut node = make_node("n1", vec!["n2".into()]);
    let commands = vec![
        set("k", "v"),
        Command::Get { key: "k".into() },
        Command::Delete { key: "k".into() },
        Command::Compact,
        Command::BeginTx { tx_id: "t".into(), ops: vec![] },
        Command::DecideTx { tx_id: "t".into(), decision: TxDecision::Commit },
        Command::AddNode { server: ServerId { node_id: "n3".into(), addr: "n3".into() } },
        Command::RemoveNode { node_id: "n2".into() },
        Command::AbortTx { tx_id: "t".into() },
    ];
    for command in commands {
        let resp = reply(ClientHandler::dispatch_command(command, &mut node));
        assert_eq!(resp.to_string(), r#"{"error":"Not a leader. Please connect to the leader node."}"#);
    }
    assert!(node.log.is_empty());
}

#[test]
fn a_write_that_cannot_be_logged_is_an_error() {
    let mut node = make_single_node("solo");
    node.storage.fault = Some(StorageFault { appends_left: 0, reason: "disk full".to_string() });
    let resp = reply(ClientHandler::dispatch_command(set("k", "v"), &mut node));
    assert_eq!(resp.to_string(), r#"{"status":"error"}"#);
}

#[test]
fn internal_commands_are_refused() {
    let mut node = make_single_node("solo");
    let resp = reply(ClientHandler::dispatch_command(Command::Compact, &mut node));
    assert_eq!(resp["status"], "error");
    assert_eq!(resp["message"], "compact not supported yet");
    let resp = reply(ClientHandler::dispatch_command(
        Command::InstallConfiguration { config: Configuration::Simple(vec![]) },
        &mut node,
    ));
    assert_eq!(
        resp["message"],
        "InstallConfiguration is a leader-internal log entry; not a valid client command"
    );
    assert!(node.log.is_empty());
}

#[test]
fn writes_and_deletes_are_applied_at_once_without_peers() {
    let mut node = make_single_node("solo");
    reply(ClientHandler::dispatch_command(set("k", "v"), &mut node));
    let resp = reply(ClientHandler::dispatch_command(Command::Delete { key: "k".into() }, &mut node));
    assert_eq!(resp["index"], 2);
    let resp = reply(ClientHandler::dispatch_command(Command::Get { key: "k".into() }, &mut node));
    assert_eq!(resp.to_string(), r#"{"status":"not_found"}"#);
}

#[test]
fn writes_are_sent_to_the_peers() {
    let mut node = make_node("n1", vec!["n2".into(), "n3".into()]);
    node.state = NodeState::Leader;
    node.current_term = 1;
    let (next, messages) = ClientHandler::dispatch_command(set("k", "v"), &mut node);
    assert!(matches!(next, Next::Reply(_)));
    assert_eq!(messages.len(), 2);
    assert_eq!(messages[0].0, "n2");
    assert_eq!(messages[0].1.entries.len(), 1);
    assert_eq!(node.commit_index, 0);
}

#[test]
fn a_read_waits_for_its_confirmation() {
    let mut node = make_node("n1", vec!["n2".into(), "n3".into()]);
    node.state = NodeState::Leader;
    node.current_term = 1;
    node.state_machine.set("k", "v");
    node.clock = at(1_000);
    let (next, messages) = ClientHandler::dispatch_command(Command::Get { key: "k".into() }, &mut node);
    let Next::Read(read) = next else {
        panic!("expected a read that waits");
    };
    assert!(read.poll(&node).is_none());

    node.clock = at(1_100);
    let (peer, args) = &messages[0];
    let ack = RaftMessage::AppendReply(AppendReplyArgs { term: 1, success: true });
    node.process_append_reply(peer, args, &ack);
    let resp = read.poll(&node).expect("confirmed");
    assert_eq!(resp.to_string(), r#"{"data":"v","status":"ok"}"#);
}

#[test]
fn a_read_that_waits_too_long_is_an_error() {
    let mut node = make_node("n1", vec!["n2".into()]);
    node.state = NodeState::Leader;
    node.clock = at(1_000);
    let (next, _) = ClientHandler::dispatch_command(Command::Get { key: "k".into() }, &mut node);
    let Next::Read(read) = next else {
        panic!("expected a read that waits");
    };
    node.clock = at(3_000);
    assert!(read.poll(&node).is_none());
    node.clock = at(3_001);
    let resp = read.poll(&node).expect("timed out");
    assert_eq!(resp["status"], "error");
    assert_eq!(resp["message"], "read confirmation timeout (leader may have lost quorum)");
}

#[test]
fn a_server_is_added_in_two_phases() {
    let mut node = make_single_node("n1");
    node.current_term = 1;
    let server = ServerId { node_id: "n2".into(), addr: "n2".into() };
    let (next, _) = ClientHandler::dispatch_command(Command::AddNode { server }, &mut node);
    let Next::Change(mut change) = next else {
        panic!("expected a change that waits");
    };
    assert_eq!(change.joint_index, 1);
    assert_eq!(node.log.len(), 2);
    assert!(change.poll(&node).is_none(), "the second entry waits for the new server");
    assert!(change.joint_committed);
    let (_, args) = node.sync_logs().remove(0);
    let taken = RaftMessage::AppendReply(AppendReplyArgs { term: 1, success: true });
    node.process_append_reply("n2", &args, &taken);
    assert_eq!(node.commit_index, 2);
    let resp = change.poll(&node).expect("both entries are committed");
    assert_eq!(resp["status"], "ok");
    assert_eq!(resp["joint_index"], 1);
    assert_eq!(resp["simple_index"], 2);
    assert_eq!(resp["new_member"], "n2");
    assert_eq!(node.log.len(), 2);
    assert_eq!(node.current_config, Configuration::Simple(change.members.clone()));
    assert_eq!(change.members.len(), 2);
    assert_eq!(node.peers, vec!["n2".to_string()]);
}

#[test]
fn a_change_that_is_not_committed_times_out() {
    let mut node = make_node("n1", vec!["n2".into(), "n3".into()]);
    node.state = NodeState::Leader;
    node.current_term = 1;
    let (next, messages) =
        ClientHandler::dispatch_command(Command::RemoveNode { node_id: "n3".into() }, &mut node);
    let Next::Change(mut change) = next else {
        panic!("expected a change that waits");
    };
    assert_eq!(messages.len(), 2);
    assert!(change.poll(&node).is_none());
    node.clock = at(9_999);
    assert!(change.poll(&node).is_none());
    node.clock = at(10_000);
    let resp = change.poll(&node).expect("too late");
    assert_eq!(resp["status"], "error");
    assert_eq!(resp["message"], "RemoveNode: Joint entry at index 1 did not commit within 10s");
}

#[test]
fn the_second_phase_has_its_own_time() {
    let mut node = make_node("n1", vec!["n2".into()]);
    node.clock = at(9_000);
    node.commit_index = 1;
    let mut change = PendingChange {
        change: MemberChange::Removed("n3".to_string()),
        members: vec![ServerId { node_id: "n1".into(), addr: "n1".into() }],
        joint_index: 1,
        joint_committed: false,
        since: Instant { nanos: 0 },
    };
    assert!(change.poll(&node).is_none());
    assert!(change.joint_committed);
    node.clock = at(18_999);
    assert!(change.poll(&node).is_none());
    node.clock = at(19_000);
    let resp = change.poll(&node).expect("too late");
    assert_eq!(resp.to_string(), r#"{"joint_index":1,"simple_appended":false,"status":"ok"}"#);
    node.log.push(build_begin_tx_entry("a"));
    node.log.push(build_begin_tx_entry("b"));
    node.commit_index = 2;
    let resp = change.poll(&node).expect("still another configuration");
    assert_eq!(resp["simple_appended"], true);
    node.current_config = Configuration::Simple(vec![ServerId { node_id: "n1".into(), addr: "n1".into() }]);
    node.commit_index = 1;
    let resp = change.poll(&node).expect("not committed");
    assert_eq!(resp["simple_appended"], true);
    node.commit_index = 2;
    let resp = change.poll(&node).expect("done");
    assert_eq!(resp["removed_member"], "n3");
    assert_eq!(resp["simple_index"], 2);
}

#[test]
fn refused_changes_have_codes() {
    let mut node = make_single_node("n1");
    let server = ServerId { node_id: "n1".into(), addr: "n1".into() };
    let resp = reply(ClientHandler::add_node(server, &mut node));
    assert_eq!(resp.to_string(), r#"{"code":"already_member","node_id":"n1","status":"error"}"#);
    let resp = reply(ClientHandler::remove_node("n9".into(), &mut node));
    assert_eq!(resp.to_string(), r#"{"code":"not_member","node_id":"n9","status":"error"}"#);
    let resp = reply(ClientHandler::remove_node("n1".into(), &mut node));
    assert_eq!(resp["code"], "cannot_remove_self");
    for (error, code) in [
        (MembershipError::NotLeader, "not_leader"),
        (MembershipError::CannotRemoveLastServer, "cannot_remove_last_server"),
        (MembershipError::StorageError("disk full".into()), "storage_error"),
    ] {
        assert_eq!(ClientHandler::membership_error_to_json(error)["code"], code);
    }
    for (error, code) in [
        (AbortTxError::NotLeader, "not_leader"),
        (AbortTxError::NotFound("t".into()), "tx_not_found"),
        (AbortTxError::StorageError("disk full".into()), "storage_error"),
    ] {
        assert_eq!(ClientHandler::abort_tx_error_to_json(error)["code"], code);
    }
}

#[test]
fn a_transaction_without_peers_commits_at_once() {
    let mut node = make_single_node("solo");
    let command = Command::BeginTx { tx_id: "t1".into(), ops: vec![put("a", "1"), put("b", "2")] };
    let resp = reply(ClientHandler::dispatch_command(command, &mut node));
    assert_eq!(
        resp.to_string(),
        r#"{"begin_index":1,"decide_index":2,"decision":"commit","status":"ok","tx_id":"t1"}"#
    );
    assert_eq!(node.state_machine.get("a").as_deref(), Some("1"));
    assert_eq!(node.state_machine.get("b").as_deref(), Some("2"));
    assert_eq!(node.state_machine.pending_tx_count(), 0);
}

#[test]
fn a_transaction_that_cannot_be_staged_is_aborted() {
    for appends_left in [0, 1] {
        let mut node = make_single_node("solo");
        node.storage.fault = Some(StorageFault { appends_left, reason: "disk full".to_string() });
        let command = Command::BeginTx { tx_id: "t1".into(), ops: vec![put("a", "1")] };
        let resp = reply(ClientHandler::dispatch_command(command, &mut node));
        assert_eq!(resp["status"], "aborted");
        assert_eq!(node.state_machine.get("a"), None);
    }
}

#[test]
fn a_transaction_with_peers_goes_to_the_vote() {
    let mut leader = make_node("n1", vec!["n2".into(), "n3".into()]);
    leader.state = NodeState::Leader;
    leader.current_term = 1;
    let command = Command::BeginTx { tx_id: "t1".into(), ops: vec![put("a", "1")] };
    let (next, messages) = ClientHandler::dispatch_command(command, &mut leader);
    let Next::Vote(round) = next else {
        panic!("expected a vote");
    };
    assert_eq!(round.begin_index, 1);
    assert!(!round.replicated(&leader));

    let mut votes: TextMap<PeerVote> = TextMap::new();
    let mut followers = Vec::new();
    for (peer, args) in &messages {
        let mut follower = make_node(peer, vec!["n1".into()]);
        let ack = RaftMessage::AppendReply(follower.handle_append_entries(args));
        leader.process_append_reply(peer, args, &ack);
        followers.push(follower);
    }
    assert!(round.replicated(&leader));
    let request = round.vote_request(&leader);
    assert_eq!(request.last_log_index, 1);
    for (i, follower) in followers.iter_mut().enumerate() {
        let vote = follower.handle_tx_vote_request(&request);
        assert!(vote.vote_granted, "{}", vote.reason);
        votes.insert(messages[i].0.clone(), PeerVote::Yes);
    }
    let (outcome, messages) = round.finish(&mut leader, &votes);
    assert_eq!(
        outcome,
        TxOutcome::Committed { begin_index: 1, decide_index: 2, tx_id: "t1".to_string() }
    );
    assert_eq!(messages.len(), 2);
    assert_eq!(leader.log.len(), 2);
}

#[test]
fn one_objection_aborts_a_transaction() {
    for (vote, reason) in [
        (Some(PeerVote::No("tx not pending: t1".into())), "vote no from n3: tx not pending: t1"),
        (Some(PeerVote::Failed("rpc timeout".into())), "no vote from n3: rpc timeout"),
        (None, "no vote from n3"),
    ] {
        let mut leader = make_node("n1", vec!["n2".into(), "n3".into()]);
        leader.state = NodeState::Leader;
        let command = Command::BeginTx { tx_id: "t1".into(), ops: vec![put("a", "1")] };
        let (next, _) = ClientHandler::dispatch_command(command, &mut leader);
        let Next::Vote(round) = next else {
            panic!("expected a vote");
        };
        let mut votes = TextMap::new();
        votes.insert("n2".to_string(), PeerVote::Yes);
        if let Some(vote) = vote {
            votes.insert("n3".to_string(), vote);
        }
        assert_eq!(round.first_objection(&votes).as_deref(), Some(reason));
        let (outcome, _) = round.finish(&mut leader, &votes);
        assert_eq!(
            outcome,
            TxOutcome::Aborted { tx_id: "t1".to_string(), reason: reason.to_string() }
        );
        assert!(matches!(
            leader.log[1].command,
            Command::DecideTx { decision: TxDecision::Abort, .. }
        ));
    }
}

#[test]
fn a_deposed_leader_decides_nothing() {
    let mut leader = make_node("n1", vec!["n2".into()]);
    leader.state = NodeState::Leader;
    let command = Command::BeginTx { tx_id: "t1".into(), ops: vec![] };
    let (next, _) = ClientHandler::dispatch_command(command, &mut leader);
    let Next::Vote(round) = next else {
        panic!("expected a vote");
    };
    leader.state = NodeState::Follower;
    let (outcome, messages) = round.finish(&mut leader, &TextMap::new());
    assert_eq!(outcome, TxOutcome::NotLeader { tx_id: "t1".to_string() });
    assert!(messages.is_empty());
    let resp = tx_outcome_reply(outcome);
    assert_eq!(resp.to_string(), r#"{"message":"not leader","status":"error","tx_id":"t1"}"#);
}

#[test]
fn a_line_that_is_no_command_is_refused() {
    let resp = invalid_json_reply("expected value at line 1 column 1");
    assert_eq!(
        resp.to_string(),
        r#"{"message":"Invalid JSON: expected value at line 1 column 1","status":"error"}"#
    );
}
