use oxide_kv::protocol::{Command, LogEntry, TxDecision, TxOp};
use oxide_kv::raft::invariants::{
    assert_invariants, check_2pc_atomicity, check_committed_entry_durability, check_election_safety,
    check_log_matching_property, check_state_machine_safety, InvariantViolation,
};
use oxide_kv::raft::node::{NodeState, RaftNode};
use oxide_kv::raft::reference_model::ReferenceModel;
use oxide_kv::raft::rpc::RaftMessage;
use oxide_kv::raft::sim_harness::{SimCluster, SimNode};
use oxide_kv::state_machine::StateMachine;

fn new_3_node() -> SimCluster {
    let ids = ["n1", "n2", "n3"];
    let mut nodes = Vec::new();
    for id in ids {
        let peers: Vec<String> = ids.iter().filter(|p| **p != id).map(|p| p.to_string()).collect();
        nodes.push(SimNode {
            id: id.to_string(),
            raft: RaftNode::new(id.to_string(), peers, StateMachine::new()),
        });
    }
    SimCluster { nodes }
}

fn index_of(cluster: &SimCluster, id: &str) -> usize {
    cluster.nodes.iter().position(|n| n.id == id).unwrap()
}

fn elect(cluster: &mut SimCluster, candidate: usize) {
    let mut round = cluster.nodes[candidate].raft.become_candidate().expect("peers are asked");
    for peer in round.peers.clone() {
        let at = index_of(cluster, &peer);
        let reply = cluster.nodes[at].raft.handle_request_vote(&round.args);
        cluster.nodes[candidate].raft.process_vote_reply(&mut round, &reply);
    }
}

fn replicate(cluster: &mut SimCluster, leader: usize) {
    let messages = cluster.nodes[leader].raft.sync_logs();
    for (peer, args) in messages {
        let at = index_of(cluster, &peer);
        let reply = cluster.nodes[at].raft.handle_append_entries(&args);
        let reply = RaftMessage::AppendReply(reply);
        cluster.nodes[leader].raft.process_append_reply(&peer, &args, &reply);
    }
}

fn stable_3node() -> SimCluster {
    let mut cluster = new_3_node();
    elect(&mut cluster, 0);
    replicate(&mut cluster, 0);
    cluster
}

fn set(key: &str, value: &str) -> Command {
    Command::SetKey { key: key.to_string(), value: value.to_string() }
}

fn entry(term: u64, index: usize, command: Command) -> LogEntry {
    LogEntry { term, index, command }
}

#[test]
fn invariant_holds_on_idle_cluster() {
    let cluster = new_3_node();
    assert_invariants(&cluster).expect("idle cluster safe");
}

#[test]
fn invariant_holds_after_simple_set_commit() {
    let mut cluster = stable_3node();
    let leader = cluster.leader_index().expect("leader elected");
    assert!(cluster.nodes[leader].raft.propose(set("k1", "v1")));
    replicate(&mut cluster, leader);
    replicate(&mut cluster, leader);
    for node in &cluster.nodes {
        assert_eq!(node.raft.state_machine.get("k1").as_deref(), Some("v1"));
    }
    assert_invariants(&cluster).expect("after commit, invariants hold");

    let mut model = ReferenceModel::new();
    let commit = cluster.nodes[leader].raft.commit_index;
    assert_eq!(model.replay_from_leader(&cluster, commit), 1);
    assert_eq!(model.get("k1"), Some(&"v1".to_string()));
}

#[test]
fn invariant_holds_after_tx_commit() {
    let mut cluster = stable_3node();
    let leader = cluster.leader_index().expect("leader elected");
    cluster.nodes[leader].raft.propose(Command::BeginTx {
        tx_id: "tx1".to_string(),
        ops: vec![TxOp::Put { key: "a".to_string(), value: "1".to_string() }],
    });
    replicate(&mut cluster, leader);
    cluster.nodes[leader].raft.propose(Command::DecideTx {
        tx_id: "tx1".to_string(),
        decision: TxDecision::Commit,
    });
    replicate(&mut cluster, leader);
    replicate(&mut cluster, leader);
    for node in &cluster.nodes {
        assert_eq!(node.raft.state_machine.get("a").as_deref(), Some("1"));
    }
    assert_invariants(&cluster).expect("2PC Commit invariants hold cluster-wide");
}

#[test]
fn election_safety_catches_dual_leader() {
    let mut cluster = new_3_node();
    cluster.nodes[0].raft.current_term = 5;
    cluster.nodes[0].raft.state = NodeState::Leader;
    cluster.nodes[1].raft.current_term = 5;
    cluster.nodes[1].raft.state = NodeState::Leader;
    let result = check_election_safety(&cluster);
    assert!(matches!(result, Err(InvariantViolation::ElectionSafety { term: 5, .. })));
    assert!(matches!(assert_invariants(&cluster), Err(InvariantViolation::ElectionSafety { .. })));
}

#[test]
fn leaders_of_different_terms_are_safe() {
    let mut cluster = new_3_node();
    cluster.nodes[0].raft.current_term = 5;
    cluster.nodes[0].raft.state = NodeState::Leader;
    cluster.nodes[1].raft.current_term = 6;
    cluster.nodes[1].raft.state = NodeState::Leader;
    assert!(check_election_safety(&cluster).is_ok());
}

#[test]
fn state_machine_safety_catches_divergent_apply() {
    let mut cluster = new_3_node();
    cluster.nodes[0].raft.log.push(entry(1, 1, set("k1", "v1")));
    cluster.nodes[0].raft.last_applied = 1;
    cluster.nodes[1].raft.log.push(entry(1, 1, set("k1", "v2")));
    cluster.nodes[1].raft.last_applied = 1;

    let result = check_state_machine_safety(&cluster);
    assert!(matches!(result, Err(InvariantViolation::StateMachineSafety { index: 1, .. })));
}

#[test]
fn log_matching_property_catches_term_divergence() {
    let mut cluster = new_3_node();
    cluster.nodes[0].raft.log.push(entry(1, 1, set("k1", "v1")));
    cluster.nodes[1].raft.log.push(entry(2, 1, set("k1", "v1")));
    cluster.nodes[0].raft.commit_index = 1;
    cluster.nodes[1].raft.commit_index = 1;

    let result = check_log_matching_property(&cluster);
    assert!(matches!(result, Err(InvariantViolation::LogMatchingProperty { index: 1, .. })));
}

#[test]
fn uncommitted_entries_may_diverge() {
    let mut cluster = new_3_node();
    cluster.nodes[0].raft.log.push(entry(1, 1, set("k1", "v1")));
    cluster.nodes[1].raft.log.push(entry(2, 1, set("k1", "v2")));
    assert!(check_log_matching_property(&cluster).is_ok());
}

#[test]
fn two_pc_atomicity_catches_split_outcome() {
    let mut cluster = new_3_node();
    cluster.nodes[0].raft.log.push(entry(
        1,
        1,
        Command::DecideTx { tx_id: "tx1".to_string(), decision: TxDecision::Commit },
    ));
    cluster.nodes[1].raft.log.push(entry(
        1,
        1,
        Command::DecideTx { tx_id: "tx1".to_string(), decision: TxDecision::Abort },
    ));
    let result = check_2pc_atomicity(&cluster);
    assert_eq!(
        result,
        Err(InvariantViolation::TwoPhaseCommitAtomicity {
            tx_id: "tx1".to_string(),
            per_node: vec![
                ("n1".to_string(), "Commit".to_string()),
                ("n2".to_string(), "Abort".to_string()),
            ],
        })
    );
}

#[test]
fn a_decision_that_is_missing_somewhere_is_atomic() {
    let mut cluster = new_3_node();
    cluster.nodes[0].raft.log.push(entry(
        1,
        1,
        Command::DecideTx { tx_id: "tx1".to_string(), decision: TxDecision::Commit },
    ));
    assert!(check_2pc_atomicity(&cluster).is_ok());
}

#[test]
fn durability_catches_a_lost_entry() {
    let mut cluster = new_3_node();
    for node in &mut cluster.nodes {
        node.raft.commit_index = 1;
    }
    cluster.nodes[0].raft.log.push(entry(1, 1, set("k1", "v1")));
    cluster.nodes[2].raft.log.push(entry(1, 1, set("k1", "v1")));
    let result = check_committed_entry_durability(&cluster);
    match result {
        Err(InvariantViolation::CommittedEntryDurability { index, node_id, actual_command, .. }) => {
            assert_eq!(index, 1);
            assert_eq!(node_id, "n2");
            assert_eq!(actual_command, "<missing>");
        }
        other => panic!("expected a lost entry, got {:?}", other),
    }
}

#[test]
fn durability_catches_a_changed_entry() {
    let mut cluster = new_3_node();
    for (i, node) in cluster.nodes.iter_mut().enumerate() {
        node.raft.commit_index = 1;
        let value = if i == 2 { "other" } else { "v1" };
        node.raft.log.push(entry(1, 1, set("k1", value)));
    }
    let result = check_committed_entry_durability(&cluster);
    assert!(matches!(
        result,
        Err(InvariantViolation::CommittedEntryDurability { index: 1, .. })
    ));
    assert!(result.unwrap_err().to_string().contains("n3"));
}

#[test]
fn an_empty_cluster_is_safe() {
    let cluster = SimCluster { nodes: Vec::new() };
    assert!(assert_invariants(&cluster).is_ok());
    assert_eq!(cluster.leader_index(), None);
}

#[test]
fn idle_cluster_passes_all_invariants() {
    let cluster = new_3_node();
    assert_invariants(&cluster).expect("idle 3-node safe");
}
