use oxide_kv::client::ClientHandler;
use oxide_kv::config::{Args, Config};
use oxide_kv::protocol::Command;
use oxide_kv::raft::invariants::assert_invariants;
use oxide_kv::raft::node::{NodeState, RaftNode};
use oxide_kv::raft::reference_model::ReferenceModel;
use oxide_kv::raft::rpc::RaftMessage;
use oxide_kv::raft::sim_harness::{SimCluster, SimNode};
use oxide_kv::raft::sim_transport::dispatch_raft_message;
use oxide_kv::raft::storage::RaftStorage;
use oxide_kv::state_machine::StateMachine;

struct Simulation {
    cluster: SimCluster,
    cut: Vec<(usize, usize)>,
}

impl Simulation {
    fn new_3_nodes() -> Simulation {
        let ids = ["n0", "n1", "n2"];
        let mut nodes = Vec::new();
        for id in ids {
            let peers: Vec<String> = ids.iter().filter(|p| **p != id).map(|p| p.to_string()).collect();
            nodes.push(SimNode {
                id: id.to_string(),
                raft: RaftNode::new(id.to_string(), peers, StateMachine::new()),
            });
        }
        Simulation { cluster: SimCluster { nodes }, cut: Vec::new() }
    }

    fn node(&self, i: usize) -> &RaftNode {
        &self.cluster.nodes[i].raft
    }

    fn isolate(&mut self, i: usize) {
        for j in 0..3 {
            if j != i {
                self.cut.push((i, j));
                self.cut.push((j, i));
            }
        }
    }

    fn heal(&mut self) {
        self.cut.clear();
    }

    fn send(&mut self, from: usize, peer: &str, msg: RaftMessage) -> Option<RaftMessage> {
        let to = self.cluster.nodes.iter().position(|n| n.id == peer).unwrap();
        if self.cut.contains(&(from, to)) || self.cut.contains(&(to, from)) {
            return None;
        }
        dispatch_raft_message(&mut self.cluster.nodes[to].raft, msg).ok()
    }

    fn drive_election(&mut self, i: usize) {
        let mut round = self.cluster.nodes[i].raft.become_candidate().expect("peers are asked");
        for peer in round.peers.clone() {
            let ask = RaftMessage::RequestVote(round.args.clone());
            if let Some(RaftMessage::VoteResponse(reply)) = self.send(i, &peer, ask) {
                self.cluster.nodes[i].raft.process_vote_reply(&mut round, &reply);
            }
        }
    }

    fn heartbeat(&mut self, i: usize) {
        let messages = self.cluster.nodes[i].raft.heartbeat(Config::snapshot_threshold_bytes());
        for (peer, args) in messages {
            if let Some(reply) = self.send(i, &peer, RaftMessage::AppendEntries(args.clone())) {
                self.cluster.nodes[i].raft.process_append_reply(&peer, &args, &reply);
            }
        }
    }

    fn settle(&mut self) {
        for _ in 0..4 {
            for i in 0..3 {
                self.heartbeat(i);
            }
        }
    }

    fn submit_set(&mut self, i: usize, key: &str, value: &str) -> u64 {
        let command = Command::SetKey { key: key.to_string(), value: value.to_string() };
        let _ = ClientHandler::dispatch_command(command, &mut self.cluster.nodes[i].raft);
        self.node(i).log.len() as u64
    }

    fn read(&self, i: usize, key: &str) -> Option<String> {
        self.node(i).state_machine.get(key)
    }

    fn check(&self) {
        assert_invariants(&self.cluster).expect("safety invariants violated at teardown");
        let leader = self.cluster.leader_index().expect("a leader");
        let mut model = ReferenceModel::new();
        model.replay_from_node(&self.cluster, leader, self.node(leader).commit_index);
        assert_eq!(model.snapshot(), &self.node(leader).state_machine.snapshot_data());
    }
}

#[test]
fn dst_split_brain_old_leader_truncates_divergent_log() {
    let mut sim = Simulation::new_3_nodes();
    sim.drive_election(0);

    assert_eq!(sim.submit_set(0, "a", "1"), 1);
    sim.settle();

    sim.isolate(0);
    assert_eq!(sim.submit_set(0, "b", "2"), 2, "n0's log should have a 2nd entry");
    sim.settle();
    assert_eq!(sim.node(0).log.len(), 2, "n0 has 'b' (uncommitted)");
    assert_eq!(sim.node(1).log.len(), 1, "n1 hasn't received 'b'");
    assert_eq!(sim.node(2).log.len(), 1, "n2 hasn't received 'b'");

    sim.drive_election(1);
    assert_eq!(sim.node(1).state, NodeState::Leader);
    assert!(sim.node(1).current_term > 1);

    assert_eq!(sim.submit_set(1, "c", "3"), 2, "n1's index 2 is 'c' (n1 doesn't see n0's 'b')");
    sim.settle();
    assert_eq!(sim.node(1).log.len(), 2);
    assert_eq!(sim.node(2).log.len(), 2);

    sim.heal();
    sim.settle();
    assert_eq!(sim.cluster.leader_index(), Some(1));
    let has_b = sim
        .node(0)
        .log
        .iter()
        .any(|e| matches!(&e.command, Command::SetKey { key, .. } if key == "b"));
    assert!(!has_b);
    assert_eq!(sim.node(0).log.len(), 2);
    assert!(sim.node(0).last_applied >= 2);
    assert!(sim.node(0).current_term >= 2);

    for i in 0..3 {
        assert_eq!(sim.read(i, "a"), Some("1".to_string()));
        assert_eq!(sim.read(i, "c"), Some("3".to_string()));
        assert_eq!(sim.read(i, "b"), None, "divergent 'b' should be gone");
    }
    sim.check();
}

#[test]
fn dst_divergent_log_higher_term_wins() {
    let mut sim = Simulation::new_3_nodes();
    sim.drive_election(0);
    assert_eq!(sim.submit_set(0, "a", "1"), 1);
    sim.settle();

    sim.isolate(0);
    let _ = sim.submit_set(0, "b", "2");
    assert_eq!(sim.node(0).log.len(), 2);
    assert_eq!(sim.node(1).log.len(), 1);
    assert_eq!(sim.node(2).log.len(), 1);

    sim.drive_election(1);
    assert_eq!(sim.node(1).state, NodeState::Leader);
    assert!(sim.node(1).current_term > 1);
    assert_eq!(sim.submit_set(1, "c", "3"), 2, "n1's index 2 is 'c'");
    sim.settle();

    sim.heal();
    sim.settle();
    assert!(sim.node(0).current_term >= 2);
    assert_eq!(sim.node(0).state, NodeState::Follower);
    for i in 0..3 {
        assert_eq!(sim.read(i, "a"), Some("1".to_string()), "node {} should have 'a'", i);
        assert_eq!(sim.read(i, "c"), Some("3".to_string()), "node {} should have 'c'", i);
        assert_eq!(sim.read(i, "b"), None, "node {} should NOT have 'b' (divergent log truncated)", i);
        assert_eq!(sim.node(i).log.len(), 2);
    }
    sim.check();
}

#[test]
fn dst_stale_leader_steps_down_and_does_not_apply_uncommitted() {
    let mut sim = Simulation::new_3_nodes();
    sim.drive_election(0);
    let _ = sim.submit_set(0, "a", "1");
    sim.settle();

    sim.isolate(0);
    let _ = sim.submit_set(0, "b", "2");
    let _ = sim.submit_set(0, "c", "3");
    assert_eq!(sim.node(0).log.len(), 3);
    assert_eq!(sim.node(1).log.len(), 1);
    assert_eq!(sim.node(2).log.len(), 1);

    sim.drive_election(1);
    assert_eq!(sim.node(1).state, NodeState::Leader);
    assert!(sim.node(1).current_term > 1);

    sim.heal();
    sim.settle();
    assert!(sim.node(0).current_term >= 2);
    assert_eq!(sim.node(0).state, NodeState::Follower);
    assert!(
        sim.node(1).state == NodeState::Leader && sim.node(1).current_term >= 2,
        "n1 should be the post-partition leader"
    );
    assert_eq!(sim.read(0, "a"), Some("1".to_string()));
    assert_eq!(sim.read(0, "b"), None, "n0 must not have applied uncommitted 'b'");
    assert_eq!(sim.read(0, "c"), None, "n0 must not have applied uncommitted 'c'");
    sim.check();
}

#[test]
fn dst_minority_isolated_node_catches_up_on_heal() {
    let mut sim = Simulation::new_3_nodes();
    sim.drive_election(0);
    sim.submit_set(0, "a", "1");
    sim.settle();

    sim.isolate(2);
    assert_eq!(sim.submit_set(0, "b", "2"), 2);
    assert_eq!(sim.submit_set(0, "c", "3"), 3);
    sim.settle();
    assert_eq!(sim.node(2).log.len(), 1);
    assert_eq!(sim.node(2).last_applied, 1);

    sim.heal();
    sim.settle();
    for i in 0..3 {
        assert_eq!(sim.read(i, "a"), Some("1".to_string()));
        assert_eq!(sim.read(i, "b"), Some("2".to_string()));
        assert_eq!(sim.read(i, "c"), Some("3".to_string()));
    }
    sim.check();
}

#[test]
fn dst_no_partition_baseline_converges() {
    let mut sim = Simulation::new_3_nodes();
    sim.drive_election(0);
    let idx1 = sim.submit_set(0, "a", "1");
    let idx2 = sim.submit_set(0, "b", "2");
    let idx3 = sim.submit_set(0, "c", "3");
    sim.settle();
    for i in 0..3 {
        assert_eq!(sim.read(i, "a"), Some("1".to_string()));
        assert_eq!(sim.read(i, "b"), Some("2".to_string()));
        assert_eq!(sim.read(i, "c"), Some("3".to_string()));
    }
    assert_eq!(idx1, 1);
    assert_eq!(idx2, 2);
    assert_eq!(idx3, 3);
    sim.check();
}

#[test]
fn a_probe_of_an_isolated_node_disturbs_nobody() {
    let mut sim = Simulation::new_3_nodes();
    sim.drive_election(0);
    sim.submit_set(0, "a", "1");
    sim.settle();
    sim.isolate(2);
    sim.submit_set(0, "b", "2");
    sim.settle();
    for _ in 0..5 {
        sim.cluster.nodes[2].raft.become_pre_candidate();
    }
    assert_eq!(sim.node(2).current_term, 1);
    sim.heal();
    let mut round = sim.cluster.nodes[2].raft.become_pre_candidate().expect("peers are asked");
    for peer in round.peers.clone() {
        let ask = RaftMessage::RequestPreVote(round.args.clone());
        if let Some(RaftMessage::PreVoteResponse(reply)) = sim.send(2, &peer, ask) {
            assert!(!reply.vote_granted);
            let election = sim.cluster.nodes[2].raft.process_pre_vote_reply(&mut round, &reply);
            assert!(election.is_none());
        }
    }
    assert_eq!(sim.node(2).state, NodeState::Follower);
    sim.settle();
    assert_eq!(sim.node(0).state, NodeState::Leader);
    assert_eq!(sim.node(0).current_term, 1);
    assert_eq!(sim.read(2, "b"), Some("2".to_string()));
    sim.check();
}

#[test]
fn a_node_starts_up_from_its_medium() {
    let mut node = RaftNode::new("solo".to_string(), vec![], StateMachine::new());
    node.state = NodeState::Leader;
    for i in 1..=3 {
        let command = Command::SetKey { key: format!("k{i}"), value: format!("v{i}") };
        let _ = ClientHandler::dispatch_command(command, &mut node);
    }
    assert!(node.maybe_snapshot(1));
    let command = Command::SetKey { key: "late".to_string(), value: "x".to_string() };
    assert!(node.propose(command));

    let mut again =
        RaftNode::new_with_storage("solo".to_string(), vec![], StateMachine::new(), node.storage);
    assert_eq!(again.start_up(), Some((3, 0)));
    assert_eq!(again.state, NodeState::Leader);
    assert_eq!(again.state_machine.get("k2").as_deref(), Some("v2"));
    assert_eq!(again.state_machine.get("late").as_deref(), Some("x"));

    let mut follower = RaftNode::new_with_storage(
        "n1".to_string(),
        vec!["n2".to_string()],
        StateMachine::new(),
        RaftStorage::new(),
    );
    assert_eq!(follower.start_up(), None);
    assert_eq!(follower.state, NodeState::Follower);
}

#[test]
fn arguments_make_a_configuration() {
    let args = Args {
        addr: "127.0.0.1:9001".to_string(),
        client_addr: "127.0.0.1:9101".to_string(),
        peers: vec!["127.0.0.1:9002".to_string()],
        data_dir: Some("/var/lib/oxide-kv/node-1".to_string()),
        metrics_addr: "127.0.0.1:9100".to_string(),
    };
    let config = args.config();
    assert_eq!(config.node_id, "127.0.0.1:9001");
    assert_eq!(config.listen_addr, "127.0.0.1:9001");
    assert_eq!(config.client_addr, "127.0.0.1:9101");
    assert_eq!(config.peers, args.peers);
    assert_eq!(config.data_dir, args.data_dir);
    assert_eq!(args.metrics_endpoint(), Some("127.0.0.1:9100"));
    let off = Args { metrics_addr: "disabled".to_string(), ..args };
    assert_eq!(off.metrics_endpoint(), None);
}
