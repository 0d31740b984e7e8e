//! What a node's answers and changes come to, in terms of what its log, its
//! counters and its messages hold.

use crate::coordination::VoteRequestModel;
use crate::protocol::{
    AbortTxErrorModel, CommandModel, ConfigurationModel, LogEntryModel, MembershipErrorModel, ServerModel,
    SnapshotModel, TxDecision,
};
use crate::raft::model::{NodeModel, RoundModel};
use crate::raft::node::NodeState;
use crate::raft::rpc::{
    AppendEntriesArgsModel, AppendReplyArgsModel, InstallSnapshotArgsModel, JoinClusterRequestModel,
    RequestVoteArgsModel, VoteResponseArgsModel,
};
use crate::raft::storage::StorageModel;
use crate::state_machine::StoreModel;
use crate::time::Instant;
use vstd::prelude::*;

verus! {

// ---- votes ----

/// The election restriction: a vote goes only to a candidate whose log is at
/// least as up to date as ours. The later last term decides, and between equal
/// last terms the last index. A candidate is refused for nothing else than an
/// older term, a vote that went to another, or its log.
pub proof fn votes_follow_the_later_term(node: NodeModel, args: RequestVoteArgsModel)
    ensures
        ({
            let granted = node.request_vote(args).1.vote_granted;
            let last = node.log[node.log.len() - 1];
            let up_to_date = node.log.len() == 0 || args.last_log_term > last.term || (args.last_log_term == last.term
                && args.last_log_index >= last.index);
            let free = args.term > node.current_term || node.vote_for is None || node.vote_for == Some(
                args.candidate_id,
            );
            &&& granted ==> up_to_date && free && args.term >= node.current_term
            &&& up_to_date && free && args.term >= node.current_term ==> granted
        }),
{
}

/// What a request for a vote changes: a later term is entered as a follower
/// without a vote; a vote that is granted is kept, and both are on the medium
/// before the answer, as far as it takes writes. Neither the log nor what is
/// committed or stored changes.
pub proof fn votes_are_kept(node: NodeModel, args: RequestVoteArgsModel)
    ensures
        ({
            let (after, reply) = node.request_vote(args);
            let later = args.term > node.current_term;
            &&& after.current_term == if later {
                args.term
            } else {
                node.current_term
            }
            &&& reply.term == after.current_term
            &&& after.state == if later {
                NodeState::Follower
            } else {
                node.state
            }
            &&& after.vote_for == if reply.vote_granted {
                Some(args.candidate_id)
            } else if later {
                None
            } else {
                node.vote_for
            }
            &&& after.last_heartbeat == if reply.vote_granted {
                node.clock.now
            } else {
                node.last_heartbeat
            }
            &&& (later || reply.vote_granted) && (node.storage.fault matches Some(f) ==> f.appends_left > 0) ==> after.storage.term
                == after.current_term && after.storage.vote == after.vote_for
            &&& after.storage.wal == node.storage.wal && after.storage.snapshot == node.storage.snapshot
            &&& after == (NodeModel {
                current_term: after.current_term,
                state: after.state,
                vote_for: after.vote_for,
                storage: after.storage,
                last_heartbeat: after.last_heartbeat,
                ..node
            })
        }),
{
}

/// A probe is answered by the election restriction as a vote is: yes only to a
/// log that is at least as up to date, for the term of the node or the next one,
/// and not by the leader of the probed term. The node takes it for a sign of life
/// and changes nothing else.
pub proof fn probes_follow_the_later_term(node: NodeModel, args: RequestVoteArgsModel)
    ensures
        ({
            let granted = node.pre_vote(args).1.vote_granted;
            let last = node.log[node.log.len() - 1];
            let up_to_date = node.log.len() == 0 || args.last_log_term > last.term || (args.last_log_term == last.term
                && args.last_log_index >= last.index);
            let due = args.term == node.current_term && node.state != NodeState::Leader || args.term
                == node.current_term + 1;
            &&& granted ==> up_to_date && due
            &&& up_to_date && due ==> granted
            &&& node.pre_vote(args).1.term == node.current_term
            &&& node.pre_vote(args).0 == (NodeModel { last_heartbeat: node.clock.now, ..node })
        }),
{
}

/// Of two requests of a term, of which the voter can grant either, a log that is
/// more up to date is not refused where one that is less so is granted.
pub proof fn better_logs_are_not_refused(node: NodeModel, worse: RequestVoteArgsModel, better: RequestVoteArgsModel)
    requires
        worse.term == better.term,
        worse.candidate_id == better.candidate_id,
        better.last_log_term > worse.last_log_term || (better.last_log_term == worse.last_log_term
            && better.last_log_index >= worse.last_log_index),
    ensures
        node.request_vote(worse).1.vote_granted ==> node.request_vote(better).1.vote_granted,
        node.pre_vote(worse).1.vote_granted ==> node.pre_vote(better).1.vote_granted,
{
}

// ---- elections ----

/// What a candidate and a pre-candidate ask for: its own last entry, of every
/// peer, and with its own vote counted.
pub open spec fn asks_for(node: NodeModel, round: RoundModel, term: u64) -> bool {
    &&& round.term == term
    &&& round.votes == 1
    &&& round.total_nodes == node.peers.len() + 1
    &&& round.peers == node.peers
    &&& round.args.term == term
    &&& round.args.candidate_id == node.node_id
    &&& round.args.last_log_index == if node.log.len() == 0 {
        0
    } else {
        node.log[node.log.len() - 1].index as u64
    }
    &&& round.args.last_log_term == if node.log.len() == 0 {
        0
    } else {
        node.log[node.log.len() - 1].term
    }
}

/// A node that times out probes the next term without entering it: neither its
/// term, its vote nor the medium changes. A candidate and a leader do not probe.
pub proof fn timeouts_probe_the_next_term(node: NodeModel)
    requires
        node.current_term < u64::MAX,
        0 < node.peers.len() < usize::MAX,
    ensures
        ({
            let (after, round) = node.become_pre_candidate();
            let probes = node.state == NodeState::Follower || node.state == NodeState::PreCandidate;
            &&& probes ==> (round matches Some(r) && asks_for(node, r, (node.current_term + 1) as u64))
            &&& !probes ==> round is None && after == node
            &&& probes ==> after.state == NodeState::PreCandidate
            &&& after == (NodeModel { state: after.state, metrics: after.metrics, ..node })
        }),
{
}

/// A node that stands for election enters the next term, votes for itself, has
/// both on the medium, and asks all its peers.
pub proof fn candidates_stand_in_the_next_term(node: NodeModel)
    requires
        node.current_term < u64::MAX,
        0 < node.peers.len() < usize::MAX,
    ensures
        ({
            let (after, round) = node.promoted().request_votes();
            &&& after.current_term == node.current_term + 1
            &&& after.state == NodeState::Candidate
            &&& after.vote_for == Some(node.node_id)
            &&& after.last_heartbeat == node.clock.now
            &&& (node.storage.fault matches Some(f) ==> f.appends_left > 0) ==> after.storage.term == node.current_term + 1 && after.storage.vote
                == Some(node.node_id)
            &&& after.storage.wal == node.storage.wal && after.storage.snapshot == node.storage.snapshot
            &&& round matches Some(r) && asks_for(node, r, (node.current_term + 1) as u64)
            &&& after == (NodeModel {
                current_term: after.current_term,
                state: after.state,
                vote_for: after.vote_for,
                storage: after.storage,
                last_heartbeat: after.last_heartbeat,
                metrics: after.metrics,
                ..node
            })
        }),
{
}

/// A node without peers leads the next term as soon as it times out.
pub proof fn lone_nodes_lead_at_once(node: NodeModel)
    requires
        node.current_term < u64::MAX,
        node.peers.len() == 0,
        node.state != NodeState::Leader,
    ensures
        ({
            let (stood, round) = node.promoted().request_votes();
            stood.state == NodeState::Leader && stood.current_term == node.current_term + 1 && round is None
        }),
        node.state != NodeState::Candidate ==> {
            let (after, round) = node.become_pre_candidate();
            &&& after.state == NodeState::Leader
            &&& after.current_term == node.current_term + 1
            &&& after.vote_for == Some(node.node_id)
            &&& round is None
        },
{
}

/// A probe succeeds with grants of more than half of the nodes, the node's own
/// among them, and not with fewer; a refusal ends it. Until then neither term
/// nor vote changes.
pub proof fn probes_take_a_majority(node: NodeModel, round: RoundModel, reply: VoteResponseArgsModel)
    requires
        round.votes < usize::MAX,
        node.current_term < u64::MAX,
        0 < node.peers.len() < usize::MAX,
    ensures
        ({
            let (after, counted, election) = node.pre_vote_reply(round, reply);
            let yes = reply.vote_granted && reply.term <= round.term;
            let probing = node.state == NodeState::PreCandidate;
            let won = yes && probing && node.current_term + 1 == round.term && 2 * (round.votes + 1)
                > round.total_nodes;
            &&& counted == (RoundModel { votes: counted.votes, ..round })
            &&& counted.votes == if yes {
                round.votes + 1
            } else {
                round.votes as int
            }
            &&& won ==> after.state == NodeState::Candidate && after.current_term == node.current_term + 1
                && after.vote_for == Some(node.node_id)
            &&& won ==> (election matches Some(e) && asks_for(node, e, round.term))
            &&& !won ==> election is None && after == (NodeModel { state: after.state, ..node })
            &&& !won ==> after.state == if probing && !yes {
                NodeState::Follower
            } else {
                node.state
            }
        }),
{
}

/// A candidate leads with votes of more than half of the nodes, its own among
/// them, in the term that it stands in, and not with fewer. A refusal from a
/// later term makes it a follower of that term; no other refusal changes it.
pub proof fn elections_take_a_majority(node: NodeModel, round: RoundModel, reply: VoteResponseArgsModel)
    requires
        round.votes < usize::MAX,
        node.state != NodeState::Leader,
    ensures
        ({
            let (after, counted) = node.vote_reply(round, reply);
            let won = reply.vote_granted && node.state == NodeState::Candidate && node.current_term == round.term && 2
                * (round.votes + 1) > round.total_nodes;
            let deposed = !reply.vote_granted && reply.term > node.current_term;
            &&& counted == (RoundModel { votes: counted.votes, ..round })
            &&& counted.votes == if reply.vote_granted {
                round.votes + 1
            } else {
                round.votes as int
            }
            &&& won <==> after.state == NodeState::Leader
            &&& !deposed ==> after.current_term == node.current_term && after.vote_for == node.vote_for
            &&& deposed ==> after.current_term == reply.term && after.vote_for is None && after.state
                == NodeState::Follower
            &&& !won && !deposed ==> after == node
            &&& after.log == node.log && after.commit_index == node.commit_index && after.store == node.store
        }),
{
}

/// A node that starts to lead sends every peer what comes behind its log, and
/// keeps a next index for no other.
pub proof fn leaders_start_behind_their_log(node: NodeModel, peer: Seq<char>)
    requires
        node.state != NodeState::Leader,
        node.log.len() < u64::MAX,
    ensures
        ({
            let after = node.become_leader();
            &&& after.state == NodeState::Leader
            &&& after.next_index.contains_key(peer) <==> node.peers.contains(peer)
            &&& node.peers.contains(peer) ==> after.next_index[peer] == node.log.len() + 1
            &&& after.last_heartbeat == node.clock.now
            &&& after == (NodeModel {
                state: after.state,
                next_index: after.next_index,
                last_heartbeat: after.last_heartbeat,
                metrics: after.metrics,
                ..node
            })
        }),
{
}

// ---- replication ----

/// What a leader sends to a peer: every entry of its log from the peer's next
/// index on and nothing else, the term of the entry before them, and its own
/// commit index.
pub proof fn peers_are_sent_the_rest_of_the_log(node: NodeModel, peer: Seq<char>)
    requires
        node.next_index.contains_key(peer) ==> node.next_index[peer] >= 1,
        node.log.len() <= usize::MAX,
    ensures
        ({
            let args = node.append_args(peer);
            let next = if node.next_index.contains_key(peer) {
                node.next_index[peer]
            } else {
                1
            };
            &&& args.term == node.current_term
            &&& args.leader_id == node.node_id
            &&& args.leader_commit == node.commit_index
            &&& args.prev_log_index == next - 1
            &&& args.entries.len() == if next <= node.log.len() {
                node.log.len() - next + 1
            } else {
                0
            }
            &&& forall|i: int| 0 <= i < args.entries.len() ==> #[trigger] args.entries[i] == node.log[next - 1 + i]
            &&& 1 < next <= node.log.len() + 1 ==> args.prev_log_term == node.log[next - 2].term
            &&& next == 1 || next > node.log.len() + 1 ==> args.prev_log_term == 0
        }),
{
}

/// Every peer is sent its entries, in the order of the peers, once each.
pub proof fn every_peer_is_sent_to(node: NodeModel)
    ensures
        node.outbound().len() == node.peers.len(),
        forall|i: int|
            0 <= i < node.peers.len() ==> #[trigger] node.outbound()[i] == (
                node.peers[i],
                node.append_args(node.peers[i]),
            ),
{
}

proof fn commit_keeps_peers(node: NodeModel, index: u64)
    ensures
        node.commit_up_to(index).match_index == node.match_index,
        node.commit_up_to(index).next_index == node.next_index,
        node.commit_up_to(index).heard_at == node.heard_at,
        node.commit_up_to(index).current_term == node.current_term,
        node.commit_up_to(index).state == node.state,
        node.commit_up_to(index).vote_for == node.vote_for,
{
    apply_keeps_peers(NodeModel { commit_index: index, ..node });
}

proof fn apply_keeps_peers(node: NodeModel)
    ensures
        node.apply_committed().match_index == node.match_index,
        node.apply_committed().next_index == node.next_index,
        node.apply_committed().heard_at == node.heard_at,
        node.apply_committed().current_term == node.current_term,
        node.apply_committed().state == node.state,
        node.apply_committed().vote_for == node.vote_for,
        node.apply_committed().commit_index == node.commit_index,
        node.apply_committed().last_heartbeat == node.last_heartbeat,
        node.apply_committed().clock == node.clock,
        node.apply_committed().node_id == node.node_id,
        node.apply_committed().storage.snapshot == node.storage.snapshot,
        node.apply_committed().storage.term == node.storage.term,
        node.apply_committed().storage.vote == node.storage.vote,
    decreases node.commit_index - node.last_applied,
{
    if node.last_applied < node.commit_index && node.last_applied < node.log.len() {
        apply_keeps_peers(node.apply_next());
    }
}

/// A peer that took entries holds what it was sent and took: the index before
/// the entries and as many more as there are entries. It is sent what follows
/// next, and it was heard from now. Nothing is learnt of any other peer.
pub proof fn acknowledged_entries_are_counted(
    node: NodeModel,
    peer: Seq<char>,
    args: AppendEntriesArgsModel,
    reply: AppendReplyArgsModel,
    other: Seq<char>,
)
    requires
        reply.success,
        args.prev_log_index + args.entries.len() < u64::MAX,
        other != peer,
    ensures
        ({
            let after = node.append_reply(peer, args, reply);
            &&& after.match_index.contains_key(peer)
            &&& after.match_index[peer] == args.prev_log_index + args.entries.len()
            &&& after.next_index.contains_key(peer)
            &&& after.next_index[peer] == args.prev_log_index + args.entries.len() + 1
            &&& after.heard_at.contains_key(peer) && after.heard_at[peer] == node.clock.now
            &&& after.match_index.contains_key(other) == node.match_index.contains_key(other)
            &&& node.match_index.contains_key(other) ==> after.match_index[other] == node.match_index[other]
            &&& after.next_index.contains_key(other) == node.next_index.contains_key(other)
            &&& node.next_index.contains_key(other) ==> after.next_index[other] == node.next_index[other]
            &&& after.heard_at.contains_key(other) == node.heard_at.contains_key(other)
            &&& node.heard_at.contains_key(other) ==> after.heard_at[other] == node.heard_at[other]
            &&& after.current_term == node.current_term && after.state == node.state
        }),
{
    let caught_up = node.peer_caught_up(peer, (args.prev_log_index + args.entries.len()) as u64);
    commit_keeps_peers(caught_up, choose|index: u64| caught_up.is_quorum_index(index));
}

/// A peer that refuses entries teaches nothing of what it holds and commits
/// nothing: from a later term it makes the node a follower of that term, and
/// otherwise the peer is sent one entry more next time.
pub proof fn refused_entries_are_sent_again(
    node: NodeModel,
    peer: Seq<char>,
    args: AppendEntriesArgsModel,
    reply: AppendReplyArgsModel,
)
    requires
        !reply.success,
    ensures
        ({
            let after = node.append_reply(peer, args, reply);
            let later = reply.term > node.current_term;
            &&& after.match_index == node.match_index
            &&& after.heard_at == node.heard_at
            &&& after.commit_index == node.commit_index
            &&& after.log == node.log && after.store == node.store
            &&& after.current_term == if later {
                reply.term
            } else {
                node.current_term
            }
            &&& later ==> after.state == NodeState::Follower && after.vote_for is None && after.next_index
                == node.next_index
            &&& !later ==> after.state == node.state && after.vote_for == node.vote_for
            &&& !later && node.next_index.contains_key(peer) && node.next_index[peer] > 1 ==> after.next_index
                == node.next_index.insert(peer, (node.next_index[peer] - 1) as u64)
            &&& !later && !(node.next_index.contains_key(peer) && node.next_index[peer] > 1) ==> after.next_index
                == node.next_index
        }),
{
}

/// More than half of the servers, on each side of a joint configuration, are the
/// node itself or known to hold the entry at `n`.
pub open spec fn most_hold(
    config: ConfigurationModel,
    node_id: Seq<char>,
    known: Map<Seq<char>, u64>,
    n: u64,
) -> bool {
    let most = |servers: Seq<ServerModel>|
        2 * servers.filter(
            |s: ServerModel|
                s.node_id == node_id || (known.contains_key(s.node_id) && n <= known[s.node_id]),
        ).len() > servers.len();
    match config {
        ConfigurationModel::Simple(servers) => most(servers),
        ConfigurationModel::Joint { old, new } => most(old) && most(new),
    }
}

/// What a leader commits, and when. An index is committed only where its entry
/// is of the leader's own term and more than half of the servers are known to
/// hold it; and an index that so many hold is committed where its entry and all
/// that follow are of that term.
pub open spec fn commits_by(node: NodeModel, known: Map<Seq<char>, u64>, after: NodeModel) -> bool {
    &&& after.commit_index != node.commit_index ==> {
        &&& node.state == NodeState::Leader
        &&& node.commit_index < after.commit_index <= node.log.len()
        &&& node.log[after.commit_index - 1].term == node.current_term
        &&& most_hold(node.current_config, node.node_id, known, after.commit_index)
    }
    &&& forall|n: u64|
        node.state == NodeState::Leader && node.commit_index < n <= node.log.len() && #[trigger] most_hold(
            node.current_config,
            node.node_id,
            known,
            n,
        ) && (forall|i: int| n - 1 <= i < node.log.len() ==> (#[trigger] node.log[i]).term == node.current_term)
            ==> after.commit_index >= n
}

proof fn replicated_is_most_hold(node: NodeModel, n: u64)
    requires
        0 < n <= node.log.len() <= u64::MAX,
    ensures
        crate::protocol::quorum_holds(
            node.current_config,
            node.match_index,
            node.node_id,
            node.log.len() as u64,
            n,
        ) <==> most_hold(node.current_config, node.node_id, node.match_index, n),
{
    let known = node.match_index;
    let own = node.log.len() as u64;
    let a = |s: ServerModel| s.node_id == node.node_id || (known.contains_key(s.node_id) && n <= known[s.node_id]);
    let b = |s: ServerModel|
        if s.node_id == node.node_id {
            n <= own
        } else {
            n == 0 || (known.contains_key(s.node_id) && n <= known[s.node_id])
        };
    assert(a =~= b);
    match node.current_config {
        ConfigurationModel::Simple(servers) => {
            crate::protocol::replication_takes_more_than_half(servers, servers, known, node.node_id, own, n);
        },
        ConfigurationModel::Joint { old, new } => {
            crate::protocol::replication_takes_more_than_half(old, new, known, node.node_id, own, n);
        },
    }
}

proof fn commit_is_by_quorum(node: NodeModel)
    requires
        node.log.len() <= u64::MAX,
    ensures
        commits_by(node, node.match_index, node.maybe_commit()),
{
    let known = node.match_index;
    let own = node.log.len() as u64;
    let best = crate::protocol::quorum_index_exists(node.current_config, known, node.node_id, own);
    let chosen = choose|index: u64| node.is_quorum_index(index);
    assert(node.is_quorum_index(best));
    let after = node.maybe_commit();
    apply_keeps_peers(NodeModel { commit_index: chosen, ..node });
    if after.commit_index != node.commit_index {
        replicated_is_most_hold(node, after.commit_index);
    }
    assert forall|n: u64|
        node.state == NodeState::Leader && node.commit_index < n <= node.log.len() && #[trigger] most_hold(
            node.current_config,
            node.node_id,
            known,
            n,
        ) && (forall|i: int| n - 1 <= i < node.log.len() ==> (#[trigger] node.log[i]).term == node.current_term)
        implies after.commit_index >= n by {
        replicated_is_most_hold(node, n);
        assert(chosen >= n);
        assert(node.log[chosen - 1].term == node.current_term);
    }
}

/// A leader commits on an answer by what its peers have acknowledged, that
/// answer among them.
pub proof fn commits_follow_acknowledgements(
    node: NodeModel,
    peer: Seq<char>,
    args: AppendEntriesArgsModel,
    reply: AppendReplyArgsModel,
)
    requires
        node.log.len() <= u64::MAX,
        args.prev_log_index + args.entries.len() < u64::MAX,
    ensures
        ({
            let acknowledged = (args.prev_log_index + args.entries.len()) as u64;
            let after = node.append_reply(peer, args, reply);
            &&& reply.success ==> commits_by(node, node.match_index.insert(peer, acknowledged), after)
            &&& !reply.success ==> after.commit_index == node.commit_index
        }),
{
    if reply.success {
        commit_is_by_quorum(node.peer_caught_up(peer, (args.prev_log_index + args.entries.len()) as u64));
    }
}

/// A leader without peers commits on a heartbeat by its own log; one with peers
/// waits for their answers, and no other node commits at all.
pub proof fn lone_leaders_commit_their_log(node: NodeModel)
    requires
        node.log.len() <= u64::MAX,
    ensures
        node.peers.len() == 0 && node.state == NodeState::Leader ==> commits_by(
            node,
            node.match_index,
            node.sync_logs(),
        ),
        node.peers.len() > 0 || node.state != NodeState::Leader ==> node.sync_logs() == node,
{
    commit_is_by_quorum(node);
}

// ---- members ----

proof fn without_is_filter(servers: Seq<ServerModel>, node_id: Seq<char>)
    ensures
        crate::raft::model::without_server(servers, node_id) == servers.filter(
            |s: ServerModel| s.node_id != node_id,
        ),
    decreases servers.len(),
{
    reveal(Seq::filter);
    if servers.len() > 0 {
        without_is_filter(servers.drop_last(), node_id);
    }
}

proof fn others_are_filtered(servers: Seq<ServerModel>, node_id: Seq<char>)
    ensures
        crate::raft::model::other_addrs(servers, node_id) == servers.filter(
            |s: ServerModel| s.node_id != node_id,
        ).map_values(|s: ServerModel| s.addr),
    decreases servers.len(),
{
    reveal(Seq::filter);
    let keeps = |s: ServerModel| s.node_id != node_id;
    let addr = |s: ServerModel| s.addr;
    if servers.len() > 0 {
        let rest = servers.drop_last();
        others_are_filtered(rest, node_id);
        assert(rest.filter(keeps).push(servers.last()).map_values(addr) =~= rest.filter(keeps).map_values(addr).push(
            servers.last().addr,
        ));
    }
    assert(crate::raft::model::other_addrs(servers, node_id) =~= servers.filter(keeps).map_values(addr));
}

proof fn excepted_are_filtered(servers: Seq<ServerModel>, a: Seq<char>, b: Seq<char>)
    ensures
        crate::raft::model::addrs_except(servers, a, b) == servers.map_values(|s: ServerModel| s.addr).filter(
            |addr: Seq<char>| addr != a && addr != b,
        ),
    decreases servers.len(),
{
    reveal(Seq::filter);
    if servers.len() > 0 {
        let addr = |s: ServerModel| s.addr;
        excepted_are_filtered(servers.drop_last(), a, b);
        assert(servers.map_values(addr).drop_last() =~= servers.drop_last().map_values(addr));
    }
}

/// What the removal of a server proposes: the servers of the configuration that
/// go by another name, all of them, as they are and in order, as the members to
/// come. A server is one of them exactly if it was in the configuration and is
/// not the one that is named.
pub proof fn removals_take_the_named_server_only(node: NodeModel, node_id: Seq<char>, server: ServerModel)
    ensures
        ({
            let servers = node.current_config.servers();
            let rest = servers.filter(|s: ServerModel| s.node_id != node_id);
            let (after, outcome) = node.propose_remove_node(node_id);
            &&& rest.contains(server) <==> servers.contains(server) && server.node_id != node_id
            &&& outcome is Ok ==> {
                &&& after.pending_post_joint_simple == Some(ConfigurationModel::Simple(rest))
                &&& after.log == node.log.push(
                    (LogEntryModel {
                        term: node.current_term,
                        index: (node.log.len() + 1) as usize,
                        command: (CommandModel::InstallConfiguration {
                            config: (ConfigurationModel::Joint { old: servers, new: rest }),
                        }),
                    }),
                )
                &&& outcome == Ok::<u64, MembershipErrorModel>((node.log.len() + 1) as u64)
                &&& after == (NodeModel {
                    pending_post_joint_simple: after.pending_post_joint_simple,
                    log: after.log,
                    storage: after.storage,
                    ..node
                })
            }
            &&& outcome is Err ==> after == node
        }),
{
    let servers = node.current_config.servers();
    let keeps = |s: ServerModel| s.node_id != node_id;
    without_is_filter(servers, node_id);
    broadcast use vstd::seq_lib::group_filter_ensures;
    let rest = servers.filter(keeps);
    filtered_are_contained(servers, keeps, server);
}

proof fn filtered_are_contained(servers: Seq<ServerModel>, keeps: spec_fn(ServerModel) -> bool, server: ServerModel)
    ensures
        servers.filter(keeps).contains(server) <==> servers.contains(server) && keeps(server),
    decreases servers.len(),
{
    reveal(Seq::filter);
    if servers.len() > 0 {
        let rest = servers.drop_last();
        filtered_are_contained(rest, keeps, server);
        let last = servers.last();
        assert(servers.contains(server) <==> rest.contains(server) || server == last) by {
            if rest.contains(server) {
                let i = choose|i: int| 0 <= i < rest.len() && rest[i] == server;
                assert(servers[i] == server);
            }
            if servers.contains(server) {
                let i = choose|i: int| 0 <= i < servers.len() && servers[i] == server;
                if i < servers.len() - 1 {
                    assert(rest[i] == server);
                }
            }
            if server == last {
                assert(servers[servers.len() - 1] == server);
            }
        }
        if keeps(last) {
            let kept = rest.filter(keeps);
            assert(kept.push(last).contains(server) <==> kept.contains(server) || server == last) by {
                if kept.contains(server) {
                    let i = choose|i: int| 0 <= i < kept.len() && kept[i] == server;
                    assert(kept.push(last)[i] == server);
                }
                if server == last {
                    assert(kept.push(last)[kept.len() as int] == server);
                }
                if kept.push(last).contains(server) {
                    let i = choose|i: int| 0 <= i < kept.push(last).len() && kept.push(last)[i] == server;
                    if i < kept.len() {
                        assert(kept[i] == server);
                    }
                }
            }
        }
    }
}

/// Which removal is refused, and why: the first reason that holds of not
/// leading, of being the server itself, of being no member, of being the last
/// and of a medium that takes no writes. A removal for which none holds
/// succeeds.
pub proof fn removals_are_refused_for_a_reason(node: NodeModel, node_id: Seq<char>)
    ensures
        ({
            let servers = node.current_config.servers();
            let named = |i: int| 0 <= i < servers.len() && servers[i].node_id == node_id;
            let member = exists|i: int| #[trigger] named(i);
            let others = exists|i: int| 0 <= i < servers.len() && !(#[trigger] named(i));
            node.propose_remove_node(node_id).1 == if node.state != NodeState::Leader {
                Err::<u64, MembershipErrorModel>(MembershipErrorModel::NotLeader)
            } else if node_id == node.node_id {
                Err(MembershipErrorModel::CannotRemoveSelf)
            } else if !member {
                Err(MembershipErrorModel::NotMember(node_id))
            } else if !others {
                Err(MembershipErrorModel::CannotRemoveLastServer)
            } else {
                match node.storage.fault {
                    Some(fault) if fault.appends_left == 0 => Err(MembershipErrorModel::StorageError(fault.reason)),
                    _ => Ok((node.log.len() + 1) as u64),
                }
            }
        }),
{
    let servers = node.current_config.servers();
    let keeps = |s: ServerModel| s.node_id != node_id;
    let named = |i: int| 0 <= i < servers.len() && servers[i].node_id == node_id;
    has_member_means_listed(node.current_config, node_id);
    if exists|i: int| 0 <= i < servers.len() && (#[trigger] servers[i]).node_id == node_id {
        let i = choose|i: int| 0 <= i < servers.len() && (#[trigger] servers[i]).node_id == node_id;
        assert(named(i));
    }
    if exists|i: int| #[trigger] named(i) {
        let i = choose|i: int| #[trigger] named(i);
        assert(servers[i].node_id == node_id);
    }
    without_is_filter(servers, node_id);
    let rest = servers.filter(keeps);
    if rest.len() > 0 {
        filtered_are_contained(servers, keeps, rest[0]);
        assert(rest.contains(rest[0]));
        let i = choose|i: int| 0 <= i < servers.len() && servers[i] == rest[0];
        assert(!named(i));
    } else {
        assert forall|i: int| 0 <= i < servers.len() implies #[trigger] named(i) by {
            filtered_are_contained(servers, keeps, servers[i]);
            assert(servers.contains(servers[i]));
            assert(!rest.contains(servers[i]));
        }
    }
}

proof fn has_member_means_listed(config: ConfigurationModel, node_id: Seq<char>)
    ensures
        config.has_member(node_id) <==> exists|i: int|
            0 <= i < config.servers().len() && (#[trigger] config.servers()[i]).node_id == node_id,
{
}

/// What the addition of a server proposes: the servers of the configuration and
/// behind them the new one. It is refused by a node that does not lead, for a
/// name that a server goes by already, and by a medium that takes no writes.
pub proof fn additions_add_the_server_only(node: NodeModel, server: ServerModel)
    ensures
        ({
            let servers = node.current_config.servers();
            let (after, outcome) = node.propose_add_node(server);
            let member = exists|i: int| 0 <= i < servers.len() && (#[trigger] servers[i]).node_id == server.node_id;
            &&& outcome == if node.state != NodeState::Leader {
                Err::<u64, MembershipErrorModel>(MembershipErrorModel::NotLeader)
            } else if member {
                Err(MembershipErrorModel::AlreadyMember(server.node_id))
            } else {
                match node.storage.fault {
                    Some(fault) if fault.appends_left == 0 => Err(MembershipErrorModel::StorageError(fault.reason)),
                    _ => Ok((node.log.len() + 1) as u64),
                }
            }
            &&& outcome is Err ==> after == node
            &&& outcome is Ok ==> {
                &&& after.pending_post_joint_simple == Some(ConfigurationModel::Simple(servers + seq![server]))
                &&& after.log == node.log.push(
                    (LogEntryModel {
                        term: node.current_term,
                        index: (node.log.len() + 1) as usize,
                        command: (CommandModel::InstallConfiguration {
                            config: (ConfigurationModel::Joint { old: servers, new: servers + seq![server] }),
                        }),
                    }),
                )
                &&& after == (NodeModel {
                    pending_post_joint_simple: after.pending_post_joint_simple,
                    log: after.log,
                    storage: after.storage,
                    ..node
                })
            }
        }),
{
    let servers = node.current_config.servers();
    has_member_means_listed(node.current_config, server.node_id);
    assert(servers.push(server) =~= servers + seq![server]);
}

/// A configuration that takes effect is the active one from then on, and the
/// peers are the addresses of its servers that go by another name than the node,
/// all of them and in order. A leader that waits to finish a change appends the
/// configuration that it is to end in, once, when the joint one with those
/// servers takes effect and the medium takes it; nothing else is appended.
pub proof fn configurations_take_effect(node: NodeModel, config: ConfigurationModel)
    ensures
        ({
            let after = node.install_configuration(config);
            let leads = node.state == NodeState::Leader;
            let writable = node.storage.fault matches Some(f) ==> f.appends_left > 0;
            &&& after.current_config == config
            &&& after.peers == config.servers().filter(|s: ServerModel| s.node_id != node.node_id).map_values(
                |s: ServerModel| s.addr,
            )
            &&& leads ==> after.pending_post_joint_simple is None
            &&& !leads ==> after.pending_post_joint_simple == node.pending_post_joint_simple && after.log == node.log
            &&& node.pending_post_joint_simple is None ==> after.log == node.log
            &&& leads ==> (node.pending_post_joint_simple matches Some(ConfigurationModel::Simple(next)) ==> {
                let due = match config {
                    ConfigurationModel::Joint { new, .. } => next == new,
                    ConfigurationModel::Simple(servers) => next == servers,
                };
                &&& due && writable ==> after.log == node.log.push(
                    (LogEntryModel {
                        term: node.current_term,
                        index: (node.log.len() + 1) as usize,
                        command: (CommandModel::InstallConfiguration { config: ConfigurationModel::Simple(next) }),
                    }),
                )
                &&& !(due && writable) ==> after.log == node.log
            })
            &&& after.store == node.store && after.commit_index == node.commit_index && after.last_applied
                == node.last_applied && after.current_term == node.current_term && after.state == node.state
                && after.vote_for == node.vote_for
        }),
{
    others_are_filtered(config.servers(), node.node_id);
}

/// Who may join, and what a newcomer is told: a leader accepts an address that is
/// not its own and that no server is named by or listens at, and gives the
/// addresses of the others, all of them and in order. It says why it refuses.
pub proof fn newcomers_are_told_the_others(node: NodeModel, req: JoinClusterRequestModel)
    ensures
        ({
            let servers = node.current_config.servers();
            let reply = node.join_cluster(req);
            let known = exists|i: int|
                0 <= i < servers.len() && ((#[trigger] servers[i]).node_id == req.candidate_addr || servers[i].addr
                    == req.candidate_addr);
            &&& reply.accepted <==> node.state == NodeState::Leader && req.candidate_addr != node.node_id && !known
            &&& reply.term == node.current_term
            &&& reply.leader_addr == node.node_id
            &&& reply.accepted ==> reply.peer_addrs == servers.map_values(|s: ServerModel| s.addr).filter(
                |addr: Seq<char>| addr != node.node_id && addr != req.candidate_addr,
            ) && reply.reason == Seq::<char>::empty()
            &&& !reply.accepted ==> reply.peer_addrs == Seq::<Seq<char>>::empty() && reply.reason
                == if node.state != NodeState::Leader {
                "not leader"@
            } else if req.candidate_addr == node.node_id {
                "candidate_addr is the leader itself"@
            } else {
                "candidate_addr is already a cluster member"@
            }
        }),
{
    excepted_are_filtered(node.current_config.servers(), node.node_id, req.candidate_addr);
}

// ---- reads ----

/// A read is served where it may be, and only there: by a leader that has
/// applied the index it is anchored at, if the last word from a quorum came when
/// the read was issued or later, and less than the longest election timeout ago.
pub proof fn reads_are_served_when_they_may_be(node: NodeModel, index: u64, issued_at: Instant)
    ensures
        node.read_confirmed(index, issued_at) <==> {
            &&& node.state == NodeState::Leader
            &&& index <= node.last_applied
            &&& node.last_quorum_heartbeat_at is Some
            &&& issued_at.nanos <= node.last_quorum_heartbeat_at->0.nanos
            &&& node.clock.now.nanos < node.last_quorum_heartbeat_at->0.nanos + 10_000 * 1_000_000
        },
{
}

/// A read that may be served may still be served when the node has applied more,
/// and a read that was issued earlier or anchored lower may be served as well.
pub proof fn served_reads_stay_served(
    node: NodeModel,
    later: NodeModel,
    index: u64,
    lower: u64,
    issued_at: Instant,
    earlier: Instant,
)
    requires
        node.read_confirmed(index, issued_at),
        later == (NodeModel { last_applied: later.last_applied, store: later.store, log: later.log, ..node }),
        later.last_applied >= node.last_applied,
        lower <= index,
        earlier.nanos <= issued_at.nanos,
    ensures
        later.read_confirmed(index, issued_at),
        node.read_confirmed(lower, earlier),
{
}

/// Applying committed entries keeps a read that may be served, whatever the
/// entries write.
pub proof fn applied_entries_keep_reads(node: NodeModel, index: u64, issued_at: Instant)
    requires
        node.read_confirmed(index, issued_at),
        forall|i: int|
            node.last_applied <= i < node.log.len() ==> !((#[trigger] node.log[i]).command is InstallConfiguration),
    ensures
        node.apply_logs().read_confirmed(index, issued_at),
    decreases node.commit_index - node.last_applied,
{
    if node.last_applied < node.commit_index && node.last_applied < node.log.len() {
        assert(!(node.log[node.last_applied as int].command is InstallConfiguration));
        let next = node.apply_next();
        assert(next.log == node.log);
        applied_entries_keep_reads(next, index, issued_at);
    }
}

proof fn latest_heard(node: NodeModel, peers: Set<Seq<char>>) -> (best: Option<Seq<char>>)
    requires
        peers.finite(),
    ensures
        match best {
            Some(p) => peers.contains(p) && node.quorum_heard_since(node.heard_at[p]) && forall|q: Seq<char>| #[trigger]
                peers.contains(q) && node.heard_at[q].nanos > node.heard_at[p].nanos ==> !node.quorum_heard_since(
                    node.heard_at[q],
                ),
            None => forall|q: Seq<char>| #[trigger]
                peers.contains(q) ==> !node.quorum_heard_since(node.heard_at[q]),
        },
    decreases peers.len(),
{
    if peers.len() == 0 {
        None
    } else {
        let q = peers.choose();
        let best = latest_heard(node, peers.remove(q));
        match best {
            Some(p) => if node.heard_at[q].nanos > node.heard_at[p].nanos && node.quorum_heard_since(node.heard_at[q]) {
                assert forall|r: Seq<char>| #[trigger]
                    peers.contains(r) && node.heard_at[r].nanos > node.heard_at[q].nanos implies !node.quorum_heard_since(
                    node.heard_at[r],
                ) by {
                    assert(peers.remove(q).contains(r));
                }
                Some(q)
            } else {
                assert forall|r: Seq<char>| #[trigger]
                    peers.contains(r) && node.heard_at[r].nanos > node.heard_at[p].nanos implies !node.quorum_heard_since(
                    node.heard_at[r],
                ) by {
                    assert(r == q || peers.remove(q).contains(r));
                }
                best
            },
            None => if node.quorum_heard_since(node.heard_at[q]) {
                assert forall|r: Seq<char>| #[trigger]
                    peers.contains(r) && node.heard_at[r].nanos > node.heard_at[q].nanos implies !node.quorum_heard_since(
                    node.heard_at[r],
                ) by {
                    assert(peers.remove(q).contains(r));
                }
                Some(q)
            } else {
                assert forall|r: Seq<char>| #[trigger] peers.contains(r) implies !node.quorum_heard_since(
                    node.heard_at[r],
                ) by {
                    assert(r == q || peers.remove(q).contains(r));
                }
                None
            },
        }
    }
}

/// More than half of the servers, on each side of a joint configuration, were
/// heard from at `t` or later; the node counts as heard from.
pub open spec fn most_heard_since(node: NodeModel, t: Instant) -> bool {
    let most = |servers: Seq<ServerModel>|
        2 * servers.filter(
            |s: ServerModel|
                s.node_id == node.node_id || (node.heard_at.contains_key(s.addr) && t.nanos
                    <= node.heard_at[s.addr].nanos),
        ).len() > servers.len();
    match node.current_config {
        ConfigurationModel::Simple(servers) => most(servers),
        ConfigurationModel::Joint { old, new } => most(old) && most(new),
    }
}

proof fn quorum_heard_is_most_heard(node: NodeModel, t: Instant)
    ensures
        node.quorum_heard_since(t) <==> most_heard_since(node, t),
{
    let a = crate::raft::model::heard_since(node.heard_at, node.node_id, t);
    let b = |s: ServerModel|
        s.node_id == node.node_id || (node.heard_at.contains_key(s.addr) && t.nanos <= node.heard_at[s.addr].nanos);
    assert(a =~= b);
    match node.current_config {
        ConfigurationModel::Simple(servers) => {
            crate::protocol::quorums_are_more_than_half(servers, servers, b);
        },
        ConfigurationModel::Joint { old, new } => {
            crate::protocol::quorums_are_more_than_half(old, new, b);
        },
    }
}

/// The instant that reads are held against: one at which a peer was heard from,
/// with more than half of the servers heard from since, and the latest such.
/// There is none only where no peer's word makes a quorum.
pub proof fn the_last_quorum_is_noted(node: NodeModel, peer: Seq<char>)
    requires
        node.heard_at.dom().finite(),
    ensures
        match node.quorum_noted().last_quorum_heartbeat_at {
            Some(t) => {
                &&& exists|p: Seq<char>| #[trigger] node.heard_at.contains_key(p) && node.heard_at[p] == t
                &&& most_heard_since(node, t)
                &&& node.heard_at.contains_key(peer) && node.heard_at[peer].nanos > t.nanos ==> !most_heard_since(
                    node,
                    node.heard_at[peer],
                )
            },
            None => node.heard_at.contains_key(peer) ==> !most_heard_since(node, node.heard_at[peer]),
        },
{
    reveal(NodeModel::quorum_instant);
    let best = latest_heard(node, node.heard_at.dom());
    quorum_heard_is_most_heard(node, node.heard_at[peer]);
    match best {
        Some(p) => {
            let t = node.heard_at[p];
            assert(node.heard_at.contains_key(p));
            assert forall|q: Seq<char>| #[trigger]
                node.heard_at.contains_key(q) && node.heard_at[q].nanos > t.nanos implies !node.quorum_heard_since(
                node.heard_at[q],
            ) by {
                assert(node.heard_at.dom().contains(q));
            }
            assert(node.is_quorum_instant(t));
            let u = choose|u: Instant| node.is_quorum_instant(u);
            crate::raft::model::quorum_instant_is_unique(node, t, u);
            quorum_heard_is_most_heard(node, t);
        },
        None => {
            assert forall|t: Instant| !node.is_quorum_instant(t) by {
                if node.is_quorum_instant(t) {
                    let p = choose|p: Seq<char>| #[trigger] node.heard_at.contains_key(p) && node.heard_at[p] == t;
                    assert(node.heard_at.dom().contains(p));
                }
            }
            if node.heard_at.contains_key(peer) {
                assert(node.heard_at.dom().contains(peer));
            }
        },
    }
}

// ---- a leader's entries ----

proof fn merged_log(
    log: Seq<LogEntryModel>,
    storage: StorageModel,
    entries: Seq<LogEntryModel>,
    prev: int,
    k: int,
)
    requires
        0 <= prev <= log.len(),
        0 <= k <= entries.len(),
        forall|i: int| 0 <= i < entries.len() ==> (#[trigger] entries[i]).index == prev + 1 + i,
        forall|i: int|
            0 <= i < k ==> prev + i < log.len() && log[prev + i].term == (#[trigger] entries[i]).term,
        k < entries.len() ==> prev + k >= log.len() || log[prev + k].term != entries[k].term,
    ensures
        crate::raft::model::merge_entries(log, storage, entries).0 == if k == entries.len() {
            log
        } else {
            log.take(prev + k) + entries.skip(k)
        },
    decreases entries.len(),
{
    if entries.len() > 0 {
        let rest = entries.drop_last();
        let last = entries.last();
        assert(last == entries[entries.len() - 1]);
        assert forall|i: int| 0 <= i < rest.len() implies (#[trigger] rest[i]).index == prev + 1 + i by {
            assert(rest[i] == entries[i]);
        }
        let j: int = if k == entries.len() {
            k - 1
        } else {
            k
        };
        assert forall|i: int| 0 <= i < j implies prev + i < log.len() && log[prev + i].term == (
        #[trigger] rest[i]).term by {
            assert(rest[i] == entries[i]);
        }
        merged_log(log, storage, rest, prev, j);
        if k > 0 {
            assert(prev + (k - 1) < log.len() && log[prev + (k - 1)].term == entries[k - 1].term);
        }
        if k == entries.len() {
        } else if k == rest.len() {
            if prev + k >= log.len() {
                assert(log.take(prev + k) =~= log);
            }
            assert(log.take(prev + k).push(last) =~= log.take(prev + k) + entries.skip(k));
        } else {
            let before = log.take(prev + k) + rest.skip(k);
            assert(before.push(last) =~= log.take(prev + k) + entries.skip(k));
        }
    }
}

proof fn followers_apply_in_place(node: NodeModel)
    requires
        node.state != NodeState::Leader,
    ensures
        node.apply_committed().log == node.log,
        node.apply_committed().storage == node.storage,
    decreases node.commit_index - node.last_applied,
{
    if node.last_applied < node.commit_index && node.last_applied < node.log.len() {
        followers_apply_in_place(node.apply_next());
    }
}

proof fn applies_up_to(node: NodeModel)
    ensures
        ({
            let end = if node.commit_index < node.log.len() {
                node.commit_index as int
            } else {
                node.log.len() as int
            };
            node.state != NodeState::Leader || node.commit_index <= node.log.len()
                ==> node.apply_committed().last_applied == if node.last_applied < end {
                end
            } else {
                node.last_applied as int
            }
        }),
    decreases node.commit_index - node.last_applied,
{
    if node.last_applied < node.commit_index && node.last_applied < node.log.len() {
        applies_up_to(node.apply_next());
    }
}

/// What a leader's entries do to a log. They are accepted exactly where the
/// leader's term is not behind the node's and the log holds the entry before
/// them. Of the entries, those that the log has already, by index and term, are
/// kept; from the first that it lacks on, the log ends in the leader's entries.
/// Entries that are not accepted leave the log, what is committed and what is
/// stored as they are.
pub proof fn entries_are_taken_over(node: NodeModel, args: AppendEntriesArgsModel, k: int)
    requires
        forall|i: int|
            0 <= i < args.entries.len() ==> (#[trigger] args.entries[i]).index == args.prev_log_index + 1 + i,
        0 <= k <= args.entries.len(),
        forall|i: int|
            0 <= i < k ==> args.prev_log_index + i < node.log.len() && node.log[args.prev_log_index + i].term == (
            #[trigger] args.entries[i]).term,
        k < args.entries.len() ==> args.prev_log_index + k >= node.log.len() || node.log[args.prev_log_index + k].term
            != args.entries[k].term,
    ensures
        ({
            let (after, reply) = node.append_entries(args);
            let prev = args.prev_log_index as int;
            let current = args.term >= node.current_term;
            let fits = prev == 0 || (prev <= node.log.len() && node.log[prev - 1].term == args.prev_log_term);
            &&& reply.success <==> current && fits
            &&& reply.success ==> after.log == if k == args.entries.len() {
                node.log
            } else {
                node.log.take(prev + k) + args.entries.skip(k)
            }
            &&& !reply.success ==> after.log == node.log && after.commit_index == node.commit_index && after.store
                == node.store && after.last_applied == node.last_applied && after.storage.wal == node.storage.wal
        }),
{
    let prev = args.prev_log_index as int;
    if node.append_entries(args).1.success {
        merged_log(node.log, node.caught_up(args.term).storage, args.entries, prev, k);
        let (log, storage) = crate::raft::model::merge_entries(
            node.log,
            node.caught_up(args.term).storage,
            args.entries,
        );
        followers_apply_in_place(
            NodeModel {
                commit_index: if args.leader_commit < log.len() {
                    args.leader_commit
                } else {
                    log.len() as u64
                },
                log,
                storage,
                state: NodeState::Follower,
                last_heartbeat: node.clock.now,
                ..node.caught_up(args.term)
            },
        );
    }
}

/// What else an append does: the node follows the leader of a term that is not
/// behind its own, has heard from it now, and tells its term; an older leader
/// changes nothing. What the leader has committed is committed as far as the log
/// reaches, and takes effect.
pub proof fn leaders_are_followed(node: NodeModel, args: AppendEntriesArgsModel)
    ensures
        ({
            let (after, reply) = node.append_entries(args);
            let current = args.term >= node.current_term;
            let news = reply.success && args.leader_commit > node.commit_index;
            &&& !current ==> after == node && reply.term == node.current_term
            &&& current ==> {
                &&& reply.term == args.term
                &&& after.current_term == args.term
                &&& after.state == NodeState::Follower
                &&& after.last_heartbeat == node.clock.now
                &&& after.vote_for == if args.term > node.current_term {
                    None
                } else {
                    node.vote_for
                }
                &&& after.node_id == node.node_id
                &&& after.match_index == node.match_index && after.next_index == node.next_index
            }
            &&& news && after.log.len() <= u64::MAX ==> {
                &&& after.commit_index == if args.leader_commit <= after.log.len() {
                    args.leader_commit as int
                } else {
                    after.log.len() as int
                }
                &&& after.last_applied == if node.last_applied < after.commit_index {
                    after.commit_index
                } else {
                    node.last_applied
                }
            }
            &&& !news ==> after.commit_index == node.commit_index && after.last_applied == node.last_applied
                && after.store == node.store && after.current_config == node.current_config
        }),
{
    if args.term >= node.current_term {
        let (log, storage) = crate::raft::model::merge_entries(
            node.log,
            node.caught_up(args.term).storage,
            args.entries,
        );
        let ready = NodeModel {
            commit_index: if args.leader_commit < log.len() {
                args.leader_commit
            } else {
                log.len() as u64
            },
            log,
            storage,
            state: NodeState::Follower,
            last_heartbeat: node.clock.now,
            ..node.caught_up(args.term)
        };
        followers_apply_in_place(ready);
        apply_keeps_peers(ready);
        applies_up_to(ready);
        merging_keeps_the_rest(node.log, node.caught_up(args.term).storage, args.entries);
    }
}

proof fn merging_keeps_the_rest(log: Seq<LogEntryModel>, storage: StorageModel, entries: Seq<LogEntryModel>)
    ensures
        crate::raft::model::merge_entries(log, storage, entries).1.term == storage.term,
        crate::raft::model::merge_entries(log, storage, entries).1.vote == storage.vote,
        crate::raft::model::merge_entries(log, storage, entries).1.snapshot == storage.snapshot,
    decreases entries.len(),
{
    if entries.len() > 0 {
        merging_keeps_the_rest(log, storage, entries.drop_last());
    }
}

// ---- what takes effect ----

/// An entry takes effect once, in its turn: the one behind the last applied, by
/// its command, at the time of the node's clock. A configuration changes no data
/// and a command no configuration.
pub proof fn entries_take_effect_in_turn(node: NodeModel)
    requires
        node.last_applied < node.log.len(),
        node.last_applied < u64::MAX,
    ensures
        ({
            let entry = node.log[node.last_applied as int];
            let after = node.apply_next();
            &&& after.last_applied == node.last_applied + 1
            &&& after.commit_index == node.commit_index
            &&& entry.command matches CommandModel::InstallConfiguration { config } ==> after.current_config == config
                && after.store == node.store
            &&& !(entry.command is InstallConfiguration) ==> {
                &&& after.store == node.store.apply(entry.command, node.clock.unix_ms)
                &&& after == (NodeModel { store: after.store, last_applied: after.last_applied, ..node })
            }
        }),
{
}

/// Everything that is committed takes effect, and nothing else: with the last
/// applied entry the node is where the commit index is, as far as the log
/// reaches, and where it was if that lies behind.
pub proof fn what_is_committed_takes_effect(node: NodeModel)
    requires
        node.commit_index <= node.log.len(),
    ensures
        node.apply_logs().last_applied == if node.last_applied < node.commit_index {
            node.commit_index
        } else {
            node.last_applied
        },
        node.apply_logs().commit_index == node.commit_index,
        node.last_applied >= node.commit_index ==> node.apply_logs().store == node.store && node.apply_logs().log
            == node.log && node.apply_logs().current_config == node.current_config,
{
    applies_up_to(node);
    apply_keeps_peers(node);
}

// ---- proposals ----

/// A leader takes a proposal by appending it, at the end of its log and in its
/// own term; nothing is committed by it. A node that does not lead, or whose
/// medium takes no writes, changes nothing.
pub proof fn proposals_are_appended(node: NodeModel, command: CommandModel)
    ensures
        ({
            let after = node.propose(command);
            let taken = node.state == NodeState::Leader && !(node.storage.fault matches Some(f) && f.appends_left
                == 0);
            &&& taken ==> after.log == node.log.push(
                (LogEntryModel { term: node.current_term, index: (node.log.len() + 1) as usize, command }),
            )
            &&& taken ==> after == (NodeModel {
                log: after.log,
                storage: after.storage,
                metrics: after.metrics,
                ..node
            })
            &&& taken ==> after.storage.wal.len() > 0 && after.storage.wal.last() == after.log.last()
            &&& !taken ==> after == node
        }),
{
}

/// A batch is appended in order, each command by one entry of the leader's term:
/// whole where the medium has room for all of it, and as far as there is room
/// otherwise. A node that does not lead appends nothing.
pub proof fn batches_are_appended_in_order(node: NodeModel, commands: Seq<CommandModel>)
    ensures
        ({
            let after = node.propose_batch(commands);
            let room = match node.storage.fault {
                Some(f) => if f.appends_left < commands.len() {
                    f.appends_left as nat
                } else {
                    commands.len()
                },
                None => commands.len(),
            };
            &&& node.state != NodeState::Leader ==> after == node
            &&& node.state == NodeState::Leader ==> after.log == node.log + Seq::new(
                room,
                |i: int|
                    (LogEntryModel {
                        term: node.current_term,
                        index: (node.log.len() + i + 1) as usize,
                        command: commands[i],
                    }),
            )
            &&& after == (NodeModel { log: after.log, storage: after.storage, metrics: after.metrics, ..node })
        }),
{
    appended_in_order(node, commands);
}

proof fn appended_in_order(node: NodeModel, commands: Seq<CommandModel>)
    ensures
        ({
            let after = node.appended_all(commands);
            let room = match node.storage.fault {
                Some(f) => if f.appends_left < commands.len() {
                    f.appends_left as nat
                } else {
                    commands.len()
                },
                None => commands.len(),
            };
            &&& after.log == node.log + Seq::new(
                room,
                |i: int|
                    (LogEntryModel {
                        term: node.current_term,
                        index: (node.log.len() + i + 1) as usize,
                        command: commands[i],
                    }),
            )
            &&& match node.storage.fault {
                Some(f) => after.storage.fault matches Some(g) && g.appends_left == f.appends_left - room,
                None => after.storage.fault is None,
            }
            &&& after == (NodeModel { log: after.log, storage: after.storage, ..node })
        }),
    decreases commands.len(),
{
    let entry = |i: int|
        (LogEntryModel { term: node.current_term, index: (node.log.len() + i + 1) as usize, command: commands[i] });
    if commands.len() == 0 {
        assert(node.log + Seq::new(0, entry) =~= node.log);
    } else {
        let rest = commands.drop_last();
        appended_in_order(node, rest);
        let before = node.appended_all(rest);
        let after = node.appended_all(commands);
        let room = (after.log.len() - node.log.len()) as nat;
        assert(after.log =~= node.log + Seq::new(room, entry));
    }
}

/// A client's abort of a transaction is logged by a leader that has it staged,
/// and refused for a reason otherwise.
pub proof fn aborts_are_logged(node: NodeModel, tx_id: Seq<char>)
    ensures
        ({
            let (after, outcome) = node.propose_abort_tx(tx_id);
            &&& outcome == if node.state != NodeState::Leader {
                Err::<u64, AbortTxErrorModel>(AbortTxErrorModel::NotLeader)
            } else if !node.store.pending.contains_key(tx_id) {
                Err(AbortTxErrorModel::NotFound(tx_id))
            } else {
                match node.storage.fault {
                    Some(fault) if fault.appends_left == 0 => Err(AbortTxErrorModel::StorageError(fault.reason)),
                    _ => Ok((node.log.len() + 1) as u64),
                }
            }
            &&& outcome is Err ==> after == node
            &&& outcome is Ok ==> after.log == node.log.push(
                (LogEntryModel {
                    term: node.current_term,
                    index: (node.log.len() + 1) as usize,
                    command: (CommandModel::DecideTx { tx_id, decision: TxDecision::Abort }),
                }),
            ) && after == (NodeModel { log: after.log, storage: after.storage, metrics: after.metrics, ..node })
        }),
{
}

// ---- the votes of transactions ----

/// A participant grants a transaction's vote exactly where the leader is of its
/// own term, the leader's log is at least as up to date as its own by the last
/// term and then the last index, and the transaction is staged once what the
/// leader's log covers is applied. A later term is adopted without a vote, an
/// older one changes nothing.
pub proof fn participants_vote_on_what_they_staged(node: NodeModel, req: VoteRequestModel)
    ensures
        ({
            let (after, reply) = node.tx_vote(req);
            let last = node.log[node.log.len() - 1];
            let up_to_date = node.log.len() == 0 || req.last_log_term > last.term || (req.last_log_term == last.term
                && req.last_log_index >= last.index);
            let heard = req.term == node.current_term && up_to_date;
            let covered = NodeModel {
                commit_index: if node.commit_index < req.last_log_index && req.last_log_index <= node.log.len() {
                    req.last_log_index
                } else {
                    node.commit_index
                },
                ..node
            }.apply_logs();
            &&& reply.vote_granted <==> heard && covered.store.pending.contains_key(req.tx_id)
            &&& reply.term == if req.term > node.current_term {
                req.term
            } else {
                node.current_term
            }
            &&& req.term < node.current_term ==> after == node
            &&& req.term > node.current_term ==> after.current_term == req.term && after.state == NodeState::Follower
                && after.vote_for is None && after.store == node.store && after.log == node.log && after.commit_index
                == node.commit_index
            &&& req.term == node.current_term && !up_to_date ==> after == node
            &&& heard && !reply.vote_granted ==> after == covered
            &&& reply.vote_granted ==> {
                &&& after.store.data == covered.store.data
                &&& after.store.pending.contains_key(req.tx_id)
                &&& after.store.pending[req.tx_id].votes.contains_key(node.node_id)
                &&& after.store.pending[req.tx_id].votes[node.node_id] == crate::protocol::VoteModel::Yes
                &&& after == (NodeModel { store: after.store, ..covered })
            }
        }),
{
}

// ---- snapshots ----

/// What a leader's snapshot does: unless its term is behind, its data replaces
/// what is stored and nothing is staged; of the log, in memory and on the medium,
/// the entries with a higher index stay, all of them and in order; and what is
/// committed and applied reaches at least as far as the snapshot, and never
/// falls.
pub proof fn snapshots_replace_what_they_cover(node: NodeModel, args: InstallSnapshotArgsModel)
    ensures
        ({
            let (after, reply) = node.install_snapshot(args);
            let index = args.last_included_index;
            let writable = node.storage.fault matches Some(f) ==> f.appends_left > 0;
            &&& args.term < node.current_term ==> after == node && reply.term == node.current_term
            &&& args.term >= node.current_term ==> {
                &&& reply.term == args.term
                &&& after.current_term == args.term
                &&& after.state == NodeState::Follower
                &&& after.last_heartbeat == node.clock.now
                &&& after.vote_for == if args.term > node.current_term {
                    None
                } else {
                    node.vote_for
                }
                &&& after.store.data == args.snapshot.data
                &&& forall|tx_id: Seq<char>| !(#[trigger] after.store.pending.contains_key(tx_id))
                &&& after.log == node.log.filter(|e: LogEntryModel| e.index > index)
                &&& writable ==> after.storage.wal == node.storage.wal.filter(|e: LogEntryModel| e.index > index)
                &&& writable ==> after.storage.snapshot == Some(args.snapshot)
                &&& !writable ==> after.storage == node.storage
                &&& writable ==> after.storage.term == if args.term > node.current_term {
                    args.term
                } else {
                    node.storage.term
                }
                &&& after.commit_index == if node.commit_index < index {
                    index
                } else {
                    node.commit_index
                }
                &&& after.last_applied == if node.last_applied < index {
                    index
                } else {
                    node.last_applied
                }
                &&& after.last_snapshot_unix_ms == Some(node.clock.unix_ms)
                &&& after.current_config == node.current_config && after.peers == node.peers
            }
        }),
{
    crate::raft::storage::later_entries_are_filtered(node.log, args.last_included_index);
    crate::raft::storage::later_entries_are_filtered(node.storage.wal, args.last_included_index);
}

/// When a leader takes a snapshot, and what of: when its log file has outgrown
/// the threshold, something is committed and the medium takes it. The snapshot
/// holds the data, the
/// commit index and the term of the entry there; the log file keeps the entries
/// behind that index, and the log and what is stored stay as they are.
pub proof fn snapshots_hold_what_is_committed(node: NodeModel, threshold_bytes: u64)
    ensures
        ({
            let after = node.maybe_snapshot(threshold_bytes);
            let due = node.state == NodeState::Leader && node.storage.wal_bytes > threshold_bytes && node.commit_index
                > 0 && (node.storage.fault matches Some(f) ==> f.appends_left > 0);
            &&& !due ==> after == node
            &&& due ==> {
                &&& after.storage.snapshot matches Some(s) && {
                    &&& s.data == node.store.data
                    &&& s.last_included_index == node.commit_index
                    &&& node.commit_index <= node.log.len() ==> s.last_included_term == node.log[node.commit_index
                        - 1].term
                    &&& node.commit_index > node.log.len() ==> s.last_included_term == 0
                }
                &&& after.storage.wal == node.storage.wal.filter(|e: LogEntryModel| e.index > node.commit_index)
                &&& after.last_snapshot_unix_ms == Some(node.clock.unix_ms)
                &&& after == (NodeModel {
                    storage: after.storage,
                    last_snapshot_unix_ms: after.last_snapshot_unix_ms,
                    metrics: after.metrics,
                    ..node
                })
                &&& after.storage == (StorageModel {
                    snapshot: after.storage.snapshot,
                    wal: after.storage.wal,
                    wal_bytes: after.storage.wal_bytes,
                    journal: after.storage.journal,
                    ..node.storage
                })
            }
        }),
{
    crate::raft::storage::later_entries_are_filtered(node.storage.wal, node.commit_index);
}

/// What a node that restores a snapshot has: the snapshot's data, nothing
/// staged, and indices that reach at least as far.
pub proof fn restored_nodes_have_the_data(node: NodeModel, snapshot: SnapshotModel)
    ensures
        ({
            let after = node.restored(snapshot);
            let index = snapshot.last_included_index;
            &&& after.store.data == snapshot.data
            &&& forall|tx_id: Seq<char>| !(#[trigger] after.store.pending.contains_key(tx_id))
            &&& after.commit_index >= index && after.commit_index >= node.commit_index
            &&& after.commit_index == index || after.commit_index == node.commit_index
            &&& after.last_applied >= index && after.last_applied >= node.last_applied
            &&& after.last_applied == index || after.last_applied == node.last_applied
            &&& after == (NodeModel {
                store: after.store,
                commit_index: after.commit_index,
                last_applied: after.last_applied,
                ..node
            })
        }),
{
}

// ---- starting ----

/// What a node starts with: the term, the vote and the log of its medium, no
/// role but a follower's, nothing committed and nothing known of any peer. Its
/// configuration is itself and its peers, in order, each at its own name.
pub proof fn nodes_start_from_their_medium(
    node_id: Seq<char>,
    peers: Seq<Seq<char>>,
    store: StoreModel,
    storage: StorageModel,
    clock: crate::time::Clock,
)
    ensures
        ({
            let node = NodeModel::started(node_id, peers, store, storage, clock);
            &&& node.current_term == storage.term && node.vote_for == storage.vote && node.log == storage.wal
            &&& node.state == NodeState::Follower
            &&& node.node_id == node_id && node.peers == peers && node.store == store && node.storage == storage
            &&& node.commit_index == 0 && node.last_applied == 0
            &&& node.last_heartbeat == clock.now && node.last_quorum_heartbeat_at is None
            &&& forall|peer: Seq<char>|
                !(#[trigger] node.heard_at.contains_key(peer)) && !(#[trigger] node.next_index.contains_key(peer)) && !(
                #[trigger] node.match_index.contains_key(peer))
            &&& node.pending_post_joint_simple is None
            &&& node.current_config matches ConfigurationModel::Simple(servers) && {
                &&& servers.len() == peers.len() + 1
                &&& servers[0] == (ServerModel { node_id, addr: node_id })
                &&& forall|i: int|
                    0 < i < servers.len() ==> #[trigger] servers[i] == (ServerModel {
                        node_id: peers[i - 1],
                        addr: peers[i - 1],
                    })
            }
        }),
{
}

proof fn replay_keeps_the_rest(node: NodeModel, entries: Seq<LogEntryModel>)
    ensures
        ({
            let after = node.replay_entries(entries);
            after == (NodeModel {
                store: after.store,
                current_config: after.current_config,
                peers: after.peers,
                last_quorum_heartbeat_at: after.last_quorum_heartbeat_at,
                ..node
            })
        }),
        forall|j: int|
            0 <= j < entries.len() && (#[trigger] entries[j]).command is InstallConfiguration && (forall|i: int|
                j < i < entries.len() ==> !((#[trigger] entries[i]).command is InstallConfiguration))
                ==> node.replay_entries(entries).current_config == entries[j].command->InstallConfiguration_config,
        (forall|i: int| 0 <= i < entries.len() ==> !((#[trigger] entries[i]).command is InstallConfiguration))
            ==> node.replay_entries(entries).current_config == node.current_config && node.replay_entries(
            entries,
        ).peers == node.peers,
    decreases entries.len(),
{
    if entries.len() > 0 {
        let rest = entries.drop_last();
        replay_keeps_the_rest(node, rest);
        assert(forall|i: int| 0 <= i < rest.len() ==> #[trigger] rest[i] == entries[i]);
        assert forall|j: int|
            0 <= j < entries.len() && (#[trigger] entries[j]).command is InstallConfiguration && (forall|i: int|
                j < i < entries.len() ==> !((#[trigger] entries[i]).command is InstallConfiguration)) implies node.replay_entries(
        entries,
    ).current_config == entries[j].command->InstallConfiguration_config by {
            if j < rest.len() {
                assert(!(entries[entries.len() - 1].command is InstallConfiguration));
                assert(rest[j].command is InstallConfiguration);
                assert forall|i: int| j < i < rest.len() implies !((
                #[trigger] rest[i]).command is InstallConfiguration) by {
                    assert(!(entries[i].command is InstallConfiguration));
                }
            }
        }
        if forall|i: int| 0 <= i < entries.len() ==> !((#[trigger] entries[i]).command is InstallConfiguration) {
            assert(!(entries[entries.len() - 1].command is InstallConfiguration));
            assert forall|i: int| 0 <= i < rest.len() implies !((
            #[trigger] rest[i]).command is InstallConfiguration) by {
                assert(!(entries[i].command is InstallConfiguration));
            }
        }
    }
}

/// What starting up does to a node: one without peers leads, any other keeps its
/// role; the log is as it was and counts as applied; and the configuration is
/// the last one in the log, if it holds one. Neither the term, the vote nor the
/// medium changes.
pub proof fn starting_up_replays_the_log(node: NodeModel, j: int)
    requires
        node.log.len() <= u64::MAX,
    ensures
        ({
            let after = node.started_up();
            &&& after.state == if node.peers.len() == 0 {
                NodeState::Leader
            } else {
                node.state
            }
            &&& after.last_applied == node.log.len()
            &&& after.log == node.log && after.storage == node.storage && after.current_term == node.current_term
                && after.vote_for == node.vote_for && after.node_id == node.node_id
            &&& node.storage.snapshot is None ==> after.commit_index == node.commit_index
            &&& node.storage.snapshot matches Some(s) ==> after.commit_index >= s.last_included_index
            &&& 0 <= j < node.log.len() && node.log[j].command is InstallConfiguration && (forall|i: int|
                j < i < node.log.len() ==> !((#[trigger] node.log[i]).command is InstallConfiguration))
                ==> after.current_config == node.log[j].command->InstallConfiguration_config
            &&& (forall|i: int|
                0 <= i < node.log.len() ==> !((#[trigger] node.log[i]).command is InstallConfiguration))
                ==> after.current_config == node.current_config && after.peers == node.peers
        }),
{
    let led = if node.peers.len() == 0 {
        NodeModel { state: NodeState::Leader, ..node }
    } else {
        node
    };
    let restored = match led.storage.snapshot {
        Some(snapshot) => led.restored(snapshot),
        None => led,
    };
    replay_keeps_the_rest(restored, restored.log);
}

// ---- gauges ----

/// The gauges show the node: its term, its indices, the length of its log, its
/// role by number, how many transactions are staged, and the age of the last
/// snapshot in whole seconds. They change nothing else, the counters included.
pub proof fn gauges_show_the_node(node: NodeModel)
    requires
        node.metrics is Some,
        node.current_term <= i64::MAX,
        node.commit_index <= i64::MAX,
        node.last_applied <= i64::MAX,
        node.log.len() <= i64::MAX,
        node.store.pending.dom().len() <= i64::MAX,
    ensures
        ({
            let after = node.refreshed();
            let before = node.metrics->0;
            &&& after.metrics matches Some(m) && {
                &&& m.raft_term == node.current_term
                &&& m.raft_commit_index == node.commit_index
                &&& m.raft_last_applied == node.last_applied
                &&& m.raft_log_length == node.log.len()
                &&& m.tx_pending_count == node.store.pending.dom().len()
                &&& node.state == NodeState::Follower ==> m.raft_role == 0
                &&& node.state == NodeState::Candidate ==> m.raft_role == 1
                &&& node.state == NodeState::Leader ==> m.raft_role == 2
                &&& node.state == NodeState::PreCandidate ==> m.raft_role == 3
                &&& node.last_snapshot_unix_ms is None ==> m.raft_snapshot_age_seconds
                    == before.raft_snapshot_age_seconds
                &&& node.last_snapshot_unix_ms matches Some(taken) ==> {
                    &&& taken <= node.clock.unix_ms ==> 1_000 * m.raft_snapshot_age_seconds <= node.clock.unix_ms
                        - taken < 1_000 * (m.raft_snapshot_age_seconds + 1)
                    &&& taken > node.clock.unix_ms ==> m.raft_snapshot_age_seconds == 0
                }
                &&& m.tx_timeout_aborted_total == before.tx_timeout_aborted_total
                &&& m.tx_admin_aborted_total == before.tx_admin_aborted_total
                &&& m.peer_match_index == before.peer_match_index
                &&& m.peer_next_index == before.peer_next_index
                &&& m.raft_snapshot_bytes == before.raft_snapshot_bytes
            }
            &&& after == (NodeModel { metrics: after.metrics, ..node })
        }),
{
}

/// A heartbeat of a leader commits what it may and takes a snapshot if one is
/// due; no other node does anything on one.
pub proof fn only_leaders_have_a_heartbeat(node: NodeModel, threshold_bytes: u64)
    ensures
        node.state != NodeState::Leader ==> node.heartbeat(threshold_bytes) == node,
        node.state == NodeState::Leader && node.peers.len() > 0 ==> node.heartbeat(threshold_bytes)
            == node.maybe_snapshot(threshold_bytes),
        node.state == NodeState::Leader && node.peers.len() == 0 ==> node.heartbeat(threshold_bytes)
            == node.maybe_commit().maybe_snapshot(threshold_bytes),
{
}

// ---- words from a quorum ----

proof fn quorum_instants_agree(a: NodeModel, b: NodeModel)
    requires
        a.heard_at == b.heard_at,
        a.current_config == b.current_config,
        a.node_id == b.node_id,
    ensures
        a.quorum_instant() == b.quorum_instant(),
{
    reveal(NodeModel::quorum_instant);
    assert forall|t: Instant| #[trigger] a.is_quorum_instant(t) == b.is_quorum_instant(t) by {
        assert(forall|u: Instant| #[trigger] a.quorum_heard_since(u) == b.quorum_heard_since(u));
    }
    if exists|t: Instant| a.is_quorum_instant(t) {
        let t = choose|t: Instant| a.is_quorum_instant(t);
        let u = choose|u: Instant| b.is_quorum_instant(u);
        assert(b.is_quorum_instant(t));
        crate::raft::model::quorum_instant_is_unique(b, t, u);
    } else if exists|t: Instant| b.is_quorum_instant(t) {
        let t = choose|t: Instant| b.is_quorum_instant(t);
        assert(a.is_quorum_instant(t));
    }
}

proof fn configuring_notes_the_quorum(node: NodeModel, config: ConfigurationModel)
    ensures
        ({
            let after = node.install_configuration(config);
            after.last_quorum_heartbeat_at == after.quorum_instant()
        }),
{
    let after = node.install_configuration(config);
    let set = NodeModel {
        current_config: config,
        peers: crate::raft::model::other_addrs(config.servers(), node.node_id),
        ..node
    };
    assert(after.last_quorum_heartbeat_at == set.quorum_instant());
    quorum_instants_agree(set, after);
}

proof fn applying_notes_the_quorum(node: NodeModel)
    requires
        node.last_quorum_heartbeat_at == node.quorum_instant(),
    ensures
        node.apply_committed().last_quorum_heartbeat_at == node.apply_committed().quorum_instant(),
    decreases node.commit_index - node.last_applied,
{
    if node.last_applied < node.commit_index && node.last_applied < node.log.len() {
        let next = node.apply_next();
        match node.log[node.last_applied as int].command {
            CommandModel::InstallConfiguration { config } => {
                configuring_notes_the_quorum(node, config);
                quorum_instants_agree(node.install_configuration(config), next);
            },
            _ => {
                quorum_instants_agree(node, next);
            },
        }
        applying_notes_the_quorum(next);
    }
}

/// `t` is the last word from a quorum: a peer was heard from then, more than half
/// of the servers since, and at no later word of a peer so many.
pub open spec fn is_last_quorum(node: NodeModel, noted: Option<Instant>) -> bool {
    match noted {
        Some(t) => {
            &&& exists|p: Seq<char>| #[trigger] node.heard_at.contains_key(p) && node.heard_at[p] == t
            &&& most_heard_since(node, t)
            &&& forall|p: Seq<char>| #[trigger]
                node.heard_at.contains_key(p) && node.heard_at[p].nanos > t.nanos ==> !most_heard_since(
                    node,
                    node.heard_at[p],
                )
        },
        None => forall|p: Seq<char>| #[trigger]
            node.heard_at.contains_key(p) ==> !most_heard_since(node, node.heard_at[p]),
    }
}

proof fn noted_is_last(node: NodeModel)
    requires
        node.heard_at.dom().finite(),
    ensures
        is_last_quorum(node, node.quorum_instant()),
{
    assert forall|p: Seq<char>| #[trigger] node.heard_at.contains_key(p) implies (match node.quorum_instant() {
        Some(t) => node.heard_at[p].nanos > t.nanos ==> !most_heard_since(node, node.heard_at[p]),
        None => !most_heard_since(node, node.heard_at[p]),
    }) by {
        the_last_quorum_is_noted(node, p);
    }
    the_last_quorum_is_noted(node, node.node_id);
}

/// A peer that takes entries is heard from now, and the last word from a quorum
/// is found anew, by the servers of the configuration that is then active.
pub proof fn answers_renew_the_last_quorum(
    node: NodeModel,
    peer: Seq<char>,
    args: AppendEntriesArgsModel,
    reply: AppendReplyArgsModel,
)
    requires
        reply.success,
        node.heard_at.dom().finite(),
    ensures
        ({
            let after = node.append_reply(peer, args, reply);
            &&& after.heard_at == node.heard_at.insert(peer, node.clock.now)
            &&& is_last_quorum(after, after.last_quorum_heartbeat_at)
        }),
{
    let caught_up = node.peer_caught_up(peer, (args.prev_log_index + args.entries.len()) as u64);
    let index = choose|index: u64| caught_up.is_quorum_index(index);
    let after = node.append_reply(peer, args, reply);
    commit_keeps_peers(caught_up, index);
    let heard = NodeModel { last_quorum_heartbeat_at: node.last_quorum_heartbeat_at, ..caught_up };
    assert(caught_up.last_quorum_heartbeat_at == heard.quorum_instant());
    quorum_instants_agree(heard, caught_up);
    let ready = NodeModel { commit_index: index, ..caught_up };
    quorum_instants_agree(caught_up, ready);
    applying_notes_the_quorum(ready);
    quorum_instants_agree(ready.apply_committed(), ready.apply_logs());
    assert(after.last_quorum_heartbeat_at == after.quorum_instant());
    noted_is_last(after);
}

/// A configuration that takes effect has the last word from a quorum found anew,
/// by its own servers.
pub proof fn configurations_renew_the_last_quorum(node: NodeModel, config: ConfigurationModel)
    requires
        node.heard_at.dom().finite(),
    ensures
        ({
            let after = node.install_configuration(config);
            &&& after.heard_at == node.heard_at
            &&& is_last_quorum(after, after.last_quorum_heartbeat_at)
        }),
{
    configuring_notes_the_quorum(node, config);
    noted_is_last(node.install_configuration(config));
}

// ---- gauges of peers ----

proof fn applying_keeps_peer_gauges(node: NodeModel)
    ensures
        node.apply_committed().metrics == node.metrics,
    decreases node.commit_index - node.last_applied,
{
    if node.last_applied < node.commit_index && node.last_applied < node.log.len() {
        applying_keeps_peer_gauges(node.apply_next());
    }
}

/// The gauges of a peer that took entries show what it holds and what it is sent
/// next.
pub proof fn peer_gauges_follow_the_answers(
    node: NodeModel,
    peer: Seq<char>,
    args: AppendEntriesArgsModel,
    reply: AppendReplyArgsModel,
)
    requires
        reply.success,
        args.prev_log_index + args.entries.len() < i64::MAX,
        node.metrics is Some,
        node.metrics->0.peer_match_index.contains_key(peer),
    ensures
        ({
            let index = args.prev_log_index + args.entries.len();
            node.append_reply(peer, args, reply).metrics matches Some(m) && {
                &&& m.peer_match_index == node.metrics->0.peer_match_index.insert(peer, index as i64)
                &&& m.peer_next_index == node.metrics->0.peer_next_index.insert(peer, (index + 1) as i64)
            }
        }),
{
    let caught_up = node.peer_caught_up(peer, (args.prev_log_index + args.entries.len()) as u64);
    let index = choose|index: u64| caught_up.is_quorum_index(index);
    applying_keeps_peer_gauges(NodeModel { commit_index: index, ..caught_up });
}

/// A snapshot that was just taken or installed is of age 0.
pub proof fn fresh_snapshots_have_no_age(node: NodeModel, args: InstallSnapshotArgsModel, threshold_bytes: u64)
    requires
        node.metrics is Some,
        args.term >= node.current_term,
    ensures
        node.install_snapshot(args).0.metrics matches Some(m) && m.raft_snapshot_age_seconds == 0,
        node.maybe_snapshot(threshold_bytes) != node ==> (node.maybe_snapshot(threshold_bytes).metrics matches Some(m)
            && m.raft_snapshot_age_seconds == 0),
{
}

/// Why a vote on a transaction is refused is told in words: of the terms, of the
/// ends of the logs, or of the transaction.
pub proof fn refused_transaction_votes_say_why(node: NodeModel, req: VoteRequestModel)
    ensures
        ({
            let reply = node.tx_vote(req).1;
            let last = node.log[node.log.len() - 1];
            let index = if node.log.len() == 0 {
                0
            } else {
                last.index as u64
            };
            let term = if node.log.len() == 0 {
                0
            } else {
                last.term
            };
            let decimal = |n: u64| crate::text::decimal(n as nat);
            &&& reply.vote_granted ==> reply.reason == Seq::<char>::empty()
            &&& req.term < node.current_term ==> reply.reason == "stale term: request term "@ + decimal(req.term)
                + " < current term "@ + decimal(node.current_term)
            &&& req.term > node.current_term ==> reply.reason == "term advance: adopted term "@ + decimal(req.term)
                + " but deferring vote to elected leader"@
            &&& req.term == node.current_term && !reply.vote_granted && (req.last_log_term < term || (
            req.last_log_term == term && req.last_log_index < index)) ==> reply.reason == "leader log stale: leader=("@
                + decimal(req.last_log_index) + ", "@ + decimal(req.last_log_term) + ") local=("@ + decimal(index)
                + ", "@ + decimal(term) + ")"@
            &&& req.term == node.current_term && !reply.vote_granted && !(req.last_log_term < term || (
            req.last_log_term == term && req.last_log_index < index)) ==> reply.reason == "tx not pending: "@ + req.tx_id
        }),
{
}

// ---- what stays as it is ----

/// What a leader's entries leave as it is: of a follower that takes them nothing
/// but the log, its medium and its allegiance changes, unless something more is
/// committed; and what refuses them keeps its log too.
pub proof fn appends_change_nothing_else(node: NodeModel, args: AppendEntriesArgsModel)
    ensures
        ({
            let (after, reply) = node.append_entries(args);
            let news = reply.success && args.leader_commit > node.commit_index;
            !news ==> after == (NodeModel {
                log: after.log,
                storage: after.storage,
                current_term: after.current_term,
                state: after.state,
                vote_for: after.vote_for,
                last_heartbeat: after.last_heartbeat,
                ..node
            })
        }),
{
}

/// What a leader's snapshot leaves as it is: what is known of peers, the
/// configuration, and the name and clock of the node.
pub proof fn snapshots_change_nothing_else(node: NodeModel, args: InstallSnapshotArgsModel)
    ensures
        ({
            let after = node.install_snapshot(args).0;
            after == (NodeModel {
                store: after.store,
                log: after.log,
                storage: after.storage,
                current_term: after.current_term,
                state: after.state,
                vote_for: after.vote_for,
                last_heartbeat: after.last_heartbeat,
                commit_index: after.commit_index,
                last_applied: after.last_applied,
                last_snapshot_unix_ms: after.last_snapshot_unix_ms,
                metrics: after.metrics,
                ..node
            })
        }),
{
}

/// What a refusal leaves as it is: whoever refuses entries, a vote or a
/// transaction, and from whichever term, only the term, the role, the vote and
/// their place on the medium change, and for refused entries what the peer is sent
/// next.
pub proof fn refusals_change_nothing_else(
    node: NodeModel,
    peer: Seq<char>,
    args: AppendEntriesArgsModel,
    append: AppendReplyArgsModel,
    round: RoundModel,
    vote: VoteResponseArgsModel,
    req: VoteRequestModel,
)
    requires
        !append.success,
        !vote.vote_granted,
        req.term > node.current_term,
    ensures
        ({
            let after = node.append_reply(peer, args, append);
            &&& after == (NodeModel {
                current_term: after.current_term,
                state: after.state,
                vote_for: after.vote_for,
                storage: after.storage,
                next_index: after.next_index,
                metrics: after.metrics,
                ..node
            })
            &&& append.term <= node.current_term ==> after.storage == node.storage
        }),
        ({
            let after = node.vote_reply(round, vote).0;
            &&& after == (NodeModel {
                current_term: after.current_term,
                state: after.state,
                vote_for: after.vote_for,
                storage: after.storage,
                ..node
            })
            &&& vote.term <= node.current_term ==> after == node
        }),
        ({
            let after = node.tx_vote(req).0;
            after == (NodeModel {
                current_term: after.current_term,
                state: after.state,
                vote_for: after.vote_for,
                storage: after.storage,
                ..node
            })
        }),
{
}

// ---- gauges that keep up ----

/// The gauges show the node after every change of what they show: once entries
/// were applied, proposed or taken back, a term was entered, the node started to
/// probe, to stand or to lead, or a snapshot was installed.
pub proof fn gauges_keep_up(
    node: NodeModel,
    command: CommandModel,
    commands: Seq<CommandModel>,
    tx_id: Seq<char>,
    args: InstallSnapshotArgsModel,
    peer: Seq<char>,
    entries: AppendEntriesArgsModel,
    reply: AppendReplyArgsModel,
)
    ensures
        ({
            let shown = |n: NodeModel| n == n.refreshed();
            let leads = node.state == NodeState::Leader;
            &&& shown(node.apply_logs())
            &&& leads && !node.storage.failed() ==> shown(node.propose(command))
            &&& leads && node.storage.fault is None ==> shown(node.propose_batch(commands))
            &&& node.propose_abort_tx(tx_id).1 is Ok ==> shown(node.propose_abort_tx(tx_id).0)
            &&& shown(node.promoted())
            &&& !leads ==> shown(node.become_leader())
            &&& node.state == NodeState::Follower || node.state == NodeState::PreCandidate ==> shown(
                node.become_pre_candidate().0,
            )
            &&& args.term >= node.current_term ==> shown(node.install_snapshot(args).0)
            &&& !reply.success && reply.term > node.current_term ==> shown(node.append_reply(peer, entries, reply))
        }),
{
}

/// A counter goes up by one; behind the largest number it starts again at 0.
pub proof fn counters_go_up_by_one(node: NodeModel)
    requires
        node.metrics is Some,
    ensures
        ({
            let before = node.metrics->0;
            &&& node.admin_abort_counted().metrics matches Some(m) && m.tx_admin_aborted_total as int == (
            before.tx_admin_aborted_total + 1) % 0x1_0000_0000_0000_0000 && m.tx_timeout_aborted_total
                == before.tx_timeout_aborted_total
            &&& node.timeout_abort_counted().metrics matches Some(m) && m.tx_timeout_aborted_total as int == (
            before.tx_timeout_aborted_total + 1) % 0x1_0000_0000_0000_0000 && m.tx_admin_aborted_total
                == before.tx_admin_aborted_total
        }),
{
}

} // verus!
