//! A node of the cluster: elections, log replication, snapshots, reads and
//! membership.
//!
//! The node decides; the host around it moves messages, keeps the files and
//! reads the clocks. Before each call the host sets [`RaftNode::clock`], and
//! after it performs the writes that the storage has noted.

use crate::coordination::{VoteRequest, VoteResponse};
use crate::data::{duplicate_from, Duplicate, Same};
use crate::observability::registry::{Metrics, MetricsModel};
use crate::protocol::{
    config_quorum_reached_index, AbortTxError, Command, CommandModel, Configuration, ConfigurationModel, LogEntry,
    LogEntryModel, MembershipError, MembershipErrorModel, ReadIndex, ServerId, ServerModel, Snapshot, TxDecision, Vote,
};
use crate::raft::model::{NodeModel, RoundModel};
use crate::raft::rpc::{
    AppendEntriesArgs, AppendEntriesArgsModel, AppendReplyArgs, InstallSnapshotArgs, InstallSnapshotReplyArgs,
    JoinClusterRequest, JoinClusterResponse, RaftMessage, RequestVoteArgs, VoteResponseArgs,
};
use crate::raft::storage::{keep_after, RaftStorage};
use crate::state_machine::StateMachine;
use crate::text::push_decimal;
use crate::text_map::TextMap;
use crate::time::{Clock, Duration, Instant};
use vstd::prelude::*;

verus! {

broadcast use vstd::string::group_string_axioms;

/// A node's role.
#[derive(Debug, Clone, Copy, PartialEq, Eq, Structural)]
pub enum NodeState {
    Follower,
    Candidate,
    Leader,
    /// The node asks whether it could win an election in the next term, without
    /// entering that term. Enough grants make it a candidate; one refusal makes
    /// it a follower again, of the term that it was in. A timeout ends the probe
    /// and starts another.
    PreCandidate,
}

/// A node.
#[derive(Debug)]
pub struct RaftNode {
    pub state_machine: StateMachine,
    pub current_term: u64,
    pub vote_for: Option<String>,
    pub storage: RaftStorage,
    pub log: Vec<LogEntry>,
    pub state: NodeState,
    pub node_id: String,
    pub peers: Vec<String>,
    pub commit_index: u64,
    /// The highest index applied to the state machine.
    pub last_applied: u64,
    /// When a heartbeat was last received or an election started.
    pub last_heartbeat: Instant,
    /// The latest instant since which a quorum has acknowledged the leader.
    pub last_quorum_heartbeat_at: Option<Instant>,
    /// When each peer last acknowledged the leader.
    pub heard_at: TextMap<Instant>,
    /// What the host's clocks show.
    pub clock: Clock,
    pub next_index: TextMap<u64>,
    pub match_index: TextMap<u64>,
    /// The active configuration. `peers` are its other servers.
    pub current_config: Configuration,
    /// The second phase of a membership change, which the leader appends when
    /// the first has been committed.
    pub pending_post_joint_simple: Option<Configuration>,
    /// When the latest snapshot was taken, by the wall clock.
    pub last_snapshot_unix_ms: Option<u64>,
    /// Metrics, if the node shows any.
    pub metrics: Option<Metrics>,
}

impl View for RaftNode {
    type V = NodeModel;

    open spec fn view(&self) -> NodeModel {
        NodeModel {
            store: self.state_machine@,
            current_term: self.current_term,
            vote_for: self.vote_for.deep_view(),
            storage: self.storage@,
            log: self.log.deep_view(),
            state: self.state,
            node_id: self.node_id@,
            peers: self.peers.deep_view(),
            commit_index: self.commit_index,
            last_applied: self.last_applied,
            last_heartbeat: self.last_heartbeat,
            last_quorum_heartbeat_at: self.last_quorum_heartbeat_at,
            heard_at: self.heard_at@,
            clock: self.clock,
            next_index: self.next_index@,
            match_index: self.match_index@,
            current_config: self.current_config.deep_view(),
            pending_post_joint_simple: self.pending_post_joint_simple.deep_view(),
            last_snapshot_unix_ms: self.last_snapshot_unix_ms,
            metrics: self.metrics.deep_view(),
        }
    }
}

/// Servers whose name is their address.
fn servers_at(own: &String, peers: &Vec<String>) -> (servers: Vec<ServerId>)
    ensures
        servers.deep_view() == crate::raft::model::servers_at(seq![own@] + peers.deep_view()),
{
    let mut servers: Vec<ServerId> = Vec::new();
    servers.push(ServerId { node_id: own.clone(), addr: own.clone() });
    let mut i: usize = 0;
    while i < peers.len()
        invariant
            i <= peers@.len(),
            servers@.len() == i + 1,
            servers@[0].deep_view() == (ServerModel { node_id: own@, addr: own@ }),
            forall|j: int|
                0 <= j < i ==> (#[trigger] servers@[j + 1]).deep_view() == (ServerModel {
                    node_id: peers@[j]@,
                    addr: peers@[j]@,
                }),
        decreases peers@.len() - i,
    {
        servers.push(ServerId { node_id: peers[i].clone(), addr: peers[i].clone() });
        i = i + 1;
    }
    proof {
        let all = crate::raft::model::servers_at(seq![own@] + peers.deep_view());
        assert forall|j: int| 0 <= j < all.len() implies servers.deep_view()[j] == all[j] by {
            if j > 0 {
                assert(servers@[(j - 1) + 1].deep_view() == (ServerModel {
                    node_id: peers@[j - 1]@,
                    addr: peers@[j - 1]@,
                }));
            }
        }
        assert(servers.deep_view() =~= all);
    }
    servers
}

/// The addresses of the servers that are not named `node_id`.
fn other_addrs(servers: &Vec<ServerId>, node_id: &String) -> (addrs: Vec<String>)
    ensures
        addrs.deep_view() == crate::raft::model::other_addrs(servers.deep_view(), node_id@),
{
    let ghost model = servers.deep_view();
    let mut addrs: Vec<String> = Vec::new();
    let mut i: usize = 0;
    assert(model.take(0) =~= Seq::<ServerModel>::empty());
    assert(addrs.deep_view() =~= Seq::<Seq<char>>::empty());
    while i < servers.len()
        invariant
            i <= servers@.len(),
            model == servers.deep_view(),
            addrs.deep_view() == crate::raft::model::other_addrs(model.take(i as int), node_id@),
        decreases servers@.len() - i,
    {
        let ghost before = addrs.deep_view();
        proof {
            assert(model.take(i + 1).drop_last() =~= model.take(i as int));
            assert(model.take(i + 1).last() == servers@[i as int].deep_view());
        }
        if servers[i].node_id != *node_id {
            addrs.push(servers[i].addr.clone());
            assert(addrs.deep_view() =~= before.push(servers@[i as int].addr@));
        }
        i = i + 1;
    }
    assert(model.take(servers@.len() as int) =~= model);
    addrs
}

/// The servers that are not named `node_id`.
fn without_server(servers: &Vec<ServerId>, node_id: &str) -> (rest: Vec<ServerId>)
    ensures
        rest.deep_view() == crate::raft::model::without_server(servers.deep_view(), node_id@),
{
    let ghost model = servers.deep_view();
    let mut rest: Vec<ServerId> = Vec::new();
    let mut i: usize = 0;
    assert(model.take(0) =~= Seq::<ServerModel>::empty());
    assert(rest.deep_view() =~= Seq::<ServerModel>::empty());
    while i < servers.len()
        invariant
            i <= servers@.len(),
            model == servers.deep_view(),
            rest.deep_view() == crate::raft::model::without_server(model.take(i as int), node_id@),
        decreases servers@.len() - i,
    {
        let ghost before = rest.deep_view();
        proof {
            assert(model.take(i + 1).drop_last() =~= model.take(i as int));
            assert(model.take(i + 1).last() == servers@[i as int].deep_view());
        }
        if !crate::text::str_equal(servers[i].node_id.as_str(), node_id) {
            rest.push(servers[i].duplicate());
            assert(rest.deep_view() =~= before.push(servers@[i as int].deep_view()));
        }
        i = i + 1;
    }
    assert(model.take(servers@.len() as int) =~= model);
    rest
}

/// The addresses of the servers at neither `a` nor `b`.
fn addrs_except(servers: &Vec<ServerId>, a: &String, b: &String) -> (addrs: Vec<String>)
    ensures
        addrs.deep_view() == crate::raft::model::addrs_except(servers.deep_view(), a@, b@),
{
    let ghost model = servers.deep_view();
    let mut addrs: Vec<String> = Vec::new();
    let mut i: usize = 0;
    assert(model.take(0) =~= Seq::<ServerModel>::empty());
    assert(addrs.deep_view() =~= Seq::<Seq<char>>::empty());
    while i < servers.len()
        invariant
            i <= servers@.len(),
            model == servers.deep_view(),
            addrs.deep_view() == crate::raft::model::addrs_except(model.take(i as int), a@, b@),
        decreases servers@.len() - i,
    {
        let ghost before = addrs.deep_view();
        proof {
            assert(model.take(i + 1).drop_last() =~= model.take(i as int));
            assert(model.take(i + 1).last() == servers@[i as int].deep_view());
        }
        if servers[i].addr != *a && servers[i].addr != *b {
            addrs.push(servers[i].addr.clone());
            assert(addrs.deep_view() =~= before.push(servers@[i as int].addr@));
        }
        i = i + 1;
    }
    assert(model.take(servers@.len() as int) =~= model);
    addrs
}

/// The whole seconds from `taken` to `now`, both in milliseconds; none if
/// `taken` is later.
fn age_seconds(taken: u64, now: u64) -> (age: i64)
    ensures
        age == crate::raft::model::age_seconds(taken, now),
{
    if now >= taken {
        ((now - taken) / 1_000) as i64
    } else {
        0
    }
}

/// Whether some server is named `name` or listens there.
fn known_server(servers: &Vec<ServerId>, name: &String) -> (known: bool)
    ensures
        known == crate::raft::model::known_server(servers.deep_view(), name@),
{
    let ghost model = servers.deep_view();
    let mut i: usize = 0;
    while i < servers.len()
        invariant
            i <= servers@.len(),
            model == servers.deep_view(),
            forall|j: int| 0 <= j < i ==> (#[trigger] model[j]).addr != name@ && model[j].node_id != name@,
        decreases servers@.len() - i,
    {
        assert(model[i as int] == servers@[i as int].deep_view());
        if servers[i].addr == *name || servers[i].node_id == *name {
            return true;
        }
        i = i + 1;
    }
    false
}

impl RaftNode {
    // ---- making a node ----

    /// A node on an empty medium.
    pub fn new(raft_addr: String, peers: Vec<String>, state_machine: StateMachine) -> (node: Self)
        ensures
            node@ == NodeModel::started(
                raft_addr@,
                peers.deep_view(),
                state_machine@,
                crate::raft::storage::StorageModel::empty(),
                Clock { now: Instant { nanos: 0 }, unix_ms: 0 },
            ),
    {
        RaftNode::new_with_storage(raft_addr, peers, state_machine, RaftStorage::new())
    }

    /// A node that starts from what is on its medium.
    pub fn new_with_storage(
        raft_addr: String,
        peers: Vec<String>,
        state_machine: StateMachine,
        storage: RaftStorage,
    ) -> (node: Self)
        ensures
            node@ == NodeModel::started(
                raft_addr@,
                peers.deep_view(),
                state_machine@,
                storage@,
                Clock { now: Instant { nanos: 0 }, unix_ms: 0 },
            ),
    {
        let clock = Clock { now: Instant { nanos: 0 }, unix_ms: 0 };
        RaftNode::new_with_clock(raft_addr, peers, state_machine, storage, clock)
    }

    /// A node that starts from what is on its medium, at the time that `clock`
    /// shows.
    pub fn new_with_clock(
        raft_addr: String,
        peers: Vec<String>,
        state_machine: StateMachine,
        storage: RaftStorage,
        clock: Clock,
    ) -> (node: Self)
        ensures
            node@ == NodeModel::started(raft_addr@, peers.deep_view(), state_machine@, storage@, clock),
    {
        let (term, vote, log) = storage.load_initial_state();
        let servers = servers_at(&raft_addr, &peers);
        RaftNode {
            state_machine,
            current_term: term,
            vote_for: vote,
            storage,
            log,
            state: NodeState::Follower,
            node_id: raft_addr,
            peers,
            commit_index: 0,
            last_applied: 0,
            last_heartbeat: clock.now,
            last_quorum_heartbeat_at: None,
            heard_at: TextMap::new(),
            clock,
            next_index: TextMap::new(),
            match_index: TextMap::new(),
            current_config: Configuration::Simple(servers),
            pending_post_joint_simple: None,
            last_snapshot_unix_ms: None,
            metrics: None,
        }
    }

    // ---- looking at a node ----

    /// Whether the node has no peers.
    pub fn is_single_node(&self) -> (single: bool)
        ensures
            single == (self@.peers.len() == 0),
    {
        self.peers.len() == 0
    }

    /// Whether the node can take any event: the log and the term have room, and
    /// the indices kept for peers are log indices.
    pub fn is_ready(&self) -> (ready: bool)
        ensures
            ready == self@.ready(),
    {
        if self.log.len() > usize::MAX - 3 || self.current_term == u64::MAX || self.peers.len() == usize::MAX {
            return false;
        }
        let n: usize = self.next_index.len();
        let ghost keys = self.next_index.keys();
        let mut i: usize = 0;
        while i < n
            invariant
                i <= n == keys.len(),
                keys == self.next_index.keys(),
                crate::text_map::lists_keys(keys, self.next_index@),
                forall|j: int| 0 <= j < i ==> self.next_index@[#[trigger] keys[j]] >= 1,
            decreases n - i,
        {
            if *self.next_index.value_at(i) == 0 {
                assert(!self@.indices_ok()) by {
                    assert(self@.next_index.contains_key(keys[i as int]));
                }
                return false;
            }
            i = i + 1;
        }
        assert(self@.indices_ok()) by {
            assert forall|peer: Seq<char>| #[trigger]
                self@.next_index.contains_key(peer) implies self@.next_index[peer] >= 1 by {
                assert(keys.contains(peer));
                assert(keys[keys.index_of(peer)] == peer);
            }
        }
        true
    }

    /// The node's name.
    pub fn node_id(&self) -> (id: &str)
        ensures
            id@ == self@.node_id,
    {
        self.node_id.as_str()
    }

    /// The addresses of the node's peers.
    pub fn peers(&self) -> (peers: &Vec<String>)
        ensures
            peers.deep_view() == self@.peers,
    {
        &self.peers
    }

    /// The node's term.
    pub fn current_term(&self) -> (term: u64)
        ensures
            term == self@.current_term,
    {
        self.current_term
    }

    /// The entry at a log index; indices start at 1.
    pub fn get_log_entry(&self, index: u64) -> (entry: Option<LogEntry>)
        ensures
            entry.deep_view() == if 1 <= index <= self@.log.len() {
                Some(self@.log[index - 1])
            } else {
                None
            },
    {
        if index == 0 || index > self.log.len() as u64 {
            None
        } else {
            Some(self.log[(index - 1) as usize].duplicate())
        }
    }

    /// The highest index that a peer is known to hold, 0 if nothing is known.
    pub fn match_index_for(&self, peer: &str) -> (index: u64)
        ensures
            index == if self@.match_index.contains_key(peer@) {
                self@.match_index[peer@]
            } else {
                0
            },
    {
        match self.match_index.get(peer) {
            Some(index) => *index,
            None => 0,
        }
    }

    /// The index and term of the last log entry, zeros for an empty log.
    pub fn get_last_log_info(&self) -> (info: (u64, u64))
        ensures
            info == self@.last_log_info(),
    {
        let n: usize = self.log.len();
        if n == 0 {
            (0, 0)
        } else {
            assert(self@.log.last() == self.log@[n - 1].deep_view());
            (self.log[n - 1].index as u64, self.log[n - 1].term)
        }
    }

    /// Whether a log that ends in this index and term is at least as fresh as
    /// ours.
    fn yields_to(&self, last_log_index: u64, last_log_term: u64) -> (yields: bool)
        ensures
            yields == self@.yields_to(last_log_index, last_log_term),
    {
        let (my_index, my_term) = self.get_last_log_info();
        last_log_term > my_term || (last_log_term == my_term && last_log_index >= my_index)
    }

    // ---- small changes ----

    /// Replaces the peers, and the configuration by them and the node itself.
    pub fn set_peers(&mut self, peers: Vec<String>)
        ensures
            final(self)@ == (NodeModel {
                current_config: ConfigurationModel::Simple(
                    crate::raft::model::servers_at(seq![old(self)@.node_id] + peers.deep_view()),
                ),
                peers: peers.deep_view(),
                ..old(self)@
            }.quorum_noted()),
    {
        self.current_config = Configuration::Simple(servers_at(&self.node_id, &peers));
        self.peers = peers;
        self.note_quorum();
    }

    /// Gives the node metrics to keep. `snapshot_unix_ms` and `snapshot_bytes`
    /// tell when the snapshot's file was written and its size, as far as the
    /// host could tell; what it could not keeps its gauge.
    pub fn set_metrics(
        &mut self,
        metrics: Metrics,
        snapshot_unix_ms: Option<u64>,
        snapshot_bytes: Option<i64>,
    )
        ensures
            final(self)@ == (NodeModel {
                last_snapshot_unix_ms: match snapshot_unix_ms {
                    Some(written) => Some(written),
                    None => old(self)@.last_snapshot_unix_ms,
                },
                metrics: Some(
                    MetricsModel {
                        raft_snapshot_age_seconds: match snapshot_unix_ms {
                            Some(written) => crate::raft::model::age_seconds(written, old(self)@.clock.unix_ms),
                            None => metrics@.raft_snapshot_age_seconds,
                        },
                        raft_snapshot_bytes: match snapshot_bytes {
                            Some(bytes) => bytes,
                            None => metrics@.raft_snapshot_bytes,
                        },
                        ..metrics@
                    },
                ),
                ..old(self)@
            }),
    {
        let mut metrics = metrics;
        match snapshot_unix_ms {
            Some(written) => {
                self.last_snapshot_unix_ms = Some(written);
                metrics.raft_snapshot_age_seconds = age_seconds(written, self.clock.unix_ms);
            },
            None => {},
        }
        match snapshot_bytes {
            Some(bytes) => {
                metrics.raft_snapshot_bytes = bytes;
            },
            None => {},
        }
        self.metrics = Some(metrics);
    }

    /// Notes the size of the snapshot's file.
    pub fn record_snapshot_bytes(&mut self, bytes: i64)
        ensures
            final(self)@ == (NodeModel {
                metrics: match old(self)@.metrics {
                    Some(m) => Some(MetricsModel { raft_snapshot_bytes: bytes, ..m }),
                    None => None,
                },
                ..old(self)@
            }),
    {
        match &mut self.metrics {
            Some(m) => {
                m.raft_snapshot_bytes = bytes;
            },
            None => {},
        }
    }

    /// Counts a transaction that was aborted on a client's request.
    pub fn count_admin_abort(&mut self)
        ensures
            final(self)@ == old(self)@.admin_abort_counted(),
    {
        match &mut self.metrics {
            Some(m) => {
                m.tx_admin_aborted_total = if m.tx_admin_aborted_total == u64::MAX {
                    0
                } else {
                    m.tx_admin_aborted_total + 1
                };
            },
            None => {},
        }
    }

    /// Counts a transaction that was aborted because it took too long.
    pub fn count_timeout_abort(&mut self)
        ensures
            final(self)@ == old(self)@.timeout_abort_counted(),
    {
        match &mut self.metrics {
            Some(m) => {
                m.tx_timeout_aborted_total = if m.tx_timeout_aborted_total == u64::MAX {
                    0
                } else {
                    m.tx_timeout_aborted_total + 1
                };
            },
            None => {},
        }
    }

    /// Brings the gauges that mirror the node's state up to date.
    pub fn refresh_metrics(&mut self)
        ensures
            final(self)@ == old(self)@.refreshed(),
    {
        let term: i64 = self.current_term as i64;
        let commit_index: i64 = self.commit_index as i64;
        let last_applied: i64 = self.last_applied as i64;
        let log_length: i64 = self.log.len() as i64;
        let role: i64 = match self.state {
            NodeState::Follower => 0,
            NodeState::Candidate => 1,
            NodeState::Leader => 2,
            NodeState::PreCandidate => 3,
        };
        let age: Option<i64> = match self.last_snapshot_unix_ms {
            Some(taken) => Some(age_seconds(taken, self.clock.unix_ms)),
            None => None,
        };
        let pending: i64 = self.state_machine.pending_tx_count() as i64;
        match &mut self.metrics {
            Some(m) => {
                match age {
                    Some(seconds) => {
                        m.raft_snapshot_age_seconds = seconds;
                    },
                    None => {},
                }
                m.tx_pending_count = pending;
                m.raft_term = term;
                m.raft_commit_index = commit_index;
                m.raft_last_applied = last_applied;
                m.raft_log_length = log_length;
                m.raft_role = role;
            },
            None => {},
        }
    }

    /// Appends an entry to the log alone, past the medium.
    pub fn push_log_entry_for_test(&mut self, command: Command)
        requires
            old(self)@.log.len() < usize::MAX,
        ensures
            final(self)@ == (NodeModel {
                log: old(self)@.log.push(old(self)@.next_entry(command.deep_view())),
                ..old(self)@
            }),
    {
        let index: usize = self.log.len() + 1;
        self.log.push(LogEntry { term: self.current_term, index, command });
        assert(self@.log =~= old(self)@.log.push(old(self)@.next_entry(command.deep_view())));
    }

    /// Writes the term and vote to the medium, as far as it takes them.
    fn save_meta(&mut self)
        ensures
            final(self)@ == old(self)@.meta_saved(),
    {
        let vote = self.vote_for.duplicate();
        let _ = self.storage.save_meta(self.current_term, vote);
    }

    /// Becomes a follower of `term`, in which it has not voted.
    fn step_down(&mut self, term: u64)
        ensures
            final(self)@ == old(self)@.stepped_down(term),
    {
        self.current_term = term;
        self.state = NodeState::Follower;
        self.vote_for = None;
        self.save_meta();
    }

    /// Appends a command to the medium and then to the log. The index of the
    /// entry, or why the medium did not take it.
    fn append(&mut self, command: Command) -> (appended: Result<u64, String>)
        requires
            old(self)@.log.len() < usize::MAX,
        ensures
            final(self)@ == old(self)@.appended(command.deep_view()),
            match appended {
                Ok(index) => !old(self)@.storage.failed() && index == old(self)@.log.len() + 1,
                Err(reason) => old(self)@.storage.failed() && reason@ == old(self)@.storage.fault->0.reason,
            },
    {
        let index: usize = self.log.len() + 1;
        let entry = LogEntry { term: self.current_term, index, command };
        match self.storage.append_wal_log(&entry) {
            Ok(_) => {
                self.log.push(entry);
                assert(self@.log =~= old(self)@.log.push(entry.deep_view()));
                Ok(index as u64)
            },
            Err(reason) => Err(reason),
        }
    }
}

/// The reason of a vote refused for an old term.
fn stale_term_reason(term: u64, current_term: u64) -> (reason: String)
    ensures
        reason@ == crate::raft::model::stale_term_reason(term, current_term),
{
    let mut reason: String = "stale term: request term ".to_owned();
    push_decimal(&mut reason, term);
    reason.append(" < current term ");
    push_decimal(&mut reason, current_term);
    reason
}

/// The reason of a vote refused for a new term.
fn term_advance_reason(term: u64) -> (reason: String)
    ensures
        reason@ == crate::raft::model::term_advance_reason(term),
{
    let mut reason: String = "term advance: adopted term ".to_owned();
    push_decimal(&mut reason, term);
    reason.append(" but deferring vote to elected leader");
    reason
}

/// The reason of a vote refused for a stale log.
fn stale_log_reason(index: u64, term: u64, my_index: u64, my_term: u64) -> (reason: String)
    ensures
        reason@ == crate::raft::model::stale_log_reason(index, term, my_index, my_term),
{
    let mut reason: String = "leader log stale: leader=(".to_owned();
    push_decimal(&mut reason, index);
    reason.append(", ");
    push_decimal(&mut reason, term);
    reason.append(") local=(");
    push_decimal(&mut reason, my_index);
    reason.append(", ");
    push_decimal(&mut reason, my_term);
    reason.append(")");
    reason
}

impl RaftNode {
    // ---- votes ----

    /// Answers the probe of a node that considers an election. Nothing but the
    /// time of the last heartbeat changes: a live peer has been heard of. The
    /// probe is granted if its term is ours or the next, if we do not lead that
    /// term, and if its log is at least as fresh as ours.
    pub fn handle_pre_vote(&mut self, args: &RequestVoteArgs) -> (reply: VoteResponseArgs)
        ensures
            (final(self)@, reply.deep_view()) == old(self)@.pre_vote(args.deep_view()),
    {
        self.last_heartbeat = self.clock.now;
        let my_term: u64 = self.current_term;
        if args.term < my_term || args.term - my_term > 1 {
            return VoteResponseArgs { term: my_term, vote_granted: false };
        }
        if args.term == my_term && self.state == NodeState::Leader {
            return VoteResponseArgs { term: my_term, vote_granted: false };
        }
        let fresh = self.yields_to(args.last_log_index, args.last_log_term);
        VoteResponseArgs { term: my_term, vote_granted: fresh }
    }

    /// Answers a candidate. A newer term is adopted. The vote is granted if it
    /// has not gone to another candidate of the term and if the candidate's log
    /// is at least as fresh as ours; it is written to the medium.
    pub fn handle_request_vote(&mut self, args: &RequestVoteArgs) -> (reply: VoteResponseArgs)
        ensures
            (final(self)@, reply.deep_view()) == old(self)@.request_vote(args.deep_view()),
    {
        if args.term < self.current_term {
            return VoteResponseArgs { term: self.current_term, vote_granted: false };
        }
        if args.term > self.current_term {
            self.step_down(args.term);
        }
        let fresh = self.yields_to(args.last_log_index, args.last_log_term);
        let free = match &self.vote_for {
            None => true,
            Some(candidate) => *candidate == args.candidate_id,
        };
        if free && fresh {
            self.vote_for = Some(args.candidate_id.clone());
            self.save_meta();
            self.last_heartbeat = self.clock.now;
            VoteResponseArgs { term: self.current_term, vote_granted: true }
        } else {
            VoteResponseArgs { term: self.current_term, vote_granted: false }
        }
    }

    /// Answers a new server that asks for the cluster's members. Only a leader
    /// accepts, and only a server that is not a member yet.
    pub fn handle_join_cluster(&self, req: &JoinClusterRequest) -> (response: JoinClusterResponse)
        ensures
            response.deep_view() == self@.join_cluster(req.deep_view()),
    {
        let servers = self.current_config.all_servers();
        let refusal: &str = if self.state != NodeState::Leader {
            "not leader"
        } else if req.candidate_addr == self.node_id {
            "candidate_addr is the leader itself"
        } else if known_server(&servers, &req.candidate_addr) {
            "candidate_addr is already a cluster member"
        } else {
            return JoinClusterResponse {
                accepted: true,
                term: self.current_term,
                leader_addr: self.node_id.clone(),
                peer_addrs: addrs_except(&servers, &self.node_id, &req.candidate_addr),
                reason: String::new(),
            };
        };
        let none: Vec<String> = Vec::new();
        assert(none.deep_view() =~= Seq::<Seq<char>>::empty());
        JoinClusterResponse {
            accepted: false,
            term: self.current_term,
            leader_addr: self.node_id.clone(),
            peer_addrs: none,
            reason: refusal.to_owned(),
        }
    }

    /// Votes on a transaction. A request of an older term is refused; one of a
    /// newer term is refused too, but the term is adopted; so is one of a
    /// leader whose log is behind ours. Otherwise the log is applied up to the
    /// leader's last index, as far as we hold it, and the vote is Yes if the
    /// transaction is then staged here.
    pub fn handle_tx_vote_request(&mut self, req: &VoteRequest) -> (response: VoteResponse)
        requires
            old(self)@.log.len() < usize::MAX,
        ensures
            (final(self)@, response.deep_view()) == old(self)@.tx_vote(req.deep_view()),
    {
        if req.term < self.current_term {
            return VoteResponse {
                term: self.current_term,
                vote_granted: false,
                reason: stale_term_reason(req.term, self.current_term),
            };
        }
        if req.term > self.current_term {
            self.step_down(req.term);
            return VoteResponse {
                term: self.current_term,
                vote_granted: false,
                reason: term_advance_reason(req.term),
            };
        }
        let (my_index, my_term) = self.get_last_log_info();
        if !self.yields_to(req.last_log_index, req.last_log_term) {
            return VoteResponse {
                term: self.current_term,
                vote_granted: false,
                reason: stale_log_reason(req.last_log_index, req.last_log_term, my_index, my_term),
            };
        }
        if req.last_log_index > self.commit_index && req.last_log_index <= self.log.len() as u64 {
            self.commit_index = req.last_log_index;
        }
        let ghost ready = self@;
        self.apply_logs();
        proof {
            crate::raft::model::apply_logs_keeps_identity(ready);
        }
        if !self.state_machine.is_tx_pending(req.tx_id.as_str()) {
            let mut reason: String = "tx not pending: ".to_owned();
            reason.append(req.tx_id.as_str());
            return VoteResponse { term: self.current_term, vote_granted: false, reason };
        }
        let _ = self.state_machine.record_vote(req.tx_id.as_str(), self.node_id.clone(), Vote::Yes);
        VoteResponse { term: self.current_term, vote_granted: true, reason: String::new() }
    }

    // ---- proposals ----

    /// Appends a command to the log of a leader. Whether it was appended.
    pub fn propose(&mut self, command: Command) -> (accepted: bool)
        requires
            old(self)@.log.len() < usize::MAX,
        ensures
            final(self)@ == old(self)@.propose(command.deep_view()),
            accepted == (old(self)@.state == NodeState::Leader && !old(self)@.storage.failed()),
    {
        if self.state != NodeState::Leader {
            return false;
        }
        match self.append(command) {
            Ok(_) => {
                self.refresh_metrics();
                true
            },
            Err(_) => false,
        }
    }

    /// Appends commands to the log of a leader, one after the other. Whether
    /// all were appended.
    pub fn propose_batch(&mut self, commands: Vec<Command>) -> (accepted: bool)
        requires
            old(self)@.log.len() + commands@.len() <= usize::MAX,
        ensures
            final(self)@ == old(self)@.propose_batch(commands.deep_view()),
            accepted == (old(self)@.state == NodeState::Leader && old(self)@.has_room(commands@.len())),
    {
        if self.state != NodeState::Leader {
            return false;
        }
        let ghost model = commands.deep_view();
        let ghost before = self@;
        let mut i: usize = 0;
        assert(model.take(0) =~= Seq::<CommandModel>::empty());
        while i < commands.len()
            invariant
                i <= commands@.len(),
                model == commands.deep_view(),
                before == old(self)@,
                before.state == NodeState::Leader,
                before.log.len() + commands@.len() <= usize::MAX,
                self@ == before.appended_all(model.take(i as int)),
                before.has_room(i as nat),
            decreases commands@.len() - i,
        {
            proof {
                assert(model.take(i + 1).drop_last() =~= model.take(i as int));
                assert(model.take(i + 1).last() == commands@[i as int].deep_view());
                crate::raft::model::batch_progress(before, model.take(i as int));
            }
            match self.append(commands[i].duplicate()) {
                Ok(_) => {},
                Err(_) => {
                    proof {
                        crate::raft::model::refused_appends_change_nothing(before, model, i + 1);
                        assert(model.take(commands@.len() as int) =~= model);
                    }
                    return false;
                },
            }
            i = i + 1;
        }
        assert(model.take(commands@.len() as int) =~= model);
        self.refresh_metrics();
        true
    }

    /// Appends the first phase of a change of the members to `new`, and keeps
    /// the second.
    fn propose_members(&mut self, old_servers: Vec<ServerId>, new: Vec<ServerId>) -> (proposed: Result<
        u64,
        MembershipError,
    >)
        requires
            old(self)@.log.len() < usize::MAX,
            old_servers.deep_view() == old(self)@.current_config.servers(),
        ensures
            final(self)@ == old(self)@.propose_members(new.deep_view()),
            result_model(proposed) == old(self)@.members_outcome(),
    {
        let joint = Configuration::Joint { old: old_servers, new: new.duplicate() };
        let simple = Configuration::Simple(new);
        match self.append(Command::InstallConfiguration { config: joint }) {
            Ok(index) => {
                self.pending_post_joint_simple = Some(simple);
                Ok(index)
            },
            Err(reason) => Err(MembershipError::StorageError(reason)),
        }
    }

    /// Starts to add a server: appends the joint configuration of the present
    /// members and those with the new one. The index of that entry.
    pub fn propose_add_node(&mut self, server: ServerId) -> (proposed: Result<u64, MembershipError>)
        requires
            old(self)@.log.len() < usize::MAX,
        ensures
            (final(self)@, result_model(proposed)) == old(self)@.propose_add_node(server.deep_view()),
    {
        if self.state != NodeState::Leader {
            return Err(MembershipError::NotLeader);
        }
        if self.current_config.contains(server.node_id.as_str()) {
            return Err(MembershipError::AlreadyMember(server.node_id));
        }
        let servers = self.current_config.all_servers();
        let mut new = servers.duplicate();
        let ghost model = server.deep_view();
        new.push(server);
        assert(new.deep_view() =~= servers.deep_view().push(model));
        self.propose_members(servers, new)
    }

    /// Starts to remove a server, as `propose_add_node` starts to add one. A
    /// leader does not remove itself, nor the last server.
    pub fn propose_remove_node(&mut self, node_id: &str) -> (proposed: Result<u64, MembershipError>)
        requires
            old(self)@.log.len() < usize::MAX,
        ensures
            (final(self)@, result_model(proposed)) == old(self)@.propose_remove_node(node_id@),
    {
        if self.state != NodeState::Leader {
            return Err(MembershipError::NotLeader);
        }
        if crate::text::str_equal(node_id, self.node_id.as_str()) {
            return Err(MembershipError::CannotRemoveSelf);
        }
        if !self.current_config.contains(node_id) {
            return Err(MembershipError::NotMember(node_id.to_owned()));
        }
        let servers = self.current_config.all_servers();
        let new = without_server(&servers, node_id);
        if new.len() == 0 {
            return Err(MembershipError::CannotRemoveLastServer);
        }
        self.propose_members(servers, new)
    }

    /// Appends the decision to abort a staged transaction. The index of that
    /// entry.
    pub fn propose_abort_tx(&mut self, tx_id: &str) -> (proposed: Result<u64, AbortTxError>)
        requires
            old(self)@.log.len() < usize::MAX,
        ensures
            (final(self)@, abort_result_model(proposed)) == old(self)@.propose_abort_tx(tx_id@),
    {
        if self.state != NodeState::Leader {
            return Err(AbortTxError::NotLeader);
        }
        if !self.state_machine.is_tx_pending(tx_id) {
            return Err(AbortTxError::NotFound(tx_id.to_owned()));
        }
        match self.append(Command::DecideTx { tx_id: tx_id.to_owned(), decision: TxDecision::Abort }) {
            Ok(index) => {
                self.refresh_metrics();
                Ok(index)
            },
            Err(reason) => Err(AbortTxError::StorageError(reason)),
        }
    }

    /// The transactions that have been staged for longer than `threshold`, in
    /// the order of their ids. A node that does not lead names none.
    pub fn pending_txs_older_than(&self, threshold: Duration) -> (ids: Vec<String>)
        ensures
            self@.state != NodeState::Leader ==> ids@.len() == 0,
            self@.state == NodeState::Leader ==> {
                &&& crate::text_map::ascending(ids.deep_view())
                &&& forall|id: Seq<char>|
                    ids.deep_view().contains(id) <==> (#[trigger] self@.store.pending.contains_key(id)
                        && crate::state_machine::older_than(
                        self@.store.pending[id],
                        threshold.nanos as int / 1_000_000,
                        self@.clock.unix_ms,
                    ))
            },
    {
        if self.state != NodeState::Leader {
            return Vec::new();
        }
        self.state_machine.pending_txs_older_than(threshold, self.clock.unix_ms)
    }

    // ---- committing and applying ----

    /// Commits what a quorum of the active configuration has replicated, up to
    /// an entry of the leader's own term.
    pub fn maybe_commit(&mut self)
        requires
            old(self)@.log.len() < usize::MAX,
        ensures
            final(self)@ == old(self)@.maybe_commit(),
    {
        if self.state != NodeState::Leader {
            return;
        }
        let self_index: u64 = self.log.len() as u64;
        let index: u64 = config_quorum_reached_index(
            &self.current_config,
            &self.match_index,
            self.node_id.as_str(),
            self_index,
        );
        proof {
            let chosen = choose|i: u64| self@.is_quorum_index(i);
            assert(self@.is_quorum_index(index));
            crate::raft::model::quorum_index_is_unique(self@, index, chosen);
        }
        if index > self.commit_index {
            assert(self@.log[index - 1] == self.log@[index - 1].deep_view());
            if self.log[(index - 1) as usize].term == self.current_term {
                self.commit_index = index;
                self.apply_logs();
            }
        }
    }

    /// Applies every committed entry that was not applied yet.
    pub fn apply_logs(&mut self)
        requires
            old(self)@.log.len() < usize::MAX,
        ensures
            final(self)@ == old(self)@.apply_logs(),
    {
        let ghost before = self@;
        while self.last_applied < self.commit_index && self.last_applied < self.log.len() as u64
            invariant
                before == old(self)@,
                self@.apply_committed() == before.apply_committed(),
                self@.log.len() < usize::MAX || self@.pending_post_joint_simple is None,
            decreases self.commit_index - self.last_applied,
        {
            let at: usize = self.last_applied as usize;
            let command = self.log[at].command.duplicate();
            let ghost now = self@;
            assert(now.log[at as int] == self.log@[at as int].deep_view());
            match &command {
                Command::InstallConfiguration { config } => {
                    self.install_configuration(config);
                },
                _ => {
                    let unix_ms: u64 = self.clock.unix_ms;
                    self.state_machine.apply(&command, unix_ms);
                },
            }
            self.last_applied = self.last_applied + 1;
            assert(self@ == now.apply_next());
        }
        self.refresh_metrics();
    }

    /// Makes a committed configuration the active one. A leader that keeps the
    /// second phase of this change appends it.
    pub fn install_configuration(&mut self, config: &Configuration)
        requires
            old(self)@.log.len() < usize::MAX || old(self)@.pending_post_joint_simple is None,
        ensures
            final(self)@ == old(self)@.install_configuration(config.deep_view()),
            final(self)@.log.len() < usize::MAX || final(self)@.pending_post_joint_simple is None,
            final(self)@.last_applied == old(self)@.last_applied,
            final(self)@.commit_index == old(self)@.commit_index,
    {
        let servers = config.all_servers();
        self.peers = other_addrs(&servers, &self.node_id);
        self.current_config = config.duplicate();
        self.note_quorum();
        if self.state == NodeState::Leader {
            match self.pending_post_joint_simple.take() {
                Some(next) => {
                    let follows = match config {
                        Configuration::Joint { new, .. } => new.same(&next.all_servers()),
                        Configuration::Simple(c) => match &next {
                            Configuration::Simple(n) => c.same(n),
                            Configuration::Joint { .. } => false,
                        },
                    };
                    if follows {
                        let _ = self.append(Command::InstallConfiguration { config: next });
                    }
                },
                None => {},
            }
        }
    }

    /// Applies the whole log to the state machine and installs its
    /// configurations, after a restart.
    pub fn replay_logs(&mut self)
        ensures
            final(self)@ == old(self)@.replay_logs(),
    {
        let ghost model = self@.log;
        let ghost before = self@;
        let mut i: usize = 0;
        assert(model.take(0) =~= Seq::<LogEntryModel>::empty());
        while i < self.log.len()
            invariant
                i <= self.log@.len(),
                before == old(self)@,
                model == before.log,
                self@.log == model,
                self@ == before.replay_entries(model.take(i as int)),
            decreases self.log@.len() - i,
        {
            proof {
                assert(model.take(i + 1).drop_last() =~= model.take(i as int));
                assert(model.take(i + 1).last() == self.log@[i as int].deep_view());
            }
            let command = self.log[i].command.duplicate();
            match &command {
                Command::InstallConfiguration { config } => {
                    let servers = config.all_servers();
                    self.peers = other_addrs(&servers, &self.node_id);
                    self.current_config = config.duplicate();
                    self.note_quorum();
                },
                _ => {
                    let unix_ms: u64 = self.clock.unix_ms;
                    self.state_machine.apply(&command, unix_ms);
                },
            }
            i = i + 1;
        }
        assert(model.take(model.len() as int) =~= model);
        self.last_applied = self.log.len() as u64;
    }
}

/// A round of votes: whom they are asked of, and how many were granted so far.
#[derive(Debug, Clone, PartialEq)]
pub struct VoteRound {
    pub term: u64,
    pub total_nodes: usize,
    pub votes: usize,
    pub peers: Vec<String>,
    pub args: RequestVoteArgs,
}

impl DeepView for VoteRound {
    type V = RoundModel;

    open spec fn deep_view(&self) -> RoundModel {
        RoundModel {
            term: self.term,
            total_nodes: self.total_nodes,
            votes: self.votes,
            peers: self.peers.deep_view(),
            args: self.args.deep_view(),
        }
    }
}

impl VoteRound {
    /// Whether more than half of the nodes have granted their vote.
    fn won(&self) -> (won: bool)
        ensures
            won == self.deep_view().won(),
    {
        self.votes > self.total_nodes / 2
    }
}

impl RaftNode {
    // ---- elections ----

    /// A round of votes for `term`, with the node's own.
    fn round(&self, term: u64) -> (round: VoteRound)
        requires
            self@.peers.len() < usize::MAX,
        ensures
            round.deep_view() == self@.round(term),
    {
        let (last_log_index, last_log_term) = self.get_last_log_info();
        VoteRound {
            term,
            total_nodes: self.peers.len() + 1,
            votes: 1,
            peers: self.peers.duplicate(),
            args: RequestVoteArgs { term, candidate_id: self.node_id.clone(), last_log_index, last_log_term },
        }
    }

    /// Stands for election in the next term, votes for itself, and writes both
    /// to the medium.
    fn promote_to_candidate(&mut self)
        requires
            old(self)@.current_term < u64::MAX,
        ensures
            final(self)@ == old(self)@.promoted(),
    {
        self.current_term = self.current_term + 1;
        self.state = NodeState::Candidate;
        self.vote_for = Some(self.node_id.clone());
        self.save_meta();
        self.last_heartbeat = self.clock.now;
        self.refresh_metrics();
    }

    /// Stands for election in the next term without a probe. The votes to ask
    /// for, if there are peers.
    pub fn become_candidate(&mut self) -> (round: Option<VoteRound>)
        requires
            old(self)@.current_term < u64::MAX,
            old(self)@.peers.len() < usize::MAX,
            old(self)@.log.len() < usize::MAX,
        ensures
            (final(self)@, round.deep_view()) == old(self)@.promoted().request_votes(),
    {
        self.promote_to_candidate();
        self.request_votes()
    }

    /// Probes the next term, which is neither entered nor written to the
    /// medium. The votes to ask for, if there are peers; a node without any
    /// leads the next term at once.
    pub fn become_pre_candidate(&mut self) -> (round: Option<VoteRound>)
        requires
            old(self)@.current_term < u64::MAX,
            old(self)@.peers.len() < usize::MAX,
            old(self)@.log.len() < usize::MAX,
        ensures
            (final(self)@, round.deep_view()) == old(self)@.become_pre_candidate(),
    {
        if self.state != NodeState::Follower && self.state != NodeState::PreCandidate {
            return None;
        }
        self.state = NodeState::PreCandidate;
        self.refresh_metrics();
        if self.peers.len() == 0 {
            self.promote_to_candidate();
            self.become_leader();
            None
        } else {
            Some(self.round(self.current_term + 1))
        }
    }

    /// Counts one answer to a probe. A refusal, or a peer in a later term, ends
    /// the probe: the node is a follower again, of the term that it was in. With
    /// enough grants it becomes a candidate, and the votes to ask for are
    /// returned.
    pub fn process_pre_vote_reply(&mut self, round: &mut VoteRound, reply: &VoteResponseArgs) -> (election: Option<
        VoteRound,
    >)
        requires
            old(round).votes < usize::MAX,
            old(self)@.peers.len() < usize::MAX,
            old(self)@.log.len() < usize::MAX,
        ensures
            (final(self)@, final(round).deep_view(), election.deep_view()) == old(self)@.pre_vote_reply(
                old(round).deep_view(),
                reply.deep_view(),
            ),
    {
        if reply.term > round.term || !reply.vote_granted {
            if self.state == NodeState::PreCandidate {
                self.state = NodeState::Follower;
            }
            return None;
        }
        let probing = self.state == NodeState::PreCandidate && round.term > 0 && self.current_term == round.term - 1;
        round.votes = round.votes + 1;
        if !round.won() || !probing {
            return None;
        }
        self.promote_to_candidate();
        self.request_votes()
    }

    /// The votes that a candidate asks for. A candidate without peers leads.
    pub fn request_votes(&mut self) -> (round: Option<VoteRound>)
        requires
            old(self)@.peers.len() < usize::MAX,
            old(self)@.log.len() < usize::MAX,
        ensures
            (final(self)@, round.deep_view()) == old(self)@.request_votes(),
    {
        if self.peers.len() > 0 {
            Some(self.round(self.current_term))
        } else {
            if self.state == NodeState::Candidate {
                self.become_leader();
            }
            None
        }
    }

    /// Counts one answer to a request for a vote. A candidate with enough votes
    /// leads; a refusal from a later term makes the node a follower of it.
    pub fn process_vote_reply(&mut self, round: &mut VoteRound, reply: &VoteResponseArgs)
        requires
            old(round).votes < usize::MAX,
            old(self)@.log.len() < usize::MAX,
        ensures
            (final(self)@, final(round).deep_view()) == old(self)@.vote_reply(
                old(round).deep_view(),
                reply.deep_view(),
            ),
    {
        if reply.vote_granted {
            round.votes = round.votes + 1;
            if round.won() && self.state == NodeState::Candidate && self.current_term == round.term {
                self.become_leader();
            }
        } else if reply.term > self.current_term {
            self.step_down(reply.term);
        }
    }

    /// Takes the lead, unless the node has it. Every peer is to be sent what
    /// comes after the log.
    pub fn become_leader(&mut self)
        requires
            old(self)@.log.len() < usize::MAX,
        ensures
            final(self)@ == old(self)@.become_leader(),
    {
        if self.state == NodeState::Leader {
            return;
        }
        self.state = NodeState::Leader;
        let next: u64 = self.log.len() as u64 + 1;
        let ghost peers = self@.peers;
        let ghost wanted = Map::new(
            |peer: Seq<char>| peers.contains(peer),
            |peer: Seq<char>| (old(self)@.log.len() + 1) as u64,
        );
        let mut next_index: TextMap<u64> = TextMap::new();
        let mut i: usize = 0;
        while i < self.peers.len()
            invariant
                i <= self.peers@.len(),
                peers == self.peers.deep_view(),
                forall|p: Seq<char>| #[trigger] next_index@.contains_key(p) <==> peers.take(i as int).contains(p),
                forall|p: Seq<char>| next_index@.contains_key(p) ==> #[trigger] next_index@[p] == next,
            decreases self.peers@.len() - i,
        {
            let peer = &self.peers[i];
            next_index.insert(peer.clone(), next);
            proof {
                let before = peers.take(i as int);
                let after = peers.take(i + 1);
                assert forall|p: Seq<char>| after.contains(p) == (before.contains(p) || p == peer@) by {
                    if before.contains(p) {
                        assert(after[before.index_of(p)] == p);
                    }
                    assert(after[i as int] == peer@);
                    if after.contains(p) && p != peer@ {
                        assert(before[after.index_of(p)] == p);
                    }
                }
            }
            i = i + 1;
        }
        assert(peers.take(peers.len() as int) =~= peers);
        assert(next_index@ =~= wanted);
        self.next_index = next_index;
        self.last_heartbeat = self.clock.now;
        self.refresh_metrics();
    }

    // ---- hearing from peers ----

    /// Whether, with this node, more than half of `servers` have been heard from
    /// at `t` or later.
    fn majority_heard(&self, servers: &Vec<ServerId>, t: Instant) -> (heard: bool)
        ensures
            heard == crate::protocol::majority(
                servers.deep_view(),
                crate::raft::model::heard_since(self@.heard_at, self@.node_id, t),
            ),
    {
        let ghost model = servers.deep_view();
        let ghost holds = crate::raft::model::heard_since(self@.heard_at, self@.node_id, t);
        let mut count: usize = 0;
        let mut i: usize = 0;
        while i < servers.len()
            invariant
                i <= servers@.len(),
                count <= i,
                model == servers.deep_view(),
                holds == crate::raft::model::heard_since(self@.heard_at, self@.node_id, t),
                count == crate::protocol::count_where(model.take(i as int), holds),
            decreases servers@.len() - i,
        {
            let server = &servers[i];
            let heard: bool = if server.node_id == self.node_id {
                true
            } else {
                match self.heard_at.get(server.addr.as_str()) {
                    Some(at) => at.nanos >= t.nanos,
                    None => false,
                }
            };
            proof {
                assert(model.take(i + 1).drop_last() =~= model.take(i as int));
                assert(model.take(i + 1).last() == server.deep_view());
                assert(heard == holds(server.deep_view()));
            }
            if heard {
                count = count + 1;
            }
            i = i + 1;
        }
        assert(model.take(servers@.len() as int) =~= model);
        count > servers.len() / 2
    }

    /// Whether, with this node, a quorum of the active configuration has been
    /// heard from at `t` or later.
    pub fn quorum_heard_since(&self, t: Instant) -> (heard: bool)
        ensures
            heard == self@.quorum_heard_since(t),
    {
        match &self.current_config {
            Configuration::Simple(servers) => self.majority_heard(servers, t),
            Configuration::Joint { old, new } => self.majority_heard(old, t) && self.majority_heard(new, t),
        }
    }

    /// Notes the latest instant since which a quorum has been heard from.
    fn note_quorum(&mut self)
        ensures
            final(self)@ == old(self)@.quorum_noted(),
            final(self).log == old(self).log,
    {
        let ghost node = self@;
        let ghost keys = self.heard_at.keys();
        let count: usize = self.heard_at.len();
        let mut best: Option<Instant> = None;
        let mut i: usize = 0;
        while i < count
            invariant
                i <= count,
                count == keys.len(),
                keys == self.heard_at.keys(),
                node == self@,
                self.log == old(self).log,
                crate::text_map::lists_keys(keys, node.heard_at),
                match best {
                    Some(t) => {
                        &&& exists|j: int| 0 <= j < i && node.heard_at[#[trigger] keys[j]] == t
                        &&& node.quorum_heard_since(t)
                        &&& forall|j: int|
                            0 <= j < i && node.heard_at[#[trigger] keys[j]].nanos > t.nanos
                                ==> !node.quorum_heard_since(node.heard_at[keys[j]])
                    },
                    None => forall|j: int|
                        0 <= j < i ==> !node.quorum_heard_since(node.heard_at[#[trigger] keys[j]]),
                },
            decreases count - i,
        {
            let at: Instant = *self.heard_at.value_at(i);
            let later: bool = match best {
                Some(t) => at.nanos > t.nanos,
                None => true,
            };
            if later && self.quorum_heard_since(at) {
                best = Some(at);
            }
            i = i + 1;
        }
        self.last_quorum_heartbeat_at = best;
        proof {
            crate::raft::model::quorum_instant_is_listed(node, keys, best);
        }
    }

    // ---- replication ----

    /// What a leader sends to a peer: the entries from the peer's next index on.
    pub fn append_entries_for(&self, peer: &str) -> (args: AppendEntriesArgs)
        requires
            self@.indices_ok(),
        ensures
            args.deep_view() == self@.append_args(peer@),
    {
        let next: u64 = match self.next_index.get(peer) {
            Some(next) => *next,
            None => 1,
        };
        let len: u64 = self.log.len() as u64;
        let prev: u64 = next - 1;
        let prev_log_term: u64 = if prev >= 1 && prev <= len {
            assert(self@.log[prev - 1] == self.log@[prev - 1].deep_view());
            self.log[(prev - 1) as usize].term
        } else {
            0
        };
        let entries: Vec<LogEntry> = if next <= len {
            duplicate_from(&self.log, prev as usize)
        } else {
            Vec::new()
        };
        proof {
            if next > len {
                assert(entries.deep_view() =~= Seq::<LogEntryModel>::empty());
            }
        }
        AppendEntriesArgs {
            term: self.current_term,
            leader_id: self.node_id.clone(),
            prev_log_index: prev,
            prev_log_term,
            entries,
            leader_commit: self.commit_index,
        }
    }

    /// The entries to send to each peer. A leader without peers commits what it
    /// has instead.
    pub fn sync_logs(&mut self) -> (messages: Vec<(String, AppendEntriesArgs)>)
        requires
            old(self)@.log.len() < usize::MAX,
            old(self)@.indices_ok(),
        ensures
            final(self)@ == old(self)@.sync_logs(),
            messages.deep_view() == old(self)@.outbound(),
    {
        let mut messages: Vec<(String, AppendEntriesArgs)> = Vec::new();
        if self.peers.len() == 0 {
            if self.state == NodeState::Leader {
                self.maybe_commit();
            }
            assert(messages.deep_view() =~= old(self)@.outbound());
            return messages;
        }
        let mut i: usize = 0;
        while i < self.peers.len()
            invariant
                i <= self.peers@.len(),
                self@ == old(self)@,
                self@.indices_ok(),
                messages@.len() == i,
                forall|j: int| 0 <= j < i ==> (#[trigger] messages@[j]).deep_view() == self@.outbound()[j],
            decreases self.peers@.len() - i,
        {
            let peer = self.peers[i].clone();
            let args = self.append_entries_for(peer.as_str());
            messages.push((peer, args));
            i = i + 1;
        }
        assert(messages.deep_view() =~= old(self)@.outbound());
        messages
    }

    /// Takes a peer's answer to entries. What it holds may now be committed; a
    /// refusal from a later term makes the node a follower of it, and any other
    /// refusal has one entry more sent next time. Other messages are no answer
    /// and change nothing.
    pub fn process_append_reply(&mut self, peer: &str, args: &AppendEntriesArgs, reply: &RaftMessage)
        requires
            old(self)@.log.len() < usize::MAX,
            args.prev_log_index + args.entries@.len() < u64::MAX,
            old(self)@.indices_ok(),
        ensures
            final(self)@ == match reply.deep_view() {
                crate::raft::rpc::RaftMessageModel::AppendReply(r) => old(self)@.append_reply(
                    peer@,
                    args.deep_view(),
                    r,
                ),
                _ => old(self)@,
            },
    {
        let reply = match reply {
            RaftMessage::AppendReply(reply) => reply,
            _ => {
                return;
            },
        };
        if reply.success {
            let index: u64 = args.prev_log_index + args.entries.len() as u64;
            self.match_index.insert(peer.to_owned(), index);
            self.next_index.insert(peer.to_owned(), index + 1);
            let now: Instant = self.clock.now;
            self.heard_at.insert(peer.to_owned(), now);
            match &mut self.metrics {
                Some(m) => {
                    m.set_peer_match_index(peer, index as i64);
                    m.set_peer_next_index(peer, (index + 1) as i64);
                },
                None => {},
            }
            self.note_quorum();
            self.maybe_commit();
        } else if reply.term > self.current_term {
            self.step_down(reply.term);
            self.refresh_metrics();
        } else {
            let next: u64 = match self.next_index.get(peer) {
                Some(next) => *next,
                None => 1,
            };
            if next > 1 {
                self.next_index.insert(peer.to_owned(), next - 1);
                match &mut self.metrics {
                    Some(m) => m.set_peer_next_index(peer, (next - 1) as i64),
                    None => {},
                }
            }
        }
    }

    /// One beat of the heartbeat loop: a leader's entries for its peers, and a
    /// snapshot if the log file has outgrown the threshold.
    pub fn heartbeat(&mut self, threshold_bytes: u64) -> (messages: Vec<(String, AppendEntriesArgs)>)
        requires
            old(self)@.log.len() < usize::MAX,
            old(self)@.indices_ok(),
        ensures
            final(self)@ == old(self)@.heartbeat(threshold_bytes),
            messages.deep_view() == if old(self)@.state == NodeState::Leader {
                old(self)@.outbound()
            } else {
                Seq::empty()
            },
    {
        if self.state != NodeState::Leader {
            let none: Vec<(String, AppendEntriesArgs)> = Vec::new();
            assert(none.deep_view() =~= Seq::<(Seq<char>, AppendEntriesArgsModel)>::empty());
            return none;
        }
        let messages = self.sync_logs();
        let _ = self.maybe_snapshot(threshold_bytes);
        messages
    }

    /// Takes a leader's entries. Those of an older term are refused; so are
    /// those that do not follow on what the log holds. Entries that the log
    /// holds already stay; one of another term goes, with all that follow it.
    /// What the leader has committed is committed, as far as the log reaches,
    /// and applied.
    pub fn handle_append_entries(&mut self, args: &AppendEntriesArgs) -> (reply: AppendReplyArgs)
        requires
            old(self)@.log.len() + args.entries@.len() < usize::MAX,
            forall|i: int| 0 <= i < args.entries@.len() ==> (#[trigger] args.deep_view().entries[i]).index >= 1,
        ensures
            (final(self)@, reply.deep_view()) == old(self)@.append_entries(args.deep_view()),
    {
        if args.term < self.current_term {
            return AppendReplyArgs { term: self.current_term, success: false };
        }
        if args.term > self.current_term {
            self.step_down(args.term);
        }
        self.state = NodeState::Follower;
        self.last_heartbeat = self.clock.now;
        if args.prev_log_index > 0 {
            let held = if args.prev_log_index <= self.log.len() as u64 {
                assert(self@.log[args.prev_log_index - 1] == self.log@[args.prev_log_index - 1].deep_view());
                self.log[(args.prev_log_index - 1) as usize].term == args.prev_log_term
            } else {
                false
            };
            if !held {
                return AppendReplyArgs { term: self.current_term, success: false };
            }
        }
        let ghost follower = self@;
        let ghost entries = args.entries.deep_view();
        let mut i: usize = 0;
        assert(entries.take(0) =~= Seq::<LogEntryModel>::empty());
        while i < args.entries.len()
            invariant
                i <= args.entries@.len(),
                entries == args.entries.deep_view(),
                old(self)@.log.len() == follower.log.len(),
                old(self)@.log.len() + args.entries@.len() < usize::MAX,
                forall|j: int| 0 <= j < entries.len() ==> (#[trigger] entries[j]).index >= 1,
                self@.log.len() <= old(self)@.log.len() + i,
                self@ == ({
                    let (log, storage) = crate::raft::model::merge_entries(
                        follower.log,
                        follower.storage,
                        entries.take(i as int),
                    );
                    NodeModel { log, storage, ..follower }
                }),
            decreases args.entries@.len() - i,
        {
            let entry = &args.entries[i];
            let ghost before = self@;
            proof {
                assert(entries.take(i + 1).drop_last() =~= entries.take(i as int));
                assert(entries.take(i + 1).last() == entry.deep_view());
                assert(entries[i as int] == entry.deep_view());
            }
            let at: usize = entry.index - 1;
            if at < self.log.len() {
                assert(before.log[at as int] == self.log@[at as int].deep_view());
                if self.log[at].term != entry.term {
                    self.log.truncate(at);
                    self.log.push(entry.duplicate());
                    let _ = self.storage.append_wal_log(entry);
                    assert(self@.log =~= before.log.take(at as int).push(entry.deep_view()));
                }
            } else {
                self.log.push(entry.duplicate());
                let _ = self.storage.append_wal_log(entry);
                assert(self@.log =~= before.log.push(entry.deep_view()));
            }
            i = i + 1;
        }
        assert(entries.take(entries.len() as int) =~= entries);
        if args.leader_commit > self.commit_index {
            let len: u64 = self.log.len() as u64;
            self.commit_index = if args.leader_commit < len {
                args.leader_commit
            } else {
                len
            };
            let ghost ready = self@;
            self.apply_logs();
            proof {
                crate::raft::model::apply_logs_keeps_identity(ready);
            }
        }
        AppendReplyArgs { term: self.current_term, success: true }
    }

    // ---- snapshots ----

    /// Sets the snapshot's age to zero.
    fn note_snapshot(&mut self)
        ensures
            final(self)@ == old(self)@.snapshot_noted(),
    {
        self.last_snapshot_unix_ms = Some(self.clock.unix_ms);
        match &mut self.metrics {
            Some(m) => {
                m.raft_snapshot_age_seconds = 0;
            },
            None => {},
        }
    }

    /// Takes a leader's snapshot: it replaces the state machine's contents and
    /// the entries that it covers, on the medium and in the log.
    pub fn handle_install_snapshot(&mut self, args: &InstallSnapshotArgs) -> (reply: InstallSnapshotReplyArgs)
        ensures
            (final(self)@, reply.deep_view()) == old(self)@.install_snapshot(args.deep_view()),
    {
        if args.term < self.current_term {
            return InstallSnapshotReplyArgs { term: self.current_term };
        }
        if args.term > self.current_term {
            self.step_down(args.term);
        }
        self.state = NodeState::Follower;
        self.last_heartbeat = self.clock.now;
        let _ = self.storage.save_snapshot(&args.snapshot);
        self.state_machine.install_snapshot(args.snapshot.data.duplicate());
        let index: u64 = args.last_included_index;
        self.log = keep_after(&self.log, index);
        let _ = self.storage.rewrite_wal_after_snapshot(index);
        if index > self.commit_index {
            self.commit_index = index;
        }
        if index > self.last_applied {
            self.last_applied = index;
        }
        self.note_snapshot();
        self.refresh_metrics();
        InstallSnapshotReplyArgs { term: self.current_term }
    }

    /// Takes a snapshot of a leader's state machine if the log file has
    /// outgrown the threshold, and drops what it covers from the log file.
    /// Whether one was taken.
    pub fn maybe_snapshot(&mut self, threshold_bytes: u64) -> (taken: bool)
        ensures
            final(self)@ == old(self)@.maybe_snapshot(threshold_bytes),
            taken == old(self)@.snapshot_due(threshold_bytes),
    {
        if self.state != NodeState::Leader {
            return false;
        }
        if self.storage.wal_size_bytes() <= threshold_bytes {
            return false;
        }
        let index: u64 = self.commit_index;
        if index == 0 {
            return false;
        }
        let term: u64 = if index <= self.log.len() as u64 {
            assert(self@.log[index - 1] == self.log@[index - 1].deep_view());
            self.log[(index - 1) as usize].term
        } else {
            0
        };
        let snapshot = Snapshot {
            last_included_index: index,
            last_included_term: term,
            data: self.state_machine.snapshot_data(),
        };
        if self.storage.save_snapshot(&snapshot).is_err() {
            return false;
        }
        let _ = self.storage.rewrite_wal_after_snapshot(index);
        self.note_snapshot();
        true
    }

    /// Puts the contents of the snapshot on the medium, if there is one, into
    /// the state machine. The snapshot's index and term.
    pub fn restore_from_snapshot(&mut self) -> (restored: Option<(u64, u64)>)
        ensures
            match old(self)@.storage.snapshot {
                Some(s) => final(self)@ == old(self)@.restored(s) && restored == Some(
                    (s.last_included_index, s.last_included_term),
                ),
                None => final(self)@ == old(self)@ && restored is None,
            },
    {
        match self.storage.load_snapshot() {
            None => None,
            Some(snapshot) => {
                let index: u64 = snapshot.last_included_index;
                let term: u64 = snapshot.last_included_term;
                self.state_machine.install_snapshot(snapshot.data);
                if index > self.commit_index {
                    self.commit_index = index;
                }
                if index > self.last_applied {
                    self.last_applied = index;
                }
                Some((index, term))
            },
        }
    }

    /// Makes a node that was just made ready: without peers it leads at once;
    /// the snapshot on its medium, if there is one, and the log behind it take
    /// effect. The snapshot's index and term.
    pub fn start_up(&mut self) -> (restored: Option<(u64, u64)>)
        ensures
            final(self)@ == old(self)@.started_up(),
            restored == match old(self)@.storage.snapshot {
                Some(s) => Some((s.last_included_index, s.last_included_term)),
                None => None,
            },
    {
        if self.is_single_node() {
            self.state = NodeState::Leader;
        }
        let restored = self.restore_from_snapshot();
        self.replay_logs();
        restored
    }

    // ---- reads ----

    /// Starts a linearizable read on a leader. The read is anchored at the
    /// commit index; the entries to send prove that the node still leads.
    pub fn begin_read(&mut self) -> (started: Option<(ReadIndex, Vec<(String, AppendEntriesArgs)>)>)
        requires
            old(self)@.log.len() < usize::MAX,
            old(self)@.indices_ok(),
        ensures
            match started {
                Some((ri, messages)) => {
                    &&& old(self)@.state == NodeState::Leader
                    &&& ri.index == old(self)@.commit_index
                    &&& ri.issued_at == old(self)@.clock.now
                    &&& messages.deep_view() == old(self)@.outbound()
                    &&& final(self)@ == old(self)@.sync_logs()
                },
                None => old(self)@.state != NodeState::Leader && final(self)@ == old(self)@,
            },
    {
        if self.state != NodeState::Leader {
            return None;
        }
        let ri = ReadIndex { index: self.commit_index, issued_at: self.clock.now };
        let messages = self.sync_logs();
        Some((ri, messages))
    }

    /// Whether a read may be served: the node still leads, the state machine
    /// has reached the read's index, and a peer has answered since the read was
    /// issued and less than an election timeout ago.
    pub fn confirm_read(&self, ri: ReadIndex) -> (confirmed: bool)
        ensures
            confirmed == self@.read_confirmed(ri.index, ri.issued_at),
    {
        if self.state != NodeState::Leader {
            return false;
        }
        if self.last_applied < ri.index {
            return false;
        }
        match self.last_quorum_heartbeat_at {
            None => false,
            Some(t) => {
                let age: Duration = self.clock.now.since(t);
                let limit: Duration = Duration::from_millis(crate::config::MAX_ELECTION_TIMEOUT_MS);
                age.nanos < limit.nanos && t.nanos >= ri.issued_at.nanos
            },
        }
    }
}

/// A result with the model of its error.
pub open spec fn result_model(result: Result<u64, MembershipError>) -> Result<u64, MembershipErrorModel> {
    match result {
        Ok(index) => Ok(index),
        Err(e) => Err(e.deep_view()),
    }
}

/// A result with the model of its error.
pub open spec fn abort_result_model(result: Result<u64, AbortTxError>) -> Result<
    u64,
    crate::protocol::AbortTxErrorModel,
> {
    match result {
        Ok(index) => Ok(index),
        Err(e) => Err(e.deep_view()),
    }
}

} // verus!
