//! A node as a mathematical value, and how each event changes it.

use crate::coordination::{VoteRequestModel, VoteResponseModel};
use crate::observability::registry::MetricsModel;
use crate::protocol::{
    AbortTxErrorModel, CommandModel, ConfigurationModel, LogEntryModel, MembershipErrorModel, ServerModel,
    SnapshotModel, TxDecision, VoteModel,
};
use crate::raft::node::NodeState;
use crate::raft::rpc::{
    AppendEntriesArgsModel, AppendReplyArgsModel, InstallSnapshotArgsModel, InstallSnapshotReplyArgsModel,
    JoinClusterRequestModel, JoinClusterResponseModel, RequestVoteArgsModel, VoteResponseArgsModel,
};
use crate::raft::storage::StorageModel;
use crate::state_machine::StoreModel;
use crate::time::{Clock, Instant};
use vstd::prelude::*;

verus! {

/// A counter one further; behind the largest number it starts again.
pub open spec fn next_count(count: u64) -> u64 {
    if count == u64::MAX {
        0
    } else {
        (count + 1) as u64
    }
}

#[verifier::ext_equal]
pub struct NodeModel {
    pub store: StoreModel,
    pub current_term: u64,
    pub vote_for: Option<Seq<char>>,
    pub storage: StorageModel,
    pub log: Seq<LogEntryModel>,
    pub state: NodeState,
    pub node_id: Seq<char>,
    pub peers: Seq<Seq<char>>,
    pub commit_index: u64,
    pub last_applied: u64,
    pub last_heartbeat: Instant,
    pub last_quorum_heartbeat_at: Option<Instant>,
    pub heard_at: Map<Seq<char>, Instant>,
    pub clock: Clock,
    pub next_index: Map<Seq<char>, u64>,
    pub match_index: Map<Seq<char>, u64>,
    pub current_config: ConfigurationModel,
    pub pending_post_joint_simple: Option<ConfigurationModel>,
    pub last_snapshot_unix_ms: Option<u64>,
    pub metrics: Option<MetricsModel>,
}

/// A round of votes: whom they are asked of, and how many were granted so far.
#[verifier::ext_equal]
pub struct RoundModel {
    pub term: u64,
    pub total_nodes: usize,
    pub votes: usize,
    pub peers: Seq<Seq<char>>,
    pub args: RequestVoteArgsModel,
}

impl RoundModel {
    /// More than half of the nodes have granted their vote.
    pub open spec fn won(self) -> bool {
        self.votes > self.total_nodes / 2
    }
}

/// The whole seconds from `taken` to `now`, both in milliseconds; none if
/// `taken` is later.
pub open spec fn age_seconds(taken: u64, now: u64) -> i64 {
    if now >= taken {
        ((now - taken) / 1_000) as i64
    } else {
        0
    }
}

/// What holds of the node `node_id`, and of a server that it has heard from at
/// `t` or later.
pub open spec fn heard_since(heard_at: Map<Seq<char>, Instant>, node_id: Seq<char>, t: Instant) -> spec_fn(
    ServerModel,
) -> bool {
    |server: ServerModel|
        server.node_id == node_id || (heard_at.contains_key(server.addr) && heard_at[server.addr].nanos >= t.nanos)
}

/// The number that the role gauge shows.
pub open spec fn role_number(state: NodeState) -> i64 {
    match state {
        NodeState::Follower => 0,
        NodeState::Candidate => 1,
        NodeState::Leader => 2,
        NodeState::PreCandidate => 3,
    }
}

/// Servers whose name is their address.
pub open spec fn servers_at(addrs: Seq<Seq<char>>) -> Seq<ServerModel> {
    Seq::new(addrs.len(), |i: int| ServerModel { node_id: addrs[i], addr: addrs[i] })
}

/// The addresses of the servers that are not named `node_id`, in order.
pub open spec fn other_addrs(servers: Seq<ServerModel>, node_id: Seq<char>) -> Seq<Seq<char>>
    decreases servers.len(),
{
    if servers.len() == 0 {
        Seq::empty()
    } else if servers.last().node_id != node_id {
        other_addrs(servers.drop_last(), node_id).push(servers.last().addr)
    } else {
        other_addrs(servers.drop_last(), node_id)
    }
}

/// The servers that are not named `node_id`, in order.
pub open spec fn without_server(servers: Seq<ServerModel>, node_id: Seq<char>) -> Seq<ServerModel>
    decreases servers.len(),
{
    if servers.len() == 0 {
        Seq::empty()
    } else if servers.last().node_id != node_id {
        without_server(servers.drop_last(), node_id).push(servers.last())
    } else {
        without_server(servers.drop_last(), node_id)
    }
}

/// The addresses of the servers at neither `a` nor `b`, in order.
pub open spec fn addrs_except(servers: Seq<ServerModel>, a: Seq<char>, b: Seq<char>) -> Seq<Seq<char>>
    decreases servers.len(),
{
    if servers.len() == 0 {
        Seq::empty()
    } else if servers.last().addr != a && servers.last().addr != b {
        addrs_except(servers.drop_last(), a, b).push(servers.last().addr)
    } else {
        addrs_except(servers.drop_last(), a, b)
    }
}

/// Some server is named `name` or listens there.
pub open spec fn known_server(servers: Seq<ServerModel>, name: Seq<char>) -> bool {
    exists|i: int| 0 <= i < servers.len() && ((#[trigger] servers[i]).addr == name || servers[i].node_id == name)
}

/// The log after a leader's entries: an entry whose place is taken by an entry
/// of its own term is there already; one of another term goes, with all that
/// follows it; an entry behind the end is appended.
pub open spec fn merge_entry(log: Seq<LogEntryModel>, entry: LogEntryModel) -> Seq<LogEntryModel> {
    let at = entry.index - 1;
    if at >= log.len() {
        log.push(entry)
    } else if log[at].term != entry.term {
        log.take(at).push(entry)
    } else {
        log
    }
}

/// The entry is new to the log: it is appended, or it replaces another.
pub open spec fn entry_is_new(log: Seq<LogEntryModel>, entry: LogEntryModel) -> bool {
    entry.index - 1 >= log.len() || log[entry.index - 1].term != entry.term
}

/// The log and the medium after a leader's entries.
pub open spec fn merge_entries(
    log: Seq<LogEntryModel>,
    storage: StorageModel,
    entries: Seq<LogEntryModel>,
) -> (Seq<LogEntryModel>, StorageModel)
    decreases entries.len(),
{
    if entries.len() == 0 {
        (log, storage)
    } else {
        let (l, s) = merge_entries(log, storage, entries.drop_last());
        (
            merge_entry(l, entries.last()),
            if entry_is_new(l, entries.last()) {
                s.append(entries.last())
            } else {
                s
            },
        )
    }
}

/// A log that ends in `(index, term)` holds at least as much as one that ends
/// in `(my_index, my_term)`.
pub open spec fn at_least_as_fresh(index: u64, term: u64, my_index: u64, my_term: u64) -> bool {
    term > my_term || (term == my_term && index >= my_index)
}

impl NodeModel {
    /// A node that has just started.
    pub open spec fn started(
        node_id: Seq<char>,
        peers: Seq<Seq<char>>,
        store: StoreModel,
        storage: StorageModel,
        clock: Clock,
    ) -> NodeModel {
        NodeModel {
            store,
            current_term: storage.term,
            vote_for: storage.vote,
            storage,
            log: storage.wal,
            state: NodeState::Follower,
            node_id,
            peers,
            commit_index: 0,
            last_applied: 0,
            last_heartbeat: clock.now,
            last_quorum_heartbeat_at: None,
            heard_at: Map::empty(),
            clock,
            next_index: Map::empty(),
            match_index: Map::empty(),
            current_config: ConfigurationModel::Simple(servers_at(seq![node_id] + peers)),
            pending_post_joint_simple: None,
            last_snapshot_unix_ms: None,
            metrics: None,
        }
    }

    // ---- parts of events ----

    /// The index and term of the last entry.
    pub open spec fn last_log_info(self) -> (u64, u64) {
        if self.log.len() == 0 {
            (0, 0)
        } else {
            (self.log.last().index as u64, self.log.last().term)
        }
    }

    /// A peer's log, by its last index and term, is at least as fresh as ours.
    pub open spec fn yields_to(self, last_log_index: u64, last_log_term: u64) -> bool {
        let (index, term) = self.last_log_info();
        at_least_as_fresh(last_log_index, last_log_term, index, term)
    }

    /// The gauges that mirror the node's state show it.
    pub open spec fn refreshed(self) -> NodeModel {
        match self.metrics {
            Some(m) => NodeModel {
                metrics: Some(
                    MetricsModel {
                        raft_term: self.current_term as i64,
                        raft_commit_index: self.commit_index as i64,
                        raft_last_applied: self.last_applied as i64,
                        raft_log_length: self.log.len() as i64,
                        raft_role: role_number(self.state),
                        raft_snapshot_age_seconds: match self.last_snapshot_unix_ms {
                            Some(taken) => age_seconds(taken, self.clock.unix_ms),
                            None => m.raft_snapshot_age_seconds,
                        },
                        tx_pending_count: self.store.pending.dom().len() as i64,
                        ..m
                    },
                ),
                ..self
            },
            None => self,
        }
    }

    /// One more transaction was aborted on a client's request.
    pub open spec fn admin_abort_counted(self) -> NodeModel {
        match self.metrics {
            Some(m) => NodeModel {
                metrics: Some(
                    MetricsModel { tx_admin_aborted_total: next_count(m.tx_admin_aborted_total), ..m },
                ),
                ..self
            },
            None => self,
        }
    }

    /// One more transaction was aborted because it took too long.
    pub open spec fn timeout_abort_counted(self) -> NodeModel {
        match self.metrics {
            Some(m) => NodeModel {
                metrics: Some(
                    MetricsModel { tx_timeout_aborted_total: next_count(m.tx_timeout_aborted_total), ..m },
                ),
                ..self
            },
            None => self,
        }
    }

    /// The term and vote are written to the medium.
    pub open spec fn meta_saved(self) -> NodeModel {
        NodeModel { storage: self.storage.save_meta(self.current_term, self.vote_for), ..self }
    }

    /// The node is a follower of a term in which it has not voted.
    pub open spec fn stepped_down(self, term: u64) -> NodeModel {
        NodeModel { current_term: term, state: NodeState::Follower, vote_for: None, ..self }.meta_saved()
    }

    /// A newer term is adopted, an older or equal one is not.
    pub open spec fn caught_up(self, term: u64) -> NodeModel {
        if term > self.current_term {
            self.stepped_down(term)
        } else {
            self
        }
    }

    /// The entry that a leader appends for `command`.
    pub open spec fn next_entry(self, command: CommandModel) -> LogEntryModel {
        LogEntryModel { term: self.current_term, index: (self.log.len() + 1) as usize, command }
    }

    /// `command` is appended to the log, if the medium takes it.
    pub open spec fn appended(self, command: CommandModel) -> NodeModel {
        let entry = self.next_entry(command);
        if self.storage.failed() {
            self
        } else {
            NodeModel { storage: self.storage.append(entry), log: self.log.push(entry), ..self }
        }
    }

    /// A configuration becomes the active one, and its other servers the peers.
    pub open spec fn configured(self, config: ConfigurationModel) -> NodeModel {
        NodeModel {
            current_config: config,
            peers: other_addrs(config.servers(), self.node_id),
            ..self
        }.quorum_noted()
    }

    /// With this node, a quorum of the active configuration has been heard from
    /// at `t` or later.
    pub open spec fn quorum_heard_since(self, t: Instant) -> bool {
        crate::protocol::quorum(self.current_config, heard_since(self.heard_at, self.node_id, t))
    }

    /// `t` is the latest instant at which a peer was heard from such that a
    /// quorum has been heard from since.
    pub open spec fn is_quorum_instant(self, t: Instant) -> bool {
        &&& exists|peer: Seq<char>| #[trigger] self.heard_at.contains_key(peer) && self.heard_at[peer] == t
        &&& self.quorum_heard_since(t)
        &&& forall|peer: Seq<char>| #[trigger]
            self.heard_at.contains_key(peer) && self.heard_at[peer].nanos > t.nanos ==> !self.quorum_heard_since(
                self.heard_at[peer],
            )
    }

    /// The latest instant since which a quorum has been heard from, if there is
    /// one.
    #[verifier::opaque]
    pub open spec fn quorum_instant(self) -> Option<Instant> {
        if exists|t: Instant| self.is_quorum_instant(t) {
            Some(choose|t: Instant| self.is_quorum_instant(t))
        } else {
            None
        }
    }

    /// That instant is noted.
    pub open spec fn quorum_noted(self) -> NodeModel {
        NodeModel { last_quorum_heartbeat_at: self.quorum_instant(), ..self }
    }

    // ---- events ----

    pub open spec fn pre_vote(self, args: RequestVoteArgsModel) -> (NodeModel, VoteResponseArgsModel) {
        (
            NodeModel { last_heartbeat: self.clock.now, ..self },
            VoteResponseArgsModel {
                term: self.current_term,
                vote_granted: {
                    &&& self.current_term <= args.term <= self.current_term + 1
                    &&& !(args.term == self.current_term && self.state == NodeState::Leader)
                    &&& self.yields_to(args.last_log_index, args.last_log_term)
                },
            },
        )
    }

    pub open spec fn request_vote(self, args: RequestVoteArgsModel) -> (NodeModel, VoteResponseArgsModel) {
        if args.term < self.current_term {
            (self, VoteResponseArgsModel { term: self.current_term, vote_granted: false })
        } else {
            let node = self.caught_up(args.term);
            let free = node.vote_for is None || node.vote_for == Some(args.candidate_id);
            if free && node.yields_to(args.last_log_index, args.last_log_term) {
                let voted = NodeModel { vote_for: Some(args.candidate_id), ..node }.meta_saved();
                (
                    NodeModel { last_heartbeat: self.clock.now, ..voted },
                    VoteResponseArgsModel { term: args.term, vote_granted: true },
                )
            } else {
                (node, VoteResponseArgsModel { term: args.term, vote_granted: false })
            }
        }
    }

    pub open spec fn join_cluster(self, req: JoinClusterRequestModel) -> JoinClusterResponseModel {
        let servers = self.current_config.servers();
        let refuse = |reason: Seq<char>|
            JoinClusterResponseModel {
                accepted: false,
                term: self.current_term,
                leader_addr: self.node_id,
                peer_addrs: Seq::empty(),
                reason,
            };
        if self.state != NodeState::Leader {
            refuse("not leader"@)
        } else if req.candidate_addr == self.node_id {
            refuse("candidate_addr is the leader itself"@)
        } else if known_server(servers, req.candidate_addr) {
            refuse("candidate_addr is already a cluster member"@)
        } else {
            JoinClusterResponseModel {
                accepted: true,
                term: self.current_term,
                leader_addr: self.node_id,
                peer_addrs: addrs_except(servers, self.node_id, req.candidate_addr),
                reason: Seq::empty(),
            }
        }
    }

    /// The second phase of a membership change follows the configuration that
    /// was just installed.
    pub open spec fn follows(config: ConfigurationModel, next: ConfigurationModel) -> bool {
        match config {
            ConfigurationModel::Joint { new, .. } => new == next.servers(),
            ConfigurationModel::Simple(servers) => next == ConfigurationModel::Simple(servers),
        }
    }

    pub open spec fn install_configuration(self, config: ConfigurationModel) -> NodeModel {
        let node = self.configured(config);
        if self.state == NodeState::Leader {
            match self.pending_post_joint_simple {
                Some(next) => {
                    let taken = NodeModel { pending_post_joint_simple: None, ..node };
                    if NodeModel::follows(config, next) {
                        taken.appended(CommandModel::InstallConfiguration { config: next })
                    } else {
                        taken
                    }
                },
                None => node,
            }
        } else {
            node
        }
    }

    /// The entry after the last applied one takes effect.
    pub open spec fn apply_next(self) -> NodeModel {
        let command = self.log[self.last_applied as int].command;
        let node = match command {
            CommandModel::InstallConfiguration { config } => self.install_configuration(config),
            _ => NodeModel { store: self.store.apply(command, self.clock.unix_ms), ..self },
        };
        NodeModel { last_applied: (self.last_applied + 1) as u64, ..node }
    }

    /// Every committed entry of the log that was not applied yet takes effect,
    /// in order.
    pub open spec fn apply_committed(self) -> NodeModel
        decreases self.commit_index - self.last_applied,
    {
        if self.last_applied < self.commit_index && self.last_applied < self.log.len() {
            self.apply_next().apply_committed()
        } else {
            self
        }
    }

    pub open spec fn apply_logs(self) -> NodeModel {
        self.apply_committed().refreshed()
    }

    /// The entry at `index` belongs to the current term.
    pub open spec fn is_own_entry(self, index: u64) -> bool {
        (if 1 <= index <= self.log.len() {
            self.log[index - 1].term
        } else {
            0
        }) == self.current_term
    }

    /// The leader commits up to `index`, the highest that a quorum has
    /// replicated, if that is news and the entry there is of its own term.
    pub open spec fn commit_up_to(self, index: u64) -> NodeModel {
        if self.state == NodeState::Leader && index > self.commit_index && self.is_own_entry(index) {
            NodeModel { commit_index: index, ..self }.apply_logs()
        } else {
            self
        }
    }

    /// `index` is the highest index that a quorum of the active configuration
    /// has replicated.
    pub open spec fn is_quorum_index(self, index: u64) -> bool {
        crate::protocol::is_quorum_index(
            self.current_config,
            self.match_index,
            self.node_id,
            self.log.len() as u64,
            index,
        )
    }

    pub open spec fn maybe_commit(self) -> NodeModel {
        self.commit_up_to(choose|index: u64| self.is_quorum_index(index))
    }

    pub open spec fn tx_vote(self, req: VoteRequestModel) -> (NodeModel, VoteResponseModel) {
        let (my_index, my_term) = self.last_log_info();
        if req.term < self.current_term {
            (
                self,
                VoteResponseModel {
                    term: self.current_term,
                    vote_granted: false,
                    reason: stale_term_reason(req.term, self.current_term),
                },
            )
        } else if req.term > self.current_term {
            (
                self.stepped_down(req.term),
                VoteResponseModel {
                    term: req.term,
                    vote_granted: false,
                    reason: term_advance_reason(req.term),
                },
            )
        } else if !self.yields_to(req.last_log_index, req.last_log_term) {
            (
                self,
                VoteResponseModel {
                    term: self.current_term,
                    vote_granted: false,
                    reason: stale_log_reason(req.last_log_index, req.last_log_term, my_index, my_term),
                },
            )
        } else {
            let node = NodeModel {
                commit_index: if self.commit_index < req.last_log_index <= self.log.len() {
                    req.last_log_index
                } else {
                    self.commit_index
                },
                ..self
            }.apply_logs();
            if !node.store.pending.contains_key(req.tx_id) {
                (
                    node,
                    VoteResponseModel {
                        term: self.current_term,
                        vote_granted: false,
                        reason: "tx not pending: "@ + req.tx_id,
                    },
                )
            } else {
                (
                    NodeModel { store: node.store.vote(req.tx_id, self.node_id, VoteModel::Yes), ..node },
                    VoteResponseModel { term: self.current_term, vote_granted: true, reason: Seq::empty() },
                )
            }
        }
    }

    pub open spec fn propose(self, command: CommandModel) -> NodeModel {
        if self.state != NodeState::Leader || self.storage.failed() {
            self
        } else {
            self.appended(command).refreshed()
        }
    }

    /// The commands are appended in order, up to the first that the medium does
    /// not take.
    pub open spec fn appended_all(self, commands: Seq<CommandModel>) -> NodeModel
        decreases commands.len(),
    {
        if commands.len() == 0 {
            self
        } else {
            self.appended_all(commands.drop_last()).appended(commands.last())
        }
    }

    /// The medium takes every one of `count` more entries.
    pub open spec fn has_room(self, count: nat) -> bool {
        self.storage.fault matches Some(f) ==> count <= f.appends_left
    }

    pub open spec fn propose_batch(self, commands: Seq<CommandModel>) -> NodeModel {
        if self.state != NodeState::Leader {
            self
        } else if self.has_room(commands.len()) {
            self.appended_all(commands).refreshed()
        } else {
            self.appended_all(commands)
        }
    }

    /// The first phase of a change of the members to `new`.
    pub open spec fn propose_members(self, new: Seq<ServerModel>) -> NodeModel {
        if self.storage.failed() {
            self
        } else {
            NodeModel {
                pending_post_joint_simple: Some(ConfigurationModel::Simple(new)),
                ..self.appended(
                    CommandModel::InstallConfiguration {
                        config: ConfigurationModel::Joint { old: self.current_config.servers(), new },
                    },
                )
            }
        }
    }

    /// What a proposal of members comes to: the index of the first phase, or
    /// the medium's refusal.
    pub open spec fn members_outcome(self) -> Result<u64, MembershipErrorModel> {
        if self.storage.failed() {
            Err(MembershipErrorModel::StorageError(self.storage.fault->0.reason))
        } else {
            Ok((self.log.len() + 1) as u64)
        }
    }

    pub open spec fn propose_add_node(self, server: ServerModel) -> (NodeModel, Result<u64, MembershipErrorModel>) {
        if self.state != NodeState::Leader {
            (self, Err(MembershipErrorModel::NotLeader))
        } else if self.current_config.has_member(server.node_id) {
            (self, Err(MembershipErrorModel::AlreadyMember(server.node_id)))
        } else {
            (self.propose_members(self.current_config.servers().push(server)), self.members_outcome())
        }
    }

    pub open spec fn propose_remove_node(self, node_id: Seq<char>) -> (
        NodeModel,
        Result<u64, MembershipErrorModel>,
    ) {
        let rest = without_server(self.current_config.servers(), node_id);
        if self.state != NodeState::Leader {
            (self, Err(MembershipErrorModel::NotLeader))
        } else if node_id == self.node_id {
            (self, Err(MembershipErrorModel::CannotRemoveSelf))
        } else if !self.current_config.has_member(node_id) {
            (self, Err(MembershipErrorModel::NotMember(node_id)))
        } else if rest.len() == 0 {
            (self, Err(MembershipErrorModel::CannotRemoveLastServer))
        } else {
            (self.propose_members(rest), self.members_outcome())
        }
    }

    pub open spec fn propose_abort_tx(self, tx_id: Seq<char>) -> (NodeModel, Result<u64, AbortTxErrorModel>) {
        if self.state != NodeState::Leader {
            (self, Err(AbortTxErrorModel::NotLeader))
        } else if !self.store.pending.contains_key(tx_id) {
            (self, Err(AbortTxErrorModel::NotFound(tx_id)))
        } else if self.storage.failed() {
            (self, Err(AbortTxErrorModel::StorageError(self.storage.fault->0.reason)))
        } else {
            (
                self.appended(CommandModel::DecideTx { tx_id, decision: TxDecision::Abort }).refreshed(),
                Ok((self.log.len() + 1) as u64),
            )
        }
    }

    /// The next index to send to a peer, 1 for one that is not known.
    pub open spec fn next_for(self, peer: Seq<char>) -> u64 {
        if self.next_index.contains_key(peer) {
            self.next_index[peer]
        } else {
            1
        }
    }

    /// What a leader sends to a peer: the entries from the peer's next index
    /// on, after the entry before them.
    pub open spec fn append_args(self, peer: Seq<char>) -> AppendEntriesArgsModel {
        let next = self.next_for(peer);
        AppendEntriesArgsModel {
            term: self.current_term,
            leader_id: self.node_id,
            prev_log_index: (next - 1) as u64,
            prev_log_term: if 2 <= next <= self.log.len() + 1 {
                self.log[next - 2].term
            } else {
                0
            },
            entries: if next <= self.log.len() {
                self.log.skip(next - 1)
            } else {
                Seq::empty()
            },
            leader_commit: self.commit_index,
        }
    }

    /// A leader without peers commits what it has.
    pub open spec fn sync_logs(self) -> NodeModel {
        if self.peers.len() == 0 && self.state == NodeState::Leader {
            self.maybe_commit()
        } else {
            self
        }
    }

    /// A peer holds every entry up to `index`.
    pub open spec fn peer_caught_up(self, peer: Seq<char>, index: u64) -> NodeModel {
        NodeModel {
            match_index: self.match_index.insert(peer, index),
            next_index: self.next_index.insert(peer, (index + 1) as u64),
            heard_at: self.heard_at.insert(peer, self.clock.now),
            metrics: match self.metrics {
                Some(m) => Some(
                    m.with_match_index(peer, index as i64).with_next_index(peer, (index + 1) as u64 as i64),
                ),
                None => None,
            },
            ..self
        }.quorum_noted()
    }

    /// A peer refused entries: one entry more is sent next time.
    pub open spec fn peer_backed_off(self, peer: Seq<char>) -> NodeModel {
        let next = self.next_for(peer);
        if next > 1 {
            NodeModel {
                next_index: self.next_index.insert(peer, (next - 1) as u64),
                metrics: match self.metrics {
                    Some(m) => Some(m.with_next_index(peer, (next - 1) as u64 as i64)),
                    None => None,
                },
                ..self
            }
        } else {
            self
        }
    }

    /// A peer answered entries.
    pub open spec fn append_reply(
        self,
        peer: Seq<char>,
        args: AppendEntriesArgsModel,
        reply: AppendReplyArgsModel,
    ) -> NodeModel {
        if reply.success {
            self.peer_caught_up(peer, (args.prev_log_index + args.entries.len()) as u64).maybe_commit()
        } else if reply.term > self.current_term {
            self.stepped_down(reply.term).refreshed()
        } else {
            self.peer_backed_off(peer)
        }
    }

    pub open spec fn replay_entry(self, entry: LogEntryModel) -> NodeModel {
        match entry.command {
            CommandModel::InstallConfiguration { config } => self.configured(config),
            _ => NodeModel { store: self.store.apply(entry.command, self.clock.unix_ms), ..self },
        }
    }

    pub open spec fn replay_entries(self, entries: Seq<LogEntryModel>) -> NodeModel
        decreases entries.len(),
    {
        if entries.len() == 0 {
            self
        } else {
            self.replay_entries(entries.drop_last()).replay_entry(entries.last())
        }
    }

    pub open spec fn replay_logs(self) -> NodeModel {
        NodeModel { last_applied: self.log.len() as u64, ..self.replay_entries(self.log) }
    }

    /// A node starts up: without peers it leads at once; the snapshot on its
    /// medium, if there is one, and the log behind it take effect.
    pub open spec fn started_up(self) -> NodeModel {
        let node = if self.peers.len() == 0 {
            NodeModel { state: NodeState::Leader, ..self }
        } else {
            self
        };
        (match node.storage.snapshot {
            Some(snapshot) => node.restored(snapshot),
            None => node,
        }).replay_logs()
    }

    pub open spec fn restored(self, snapshot: SnapshotModel) -> NodeModel {
        let index = snapshot.last_included_index;
        NodeModel {
            store: StoreModel { data: snapshot.data, pending: Map::empty() },
            commit_index: if index > self.commit_index {
                index
            } else {
                self.commit_index
            },
            last_applied: if index > self.last_applied {
                index
            } else {
                self.last_applied
            },
            ..self
        }
    }

    /// The node stands for election in the next term, and votes for itself.
    pub open spec fn promoted(self) -> NodeModel {
        let node = NodeModel {
            current_term: (self.current_term + 1) as u64,
            state: NodeState::Candidate,
            vote_for: Some(self.node_id),
            ..self
        }.meta_saved();
        NodeModel { last_heartbeat: self.clock.now, ..node }.refreshed()
    }

    pub open spec fn become_leader(self) -> NodeModel {
        if self.state == NodeState::Leader {
            self
        } else {
            NodeModel {
                state: NodeState::Leader,
                next_index: Map::new(
                    |peer: Seq<char>| self.peers.contains(peer),
                    |peer: Seq<char>| (self.log.len() + 1) as u64,
                ),
                last_heartbeat: self.clock.now,
                ..self
            }.refreshed()
        }
    }

    /// What a candidate asks for in an election of `term`.
    pub open spec fn vote_args(self, term: u64) -> RequestVoteArgsModel {
        RequestVoteArgsModel {
            term,
            candidate_id: self.node_id,
            last_log_index: self.last_log_info().0,
            last_log_term: self.last_log_info().1,
        }
    }

    /// A round of votes for `term`, with the node's own.
    pub open spec fn round(self, term: u64) -> RoundModel {
        RoundModel {
            term,
            total_nodes: (self.peers.len() + 1) as usize,
            votes: 1,
            peers: self.peers,
            args: self.vote_args(term),
        }
    }

    /// A candidate asks its peers for their votes. Without peers it has won.
    pub open spec fn request_votes(self) -> (NodeModel, Option<RoundModel>) {
        if self.peers.len() > 0 {
            (self, Some(self.round(self.current_term)))
        } else if self.state == NodeState::Candidate {
            (self.become_leader(), None)
        } else {
            (self, None)
        }
    }

    /// A follower, or a pre-candidate whose probe has timed out, probes the
    /// next term. Without peers it wins that term at once.
    pub open spec fn become_pre_candidate(self) -> (NodeModel, Option<RoundModel>) {
        if self.state == NodeState::Follower || self.state == NodeState::PreCandidate {
            let probing = NodeModel { state: NodeState::PreCandidate, ..self }.refreshed();
            if self.peers.len() == 0 {
                (probing.promoted().become_leader(), None)
            } else {
                (probing, Some(self.round((self.current_term + 1) as u64)))
            }
        } else {
            (self, None)
        }
    }

    /// The node still probes the term of this round.
    pub open spec fn probes(self, round: RoundModel) -> bool {
        self.state == NodeState::PreCandidate && self.current_term + 1 == round.term
    }

    pub open spec fn pre_vote_reply(self, round: RoundModel, reply: VoteResponseArgsModel) -> (
        NodeModel,
        RoundModel,
        Option<RoundModel>,
    ) {
        if reply.term > round.term || !reply.vote_granted {
            (
                if self.state == NodeState::PreCandidate {
                    NodeModel { state: NodeState::Follower, ..self }
                } else {
                    self
                },
                round,
                None,
            )
        } else {
            let counted = RoundModel { votes: (round.votes + 1) as usize, ..round };
            if counted.won() && self.probes(round) {
                let (node, election) = self.promoted().request_votes();
                (node, counted, election)
            } else {
                (self, counted, None)
            }
        }
    }

    pub open spec fn vote_reply(self, round: RoundModel, reply: VoteResponseArgsModel) -> (NodeModel, RoundModel) {
        if reply.vote_granted {
            let counted = RoundModel { votes: (round.votes + 1) as usize, ..round };
            (
                if counted.won() && self.state == NodeState::Candidate && self.current_term == round.term {
                    self.become_leader()
                } else {
                    self
                },
                counted,
            )
        } else {
            (self.caught_up(reply.term), round)
        }
    }

    /// Every index that is kept for a peer is a log index.
    pub open spec fn indices_ok(self) -> bool {
        forall|peer: Seq<char>| #[trigger] self.next_index.contains_key(peer) ==> self.next_index[peer] >= 1
    }

    /// The node can take any event: the log and the term have room, and the
    /// indices kept for peers are log indices.
    pub open spec fn ready(self) -> bool {
        &&& self.log.len() + 3 <= usize::MAX
        &&& self.current_term < u64::MAX
        &&& self.peers.len() < usize::MAX
        &&& self.indices_ok()
    }

    /// What a leader sends to each of its peers.
    pub open spec fn outbound(self) -> Seq<(Seq<char>, AppendEntriesArgsModel)> {
        Seq::new(self.peers.len(), |i: int| (self.peers[i], self.append_args(self.peers[i])))
    }

    /// A heartbeat of a leader: replication, and a snapshot if one is due.
    pub open spec fn heartbeat(self, threshold_bytes: u64) -> NodeModel {
        if self.state == NodeState::Leader {
            self.sync_logs().maybe_snapshot(threshold_bytes)
        } else {
            self
        }
    }

    /// The log holds the entry that precedes a leader's entries.
    pub open spec fn matches_previous(self, index: u64, term: u64) -> bool {
        index == 0 || (index <= self.log.len() && self.log[index - 1].term == term)
    }

    pub open spec fn append_entries(self, args: AppendEntriesArgsModel) -> (NodeModel, AppendReplyArgsModel) {
        if args.term < self.current_term {
            (self, AppendReplyArgsModel { term: self.current_term, success: false })
        } else {
            let follower = NodeModel {
                state: NodeState::Follower,
                last_heartbeat: self.clock.now,
                ..self.caught_up(args.term)
            };
            if !self.matches_previous(args.prev_log_index, args.prev_log_term) {
                (follower, AppendReplyArgsModel { term: args.term, success: false })
            } else {
                let (log, storage) = merge_entries(self.log, follower.storage, args.entries);
                let node = NodeModel { log, storage, ..follower };
                (
                    if args.leader_commit > self.commit_index {
                        NodeModel {
                            commit_index: if args.leader_commit < log.len() {
                                args.leader_commit
                            } else {
                                log.len() as u64
                            },
                            ..node
                        }.apply_logs()
                    } else {
                        node
                    },
                    AppendReplyArgsModel { term: args.term, success: true },
                )
            }
        }
    }

    /// A snapshot was just taken: its time is kept, and its age is shown.
    pub open spec fn snapshot_noted(self) -> NodeModel {
        NodeModel {
            last_snapshot_unix_ms: Some(self.clock.unix_ms),
            metrics: match self.metrics {
                Some(m) => Some(MetricsModel { raft_snapshot_age_seconds: 0, ..m }),
                None => None,
            },
            ..self
        }
    }

    pub open spec fn install_snapshot(self, args: InstallSnapshotArgsModel) -> (
        NodeModel,
        InstallSnapshotReplyArgsModel,
    ) {
        if args.term < self.current_term {
            (self, InstallSnapshotReplyArgsModel { term: self.current_term })
        } else {
            let follower = NodeModel {
                state: NodeState::Follower,
                last_heartbeat: self.clock.now,
                ..self.caught_up(args.term)
            };
            let index = args.last_included_index;
            (
                NodeModel {
                    storage: follower.storage.save_snapshot(args.snapshot).rewrite(index),
                    store: StoreModel { data: args.snapshot.data, pending: Map::empty() },
                    log: crate::raft::storage::entries_after(self.log, index),
                    commit_index: if index > self.commit_index {
                        index
                    } else {
                        self.commit_index
                    },
                    last_applied: if index > self.last_applied {
                        index
                    } else {
                        self.last_applied
                    },
                    ..follower
                }.snapshot_noted().refreshed(),
                InstallSnapshotReplyArgsModel { term: args.term },
            )
        }
    }

    /// The snapshot that a leader would take now.
    pub open spec fn snapshot_now(self) -> SnapshotModel {
        SnapshotModel {
            last_included_index: self.commit_index,
            last_included_term: if 1 <= self.commit_index <= self.log.len() {
                self.log[self.commit_index - 1].term
            } else {
                0
            },
            data: self.store.data,
        }
    }

    /// A snapshot is due: the node leads, its log file has outgrown the
    /// threshold, something is committed, and the medium takes it.
    pub open spec fn snapshot_due(self, threshold_bytes: u64) -> bool {
        &&& self.state == NodeState::Leader
        &&& self.storage.wal_bytes > threshold_bytes
        &&& self.commit_index > 0
        &&& !self.storage.failed()
    }

    pub open spec fn maybe_snapshot(self, threshold_bytes: u64) -> NodeModel {
        if self.snapshot_due(threshold_bytes) {
            NodeModel {
                storage: self.storage.save_snapshot(self.snapshot_now()).rewrite(self.commit_index),
                ..self
            }.snapshot_noted()
        } else {
            self
        }
    }

    /// A read that was issued at `issued_at` and anchored at `index` may be
    /// served.
    pub open spec fn read_confirmed(self, index: u64, issued_at: Instant) -> bool {
        &&& self.state == NodeState::Leader
        &&& self.last_applied >= index
        &&& self.last_quorum_heartbeat_at matches Some(t) && {
            &&& self.clock.now.nanos - t.nanos < crate::config::MAX_ELECTION_TIMEOUT_MS * 1_000_000
            &&& t.nanos >= issued_at.nanos
        }
    }
}

// ---- the reasons of refused votes ----

pub open spec fn stale_term_reason(term: u64, current_term: u64) -> Seq<char> {
    "stale term: request term "@ + crate::text::decimal(term as nat) + " < current term "@ + crate::text::decimal(
        current_term as nat,
    )
}

pub open spec fn term_advance_reason(term: u64) -> Seq<char> {
    "term advance: adopted term "@ + crate::text::decimal(term as nat) + " but deferring vote to elected leader"@
}

pub open spec fn stale_log_reason(index: u64, term: u64, my_index: u64, my_term: u64) -> Seq<char> {
    "leader log stale: leader=("@ + crate::text::decimal(index as nat) + ", "@ + crate::text::decimal(term as nat)
        + ") local=("@ + crate::text::decimal(my_index as nat) + ", "@ + crate::text::decimal(my_term as nat) + ")"@
}

/// What a look at every peer finds is the latest instant since which a quorum
/// has been heard from.
pub proof fn quorum_instant_is_listed(node: NodeModel, keys: Seq<Seq<char>>, best: Option<Instant>)
    requires
        crate::text_map::lists_keys(keys, node.heard_at),
        match best {
            Some(t) => {
                &&& exists|j: int| 0 <= j < keys.len() && node.heard_at[#[trigger] keys[j]] == t
                &&& node.quorum_heard_since(t)
                &&& forall|j: int|
                    0 <= j < keys.len() && node.heard_at[#[trigger] keys[j]].nanos > t.nanos
                        ==> !node.quorum_heard_since(node.heard_at[keys[j]])
            },
            None => forall|j: int| 0 <= j < keys.len() ==> !node.quorum_heard_since(node.heard_at[#[trigger] keys[j]]),
        },
    ensures
        node.quorum_instant() == best,
{
    reveal(NodeModel::quorum_instant);
    match best {
        Some(t) => {
            let j = choose|j: int| 0 <= j < keys.len() && node.heard_at[#[trigger] keys[j]] == t;
            assert(node.heard_at.contains_key(keys[j]));
            assert forall|peer: Seq<char>| #[trigger]
                node.heard_at.contains_key(peer) && node.heard_at[peer].nanos > t.nanos implies !node.quorum_heard_since(
                node.heard_at[peer],
            ) by {
                assert(keys[keys.index_of(peer)] == peer);
            }
            assert(node.is_quorum_instant(t));
            let chosen = choose|u: Instant| node.is_quorum_instant(u);
            quorum_instant_is_unique(node, t, chosen);
        },
        None => {
            assert forall|t: Instant| !node.is_quorum_instant(t) by {
                if node.is_quorum_instant(t) {
                    let peer = choose|peer: Seq<char>| #[trigger]
                        node.heard_at.contains_key(peer) && node.heard_at[peer] == t;
                    assert(keys[keys.index_of(peer)] == peer);
                }
            }
        },
    }
}

/// A node has one latest instant since which a quorum has been heard from.
pub proof fn quorum_instant_is_unique(node: NodeModel, a: Instant, b: Instant)
    requires
        node.is_quorum_instant(a),
        node.is_quorum_instant(b),
    ensures
        a == b,
{
    let p = choose|peer: Seq<char>| #[trigger] node.heard_at.contains_key(peer) && node.heard_at[peer] == a;
    let q = choose|peer: Seq<char>| #[trigger] node.heard_at.contains_key(peer) && node.heard_at[peer] == b;
    assert(node.heard_at.contains_key(p) && node.heard_at.contains_key(q));
}

/// A configuration has one highest index that a quorum has replicated.
pub proof fn quorum_index_is_unique(node: NodeModel, a: u64, b: u64)
    requires
        node.is_quorum_index(a),
        node.is_quorum_index(b),
    ensures
        a == b,
{
}

/// Applying entries changes neither the node's name nor its term, vote, role
/// or commit index.
pub proof fn apply_logs_keeps_identity(node: NodeModel)
    ensures
        node.apply_logs().node_id == node.node_id,
        node.apply_logs().current_term == node.current_term,
        node.apply_logs().vote_for == node.vote_for,
        node.apply_logs().state == node.state,
        node.apply_logs().commit_index == node.commit_index,
{
    apply_committed_keeps_identity(node);
}

proof fn apply_committed_keeps_identity(node: NodeModel)
    ensures
        node.apply_committed().node_id == node.node_id,
        node.apply_committed().current_term == node.current_term,
        node.apply_committed().vote_for == node.vote_for,
        node.apply_committed().state == node.state,
        node.apply_committed().commit_index == node.commit_index,
    decreases node.commit_index - node.last_applied,
{
    if node.last_applied < node.commit_index && node.last_applied < node.log.len() {
        apply_committed_keeps_identity(node.apply_next());
    }
}

/// A batch for which the medium has room is appended whole, and takes up that
/// much of the room.
pub proof fn batch_progress(node: NodeModel, commands: Seq<CommandModel>)
    requires
        node.has_room(commands.len()),
    ensures
        node.appended_all(commands).log.len() == node.log.len() + commands.len(),
        match node.storage.fault {
            Some(f) => node.appended_all(commands).storage.fault matches Some(g) && g.appends_left == f.appends_left
                - commands.len() && g.reason == f.reason,
            None => node.appended_all(commands).storage.fault is None,
        },
    decreases commands.len(),
{
    if commands.len() > 0 {
        batch_progress(node, commands.drop_last());
    }
}

/// Once the medium has refused an entry, the rest of a batch changes nothing.
pub proof fn refused_appends_change_nothing(node: NodeModel, commands: Seq<CommandModel>, n: int)
    requires
        1 <= n <= commands.len(),
        node.appended_all(commands.take(n - 1)).storage.failed(),
    ensures
        node.appended_all(commands) == node.appended_all(commands.take(n - 1)),
    decreases commands.len() - n,
{
    let taken = commands.take(n);
    assert(taken.drop_last() =~= commands.take(n - 1));
    assert(node.appended_all(taken) == node.appended_all(commands.take(n - 1)));
    if n < commands.len() {
        assert(commands.take((n + 1) - 1) =~= taken);
        refused_appends_change_nothing(node, commands, n + 1);
    } else {
        assert(taken =~= commands);
    }
}

} // verus!
