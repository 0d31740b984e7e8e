//! What holds of a node whatever happens to it.

use crate::coordination::VoteRequestModel;
use crate::protocol::{CommandModel, ConfigurationModel, LogEntryModel, ServerModel};
use crate::raft::model::{NodeModel, RoundModel};
use crate::raft::node::NodeState;
use crate::raft::rpc::{
    AppendEntriesArgsModel, AppendReplyArgsModel, InstallSnapshotArgsModel, RequestVoteArgsModel,
    VoteResponseArgsModel,
};
use crate::raft::storage::StorageModel;
use crate::protocol::TxDecision;
use crate::state_machine::StoreModel;
use crate::time::{Clock, Instant};
use vstd::prelude::*;

verus! {

/// Something that happens to a node.
pub enum Event {
    ClockReading(Clock),
    PreVote(RequestVoteArgsModel),
    RequestVote(RequestVoteArgsModel),
    TxVote(VoteRequestModel),
    AppendEntries(AppendEntriesArgsModel),
    InstallSnapshot(InstallSnapshotArgsModel),
    AppendReply(Seq<char>, AppendEntriesArgsModel, AppendReplyArgsModel),
    ElectionTimeout,
    Candidacy,
    PreVoteReply(RoundModel, VoteResponseArgsModel),
    VoteReply(RoundModel, VoteResponseArgsModel),
    Proposal(CommandModel),
    BatchProposal(Seq<CommandModel>),
    AddNode(ServerModel),
    RemoveNode(Seq<char>),
    AbortTx(Seq<char>),
    Heartbeat(u64),
    Read,
}

impl NodeModel {
    /// The node after an event.
    pub open spec fn step(self, event: Event) -> NodeModel {
        match event {
            Event::ClockReading(clock) => NodeModel { clock, ..self },
            Event::PreVote(args) => self.pre_vote(args).0,
            Event::RequestVote(args) => self.request_vote(args).0,
            Event::TxVote(req) => self.tx_vote(req).0,
            Event::AppendEntries(args) => self.append_entries(args).0,
            Event::InstallSnapshot(args) => self.install_snapshot(args).0,
            Event::AppendReply(peer, args, reply) => self.append_reply(peer, args, reply),
            Event::ElectionTimeout => self.become_pre_candidate().0,
            Event::Candidacy => self.promoted().request_votes().0,
            Event::PreVoteReply(round, reply) => self.pre_vote_reply(round, reply).0,
            Event::VoteReply(round, reply) => self.vote_reply(round, reply).0,
            Event::Proposal(command) => self.propose(command),
            Event::BatchProposal(commands) => self.propose_batch(commands),
            Event::AddNode(server) => self.propose_add_node(server).0,
            Event::RemoveNode(node_id) => self.propose_remove_node(node_id).0,
            Event::AbortTx(tx_id) => self.propose_abort_tx(tx_id).0,
            Event::Heartbeat(threshold) => self.heartbeat(threshold),
            Event::Read => self.sync_logs(),
        }
    }

    /// The event can be handled: a node that stands for election has a next
    /// term, and what is counted stays within the machine's numbers.
    pub open spec fn can_take(self, event: Event) -> bool {
        match event {
            Event::ElectionTimeout | Event::Candidacy => self.current_term < u64::MAX,
            Event::AppendReply(_, args, _) => args.prev_log_index + args.entries.len() < u64::MAX,
            Event::PreVoteReply(round, _) | Event::VoteReply(round, _) => round.votes < usize::MAX,
            _ => true,
        }
    }

    /// The term and vote on the medium are the node's.
    pub open spec fn is_durable(self) -> bool {
        self.storage.term == self.current_term && self.storage.vote == self.vote_for
    }
}

// ---- facts about parts of events ----

/// What committing and applying leave as it is.
pub open spec fn same_identity(a: NodeModel, b: NodeModel) -> bool {
    &&& b.node_id == a.node_id
    &&& b.current_term == a.current_term
    &&& b.vote_for == a.vote_for
    &&& b.state == a.state
    &&& b.storage.term == a.storage.term
    &&& b.storage.vote == a.storage.vote
    &&& a.storage.fault is None ==> b.storage.fault is None
    &&& b.next_index == a.next_index
    &&& b.match_index == a.match_index
}

proof fn apply_committed_facts(node: NodeModel)
    ensures
        same_identity(node, node.apply_committed()),
        node.apply_committed().commit_index == node.commit_index,
        node.apply_committed().last_applied >= node.last_applied,
        node.apply_committed().last_applied <= node.commit_index || node.apply_committed().last_applied
            == node.last_applied,
        node.last_applied <= node.commit_index <= node.log.len() ==> node.apply_committed().last_applied
            == node.commit_index,
        node.log.is_prefix_of(node.apply_committed().log),
        node.apply_committed().storage.snapshot == node.storage.snapshot,
        node.state != NodeState::Leader ==> node.apply_committed().log == node.log,
    decreases node.commit_index - node.last_applied,
{
    if node.last_applied < node.commit_index && node.last_applied < node.log.len() {
        let next = node.apply_next();
        assert(same_identity(node, next));
        assert(node.log.is_prefix_of(next.log));
        apply_committed_facts(next);
        assert(node.log.is_prefix_of(next.apply_committed().log));
    }
}

proof fn commit_facts(node: NodeModel, index: u64)
    ensures
        same_identity(node, node.commit_up_to(index)),
        node.commit_up_to(index).commit_index >= node.commit_index,
        node.commit_up_to(index).last_applied >= node.last_applied,
{
    apply_committed_facts(NodeModel { commit_index: index, ..node });
}

proof fn batch_facts(node: NodeModel, commands: Seq<CommandModel>)
    ensures
        same_identity(node, node.appended_all(commands)),
        node.appended_all(commands).commit_index == node.commit_index,
        node.appended_all(commands).last_applied == node.last_applied,
    decreases commands.len(),
{
    if commands.len() > 0 {
        batch_facts(node, commands.drop_last());
    }
}

proof fn merge_facts(log: Seq<LogEntryModel>, storage: StorageModel, entries: Seq<LogEntryModel>)
    ensures
        ({
            let (_, s) = crate::raft::model::merge_entries(log, storage, entries);
            &&& s.term == storage.term
            &&& s.vote == storage.vote
            &&& storage.fault is None ==> s.fault is None
        }),
    decreases entries.len(),
{
    if entries.len() > 0 {
        merge_facts(log, storage, entries.drop_last());
    }
}

proof fn append_entries_facts(node: NodeModel, args: AppendEntriesArgsModel)
    ensures
        ({
            let after = node.append_entries(args).0;
            &&& after.current_term == if args.term > node.current_term {
                args.term
            } else {
                node.current_term
            }
            &&& after.vote_for == if args.term > node.current_term {
                None
            } else {
                node.vote_for
            }
            &&& after.last_applied >= node.last_applied
            &&& node.storage.fault is None && node.is_durable() ==> after.is_durable() && after.storage.fault is None
            &&& after.next_index == node.next_index
        }),
{
    if args.term >= node.current_term && node.matches_previous(args.prev_log_index, args.prev_log_term) {
        let follower = NodeModel {
            state: NodeState::Follower,
            last_heartbeat: node.clock.now,
            ..node.caught_up(args.term)
        };
        merge_facts(node.log, follower.storage, args.entries);
        let (log, storage) = crate::raft::model::merge_entries(node.log, follower.storage, args.entries);
        let merged = NodeModel { log, storage, ..follower };
        let committed = NodeModel {
            commit_index: if args.leader_commit < log.len() {
                args.leader_commit
            } else {
                log.len() as u64
            },
            ..merged
        };
        apply_committed_facts(committed);
    }
}

proof fn tx_vote_facts(node: NodeModel, req: VoteRequestModel)
    ensures
        req.term <= node.current_term ==> same_identity(node, node.tx_vote(req).0),
        node.tx_vote(req).0.commit_index >= node.commit_index,
        node.tx_vote(req).0.last_applied >= node.last_applied,
{
    let ready = NodeModel {
        commit_index: if node.commit_index < req.last_log_index <= node.log.len() {
            req.last_log_index
        } else {
            node.commit_index
        },
        ..node
    };
    apply_committed_facts(ready);
}

// ---- votes ----

/// Vote safety: a vote is granted if and only if the candidate's term is not
/// behind ours, our vote of that term has not gone to another, and the
/// candidate's log is at least as fresh as ours.
pub proof fn votes_are_safe(node: NodeModel, args: RequestVoteArgsModel)
    ensures
        node.request_vote(args).1.vote_granted <==> {
            &&& args.term >= node.current_term
            &&& args.term == node.current_term ==> node.vote_for is None || node.vote_for == Some(args.candidate_id)
            &&& node.yields_to(args.last_log_index, args.last_log_term)
        },
        node.request_vote(args).1.vote_granted ==> {
            &&& node.request_vote(args).0.vote_for == Some(args.candidate_id)
            &&& node.request_vote(args).0.current_term == args.term
        },
{
}

/// A repeated request of the candidate that has our vote is granted again, and
/// a request of another candidate of that term is not.
pub proof fn one_vote_per_term(node: NodeModel, first: RequestVoteArgsModel, second: RequestVoteArgsModel)
    requires
        node.request_vote(first).1.vote_granted,
        second.term == first.term,
    ensures
        node.request_vote(first).0.request_vote(second).1.vote_granted ==> second.candidate_id == first.candidate_id,
        second == first ==> node.request_vote(first).0.request_vote(second).1.vote_granted,
{
}

/// The server gave its vote to the candidate.
pub open spec fn voted_for(votes: Map<Seq<char>, Seq<char>>, candidate: Seq<char>) -> spec_fn(ServerModel) -> bool {
    |server: ServerModel| votes.contains_key(server.node_id) && votes[server.node_id] == candidate
}

/// Election safety: where no server gives two votes in a term, two candidates
/// that a majority of the servers voted for in that term are the same.
pub proof fn one_winner_per_term(
    servers: Seq<ServerModel>,
    votes: Map<Seq<char>, Seq<char>>,
    first: Seq<char>,
    second: Seq<char>,
)
    requires
        crate::protocol::majority(servers, voted_for(votes, first)),
        crate::protocol::majority(servers, voted_for(votes, second)),
    ensures
        first == second,
{
    crate::protocol::majorities_overlap(servers, voted_for(votes, first), voted_for(votes, second));
}

/// A probe changes nothing but the time of the last heartbeat: not the term,
/// the vote, the role, the log nor the medium.
pub proof fn probes_change_nothing(node: NodeModel, args: RequestVoteArgsModel)
    ensures
        node.pre_vote(args).0 == (NodeModel { last_heartbeat: node.clock.now, ..node }),
        node.pre_vote(args).1.term == node.current_term,
{
}

/// Whatever happens, the term does not fall, and within a term a vote that was
/// given stays.
pub proof fn terms_rise_and_votes_stay(node: NodeModel, event: Event)
    requires
        node.can_take(event),
    ensures
        node.step(event).current_term >= node.current_term,
        node.step(event).current_term == node.current_term && node.vote_for is Some ==> node.step(event).vote_for
            == node.vote_for,
{
    match event {
        Event::TxVote(req) => tx_vote_facts(node, req),
        Event::AppendEntries(args) => append_entries_facts(node, args),
        Event::AppendReply(peer, args, reply) => {
            let caught_up = node.peer_caught_up(peer, (args.prev_log_index + args.entries.len()) as u64);
            commit_facts(caught_up, choose|index: u64| caught_up.is_quorum_index(index));
        },
        Event::BatchProposal(commands) => batch_facts(node, commands),
        Event::Heartbeat(_) => commit_facts(node, choose|index: u64| node.is_quorum_index(index)),
        Event::Read => commit_facts(node, choose|index: u64| node.is_quorum_index(index)),
        _ => {},
    }
}

/// An event that neither replicates nor proposes anything.
pub open spec fn is_electoral(event: Event) -> bool {
    event is ClockReading || event is PreVote || event is RequestVote || event is ElectionTimeout || event is Candidacy
        || event is PreVoteReply || event is VoteReply
}

proof fn elections_are_durable(node: NodeModel, event: Event)
    requires
        node.storage.fault is None,
        node.is_durable(),
        is_electoral(event),
    ensures
        node.step(event).is_durable(),
        node.step(event).storage.fault is None,
{
}

/// On a medium that takes every write, the term and vote on the medium are the
/// node's after every event, if they were before.
pub proof fn term_and_vote_are_durable(node: NodeModel, event: Event)
    requires
        node.storage.fault is None,
        node.is_durable(),
    ensures
        node.step(event).is_durable(),
        node.step(event).storage.fault is None,
{
    match event {
        Event::TxVote(req) => tx_vote_facts(node, req),
        Event::AppendEntries(args) => append_entries_facts(node, args),
        Event::AppendReply(peer, args, reply) => {
            let caught_up = node.peer_caught_up(peer, (args.prev_log_index + args.entries.len()) as u64);
            commit_facts(caught_up, choose|index: u64| caught_up.is_quorum_index(index));
        },
        Event::BatchProposal(commands) => batch_facts(node, commands),
        Event::Heartbeat(_) => commit_facts(node, choose|index: u64| node.is_quorum_index(index)),
        Event::Read => commit_facts(node, choose|index: u64| node.is_quorum_index(index)),
        Event::AddNode(_) | Event::RemoveNode(_) | Event::AbortTx(_) | Event::Proposal(_) | Event::InstallSnapshot(_) => {},
        _ => elections_are_durable(node, event),
    }
}

/// A node becomes a leader only in the term of an election that it stood in:
/// as a candidate with votes of more than half of the nodes, or alone.
pub proof fn leaders_are_elected(node: NodeModel, event: Event)
    requires
        node.can_take(event),
        node.state != NodeState::Leader,
        node.step(event).state == NodeState::Leader,
    ensures
        match event {
            Event::VoteReply(round, reply) => {
                &&& node.state == NodeState::Candidate
                &&& node.current_term == round.term
                &&& reply.vote_granted
                &&& round.votes + 1 > round.total_nodes / 2
            },
            Event::ElectionTimeout | Event::Candidacy | Event::PreVoteReply(_, _) => node.peers.len() == 0,
            _ => false,
        },
{
    match event {
        Event::TxVote(req) => {
            let ready = NodeModel {
                commit_index: if node.commit_index < req.last_log_index <= node.log.len() {
                    req.last_log_index
                } else {
                    node.commit_index
                },
                ..node
            };
            apply_committed_facts(ready);
        },
        Event::AppendEntries(args) => {
            if args.term >= node.current_term && node.matches_previous(args.prev_log_index, args.prev_log_term) {
                let follower = NodeModel {
                    state: NodeState::Follower,
                    last_heartbeat: node.clock.now,
                    ..node.caught_up(args.term)
                };
                let (log, storage) = crate::raft::model::merge_entries(node.log, follower.storage, args.entries);
                let committed = NodeModel {
                    commit_index: if args.leader_commit < log.len() {
                        args.leader_commit
                    } else {
                        log.len() as u64
                    },
                    log,
                    storage,
                    ..follower
                };
                apply_committed_facts(committed);
            }
        },
        Event::AppendReply(peer, args, reply) => {
            let caught_up = node.peer_caught_up(peer, (args.prev_log_index + args.entries.len()) as u64);
            commit_facts(caught_up, choose|index: u64| caught_up.is_quorum_index(index));
        },
        _ => {},
    }
}

// ---- committing ----

/// Commit safety: a leader commits directly only an entry of its own term that
/// a quorum of the active configuration has replicated; nothing else moves its
/// commit index.
pub proof fn commits_are_safe(node: NodeModel, quorum_index: u64)
    requires
        node.is_quorum_index(quorum_index),
        node.maybe_commit().commit_index != node.commit_index,
    ensures
        node.state == NodeState::Leader,
        node.maybe_commit().commit_index > node.commit_index,
        1 <= node.maybe_commit().commit_index <= node.log.len(),
        node.log[node.maybe_commit().commit_index - 1].term == node.current_term,
        crate::protocol::quorum_holds(
            node.current_config,
            node.match_index,
            node.node_id,
            node.log.len() as u64,
            node.maybe_commit().commit_index,
        ),
{
    let index = choose|i: u64| node.is_quorum_index(i);
    crate::raft::model::quorum_index_is_unique(node, index, quorum_index);
    apply_committed_facts(NodeModel { commit_index: index, ..node });
}

/// A follower's commit index falls only when its log no longer reaches it.
pub open spec fn log_reaches_commit(node: NodeModel, event: Event) -> bool {
    event matches Event::AppendEntries(args) ==> crate::raft::model::merge_entries(
        node.log,
        node.storage,
        args.entries,
    ).0.len() >= node.commit_index
}

proof fn merged_log_is_independent_of_storage(
    log: Seq<LogEntryModel>,
    a: StorageModel,
    b: StorageModel,
    entries: Seq<LogEntryModel>,
)
    ensures
        crate::raft::model::merge_entries(log, a, entries).0 == crate::raft::model::merge_entries(log, b, entries).0,
    decreases entries.len(),
{
    if entries.len() > 0 {
        merged_log_is_independent_of_storage(log, a, b, entries.drop_last());
    }
}

/// Whatever happens, the last applied index does not fall, and the commit index
/// does not either while the log reaches it.
pub proof fn progress_is_kept(node: NodeModel, event: Event)
    requires
        log_reaches_commit(node, event),
    ensures
        node.step(event).last_applied >= node.last_applied,
        node.step(event).commit_index >= node.commit_index,
{
    match event {
        Event::TxVote(req) => tx_vote_facts(node, req),
        Event::AppendEntries(args) => {
            append_entries_facts(node, args);
            if args.term >= node.current_term && node.matches_previous(args.prev_log_index, args.prev_log_term) {
                let follower = NodeModel {
                    state: NodeState::Follower,
                    last_heartbeat: node.clock.now,
                    ..node.caught_up(args.term)
                };
                merged_log_is_independent_of_storage(node.log, node.storage, follower.storage, args.entries);
                let (log, storage) = crate::raft::model::merge_entries(node.log, follower.storage, args.entries);
                let committed = NodeModel {
                    commit_index: if args.leader_commit < log.len() {
                        args.leader_commit
                    } else {
                        log.len() as u64
                    },
                    log,
                    storage,
                    ..follower
                };
                apply_committed_facts(committed);
            }
        },
        Event::AppendReply(peer, args, reply) => {
            let caught_up = node.peer_caught_up(peer, (args.prev_log_index + args.entries.len()) as u64);
            commit_facts(caught_up, choose|index: u64| caught_up.is_quorum_index(index));
        },
        Event::BatchProposal(commands) => batch_facts(node, commands),
        Event::Heartbeat(_) => commit_facts(node, choose|index: u64| node.is_quorum_index(index)),
        Event::Read => commit_facts(node, choose|index: u64| node.is_quorum_index(index)),
        _ => {},
    }
}

/// Applying brings the state machine exactly to the commit index, if the log
/// reaches it.
pub proof fn everything_committed_is_applied(node: NodeModel)
    requires
        node.last_applied <= node.commit_index <= node.log.len(),
    ensures
        node.apply_logs().last_applied == node.commit_index,
{
    apply_committed_facts(node);
}

/// The effect on the store of entries that become applied one after the other.
pub open spec fn store_after(
    store: StoreModel,
    entries: Seq<LogEntryModel>,
    at: u64,
) -> StoreModel
    decreases entries.len(),
{
    if entries.len() == 0 {
        store
    } else {
        store_after(store.apply(entries[0].command, at), entries.drop_first(), at)
    }
}

/// The state machine is brought forward by the committed entries of the log,
/// each once and in order.
pub proof fn state_machine_follows_the_log(node: NodeModel)
    requires
        node.last_applied <= node.commit_index <= node.log.len(),
    ensures
        node.apply_logs().store == store_after(
            node.store,
            node.log.subrange(node.last_applied as int, node.commit_index as int),
            node.clock.unix_ms,
        ),
    decreases node.commit_index - node.last_applied,
{
    let entries = node.log.subrange(node.last_applied as int, node.commit_index as int);
    if node.last_applied < node.commit_index {
        let next = node.apply_next();
        assert(node.log.is_prefix_of(next.log));
        state_machine_follows_the_log(next);
        assert(next.log.subrange(next.last_applied as int, next.commit_index as int) =~= entries.drop_first());
        assert(entries[0] == node.log[node.last_applied as int]);
    }
}

// ---- replication ----

/// The entries follow on the index before them, one by one.
pub open spec fn contiguous(args: AppendEntriesArgsModel) -> bool {
    forall|i: int|
        0 <= i < args.entries.len() ==> (#[trigger] args.entries[i]).index == args.prev_log_index + 1 + i
}

proof fn merge_holds_entries(
    log: Seq<LogEntryModel>,
    storage: StorageModel,
    args: AppendEntriesArgsModel,
    n: int,
)
    requires
        contiguous(args),
        args.prev_log_index <= log.len(),
        0 <= n <= args.entries.len(),
    ensures
        ({
            let (merged, _) = crate::raft::model::merge_entries(log, storage, args.entries.take(n));
            let prev = args.prev_log_index as int;
            &&& merged.len() >= prev + n
            &&& merged.take(prev) == log.take(prev)
            &&& forall|i: int| 0 <= i < n ==> (#[trigger] merged[prev + i]).term == args.entries[i].term
        }),
    decreases n,
{
    let prev = args.prev_log_index as int;
    if n > 0 {
        merge_holds_entries(log, storage, args, n - 1);
        let taken = args.entries.take(n);
        assert(taken.drop_last() =~= args.entries.take(n - 1));
        let (before, s) = crate::raft::model::merge_entries(log, storage, args.entries.take(n - 1));
        let entry = args.entries[n - 1];
        assert(taken.last() == entry);
        let after = crate::raft::model::merge_entry(before, entry);
        assert(after.take(prev) =~= before.take(prev));
        assert forall|i: int| 0 <= i < n implies (#[trigger] after[prev + i]).term == args.entries[i].term by {
            if i < n - 1 {
                assert(before[prev + i].term == args.entries[i].term);
            }
        }
    } else {
        assert(args.entries.take(0) =~= Seq::<LogEntryModel>::empty());
    }
}

/// Log matching: where a leader's entries are accepted, the log agrees with the
/// leader's terms from there on, and is unchanged before.
pub proof fn accepted_entries_are_in_the_log(node: NodeModel, args: AppendEntriesArgsModel)
    requires
        contiguous(args),
        node.append_entries(args).1.success,
    ensures
        ({
            let log = node.append_entries(args).0.log;
            let prev = args.prev_log_index as int;
            &&& log.len() >= prev + args.entries.len()
            &&& log.take(prev) == node.log.take(prev)
            &&& forall|i: int|
                0 <= i < args.entries.len() ==> (#[trigger] log[prev + i]).term == args.entries[i].term
        }),
{
    let follower = NodeModel {
        state: NodeState::Follower,
        last_heartbeat: node.clock.now,
        ..node.caught_up(args.term)
    };
    merge_holds_entries(node.log, follower.storage, args, args.entries.len() as int);
    assert(args.entries.take(args.entries.len() as int) =~= args.entries);
    accepted_log(node, args);
}

proof fn accepted_log(node: NodeModel, args: AppendEntriesArgsModel)
    requires
        node.append_entries(args).1.success,
    ensures
        node.append_entries(args).0.log == crate::raft::model::merge_entries(
            node.log,
            node.caught_up(args.term).storage,
            args.entries,
        ).0,
{
    let follower = NodeModel {
        state: NodeState::Follower,
        last_heartbeat: node.clock.now,
        ..node.caught_up(args.term)
    };
    let (log, storage) = crate::raft::model::merge_entries(node.log, follower.storage, args.entries);
    let committed = NodeModel {
        commit_index: if args.leader_commit < log.len() {
            args.leader_commit
        } else {
            log.len() as u64
        },
        log,
        storage,
        ..follower
    };
    apply_committed_facts(committed);
}

proof fn merge_is_idempotent(
    log: Seq<LogEntryModel>,
    storage: StorageModel,
    args: AppendEntriesArgsModel,
    n: int,
)
    requires
        contiguous(args),
        args.prev_log_index + args.entries.len() <= log.len(),
        forall|i: int|
            0 <= i < args.entries.len() ==> (#[trigger] log[args.prev_log_index + i]).term == args.entries[i].term,
        0 <= n <= args.entries.len(),
    ensures
        crate::raft::model::merge_entries(log, storage, args.entries.take(n)) == (log, storage),
    decreases n,
{
    if n > 0 {
        merge_is_idempotent(log, storage, args, n - 1);
        let taken = args.entries.take(n);
        assert(taken.drop_last() =~= args.entries.take(n - 1));
        assert(taken.last() == args.entries[n - 1]);
        assert(log[args.prev_log_index + (n - 1)].term == args.entries[n - 1].term);
    } else {
        assert(args.entries.take(0) =~= Seq::<LogEntryModel>::empty());
    }
}

/// Entries that come twice are accepted twice, and the second time neither the
/// log nor the medium changes.
pub proof fn repeated_entries_change_nothing(node: NodeModel, args: AppendEntriesArgsModel)
    requires
        contiguous(args),
        node.append_entries(args).1.success,
    ensures
        ({
            let once = node.append_entries(args).0;
            let twice = once.append_entries(args).0;
            &&& once.append_entries(args).1.success
            &&& twice.log == once.log
            &&& twice.storage == once.storage
        }),
{
    accepted_entries_are_in_the_log(node, args);
    append_entries_facts(node, args);
    let once = node.append_entries(args).0;
    let prev = args.prev_log_index as int;
    if prev > 0 {
        assert(once.log.take(prev)[prev - 1] == node.log.take(prev)[prev - 1]);
    }
    merge_is_idempotent(once.log, once.storage, args, args.entries.len() as int);
    assert(args.entries.take(args.entries.len() as int) =~= args.entries);
    let follower = NodeModel { state: NodeState::Follower, last_heartbeat: once.clock.now, ..once };
    let committed = NodeModel {
        commit_index: if args.leader_commit < once.log.len() {
            args.leader_commit
        } else {
            once.log.len() as u64
        },
        ..follower
    };
    apply_committed_facts(committed);
    follower_apply_keeps_medium(committed);
}

proof fn follower_apply_keeps_medium(node: NodeModel)
    requires
        node.state == NodeState::Follower,
    ensures
        node.apply_committed().storage == node.storage,
        node.apply_committed().log == node.log,
        node.apply_committed().clock == node.clock,
    decreases node.commit_index - node.last_applied,
{
    if node.last_applied < node.commit_index && node.last_applied < node.log.len() {
        follower_apply_keeps_medium(node.apply_next());
    }
}

/// A request of an older term changes nothing.
pub proof fn stale_requests_change_nothing(
    node: NodeModel,
    vote: RequestVoteArgsModel,
    entries: AppendEntriesArgsModel,
    snapshot: InstallSnapshotArgsModel,
    tx: VoteRequestModel,
)
    ensures
        vote.term < node.current_term ==> node.request_vote(vote).0 == node && !node.request_vote(
            vote,
        ).1.vote_granted,
        entries.term < node.current_term ==> node.append_entries(entries).0 == node && !node.append_entries(
            entries,
        ).1.success,
        snapshot.term < node.current_term ==> node.install_snapshot(snapshot).0 == node,
        tx.term < node.current_term ==> node.tx_vote(tx).0 == node && !node.tx_vote(tx).1.vote_granted,
{
}

/// Each entry stands at the place that its index says.
pub open spec fn well_indexed(log: Seq<LogEntryModel>) -> bool {
    forall|i: int| 0 <= i < log.len() ==> (#[trigger] log[i]).index == i + 1
}

proof fn batch_is_well_indexed(node: NodeModel, commands: Seq<CommandModel>)
    requires
        well_indexed(node.log),
        node.log.len() + commands.len() <= usize::MAX,
    ensures
        well_indexed(node.appended_all(commands).log),
        node.appended_all(commands).log.len() <= node.log.len() + commands.len(),
    decreases commands.len(),
{
    if commands.len() > 0 {
        batch_is_well_indexed(node, commands.drop_last());
    }
}

/// What a leader proposes stands where its index says, right after what it had.
pub proof fn proposals_are_contiguous(node: NodeModel, commands: Seq<CommandModel>)
    requires
        well_indexed(node.log),
        node.log.len() + commands.len() <= usize::MAX,
    ensures
        well_indexed(node.propose_batch(commands).log),
        commands.len() == 1 ==> well_indexed(node.propose(commands[0]).log),
        node.state == NodeState::Leader && node.has_room(commands.len()) ==> node.propose_batch(commands).log.len()
            == node.log.len() + commands.len(),
{
    batch_is_well_indexed(node, commands);
    if node.has_room(commands.len()) {
        crate::raft::model::batch_progress(node, commands);
    }
}

// ---- snapshots ----

/// A snapshot that is not stale replaces the state machine's contents, leaves
/// only later entries in the log, and moves the indices at least to its own;
/// on a medium that takes writes it is stored before the reply.
pub proof fn installed_snapshots_take_over(node: NodeModel, args: InstallSnapshotArgsModel)
    requires
        args.term >= node.current_term,
    ensures
        ({
            let after = node.install_snapshot(args).0;
            &&& after.store.data == args.snapshot.data
            &&& after.store.pending == Map::<Seq<char>, crate::state_machine::PendingTxModel>::empty()
            &&& forall|i: int|
                0 <= i < after.log.len() ==> (#[trigger] after.log[i]).index > args.last_included_index
            &&& after.commit_index >= args.last_included_index
            &&& after.last_applied >= args.last_included_index
            &&& after.state == NodeState::Follower
            &&& !node.storage.failed() ==> after.storage.snapshot == Some(args.snapshot)
        }),
{
    let log = crate::raft::storage::entries_after(node.log, args.last_included_index);
    assert forall|i: int| 0 <= i < log.len() implies (#[trigger] log[i]).index > args.last_included_index by {
        crate::raft::storage::rewrite_keeps_exactly_the_later_entries(node.log, args.last_included_index, log[i]);
        assert(log.contains(log[i]));
    }
}

/// A node that restarts from a snapshot that a leader took has the data that
/// was there, and its indices at the snapshot's.
pub proof fn snapshots_are_restored(node: NodeModel, fresh: NodeModel, threshold_bytes: u64)
    requires
        node.snapshot_due(threshold_bytes),
        fresh.storage.snapshot == node.maybe_snapshot(threshold_bytes).storage.snapshot,
    ensures
        fresh.storage.snapshot matches Some(s) && {
            &&& fresh.restored(s).store.data == node.store.data
            &&& fresh.restored(s).commit_index >= node.commit_index
            &&& fresh.restored(s).last_applied >= node.commit_index
        },
{
}

// ---- reads ----

impl NodeModel {
    /// The instant that is noted for the quorum is one since which a quorum has
    /// been heard from.
    pub open spec fn quorum_is_proved(self) -> bool {
        self.last_quorum_heartbeat_at matches Some(t) ==> self.quorum_heard_since(t)
    }
}

proof fn noted_quorum_is_proved(node: NodeModel)
    ensures
        node.quorum_noted().quorum_is_proved(),
{
    reveal(NodeModel::quorum_instant);
}

proof fn quorum_heard_earlier(node: NodeModel, earlier: Instant, t: Instant)
    requires
        earlier.nanos <= t.nanos,
        node.quorum_heard_since(t),
    ensures
        node.quorum_heard_since(earlier),
{
    let strong = crate::raft::model::heard_since(node.heard_at, node.node_id, t);
    let weak = crate::raft::model::heard_since(node.heard_at, node.node_id, earlier);
    match node.current_config {
        ConfigurationModel::Simple(servers) => crate::protocol::count_where_monotone(servers, strong, weak),
        ConfigurationModel::Joint { old, new } => {
            crate::protocol::count_where_monotone(old, strong, weak);
            crate::protocol::count_where_monotone(new, strong, weak);
        },
    }
}

proof fn apply_keeps_quorum_proved(node: NodeModel)
    requires
        node.quorum_is_proved(),
    ensures
        node.apply_committed().quorum_is_proved(),
        node.apply_committed().heard_at == node.heard_at,
    decreases node.commit_index - node.last_applied,
{
    if node.last_applied < node.commit_index && node.last_applied < node.log.len() {
        match node.log[node.last_applied as int].command {
            CommandModel::InstallConfiguration { config } => {
                noted_quorum_is_proved(
                    NodeModel {
                        current_config: config,
                        peers: crate::raft::model::other_addrs(config.servers(), node.node_id),
                        ..node
                    },
                );
            },
            _ => {},
        }
        apply_keeps_quorum_proved(node.apply_next());
    }
}

proof fn commit_keeps_quorum_proved(node: NodeModel, index: u64)
    requires
        node.quorum_is_proved(),
    ensures
        node.commit_up_to(index).quorum_is_proved(),
        node.commit_up_to(index).heard_at == node.heard_at,
{
    apply_keeps_quorum_proved(NodeModel { commit_index: index, ..node });
}

proof fn batch_keeps_quorum_proved(node: NodeModel, commands: Seq<CommandModel>)
    ensures
        node.appended_all(commands).last_quorum_heartbeat_at == node.last_quorum_heartbeat_at,
        node.appended_all(commands).heard_at == node.heard_at,
        node.appended_all(commands).current_config == node.current_config,
        node.appended_all(commands).node_id == node.node_id,
    decreases commands.len(),
{
    if commands.len() > 0 {
        batch_keeps_quorum_proved(node, commands.drop_last());
    }
}

proof fn append_reply_keeps_quorum_proved(
    node: NodeModel,
    peer: Seq<char>,
    args: AppendEntriesArgsModel,
    reply: AppendReplyArgsModel,
)
    requires
        node.quorum_is_proved(),
    ensures
        node.append_reply(peer, args, reply).quorum_is_proved(),
        node.append_reply(peer, args, reply).heard_at == if reply.success {
            node.heard_at.insert(peer, node.clock.now)
        } else {
            node.heard_at
        },
{
    if reply.success {
        let index = (args.prev_log_index + args.entries.len()) as u64;
        let caught_up = node.peer_caught_up(peer, index);
        noted_quorum_is_proved(
            NodeModel { last_quorum_heartbeat_at: node.last_quorum_heartbeat_at, ..caught_up },
        );
        assert(caught_up.quorum_is_proved());
        commit_keeps_quorum_proved(caught_up, choose|index: u64| caught_up.is_quorum_index(index));
    }
}

proof fn followers_keep_quorum_proved(node: NodeModel, event: Event)
    requires
        node.quorum_is_proved(),
        event is TxVote || event is AppendEntries,
    ensures
        node.step(event).quorum_is_proved(),
        node.step(event).heard_at == node.heard_at,
{
    match event {
        Event::TxVote(req) => {
            apply_keeps_quorum_proved(
                NodeModel {
                    commit_index: if node.commit_index < req.last_log_index <= node.log.len() {
                        req.last_log_index
                    } else {
                        node.commit_index
                    },
                    ..node
                },
            );
        },
        Event::AppendEntries(args) => {
            let follower = NodeModel {
                state: NodeState::Follower,
                last_heartbeat: node.clock.now,
                ..node.caught_up(args.term)
            };
            let (log, storage) = crate::raft::model::merge_entries(node.log, follower.storage, args.entries);
            apply_keeps_quorum_proved(
                NodeModel {
                    commit_index: if args.leader_commit < log.len() {
                        args.leader_commit
                    } else {
                        log.len() as u64
                    },
                    log,
                    storage,
                    ..follower
                },
            );
        },
        _ => {},
    }
}

proof fn elections_keep_quorum_proved(node: NodeModel, event: Event)
    requires
        node.quorum_is_proved(),
        is_electoral(event),
    ensures
        node.step(event).quorum_is_proved(),
        node.step(event).heard_at == node.heard_at,
{
}

/// The instant that is noted for the quorum stays one since which a quorum of
/// the active configuration has been heard from, whatever happens; and a peer
/// has been heard from only where it took entries.
pub proof fn quorums_stay_proved(node: NodeModel, event: Event)
    requires
        node.quorum_is_proved(),
    ensures
        node.step(event).quorum_is_proved(),
        node.step(event).heard_at == match event {
            Event::AppendReply(peer, _, reply) => if reply.success {
                node.heard_at.insert(peer, node.clock.now)
            } else {
                node.heard_at
            },
            _ => node.heard_at,
        },
{
    match event {
        Event::TxVote(_) | Event::AppendEntries(_) => followers_keep_quorum_proved(node, event),
        Event::AppendReply(peer, args, reply) => append_reply_keeps_quorum_proved(node, peer, args, reply),
        Event::BatchProposal(commands) => batch_keeps_quorum_proved(node, commands),
        Event::Heartbeat(_) | Event::Read => {
            commit_keeps_quorum_proved(node, choose|index: u64| node.is_quorum_index(index));
        },
        Event::AddNode(_) | Event::RemoveNode(_) | Event::AbortTx(_) | Event::Proposal(_) | Event::InstallSnapshot(_) => {},
        _ => elections_keep_quorum_proved(node, event),
    }
}

/// A node that has just started has no quorum noted.
pub proof fn started_nodes_have_proved_nothing(
    node_id: Seq<char>,
    peers: Seq<Seq<char>>,
    store: StoreModel,
    storage: StorageModel,
    clock: Clock,
)
    ensures
        NodeModel::started(node_id, peers, store, storage, clock).quorum_is_proved(),
        NodeModel::started(node_id, peers, store, storage, clock).last_quorum_heartbeat_at is None,
{
}

/// Linearizable reads: a read is served only by a node that leads and whose
/// state machine has reached the read's index, and only where a quorum of the
/// active configuration, the node among it, has been heard from since the read
/// was issued. The latest instant since which a quorum has been heard from lies
/// within an election timeout.
pub proof fn served_reads_are_safe(node: NodeModel, index: u64, issued_at: Instant)
    requires
        node.quorum_is_proved(),
        node.read_confirmed(index, issued_at),
    ensures
        node.state == NodeState::Leader,
        node.last_applied >= index,
        node.quorum_heard_since(issued_at),
        node.last_quorum_heartbeat_at matches Some(t) && t.nanos >= issued_at.nanos && node.clock.now.nanos
            < t.nanos + crate::config::MAX_ELECTION_TIMEOUT_MS * 1_000_000,
{
    quorum_heard_earlier(node, issued_at, node.last_quorum_heartbeat_at.unwrap());
}

/// A leader that loses its lead serves no read that it has begun.
pub proof fn deposed_leaders_serve_no_reads(
    node: NodeModel,
    args: AppendEntriesArgsModel,
    index: u64,
    issued_at: Instant,
)
    requires
        args.term >= node.current_term,
    ensures
        !node.append_entries(args).0.read_confirmed(index, issued_at),
{
    let follower = NodeModel {
        state: NodeState::Follower,
        last_heartbeat: node.clock.now,
        ..node.caught_up(args.term)
    };
    let (log, storage) = crate::raft::model::merge_entries(node.log, follower.storage, args.entries);
    let committed = NodeModel {
        commit_index: if args.leader_commit < log.len() {
            args.leader_commit
        } else {
            log.len() as u64
        },
        log,
        storage,
        ..follower
    };
    apply_committed_facts(committed);
}

// ---- membership ----

/// Adding a server takes two phases. The leader appends the joint
/// configuration; when that is installed it appends the new one; and in that
/// the server is a member.
pub proof fn added_servers_become_members(node: NodeModel, server: ServerModel)
    requires
        node.propose_add_node(server).1 is Ok,
        node.storage.fault is None,
        node.log.len() + 2 <= usize::MAX,
    ensures
        ({
            let members = node.current_config.servers();
            let joint = ConfigurationModel::Joint { old: members, new: members.push(server) };
            let simple = ConfigurationModel::Simple(members.push(server));
            let proposed = node.propose_add_node(server).0;
            let installed = proposed.install_configuration(joint);
            &&& proposed.log.last().command == (CommandModel::InstallConfiguration { config: joint })
            &&& installed.log.last().command == (CommandModel::InstallConfiguration { config: simple })
            &&& installed.current_config == joint
            &&& installed.install_configuration(simple).current_config.has_member(server.node_id)
            &&& installed.install_configuration(simple).pending_post_joint_simple is None
        }),
{
    let members = node.current_config.servers();
    let with = members.push(server);
    assert(with[members.len() as int].node_id == server.node_id);
}

proof fn without_server_facts(servers: Seq<ServerModel>, node_id: Seq<char>)
    ensures
        !crate::protocol::has_server(crate::raft::model::without_server(servers, node_id), node_id),
    decreases servers.len(),
{
    if servers.len() > 0 {
        without_server_facts(servers.drop_last(), node_id);
        let before = crate::raft::model::without_server(servers.drop_last(), node_id);
        let after = crate::raft::model::without_server(servers, node_id);
        assert forall|i: int| 0 <= i < after.len() implies (#[trigger] after[i]).node_id != node_id by {
            if i < before.len() {
                assert(after[i] == before[i]);
            }
        }
    }
}

/// Removing a server takes the same two phases, and in the configuration that
/// they end in the server is no member.
pub proof fn removed_servers_are_no_members(node: NodeModel, node_id: Seq<char>)
    requires
        node.propose_remove_node(node_id).1 is Ok,
        node.storage.fault is None,
        node.log.len() + 2 <= usize::MAX,
    ensures
        ({
            let members = node.current_config.servers();
            let rest = crate::raft::model::without_server(members, node_id);
            let joint = ConfigurationModel::Joint { old: members, new: rest };
            let simple = ConfigurationModel::Simple(rest);
            let proposed = node.propose_remove_node(node_id).0;
            let installed = proposed.install_configuration(joint);
            &&& proposed.log.last().command == (CommandModel::InstallConfiguration { config: joint })
            &&& installed.log.last().command == (CommandModel::InstallConfiguration { config: simple })
            &&& !installed.install_configuration(simple).current_config.has_member(node_id)
            &&& installed.install_configuration(simple).current_config.servers().len() > 0
        }),
{
    without_server_facts(node.current_config.servers(), node_id);
}

/// Every peer of a node is the address of a server of the active configuration.
pub open spec fn peers_follow_config(node: NodeModel) -> bool {
    node.peers == crate::raft::model::other_addrs(node.current_config.servers(), node.node_id)
}

proof fn apply_keeps_peers(node: NodeModel)
    requires
        peers_follow_config(node),
    ensures
        peers_follow_config(node.apply_committed()),
    decreases node.commit_index - node.last_applied,
{
    if node.last_applied < node.commit_index && node.last_applied < node.log.len() {
        apply_keeps_peers(node.apply_next());
    }
}

proof fn batch_keeps_peers(node: NodeModel, commands: Seq<CommandModel>)
    ensures
        node.appended_all(commands).peers == node.peers,
        node.appended_all(commands).current_config == node.current_config,
        node.appended_all(commands).node_id == node.node_id,
    decreases commands.len(),
{
    if commands.len() > 0 {
        batch_keeps_peers(node, commands.drop_last());
    }
}

/// The peers of a node stay those of its active configuration.
pub proof fn peers_stay_in_step(node: NodeModel, event: Event)
    requires
        peers_follow_config(node),
    ensures
        peers_follow_config(node.step(event)),
{
    match event {
        Event::TxVote(req) => {
            let ready = NodeModel {
                commit_index: if node.commit_index < req.last_log_index <= node.log.len() {
                    req.last_log_index
                } else {
                    node.commit_index
                },
                ..node
            };
            apply_keeps_peers(ready);
        },
        Event::AppendEntries(args) => {
            let follower = NodeModel {
                state: NodeState::Follower,
                last_heartbeat: node.clock.now,
                ..node.caught_up(args.term)
            };
            let (log, storage) = crate::raft::model::merge_entries(node.log, follower.storage, args.entries);
            let committed = NodeModel {
                commit_index: if args.leader_commit < log.len() {
                    args.leader_commit
                } else {
                    log.len() as u64
                },
                log,
                storage,
                ..follower
            };
            apply_keeps_peers(committed);
        },
        Event::AppendReply(peer, args, reply) => {
            let caught_up = node.peer_caught_up(peer, (args.prev_log_index + args.entries.len()) as u64);
            let index = choose|index: u64| caught_up.is_quorum_index(index);
            apply_keeps_peers(NodeModel { commit_index: index, ..caught_up });
        },
        Event::BatchProposal(commands) => batch_keeps_peers(node, commands),
        Event::Heartbeat(_) | Event::Read => {
            let index = choose|index: u64| node.is_quorum_index(index);
            apply_keeps_peers(NodeModel { commit_index: index, ..node });
        },
        _ => {},
    }
}

/// The indices kept for peers stay log indices.
pub proof fn indices_stay_ok(node: NodeModel, event: Event)
    requires
        node.indices_ok(),
        node.can_take(event),
        node.log.len() < u64::MAX,
    ensures
        node.step(event).indices_ok(),
{
    match event {
        Event::TxVote(req) => {
            let ready = NodeModel {
                commit_index: if node.commit_index < req.last_log_index <= node.log.len() {
                    req.last_log_index
                } else {
                    node.commit_index
                },
                ..node
            };
            apply_committed_facts(ready);
        },
        Event::AppendEntries(args) => append_entries_facts(node, args),
        Event::AppendReply(peer, args, reply) => {
            let caught_up = node.peer_caught_up(peer, (args.prev_log_index + args.entries.len()) as u64);
            commit_facts(caught_up, choose|index: u64| caught_up.is_quorum_index(index));
        },
        Event::BatchProposal(commands) => batch_facts(node, commands),
        Event::Heartbeat(_) => commit_facts(node, choose|index: u64| node.is_quorum_index(index)),
        Event::Read => commit_facts(node, choose|index: u64| node.is_quorum_index(index)),
        _ => {},
    }
}

// ---- the log on the medium ----

/// Every entry stands at its index.
pub open spec fn numbered(log: Seq<LogEntryModel>) -> bool {
    forall|i: int| 0 <= i < log.len() ==> (#[trigger] log[i]).index == i + 1
}

impl NodeModel {
    /// The last index that the snapshot on the medium covers.
    pub open spec fn covered(self) -> u64 {
        match self.storage.snapshot {
            Some(snapshot) => snapshot.last_included_index,
            None => 0,
        }
    }

    /// The log file stands for the entries of the log that the snapshot on the
    /// medium does not cover.
    pub open spec fn log_is_durable(self) -> bool {
        self.storage.wal == crate::raft::storage::entries_after(self.log, self.covered())
    }

    /// The event could come from a leader that shares the entries that the
    /// snapshot covers: a leader's entries follow one another and do not replace
    /// covered ones, and its snapshot is no older than the node's.
    pub open spec fn is_consistent(self, event: Event) -> bool {
        match event {
            Event::AppendEntries(args) => {
                &&& forall|i: int|
                    0 <= i < args.entries.len() ==> (#[trigger] args.entries[i]).index == args.prev_log_index + 1 + i
                &&& forall|i: int|
                    0 <= i < args.entries.len() && (#[trigger] args.entries[i]).index <= self.covered()
                        ==> args.entries[i].term == self.log[args.entries[i].index - 1].term
            },
            Event::InstallSnapshot(args) => {
                &&& args.snapshot.last_included_index == args.last_included_index
                &&& self.covered() <= args.last_included_index
            },
            _ => true,
        }
    }
}

/// The log file stands for the entries of a log beyond `covered`, and every
/// entry of the log for its index.
#[verifier::opaque]
spec fn in_step(log: Seq<LogEntryModel>, wal: Seq<LogEntryModel>, covered: u64) -> bool {
    &&& numbered(log)
    &&& covered <= log.len()
    &&& wal == log.skip(covered as int)
}

/// The log and the medium are in step.
spec fn is_in_step(node: NodeModel) -> bool {
    &&& in_step(node.log, node.storage.wal, node.covered())
    &&& node.storage.fault is None
}

proof fn in_step_is_durable(node: NodeModel)
    requires
        is_in_step(node),
    ensures
        numbered(node.log),
        node.covered() <= node.log.len(),
        node.log_is_durable(),
{
    reveal(in_step);
    numbered_entries_after(node.log, node.covered());
}

proof fn durable_is_in_step(node: NodeModel)
    requires
        numbered(node.log),
        node.covered() <= node.log.len(),
        node.log_is_durable(),
        node.storage.fault is None,
    ensures
        is_in_step(node),
{
    reveal(in_step);
    numbered_entries_after(node.log, node.covered());
}

proof fn numbered_entries_after(log: Seq<LogEntryModel>, index: u64)
    requires
        numbered(log),
    ensures
        index <= log.len() ==> crate::raft::storage::entries_after(log, index) == log.skip(index as int),
        index >= log.len() ==> crate::raft::storage::entries_after(log, index).len() == 0,
    decreases log.len(),
{
    if log.len() > 0 {
        let rest = log.drop_last();
        numbered_entries_after(rest, index);
        if index < log.len() {
            assert(rest.skip(index as int).push(log.last()) =~= log.skip(index as int));
        } else if index == log.len() {
            assert(log.skip(index as int) =~= Seq::<LogEntryModel>::empty());
        }
    } else if index == 0 {
        assert(log.skip(0) =~= log);
    }
}

proof fn later_entries_of_later_entries(log: Seq<LogEntryModel>, a: u64, b: u64)
    requires
        a <= b,
    ensures
        crate::raft::storage::entries_after(crate::raft::storage::entries_after(log, a), b)
            == crate::raft::storage::entries_after(log, b),
    decreases log.len(),
{
    if log.len() > 0 {
        let rest = crate::raft::storage::entries_after(log.drop_last(), a);
        later_entries_of_later_entries(log.drop_last(), a, b);
        assert(rest.push(log.last()).drop_last() =~= rest);
    }
}

proof fn cut_back_is_take(log: Seq<LogEntryModel>, covered: u64, index: usize)
    requires
        numbered(log),
        covered < index <= log.len() + 1,
        covered <= log.len(),
    ensures
        crate::raft::storage::cut_back(log.skip(covered as int), index) == log.take(index - 1).skip(covered as int),
    decreases log.len(),
{
    let tail = log.skip(covered as int);
    if index <= log.len() {
        let rest = log.drop_last();
        assert(tail.last() == log.last());
        assert(tail.drop_last() =~= rest.skip(covered as int));
        cut_back_is_take(rest, covered, index);
        assert(rest.take(index - 1) =~= log.take(index - 1));
    } else {
        assert(log.take(index - 1) =~= log);
        if tail.len() > 0 {
            assert(tail.last() == log.last());
        }
    }
}

proof fn append_keeps_step(log: Seq<LogEntryModel>, storage: StorageModel, covered: u64, entry: LogEntryModel)
    requires
        in_step(log, storage.wal, covered),
        storage.fault is None,
        covered < entry.index <= log.len() + 1,
    ensures
        in_step(log.take(entry.index - 1).push(entry), storage.append(entry).wal, covered),
{
    reveal(in_step);
    cut_back_is_take(log, covered, entry.index);
    let kept = log.take(entry.index - 1);
    assert(kept.skip(covered as int).push(entry) =~= kept.push(entry).skip(covered as int));
}

proof fn appended_keeps_step(node: NodeModel, command: CommandModel)
    requires
        is_in_step(node),
        node.log.len() < usize::MAX,
    ensures
        is_in_step(node.appended(command)),
        node.appended(command).covered() == node.covered(),
{
    let entry = node.next_entry(command);
    in_step_is_durable(node);
    append_keeps_step(node.log, node.storage, node.covered(), entry);
    assert(node.log.take(node.log.len() as int) =~= node.log);
}

proof fn batch_keeps_step(node: NodeModel, commands: Seq<CommandModel>)
    requires
        is_in_step(node),
        node.log.len() + commands.len() <= usize::MAX,
    ensures
        is_in_step(node.appended_all(commands)),
        node.appended_all(commands).covered() == node.covered(),
        node.appended_all(commands).log.len() == node.log.len() + commands.len(),
    decreases commands.len(),
{
    if commands.len() > 0 {
        batch_keeps_step(node, commands.drop_last());
        appended_keeps_step(node.appended_all(commands.drop_last()), commands.last());
    }
}

proof fn apply_keeps_step(node: NodeModel)
    requires
        is_in_step(node),
        node.apply_committed().log.len() <= usize::MAX,
    ensures
        is_in_step(node.apply_committed()),
        node.apply_committed().covered() == node.covered(),
    decreases node.commit_index - node.last_applied,
{
    if node.last_applied < node.commit_index && node.last_applied < node.log.len() {
        let next = node.apply_next();
        apply_committed_facts(next);
        match node.log[node.last_applied as int].command {
            CommandModel::InstallConfiguration { config } => {
                if node.install_configuration(config).log != node.log {
                    assert(next.log.len() == node.log.len() + 1);
                    let taken = NodeModel { pending_post_joint_simple: None, ..node.configured(config) };
                    appended_keeps_step(
                        taken,
                        CommandModel::InstallConfiguration { config: node.pending_post_joint_simple.unwrap() },
                    );
                }
            },
            _ => {},
        }
        apply_keeps_step(next);
    }
}

proof fn commit_keeps_step(node: NodeModel, index: u64)
    requires
        is_in_step(node),
        node.commit_up_to(index).log.len() <= usize::MAX,
    ensures
        is_in_step(node.commit_up_to(index)),
        node.commit_up_to(index).covered() == node.covered(),
{
    if node.commit_up_to(index) != node {
        apply_keeps_step(NodeModel { commit_index: index, ..node });
    }
}

proof fn merge_keeps_step(
    log: Seq<LogEntryModel>,
    storage: StorageModel,
    entries: Seq<LogEntryModel>,
    previous: u64,
    covered: u64,
)
    requires
        in_step(log, storage.wal, covered),
        storage.fault is None,
        covered <= log.len(),
        previous <= log.len(),
        forall|i: int| 0 <= i < entries.len() ==> (#[trigger] entries[i]).index == previous + 1 + i,
        forall|i: int|
            0 <= i < entries.len() && (#[trigger] entries[i]).index <= covered ==> entries[i].term
                == log[entries[i].index - 1].term,
    ensures
        ({
            let (l, s) = crate::raft::model::merge_entries(log, storage, entries);
            &&& in_step(l, s.wal, covered)
            &&& s.fault is None
            &&& s.snapshot == storage.snapshot
            &&& l.take(covered as int) == log.take(covered as int)
            &&& l.len() >= previous + entries.len()
        }),
    decreases entries.len(),
{
    if entries.len() > 0 {
        let (l, s) = crate::raft::model::merge_entries(log, storage, entries.drop_last());
        let entry = entries.last();
        assert forall|i: int| 0 <= i < entries.drop_last().len() implies (#[trigger] entries.drop_last()[i]).index
            == previous + 1 + i by {
            assert(entries.drop_last()[i] == entries[i]);
        }
        merge_keeps_step(log, storage, entries.drop_last(), previous, covered);
        assert(covered <= l.len()) by {
            reveal(in_step);
        }
        assert(entry == entries[entries.len() - 1]);
        if entry.index <= covered {
            let at = entry.index - 1;
            assert(l[at] == l.take(covered as int)[at]);
            assert(log[at] == log.take(covered as int)[at]);
        } else if crate::raft::model::entry_is_new(l, entry) {
            append_keeps_step(l, s, covered, entry);
            let merged = l.take(entry.index - 1).push(entry);
            if entry.index - 1 >= l.len() {
                assert(l.take(entry.index - 1) =~= l);
            }
            assert(merged.take(covered as int) =~= l.take(covered as int));
        }
    }
}

proof fn batch_length(node: NodeModel, commands: Seq<CommandModel>)
    requires
        node.storage.fault is None,
    ensures
        node.appended_all(commands).log.len() == node.log.len() + commands.len(),
        node.appended_all(commands).storage.fault is None,
    decreases commands.len(),
{
    if commands.len() > 0 {
        batch_length(node, commands.drop_last());
    }
}

proof fn members_keep_step(node: NodeModel, new: Seq<ServerModel>)
    requires
        is_in_step(node),
        node.propose_members(new).log.len() <= usize::MAX,
    ensures
        is_in_step(node.propose_members(new)),
        node.propose_members(new).covered() == node.covered(),
{
    assert(node.propose_members(new).log.len() == node.log.len() + 1);
    appended_keeps_step(
        node,
        CommandModel::InstallConfiguration {
            config: ConfigurationModel::Joint { old: node.current_config.servers(), new },
        },
    );
}

proof fn tx_vote_keeps_step(node: NodeModel, req: VoteRequestModel)
    requires
        is_in_step(node),
        node.tx_vote(req).0.log.len() <= usize::MAX,
    ensures
        is_in_step(node.tx_vote(req).0),
        node.tx_vote(req).0.covered() == node.covered(),
{
    let ready = NodeModel {
        commit_index: if node.commit_index < req.last_log_index <= node.log.len() {
            req.last_log_index
        } else {
            node.commit_index
        },
        ..node
    };
    if req.term == node.current_term && node.yields_to(req.last_log_index, req.last_log_term) {
        apply_keeps_step(ready);
    }
}

proof fn append_entries_keep_step(node: NodeModel, args: AppendEntriesArgsModel)
    requires
        is_in_step(node),
        node.is_consistent(Event::AppendEntries(args)),
        node.append_entries(args).0.log.len() <= usize::MAX,
    ensures
        is_in_step(node.append_entries(args).0),
        node.append_entries(args).0.covered() == node.covered(),
{
    if args.term >= node.current_term && node.matches_previous(args.prev_log_index, args.prev_log_term) {
        let follower = NodeModel {
            state: NodeState::Follower,
            last_heartbeat: node.clock.now,
            ..node.caught_up(args.term)
        };
        in_step_is_durable(node);
        merge_keeps_step(node.log, follower.storage, args.entries, args.prev_log_index, node.covered());
        let (log, storage) = crate::raft::model::merge_entries(node.log, follower.storage, args.entries);
        if args.leader_commit > node.commit_index {
            let committed = NodeModel {
                commit_index: if args.leader_commit < log.len() {
                    args.leader_commit
                } else {
                    log.len() as u64
                },
                log,
                storage,
                ..follower
            };
            apply_keeps_step(committed);
        }
    }
}

proof fn sync_keeps_step(node: NodeModel)
    requires
        is_in_step(node),
        node.sync_logs().log.len() <= usize::MAX,
    ensures
        is_in_step(node.sync_logs()),
        node.sync_logs().covered() == node.covered(),
        node.sync_logs().commit_index >= node.commit_index,
{
    if node.peers.len() == 0 && node.state == NodeState::Leader {
        let index = choose|index: u64| node.is_quorum_index(index);
        commit_keeps_step(node, index);
        commit_facts(node, index);
    }
}

proof fn heartbeat_keeps_log_durable(node: NodeModel, threshold: u64)
    requires
        is_in_step(node),
        node.covered() <= node.commit_index,
        node.heartbeat(threshold).log.len() <= usize::MAX,
    ensures
        node.heartbeat(threshold).storage.fault is None,
        node.heartbeat(threshold).log_is_durable(),
        numbered(node.heartbeat(threshold).log),
{
    in_step_is_durable(node);
    if node.state == NodeState::Leader {
        let synced = node.sync_logs();
        sync_keeps_step(node);
        in_step_is_durable(synced);
        later_entries_of_later_entries(synced.log, synced.covered(), synced.commit_index);
    }
}

proof fn installed_snapshot_keeps_log_durable(node: NodeModel, args: InstallSnapshotArgsModel)
    requires
        node.storage.fault is None,
        node.log_is_durable(),
        node.is_consistent(Event::InstallSnapshot(args)),
    ensures
        node.install_snapshot(args).0.storage.fault is None,
        node.install_snapshot(args).0.log_is_durable(),
{
    later_entries_of_later_entries(node.log, node.covered(), args.last_included_index);
    later_entries_of_later_entries(node.log, args.last_included_index, args.last_included_index);
}

proof fn proposal_keeps_step(node: NodeModel, command: CommandModel)
    requires
        is_in_step(node),
        node.propose(command).log.len() <= usize::MAX,
    ensures
        is_in_step(node.propose(command)),
{
    if node.state == NodeState::Leader {
        assert(node.propose(command).log.len() == node.log.len() + 1);
        appended_keeps_step(node, command);
    }
}

proof fn batch_proposal_keeps_step(node: NodeModel, commands: Seq<CommandModel>)
    requires
        is_in_step(node),
        node.propose_batch(commands).log.len() <= usize::MAX,
    ensures
        is_in_step(node.propose_batch(commands)),
{
    if node.state == NodeState::Leader {
        batch_length(node, commands);
        batch_keeps_step(node, commands);
    }
}

proof fn membership_keeps_step(node: NodeModel, server: ServerModel, node_id: Seq<char>)
    requires
        is_in_step(node),
    ensures
        node.propose_add_node(server).0.log.len() <= usize::MAX ==> is_in_step(node.propose_add_node(server).0),
        node.propose_remove_node(node_id).0.log.len() <= usize::MAX ==> is_in_step(node.propose_remove_node(node_id).0),
{
    let more = node.current_config.servers().push(server);
    let fewer = crate::raft::model::without_server(node.current_config.servers(), node_id);
    if node.propose_members(more).log.len() <= usize::MAX {
        members_keep_step(node, more);
    }
    if node.propose_members(fewer).log.len() <= usize::MAX {
        members_keep_step(node, fewer);
    }
}

proof fn abort_keeps_step(node: NodeModel, tx_id: Seq<char>)
    requires
        is_in_step(node),
        node.propose_abort_tx(tx_id).0.log.len() <= usize::MAX,
    ensures
        is_in_step(node.propose_abort_tx(tx_id).0),
{
    if node.state == NodeState::Leader && node.store.pending.contains_key(tx_id) {
        assert(node.propose_abort_tx(tx_id).0.log.len() == node.log.len() + 1);
        appended_keeps_step(node, CommandModel::DecideTx { tx_id, decision: TxDecision::Abort });
    }
}

proof fn append_reply_keeps_step(
    node: NodeModel,
    peer: Seq<char>,
    args: AppendEntriesArgsModel,
    reply: AppendReplyArgsModel,
)
    requires
        is_in_step(node),
        node.append_reply(peer, args, reply).log.len() <= usize::MAX,
    ensures
        is_in_step(node.append_reply(peer, args, reply)),
{
    if reply.success {
        let caught_up = node.peer_caught_up(peer, (args.prev_log_index + args.entries.len()) as u64);
        commit_keeps_step(caught_up, choose|index: u64| caught_up.is_quorum_index(index));
    }
}

proof fn elections_keep_step(node: NodeModel, event: Event)
    requires
        is_in_step(node),
        is_electoral(event),
    ensures
        is_in_step(node.step(event)),
{
}

/// On a medium that takes every write, the log file stands for every entry that
/// the snapshot on the medium does not cover, after every event, if it did
/// before; and every entry stays at its index, until a leader's snapshot takes
/// the place of the log's head.
pub proof fn logs_are_durable(node: NodeModel, event: Event)
    requires
        node.storage.fault is None,
        numbered(node.log),
        node.log_is_durable(),
        node.covered() <= node.log.len(),
        node.covered() <= node.commit_index,
        node.is_consistent(event),
        node.step(event).log.len() <= usize::MAX,
    ensures
        node.step(event).storage.fault is None,
        node.step(event).log_is_durable(),
        event !is InstallSnapshot ==> numbered(node.step(event).log),
        event !is InstallSnapshot && event !is Heartbeat ==> node.step(event).covered() <= node.step(event).log.len(),
{
    durable_is_in_step(node);
    match event {
        Event::TxVote(req) => tx_vote_keeps_step(node, req),
        Event::AppendEntries(args) => append_entries_keep_step(node, args),
        Event::InstallSnapshot(args) => installed_snapshot_keeps_log_durable(node, args),
        Event::AppendReply(peer, args, reply) => append_reply_keeps_step(node, peer, args, reply),
        Event::Proposal(command) => proposal_keeps_step(node, command),
        Event::BatchProposal(commands) => batch_proposal_keeps_step(node, commands),
        Event::AddNode(server) => membership_keeps_step(node, server, node.node_id),
        Event::RemoveNode(node_id) => membership_keeps_step(node, ServerModel { node_id, addr: node_id }, node_id),
        Event::AbortTx(tx_id) => abort_keeps_step(node, tx_id),
        Event::Heartbeat(threshold) => heartbeat_keeps_log_durable(node, threshold),
        Event::Read => sync_keeps_step(node),
        _ => elections_keep_step(node, event),
    }
    if event !is InstallSnapshot && event !is Heartbeat {
        in_step_is_durable(node.step(event));
    }
}

/// A node that starts again from its medium has the term and vote that it had,
/// and of its log what the snapshot on the medium does not cover.
pub proof fn restarts_lose_nothing(
    node: NodeModel,
    peers: Seq<Seq<char>>,
    store: StoreModel,
    clock: Clock,
)
    requires
        node.is_durable(),
        node.log_is_durable(),
    ensures
        ({
            let again = NodeModel::started(node.node_id, peers, store, node.storage, clock);
            &&& again.current_term == node.current_term
            &&& again.vote_for == node.vote_for
            &&& again.log == crate::raft::storage::entries_after(node.log, node.covered())
            &&& again.covered() == node.covered()
            &&& again.is_durable()
            &&& node.covered() == 0 && numbered(node.log) ==> again.log == node.log && again.log_is_durable()
        }),
{
    if numbered(node.log) {
        numbered_entries_after(node.log, 0);
        assert(node.log.skip(0) =~= node.log);
    }
}

proof fn store_after_last(store: StoreModel, entries: Seq<LogEntryModel>, at: u64)
    requires
        entries.len() > 0,
    ensures
        store_after(store, entries, at) == store_after(store, entries.drop_last(), at).apply(
            entries.last().command,
            at,
        ),
    decreases entries.len(),
{
    let rest = entries.drop_first();
    let next = store.apply(entries[0].command, at);
    if entries.len() == 1 {
        assert(store_after(next, rest, at) == next);
        assert(store_after(store, entries.drop_last(), at) == store);
    } else {
        store_after_last(next, rest, at);
        assert(rest.drop_last() =~= entries.drop_last().drop_first());
        assert(entries.drop_last()[0] == entries[0]);
    }
}

proof fn replay_is_store_after(node: NodeModel, entries: Seq<LogEntryModel>)
    ensures
        node.replay_entries(entries).store == store_after(node.store, entries, node.clock.unix_ms),
        node.replay_entries(entries).clock == node.clock,
    decreases entries.len(),
{
    if entries.len() > 0 {
        replay_is_store_after(node, entries.drop_last());
        store_after_last(node.store, entries, node.clock.unix_ms);
    }
}

/// The stores have the same data, and the same writes staged.
pub open spec fn alike(a: StoreModel, b: StoreModel) -> bool {
    &&& a.data == b.data
    &&& a.pending.dom() == b.pending.dom()
    &&& forall|tx_id: Seq<char>| #[trigger] a.pending.contains_key(tx_id) ==> a.pending[tx_id].ops
        == b.pending[tx_id].ops
}

proof fn time_does_not_matter(a: StoreModel, b: StoreModel, entries: Seq<LogEntryModel>, at: u64, later: u64)
    requires
        alike(a, b),
    ensures
        alike(store_after(a, entries, at), store_after(b, entries, later)),
    decreases entries.len(),
{
    if entries.len() > 0 {
        let command = entries[0].command;
        let next_a = a.apply(command, at);
        let next_b = b.apply(command, later);
        assert(alike(next_a, next_b)) by {
            match command {
                CommandModel::DecideTx { tx_id, decision } => {
                    assert(a.pending.contains_key(tx_id) == a.pending.dom().contains(tx_id));
                    assert(b.pending.contains_key(tx_id) == b.pending.dom().contains(tx_id));
                },
                _ => {},
            }
            assert(next_a.pending.dom() =~= next_b.pending.dom());
        }
        time_does_not_matter(next_a, next_b, entries.drop_first(), at, later);
    }
}

/// What the snapshot on a medium holds, nothing if there is none.
pub open spec fn snapshot_store(storage: StorageModel) -> StoreModel {
    match storage.snapshot {
        Some(snapshot) => StoreModel { data: snapshot.data, pending: Map::empty() },
        None => StoreModel::empty(),
    }
}

/// Crash recovery: a node that starts again from its medium has the snapshot's
/// data, or none, brought forward by the log entries that the snapshot does not
/// cover. A node whose state machine had followed its log has its data back.
pub proof fn restarts_restore_the_data(node: NodeModel, peers: Seq<Seq<char>>, clock: Clock, at: u64)
    requires
        node.log_is_durable(),
    ensures
        ({
            let again = NodeModel::started(node.node_id, peers, StoreModel::empty(), node.storage, clock).started_up();
            let rest = crate::raft::storage::entries_after(node.log, node.covered());
            &&& again.store == store_after(snapshot_store(node.storage), rest, clock.unix_ms)
            &&& node.store.data == store_after(snapshot_store(node.storage), rest, at).data ==> again.store.data
                == node.store.data
        }),
{
    let fresh = NodeModel::started(node.node_id, peers, StoreModel::empty(), node.storage, clock);
    let led = if peers.len() == 0 {
        NodeModel { state: NodeState::Leader, ..fresh }
    } else {
        fresh
    };
    let restored = match node.storage.snapshot {
        Some(snapshot) => led.restored(snapshot),
        None => led,
    };
    let base = snapshot_store(node.storage);
    replay_is_store_after(restored, restored.log);
    time_does_not_matter(base, base, restored.log, at, clock.unix_ms);
}

// ---- transactions ----

/// A participant votes Yes only on a transaction that it has staged, in its own
/// term, for a leader whose log is at least as fresh; and no vote changes a
/// committed value.
pub proof fn yes_votes_are_backed(node: NodeModel, req: VoteRequestModel)
    requires
        node.tx_vote(req).1.vote_granted,
    ensures
        req.term == node.current_term,
        node.yields_to(req.last_log_index, req.last_log_term),
        node.tx_vote(req).0.store.pending.contains_key(req.tx_id),
        node.tx_vote(req).0.store.pending[req.tx_id].votes.contains_key(node.node_id),
        node.tx_vote(req).1.reason.len() == 0,
{
    let ready = NodeModel {
        commit_index: if node.commit_index < req.last_log_index <= node.log.len() {
            req.last_log_index
        } else {
            node.commit_index
        },
        ..node
    };
    apply_committed_facts(ready);
}

/// A stuck transaction that a leader aborts is gone, without any of its writes,
/// once the decision is applied.
pub proof fn aborted_transactions_leave_nothing(node: NodeModel, tx_id: Seq<char>, at: u64)
    requires
        node.propose_abort_tx(tx_id).1 is Ok,
    ensures
        ({
            let proposed = node.propose_abort_tx(tx_id).0;
            let decided = proposed.store.apply(proposed.log.last().command, at);
            &&& proposed.store == node.store
            &&& decided.data == node.store.data
            &&& decided.pending == node.store.pending.remove(tx_id)
        }),
{
}

} // verus!
