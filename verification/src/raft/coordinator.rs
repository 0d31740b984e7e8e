//! The leader's side of a transaction: it stages the writes, asks every peer
//! for a vote, and decides.

use crate::coordination::{VoteRequest, VoteRequestModel, VoteResponse, VoteResponseModel};
use crate::data::Duplicate;
use crate::protocol::{Command, CommandModel, LogEntryModel, TxDecision, TxOp, TxOpModel};
use crate::raft::model::NodeModel;
use crate::raft::node::{NodeState, RaftNode};
use crate::raft::rpc::{AppendEntriesArgs, AppendEntriesArgsModel};
use crate::text_map::TextMap;
use crate::time::{Duration, Instant};
use vstd::prelude::*;

verus! {

broadcast use vstd::string::group_string_axioms;

/// How long a transaction waits for its entry to reach every peer, in seconds.
pub const STAGING_TIMEOUT_SECS: u64 = 5;

/// What came of a transaction.
#[derive(Debug, Clone, PartialEq)]
pub enum TxOutcome {
    Committed { begin_index: u64, decide_index: u64, tx_id: String },
    Aborted { tx_id: String, reason: String },
    NotLeader { tx_id: String },
}

pub enum TxOutcomeModel {
    Committed { begin_index: u64, decide_index: u64, tx_id: Seq<char> },
    Aborted { tx_id: Seq<char>, reason: Seq<char> },
    NotLeader { tx_id: Seq<char> },
}

impl DeepView for TxOutcome {
    type V = TxOutcomeModel;

    open spec fn deep_view(&self) -> TxOutcomeModel {
        match self {
            TxOutcome::Committed { begin_index, decide_index, tx_id } => TxOutcomeModel::Committed {
                begin_index: *begin_index,
                decide_index: *decide_index,
                tx_id: tx_id@,
            },
            TxOutcome::Aborted { tx_id, reason } => TxOutcomeModel::Aborted { tx_id: tx_id@, reason: reason@ },
            TxOutcome::NotLeader { tx_id } => TxOutcomeModel::NotLeader { tx_id: tx_id@ },
        }
    }
}

/// A transaction whose writes are staged and whose peers are asked to vote.
/// `started` is when it was staged.
#[derive(Debug, Clone, PartialEq)]
pub struct TxRound {
    pub tx_id: String,
    pub begin_index: u64,
    pub peers: Vec<String>,
    pub started: Instant,
}

#[verifier::ext_equal]
pub struct TxRoundModel {
    pub tx_id: Seq<char>,
    pub begin_index: u64,
    pub peers: Seq<Seq<char>>,
    pub started: Instant,
}

impl DeepView for TxRound {
    type V = TxRoundModel;

    open spec fn deep_view(&self) -> TxRoundModel {
        TxRoundModel {
            tx_id: self.tx_id@,
            begin_index: self.begin_index,
            peers: self.peers.deep_view(),
            started: self.started,
        }
    }
}

/// How a transaction begins: it is over at once, or goes to the vote.
#[derive(Debug, Clone, PartialEq)]
pub enum TxStart {
    Finished(TxOutcome),
    Voting(TxRound),
}

pub enum TxStartModel {
    Finished(TxOutcomeModel),
    Voting(TxRoundModel),
}

impl DeepView for TxStart {
    type V = TxStartModel;

    open spec fn deep_view(&self) -> TxStartModel {
        match self {
            TxStart::Finished(outcome) => TxStartModel::Finished(outcome.deep_view()),
            TxStart::Voting(round) => TxStartModel::Voting(round.deep_view()),
        }
    }
}

/// What a node sends.
pub type Outbound = Vec<(String, AppendEntriesArgs)>;

/// The reason of a transaction that could not be staged.
pub open spec fn not_staged_reason() -> Seq<char> {
    "the transaction could not be written to the log"@
}

/// The reason of a transaction whose decision could not be logged.
pub open spec fn not_decided_reason() -> Seq<char> {
    "the decision could not be written to the log"@
}

/// A transaction begins. A leader without peers stages and commits it in one
/// proposal; a leader with peers stages it and goes to the vote.
pub open spec fn tx_begun(node: NodeModel, tx_id: Seq<char>, ops: Seq<TxOpModel>) -> (
    NodeModel,
    TxStartModel,
    Seq<(Seq<char>, AppendEntriesArgsModel)>,
) {
    let begin = CommandModel::BeginTx { tx_id, ops };
    let commit = CommandModel::DecideTx { tx_id, decision: TxDecision::Commit };
    if node.state != NodeState::Leader {
        (node, TxStartModel::Finished(TxOutcomeModel::NotLeader { tx_id }), Seq::empty())
    } else if node.peers.len() == 0 {
        let proposed = node.propose_batch(seq![begin, commit]);
        if node.has_room(2) {
            (
                proposed.sync_logs(),
                TxStartModel::Finished(
                    TxOutcomeModel::Committed {
                        begin_index: (node.log.len() + 1) as u64,
                        decide_index: (node.log.len() + 2) as u64,
                        tx_id,
                    },
                ),
                Seq::empty(),
            )
        } else {
            (
                proposed,
                TxStartModel::Finished(TxOutcomeModel::Aborted { tx_id, reason: not_staged_reason() }),
                Seq::empty(),
            )
        }
    } else if node.storage.failed() {
        (
            node,
            TxStartModel::Finished(TxOutcomeModel::Aborted { tx_id, reason: not_staged_reason() }),
            Seq::empty(),
        )
    } else {
        let proposed = node.propose(begin);
        (
            proposed.sync_logs(),
            TxStartModel::Voting(
                TxRoundModel {
                    tx_id,
                    begin_index: (node.log.len() + 1) as u64,
                    peers: node.peers,
                    started: node.clock.now,
                },
            ),
            proposed.outbound(),
        )
    }
}

proof fn pair_facts(node: NodeModel, first: CommandModel, second: CommandModel)
    ensures
        ({
            let after = node.propose_batch(seq![first, second]);
            &&& after.log.len() <= node.log.len() + 2
            &&& after.next_index == node.next_index
            &&& after.peers == node.peers
        }),
{
    reveal_with_fuel(NodeModel::appended_all, 3);
    assert(seq![first, second].drop_last() =~= seq![first]);
    assert(seq![first].drop_last() =~= Seq::<CommandModel>::empty());
}

/// Begins a transaction, and returns what to send to the peers.
pub fn begin_tx(node: &mut RaftNode, tx_id: String, ops: Vec<TxOp>) -> (begun: (TxStart, Outbound))
    requires
        old(node)@.log.len() + 3 <= usize::MAX,
        old(node)@.indices_ok(),
    ensures
        (final(node)@, begun.0.deep_view(), begun.1.deep_view()) == tx_begun(old(node)@, tx_id@, ops.deep_view()),
{
    let none: Outbound = Vec::new();
    assert(none.deep_view() =~= Seq::<(Seq<char>, AppendEntriesArgsModel)>::empty());
    if node.state != NodeState::Leader {
        return (TxStart::Finished(TxOutcome::NotLeader { tx_id }), none);
    }
    let len: u64 = node.log.len() as u64;
    if node.is_single_node() {
        let begin = Command::BeginTx { tx_id: tx_id.clone(), ops };
        let commit = Command::DecideTx { tx_id: tx_id.clone(), decision: TxDecision::Commit };
        let mut commands: Vec<Command> = Vec::new();
        let ghost models = seq![begin.deep_view(), commit.deep_view()];
        commands.push(begin);
        commands.push(commit);
        proof {
            assert(commands.deep_view() =~= models);
            pair_facts(node@, models[0], models[1]);
        }
        let accepted = node.propose_batch(commands);
        if accepted {
            let messages = node.sync_logs();
            assert(messages.deep_view() =~= Seq::<(Seq<char>, AppendEntriesArgsModel)>::empty());
            return (
                TxStart::Finished(TxOutcome::Committed { begin_index: len + 1, decide_index: len + 2, tx_id }),
                messages,
            );
        }
        return (
            TxStart::Finished(
                TxOutcome::Aborted { tx_id, reason: "the transaction could not be written to the log".to_owned() },
            ),
            none,
        );
    }
    let peers = node.peers.duplicate();
    if !node.propose(Command::BeginTx { tx_id: tx_id.clone(), ops }) {
        return (
            TxStart::Finished(
                TxOutcome::Aborted { tx_id, reason: "the transaction could not be written to the log".to_owned() },
            ),
            none,
        );
    }
    let started = node.clock.now;
    let messages = node.sync_logs();
    (TxStart::Voting(TxRound { tx_id, begin_index: len + 1, peers, started }), messages)
}

// ---- the vote ----

/// What a peer said to a transaction.
#[derive(Debug, Clone, PartialEq)]
pub enum PeerVote {
    Yes,
    /// It refused, for that reason.
    No(String),
    /// It did not answer, for that reason.
    Failed(String),
}

pub enum PeerVoteModel {
    Yes,
    No(Seq<char>),
    Failed(Seq<char>),
}

impl DeepView for PeerVote {
    type V = PeerVoteModel;

    open spec fn deep_view(&self) -> PeerVoteModel {
        match self {
            PeerVote::Yes => PeerVoteModel::Yes,
            PeerVote::No(reason) => PeerVoteModel::No(reason@),
            PeerVote::Failed(reason) => PeerVoteModel::Failed(reason@),
        }
    }
}

/// What a peer's answer says to a transaction.
pub open spec fn answered(response: VoteResponseModel) -> PeerVoteModel {
    if response.vote_granted {
        PeerVoteModel::Yes
    } else {
        PeerVoteModel::No(response.reason)
    }
}

impl PeerVote {
    /// What a peer's answer says to a transaction.
    pub fn answered(response: VoteResponse) -> (vote: PeerVote)
        ensures
            vote.deep_view() == answered(response.deep_view()),
    {
        if response.vote_granted {
            PeerVote::Yes
        } else {
            PeerVote::No(response.reason)
        }
    }
}

/// Why a peer's vote does not count as a yes.
pub open spec fn objection(votes: Map<Seq<char>, PeerVoteModel>, peer: Seq<char>) -> Option<Seq<char>> {
    if !votes.contains_key(peer) {
        Some("no vote from "@ + peer)
    } else {
        match votes[peer] {
            PeerVoteModel::Yes => None,
            PeerVoteModel::No(reason) => Some("vote no from "@ + peer + ": "@ + reason),
            PeerVoteModel::Failed(reason) => Some("no vote from "@ + peer + ": "@ + reason),
        }
    }
}

/// The first objection of the peers, none if all said yes.
pub open spec fn first_objection(peers: Seq<Seq<char>>, votes: Map<Seq<char>, PeerVoteModel>) -> Option<Seq<char>>
    decreases peers.len(),
{
    if peers.len() == 0 {
        None
    } else {
        match objection(votes, peers[0]) {
            Some(reason) => Some(reason),
            None => first_objection(peers.drop_first(), votes),
        }
    }
}

/// The highest index that a peer is known to hold.
pub open spec fn held_by(node: NodeModel, peer: Seq<char>) -> u64 {
    if node.match_index.contains_key(peer) {
        node.match_index[peer]
    } else {
        0
    }
}

/// Every peer holds the entry that stages the transaction.
pub open spec fn replicated(node: NodeModel, round: TxRoundModel) -> bool {
    forall|i: int| 0 <= i < round.peers.len() ==> held_by(node, #[trigger] round.peers[i]) >= round.begin_index
}

/// The vote can begin: every peer holds the entry that stages the transaction,
/// or that has been waited for long enough.
pub open spec fn vote_is_due(node: NodeModel, round: TxRoundModel) -> bool {
    replicated(node, round) || node.clock.now.nanos >= round.started.nanos + STAGING_TIMEOUT_SECS * 1_000_000_000
}

/// The leader's request for votes.
pub open spec fn vote_request(node: NodeModel, tx_id: Seq<char>) -> VoteRequestModel {
    let (last_log_index, last_log_term) = node.last_log_info();
    VoteRequestModel { term: node.current_term, tx_id, last_log_index, last_log_term }
}

/// The end of a transaction that was voted on.
pub open spec fn tx_finished(node: NodeModel, round: TxRoundModel, votes: Map<Seq<char>, PeerVoteModel>) -> (
    NodeModel,
    TxOutcomeModel,
    Seq<(Seq<char>, AppendEntriesArgsModel)>,
) {
    let objected = first_objection(round.peers, votes);
    let decision = if objected is None {
        TxDecision::Commit
    } else {
        TxDecision::Abort
    };
    let proposed = node.propose(CommandModel::DecideTx { tx_id: round.tx_id, decision });
    if node.state != NodeState::Leader {
        (node, TxOutcomeModel::NotLeader { tx_id: round.tx_id }, Seq::empty())
    } else if node.storage.failed() {
        (node, TxOutcomeModel::Aborted { tx_id: round.tx_id, reason: not_decided_reason() }, Seq::empty())
    } else {
        (
            proposed.sync_logs(),
            match objected {
                None => TxOutcomeModel::Committed {
                    begin_index: round.begin_index,
                    decide_index: (node.log.len() + 1) as u64,
                    tx_id: round.tx_id,
                },
                Some(reason) => TxOutcomeModel::Aborted { tx_id: round.tx_id, reason },
            },
            proposed.outbound(),
        )
    }
}

impl TxRound {
    /// Whether every peer holds the entry that stages the transaction.
    pub fn replicated(&self, node: &RaftNode) -> (everywhere: bool)
        ensures
            everywhere == replicated(node@, self.deep_view()),
    {
        let ghost round = self.deep_view();
        let mut i: usize = 0;
        while i < self.peers.len()
            invariant
                i <= self.peers@.len(),
                round == self.deep_view(),
                forall|j: int| 0 <= j < i ==> held_by(node@, #[trigger] round.peers[j]) >= round.begin_index,
            decreases self.peers@.len() - i,
        {
            assert(round.peers[i as int] == self.peers@[i as int]@);
            if node.match_index_for(self.peers[i].as_str()) < self.begin_index {
                return false;
            }
            i = i + 1;
        }
        true
    }

    /// Whether the vote can begin: every peer holds the entry that stages the
    /// transaction, or that has been waited for long enough.
    pub fn vote_is_due(&self, node: &RaftNode) -> (due: bool)
        ensures
            due == vote_is_due(node@, self.deep_view()),
    {
        let limit: Duration = Duration::from_secs(STAGING_TIMEOUT_SECS);
        self.replicated(node) || node.clock.now.since(self.started).nanos >= limit.nanos
    }

    /// The request for the peers' votes.
    pub fn vote_request(&self, node: &RaftNode) -> (request: VoteRequest)
        ensures
            request.deep_view() == vote_request(node@, self.tx_id@),
    {
        let (last_log_index, last_log_term) = node.get_last_log_info();
        VoteRequest { term: node.current_term, tx_id: self.tx_id.clone(), last_log_index, last_log_term }
    }

    /// Why a peer's vote does not count as a yes.
    fn objection(votes: &TextMap<PeerVote>, peer: &String) -> (reason: Option<String>)
        ensures
            reason.deep_view() == objection(votes@, peer@),
    {
        match votes.get(peer.as_str()) {
            None => {
                let mut text = "no vote from ".to_owned();
                text.append(peer.as_str());
                Some(text)
            },
            Some(PeerVote::Yes) => None,
            Some(PeerVote::No(reason)) => {
                let mut text = "vote no from ".to_owned();
                text.append(peer.as_str());
                text.append(": ");
                text.append(reason.as_str());
                Some(text)
            },
            Some(PeerVote::Failed(reason)) => {
                let mut text = "no vote from ".to_owned();
                text.append(peer.as_str());
                text.append(": ");
                text.append(reason.as_str());
                Some(text)
            },
        }
    }

    /// The first objection of the peers, none if all said yes.
    pub fn first_objection(&self, votes: &TextMap<PeerVote>) -> (reason: Option<String>)
        ensures
            reason.deep_view() == first_objection(self.peers.deep_view(), votes@),
    {
        let ghost peers = self.peers.deep_view();
        let mut i: usize = 0;
        assert(peers.skip(0) =~= peers);
        while i < self.peers.len()
            invariant
                i <= self.peers@.len(),
                peers == self.peers.deep_view(),
                first_objection(peers, votes@) == first_objection(peers.skip(i as int), votes@),
            decreases self.peers@.len() - i,
        {
            proof {
                assert(peers.skip(i as int)[0] == self.peers@[i as int]@);
                assert(peers.skip(i as int).drop_first() =~= peers.skip(i + 1));
            }
            match TxRound::objection(votes, &self.peers[i]) {
                Some(reason) => {
                    return Some(reason);
                },
                None => {},
            }
            i = i + 1;
        }
        None
    }

    /// Decides the transaction: it commits if every peer said yes, and aborts
    /// otherwise.
    pub fn finish(self, node: &mut RaftNode, votes: &TextMap<PeerVote>) -> (finished: (TxOutcome, Outbound))
        requires
            old(node)@.log.len() + 2 <= usize::MAX,
            old(node)@.indices_ok(),
        ensures
            (final(node)@, finished.0.deep_view(), finished.1.deep_view()) == tx_finished(
                old(node)@,
                self.deep_view(),
                votes@,
            ),
    {
        let none: Outbound = Vec::new();
        assert(none.deep_view() =~= Seq::<(Seq<char>, AppendEntriesArgsModel)>::empty());
        if node.state != NodeState::Leader {
            return (TxOutcome::NotLeader { tx_id: self.tx_id }, none);
        }
        let objected = self.first_objection(votes);
        let decision = match &objected {
            None => TxDecision::Commit,
            Some(_) => TxDecision::Abort,
        };
        let len: u64 = node.log.len() as u64;
        if !node.propose(Command::DecideTx { tx_id: self.tx_id.clone(), decision }) {
            return (
                TxOutcome::Aborted {
                    tx_id: self.tx_id,
                    reason: "the decision could not be written to the log".to_owned(),
                },
                none,
            );
        }
        let messages = node.sync_logs();
        let outcome = match objected {
            None => TxOutcome::Committed {
                begin_index: self.begin_index,
                decide_index: len + 1,
                tx_id: self.tx_id,
            },
            Some(reason) => TxOutcome::Aborted { tx_id: self.tx_id, reason },
        };
        (outcome, messages)
    }
}

// ---- transactions that take too long ----

/// A transaction is aborted because it took too long, if the log has room.
pub open spec fn timed_out(node: NodeModel, tx_id: Seq<char>) -> NodeModel {
    let (next, proposed) = node.propose_abort_tx(tx_id);
    if node.log.len() >= usize::MAX {
        node
    } else if proposed is Ok {
        next.timeout_abort_counted()
    } else {
        next
    }
}

/// Transactions are aborted one after the other because they took too long.
pub open spec fn all_timed_out(node: NodeModel, tx_ids: Seq<Seq<char>>) -> NodeModel
    decreases tx_ids.len(),
{
    if tx_ids.len() == 0 {
        node
    } else {
        timed_out(all_timed_out(node, tx_ids.drop_last()), tx_ids.last())
    }
}

/// Aborts every transaction that has been staged for longer than `threshold`,
/// in the order of their ids, and returns their ids. Only a leader does.
pub fn sweep(node: &mut RaftNode, threshold: Duration) -> (tx_ids: Vec<String>)
    ensures
        old(node)@.state != NodeState::Leader ==> tx_ids@.len() == 0,
        old(node)@.state == NodeState::Leader ==> {
            &&& crate::text_map::ascending(tx_ids.deep_view())
            &&& forall|id: Seq<char>|
                tx_ids.deep_view().contains(id) <==> (#[trigger] old(node)@.store.pending.contains_key(id)
                    && crate::state_machine::older_than(
                    old(node)@.store.pending[id],
                    threshold.nanos as int / 1_000_000,
                    old(node)@.clock.unix_ms,
                ))
        },
        final(node)@ == all_timed_out(old(node)@, tx_ids.deep_view()),
{
    if node.state != NodeState::Leader {
        let none: Vec<String> = Vec::new();
        assert(none.deep_view() =~= Seq::<Seq<char>>::empty());
        return none;
    }
    let tx_ids = node.pending_txs_older_than(threshold);
    let ghost ids = tx_ids.deep_view();
    let ghost before = node@;
    let mut i: usize = 0;
    assert(ids.take(0) =~= Seq::<Seq<char>>::empty());
    while i < tx_ids.len()
        invariant
            i <= tx_ids@.len(),
            ids == tx_ids.deep_view(),
            node@ == all_timed_out(before, ids.take(i as int)),
        decreases tx_ids@.len() - i,
    {
        proof {
            assert(ids.take(i + 1).drop_last() =~= ids.take(i as int));
            assert(ids.take(i + 1).last() == tx_ids@[i as int]@);
        }
        if node.log.len() < usize::MAX {
            match node.propose_abort_tx(tx_ids[i].as_str()) {
                Ok(_) => {
                    node.count_timeout_abort();
                },
                Err(_) => {},
            }
        }
        i = i + 1;
    }
    assert(ids.take(ids.len() as int) =~= ids);
    tx_ids
}

// ---- laws ----

proof fn no_objection_means_all_yes(peers: Seq<Seq<char>>, votes: Map<Seq<char>, PeerVoteModel>)
    ensures
        first_objection(peers, votes) is None <==> forall|i: int|
            0 <= i < peers.len() ==> votes.contains_key(#[trigger] peers[i]) && votes[peers[i]] is Yes,
    decreases peers.len(),
{
    if peers.len() > 0 {
        let rest = peers.drop_first();
        no_objection_means_all_yes(rest, votes);
        assert(forall|i: int| 0 <= i < rest.len() ==> rest[i] == #[trigger] peers[i + 1]);
        if objection(votes, peers[0]) is None && first_objection(rest, votes) is None {
            assert forall|i: int| 0 <= i < peers.len() implies votes.contains_key(#[trigger] peers[i])
                && votes[peers[i]] is Yes by {
                if i > 0 {
                    assert(rest[i - 1] == peers[i]);
                }
            }
        }
        if forall|i: int|
            0 <= i < peers.len() ==> votes.contains_key(#[trigger] peers[i]) && votes[peers[i]] is Yes {
            assert(votes[peers[0]] is Yes);
            assert forall|i: int| 0 <= i < rest.len() implies votes.contains_key(#[trigger] rest[i])
                && votes[rest[i]] is Yes by {
                assert(rest[i] == peers[i + 1]);
            }
        }
    }
}

/// A transaction that was voted on commits if and only if the leader still
/// leads, the decision could be logged, and every peer said yes.
pub proof fn commit_takes_every_vote(node: NodeModel, round: TxRoundModel, votes: Map<Seq<char>, PeerVoteModel>)
    ensures
        tx_finished(node, round, votes).1 is Committed <==> {
            &&& node.state == NodeState::Leader
            &&& !node.storage.failed()
            &&& forall|i: int|
                0 <= i < round.peers.len() ==> votes.contains_key(#[trigger] round.peers[i])
                    && votes[round.peers[i]] is Yes
        },
{
    no_objection_means_all_yes(round.peers, votes);
}

/// The decision that stands in the log is the one that is reported.
pub proof fn decisions_are_logged(node: NodeModel, round: TxRoundModel, votes: Map<Seq<char>, PeerVoteModel>)
    requires
        node.state == NodeState::Leader,
        !node.storage.failed(),
    ensures
        ({
            let decision = if tx_finished(node, round, votes).1 is Committed {
                TxDecision::Commit
            } else {
                TxDecision::Abort
            };
            let proposed = node.propose(CommandModel::DecideTx { tx_id: round.tx_id, decision });
            &&& tx_finished(node, round, votes).0 == proposed.sync_logs()
            &&& proposed.log == node.log.push(node.next_entry(CommandModel::DecideTx { tx_id: round.tx_id, decision }))
        }),
{
}

/// Without peers a transaction commits at once: it is staged and decided by two
/// entries that follow each other.
pub proof fn lone_leaders_commit_at_once(node: NodeModel, tx_id: Seq<char>, ops: Seq<TxOpModel>)
    requires
        node.state == NodeState::Leader,
        node.peers.len() == 0,
        node.has_room(2),
        node.log.len() + 2 <= u64::MAX,
    ensures
        tx_begun(node, tx_id, ops).1 matches TxStartModel::Finished(TxOutcomeModel::Committed {
            begin_index,
            decide_index,
            tx_id: t,
        }) && begin_index == node.log.len() + 1 && decide_index == begin_index + 1 && t == tx_id,
{
}

/// A leader whose medium takes every write logs an abort for each transaction
/// that took too long, in order, and what clients read stays as it is.
pub proof fn overdue_transactions_are_aborted(node: NodeModel, tx_ids: Seq<Seq<char>>)
    requires
        node.state == NodeState::Leader,
        node.storage.fault is None,
        node.log.len() + tx_ids.len() <= usize::MAX,
        forall|i: int| 0 <= i < tx_ids.len() ==> node.store.pending.contains_key(#[trigger] tx_ids[i]),
    ensures
        ({
            let after = all_timed_out(node, tx_ids);
            &&& after.state == node.state
            &&& after.current_term == node.current_term
            &&& after.store == node.store
            &&& after.storage.fault is None
            &&& after.log.len() == node.log.len() + tx_ids.len()
            &&& after.log.take(node.log.len() as int) == node.log
            &&& forall|i: int|
                0 <= i < tx_ids.len() ==> after.log[node.log.len() + i] == (LogEntryModel {
                    term: node.current_term,
                    index: (node.log.len() + i + 1) as usize,
                    command: CommandModel::DecideTx { tx_id: #[trigger] tx_ids[i], decision: TxDecision::Abort },
                })
        }),
    decreases tx_ids.len(),
{
    if tx_ids.len() > 0 {
        let rest = tx_ids.drop_last();
        assert forall|i: int| 0 <= i < rest.len() implies node.store.pending.contains_key(#[trigger] rest[i]) by {
            assert(rest[i] == tx_ids[i]);
        }
        overdue_transactions_are_aborted(node, rest);
        let before = all_timed_out(node, rest);
        let after = all_timed_out(node, tx_ids);
        assert(tx_ids.last() == tx_ids[tx_ids.len() - 1]);
        assert(after.log =~= before.log.push(after.log.last()));
        assert(after.log.take(node.log.len() as int) =~= before.log.take(node.log.len() as int));
        assert forall|i: int| 0 <= i < tx_ids.len() implies after.log[node.log.len() + i] == (LogEntryModel {
            term: node.current_term,
            index: (node.log.len() + i + 1) as usize,
            command: CommandModel::DecideTx { tx_id: #[trigger] tx_ids[i], decision: TxDecision::Abort },
        }) by {
            if i < rest.len() {
                assert(before.log[node.log.len() + i] == after.log[node.log.len() + i]);
                assert(rest[i] == tx_ids[i]);
            }
        }
    } else {
        assert(node.log.take(node.log.len() as int) =~= node.log);
    }
}

/// A node that does not lead aborts nothing.
pub proof fn followers_abort_nothing(node: NodeModel, tx_ids: Seq<Seq<char>>)
    requires
        node.state != NodeState::Leader,
    ensures
        all_timed_out(node, tx_ids) == node,
    decreases tx_ids.len(),
{
    if tx_ids.len() > 0 {
        followers_abort_nothing(node, tx_ids.drop_last());
    }
}

// ---- whom a transaction asks, and what it waits for ----

/// A transaction that goes to the vote asks the peers of the leader, all of them
/// and no one else. Its writes are staged by one entry of the leader's term at
/// the end of the log, which every peer is sent; the round keeps that entry's
/// index and the time.
pub proof fn transactions_ask_every_peer(node: NodeModel, tx_id: Seq<char>, ops: Seq<TxOpModel>, peer: Seq<char>)
    requires
        node.state == NodeState::Leader,
        node.peers.len() > 0,
        !node.storage.failed(),
        node.log.len() < usize::MAX,
    ensures
        ({
            let (after, start, messages) = tx_begun(node, tx_id, ops);
            &&& after.log == node.log.push(
                (LogEntryModel {
                    term: node.current_term,
                    index: (node.log.len() + 1) as usize,
                    command: (CommandModel::BeginTx { tx_id, ops }),
                }),
            )
            &&& after == (NodeModel { log: after.log, storage: after.storage, metrics: after.metrics, ..node })
            &&& start matches TxStartModel::Voting(round) && {
                &&& round.tx_id == tx_id
                &&& round.begin_index == node.log.len() + 1
                &&& round.started == node.clock.now
                &&& round.peers.len() == node.peers.len()
                &&& forall|i: int| 0 <= i < node.peers.len() ==> #[trigger] round.peers[i] == node.peers[i]
                &&& round.peers.contains(peer) <==> node.peers.contains(peer)
            }
            &&& messages.len() == node.peers.len()
            &&& forall|i: int|
                0 <= i < messages.len() ==> (#[trigger] messages[i]) == (node.peers[i], after.append_args(node.peers[i]))
        }),
{
    let proposed = node.propose(CommandModel::BeginTx { tx_id, ops });
    assert(proposed.peers == node.peers);
}

/// From its beginning to its end: a transaction that a leader began and that was
/// voted on commits only if every peer that the leader had when it began voted
/// yes, and commits if every one of them did, as long as the node still leads
/// and its medium takes the decision.
pub proof fn transactions_take_every_peer_of_the_leader(
    node: NodeModel,
    tx_id: Seq<char>,
    ops: Seq<TxOpModel>,
    later: NodeModel,
    votes: Map<Seq<char>, PeerVoteModel>,
)
    requires
        tx_begun(node, tx_id, ops).1 is Voting,
    ensures
        ({
            let round = tx_begun(node, tx_id, ops).1->Voting_0;
            let outcome = tx_finished(later, round, votes).1;
            let all = forall|peer: Seq<char>| #[trigger]
                node.peers.contains(peer) ==> votes.contains_key(peer) && votes[peer] is Yes;
            &&& outcome is Committed ==> all && later.state == NodeState::Leader
            &&& all && later.state == NodeState::Leader && !later.storage.failed() ==> outcome is Committed
            &&& outcome matches TxOutcomeModel::Committed { begin_index, decide_index, tx_id: t } ==> t == tx_id
                && begin_index == (node.log.len() + 1) as u64 && decide_index == (later.log.len() + 1) as u64
        }),
{
    let round = tx_begun(node, tx_id, ops).1->Voting_0;
    assert(round.peers == node.peers);
    commit_takes_every_vote(later, round, votes);
    if tx_finished(later, round, votes).1 is Committed {
        assert forall|peer: Seq<char>| #[trigger] node.peers.contains(peer) implies votes.contains_key(peer)
            && votes[peer] is Yes by {
            let i = choose|i: int| 0 <= i < node.peers.len() && node.peers[i] == peer;
            assert(votes.contains_key(round.peers[i]));
        }
    }
    if forall|peer: Seq<char>| #[trigger]
        node.peers.contains(peer) ==> votes.contains_key(peer) && votes[peer] is Yes {
        assert forall|i: int| 0 <= i < round.peers.len() implies votes.contains_key(#[trigger] round.peers[i])
            && votes[round.peers[i]] is Yes by {
            assert(node.peers.contains(round.peers[i]));
        }
    }
}

/// The end of a transaction stands in the log before it is told: one entry at
/// its end, a commit where the outcome is one, and an abort otherwise. Nothing
/// is logged, and nothing sent, by a node that no longer leads or whose medium
/// takes no writes.
pub proof fn outcomes_match_the_log(
    node: NodeModel,
    round: TxRoundModel,
    votes: Map<Seq<char>, PeerVoteModel>,
)
    requires
        round.peers.len() > 0,
        node.peers.len() > 0,
    ensures
        ({
            let (after, outcome, messages) = tx_finished(node, round, votes);
            let told = outcome is Committed || (outcome is Aborted && !node.storage.failed());
            &&& told <==> node.state == NodeState::Leader && !node.storage.failed()
            &&& outcome is NotLeader <==> node.state != NodeState::Leader
            &&& told ==> after.log == node.log.push(
                (LogEntryModel {
                    term: node.current_term,
                    index: (node.log.len() + 1) as usize,
                    command: (CommandModel::DecideTx {
                        tx_id: round.tx_id,
                        decision: if outcome is Committed {
                            TxDecision::Commit
                        } else {
                            TxDecision::Abort
                        },
                    }),
                }),
            )
            &&& told ==> after == (NodeModel {
                log: after.log,
                storage: after.storage,
                metrics: after.metrics,
                ..node
            })
            &&& told ==> messages.len() == node.peers.len() && forall|i: int|
                0 <= i < messages.len() ==> (#[trigger] messages[i]) == (node.peers[i], after.append_args(node.peers[i]))
            &&& !told ==> after == node && messages.len() == 0
        }),
{
}

proof fn objections_come_in_order(peers: Seq<Seq<char>>, votes: Map<Seq<char>, PeerVoteModel>, i: int)
    requires
        0 <= i < peers.len(),
        forall|j: int| 0 <= j < i ==> votes.contains_key(#[trigger] peers[j]) && votes[peers[j]] is Yes,
        !(votes.contains_key(peers[i]) && votes[peers[i]] is Yes),
    ensures
        first_objection(peers, votes) == objection(votes, peers[i]),
    decreases i,
{
    if i > 0 {
        let rest = peers.drop_first();
        assert(votes.contains_key(peers[0]) && votes[peers[0]] is Yes);
        assert forall|j: int| 0 <= j < i - 1 implies votes.contains_key(#[trigger] rest[j])
            && votes[rest[j]] is Yes by {
            assert(rest[j] == peers[j + 1]);
        }
        objections_come_in_order(rest, votes, i - 1);
    }
}

/// A transaction that is voted down tells of the first peer, in their order, that
/// did not say yes, and of what it said.
pub proof fn aborts_name_the_first_objector(
    node: NodeModel,
    round: TxRoundModel,
    votes: Map<Seq<char>, PeerVoteModel>,
    i: int,
)
    requires
        node.state == NodeState::Leader,
        !node.storage.failed(),
        0 <= i < round.peers.len(),
        forall|j: int| 0 <= j < i ==> votes.contains_key(#[trigger] round.peers[j]) && votes[round.peers[j]] is Yes,
        !(votes.contains_key(round.peers[i]) && votes[round.peers[i]] is Yes),
    ensures
        ({
            let peer = round.peers[i];
            tx_finished(node, round, votes).1 == (TxOutcomeModel::Aborted {
                tx_id: round.tx_id,
                reason: if !votes.contains_key(peer) {
                    "no vote from "@ + peer
                } else {
                    match votes[peer] {
                        PeerVoteModel::No(reason) => "vote no from "@ + peer + ": "@ + reason,
                        PeerVoteModel::Failed(reason) => "no vote from "@ + peer + ": "@ + reason,
                        PeerVoteModel::Yes => Seq::empty(),
                    }
                },
            })
        }),
{
    objections_come_in_order(round.peers, votes, i);
}

/// The vote begins when every peer is known to hold the staging entry, or five
/// seconds after it was written, and not earlier.
pub proof fn votes_wait_for_the_entry(node: NodeModel, round: TxRoundModel)
    requires
        round.begin_index > 0,
    ensures
        ({
            let everywhere = forall|peer: Seq<char>| #[trigger]
                round.peers.contains(peer) ==> node.match_index.contains_key(peer) && round.begin_index
                    <= node.match_index[peer];
            vote_is_due(node, round) <==> everywhere || round.started.nanos + 5_000_000_000 <= node.clock.now.nanos
        }),
{
    let everywhere = forall|peer: Seq<char>| #[trigger]
        round.peers.contains(peer) ==> node.match_index.contains_key(peer) && round.begin_index
            <= node.match_index[peer];
    if everywhere {
        assert forall|i: int| 0 <= i < round.peers.len() implies held_by(node, #[trigger] round.peers[i])
            >= round.begin_index by {
            assert(round.peers.contains(round.peers[i]));
        }
    }
    if replicated(node, round) {
        assert forall|peer: Seq<char>| #[trigger] round.peers.contains(peer) implies node.match_index.contains_key(peer)
            && round.begin_index <= node.match_index[peer] by {
            let i = choose|i: int| 0 <= i < round.peers.len() && round.peers[i] == peer;
            assert(held_by(node, round.peers[i]) >= round.begin_index);
        }
    }
}

/// A request for votes carries the leader's term and the end of its log, and a
/// peer's answer counts as it was meant.
pub proof fn votes_are_asked_at_the_end_of_the_log(node: NodeModel, tx_id: Seq<char>, response: VoteResponseModel)
    requires
        node.log.len() > 0,
    ensures
        ({
            let request = vote_request(node, tx_id);
            let last = node.log[node.log.len() - 1];
            &&& request.term == node.current_term
            &&& request.tx_id == tx_id
            &&& request.last_log_index == last.index as u64
            &&& request.last_log_term == last.term
        }),
        answered(response) is Yes <==> response.vote_granted,
        !response.vote_granted ==> answered(response) == PeerVoteModel::No(response.reason),
{
}

/// A leader without peers logs the transaction and its commit in one go, or
/// reports that it could not.
pub proof fn lone_leaders_log_both_entries(node: NodeModel, tx_id: Seq<char>, ops: Seq<TxOpModel>)
    requires
        node.state == NodeState::Leader,
        node.peers.len() == 0,
        node.storage.fault is None,
        node.log.len() + 2 <= usize::MAX,
    ensures
        ({
            let proposed = node.propose_batch(
                seq![
                    (CommandModel::BeginTx { tx_id, ops }),
                    (CommandModel::DecideTx { tx_id, decision: TxDecision::Commit }),
                ],
            );
            &&& tx_begun(node, tx_id, ops).0 == proposed.sync_logs()
            &&& proposed.log.len() == node.log.len() + 2
            &&& proposed.log.take(node.log.len() as int) == node.log
            &&& proposed.log[node.log.len() as int] == (LogEntryModel {
                term: node.current_term,
                index: (node.log.len() + 1) as usize,
                command: (CommandModel::BeginTx { tx_id, ops }),
            })
            &&& proposed.log[(node.log.len() + 1) as int] == (LogEntryModel {
                term: node.current_term,
                index: (node.log.len() + 2) as usize,
                command: (CommandModel::DecideTx { tx_id, decision: TxDecision::Commit }),
            })
        }),
{
    reveal_with_fuel(NodeModel::appended_all, 3);
    let first = CommandModel::BeginTx { tx_id, ops };
    let second = CommandModel::DecideTx { tx_id, decision: TxDecision::Commit };
    assert(seq![first, second].drop_last() =~= seq![first]);
    assert(seq![first].drop_last() =~= Seq::<CommandModel>::empty());
    let proposed = node.propose_batch(seq![first, second]);
    assert(proposed.log.take(node.log.len() as int) =~= node.log);
}

/// A node that does not lead begins nothing, and says so.
pub proof fn followers_begin_nothing(node: NodeModel, tx_id: Seq<char>, ops: Seq<TxOpModel>)
    requires
        node.state != NodeState::Leader,
    ensures
        tx_begun(node, tx_id, ops).0 == node,
        tx_begun(node, tx_id, ops).1 == TxStartModel::Finished((TxOutcomeModel::NotLeader { tx_id })),
        tx_begun(node, tx_id, ops).2.len() == 0,
{
}

/// Each transaction that is aborted because it took too long is counted, once,
/// as that and as nothing else.
pub proof fn timeouts_are_counted(node: NodeModel, tx_id: Seq<char>)
    requires
        node.state == NodeState::Leader,
        node.storage.fault is None,
        node.log.len() < usize::MAX,
        node.store.pending.contains_key(tx_id),
        node.metrics matches Some(m) && m.tx_timeout_aborted_total < u64::MAX,
    ensures
        timed_out(node, tx_id).metrics matches Some(m) && m.tx_timeout_aborted_total
            == node.metrics->0.tx_timeout_aborted_total + 1 && m.tx_admin_aborted_total
            == node.metrics->0.tx_admin_aborted_total,
{
}

/// A leader whose medium has no room for a transaction reports it as aborted,
/// with that reason, and commits nothing of it; the same holds of a decision.
pub proof fn transactions_without_room_are_aborted(
    node: NodeModel,
    tx_id: Seq<char>,
    ops: Seq<TxOpModel>,
    round: TxRoundModel,
    votes: Map<Seq<char>, PeerVoteModel>,
)
    requires
        node.state == NodeState::Leader,
        node.storage.fault matches Some(f) && f.appends_left == 0,
    ensures
        tx_begun(node, tx_id, ops).1 == TxStartModel::Finished(
            (TxOutcomeModel::Aborted { tx_id, reason: "the transaction could not be written to the log"@ }),
        ),
        tx_begun(node, tx_id, ops).0 == node,
        tx_finished(node, round, votes).1 == (TxOutcomeModel::Aborted {
            tx_id: round.tx_id,
            reason: "the decision could not be written to the log"@,
        }),
        tx_finished(node, round, votes).0 == node,
{
    reveal_with_fuel(NodeModel::appended_all, 3);
}

} // verus!
