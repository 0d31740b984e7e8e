//! What a node answers to its clients.
//!
//! A request is dispatched to the node. It is answered at once, or waits for
//! something: the confirmation of a read, the commit of a membership change,
//! the votes on a transaction. The host polls what waits.

use crate::data::Same;
use crate::json::{boolean, number, object, put, text, JsonModel};
use crate::protocol::{
    AbortTxError, AbortTxErrorModel, Command, CommandModel, Configuration, MembershipError, MembershipErrorModel, ReadIndex,
    ServerId, ServerModel, TxOp,
};
use crate::raft::coordinator::{begin_tx, Outbound, TxOutcome, TxOutcomeModel, TxRound, TxRoundModel, TxStart, TxStartModel};
use crate::raft::model::NodeModel;
use crate::raft::node::{NodeState, RaftNode};
use crate::raft::rpc::AppendEntriesArgsModel;
use crate::text::push_decimal;
use crate::time::{Duration, Instant};
use serde_json::Value;
use vstd::prelude::*;

verus! {

broadcast use vstd::string::group_string_axioms;

/// How long a read waits for its confirmation, in milliseconds.
pub const READ_TIMEOUT_MS: u64 = 2_000;

/// How long each phase of a membership change is waited for, in seconds.
pub const CHANGE_TIMEOUT_SECS: u64 = 10;

// ---- replies ----

/// The text of a refusal by a node that does not lead.
pub open spec fn not_leader_text() -> Seq<char> {
    "Not a leader. Please connect to the leader node."@
}

/// The refusal of a node that does not lead.
pub open spec fn not_leader_reply() -> JsonModel {
    JsonModel::object().with("error"@, JsonModel::Text(not_leader_text()))
}

fn not_leader() -> (reply: Value)
    ensures
        crate::json::json_of(reply) == not_leader_reply(),
{
    let mut reply = object();
    put(&mut reply, "error", text("Not a leader. Please connect to the leader node."));
    reply
}

/// A refusal with a message.
pub open spec fn error_reply(message: Seq<char>) -> JsonModel {
    JsonModel::object().with("status"@, JsonModel::Text("error"@)).with("message"@, JsonModel::Text(message))
}

fn error_with(message: &str) -> (reply: Value)
    ensures
        crate::json::json_of(reply) == error_reply(message@),
{
    let mut reply = object();
    put(&mut reply, "status", text("error"));
    put(&mut reply, "message", text(message));
    reply
}

/// The reply to a line that is no command.
pub fn invalid_json_reply(fault: &str) -> (reply: Value)
    ensures
        crate::json::json_of(reply) == error_reply("Invalid JSON: "@ + fault@),
{
    let mut message = "Invalid JSON: ".to_owned();
    message.append(fault);
    error_with(message.as_str())
}

/// The reply to a read.
pub open spec fn value_reply(value: Option<Seq<char>>) -> JsonModel {
    match value {
        Some(data) => JsonModel::object().with("status"@, JsonModel::Text("ok"@)).with("data"@, JsonModel::Text(data)),
        None => JsonModel::object().with("status"@, JsonModel::Text("not_found"@)),
    }
}

fn reply_with(value: Option<String>) -> (reply: Value)
    ensures
        crate::json::json_of(reply) == value_reply(value.deep_view()),
{
    let mut reply = object();
    match value {
        Some(data) => {
            put(&mut reply, "status", text("ok"));
            put(&mut reply, "data", text(data.as_str()));
        },
        None => {
            put(&mut reply, "status", text("not_found"));
        },
    }
    reply
}

/// The reply to a write that was logged at `index`.
pub open spec fn index_reply(index: u64) -> JsonModel {
    JsonModel::object().with("status"@, JsonModel::Text("ok"@)).with("index"@, JsonModel::Number(index))
}

/// The reply to a write that was not logged.
pub open spec fn failure_reply() -> JsonModel {
    JsonModel::object().with("status"@, JsonModel::Text("error"@))
}

/// A refusal with a code.
pub open spec fn coded_reply(code: Seq<char>) -> JsonModel {
    JsonModel::object().with("status"@, JsonModel::Text("error"@)).with("code"@, JsonModel::Text(code))
}

fn coded(code: &str) -> (reply: Value)
    ensures
        crate::json::json_of(reply) == coded_reply(code@),
{
    let mut reply = object();
    put(&mut reply, "status", text("error"));
    put(&mut reply, "code", text(code));
    reply
}

/// The reply to a membership change that was refused.
pub open spec fn membership_error_reply(error: MembershipErrorModel) -> JsonModel {
    match error {
        MembershipErrorModel::NotLeader => coded_reply("not_leader"@).with(
            "message"@,
            JsonModel::Text(not_leader_text()),
        ),
        MembershipErrorModel::AlreadyMember(id) => coded_reply("already_member"@).with("node_id"@, JsonModel::Text(id)),
        MembershipErrorModel::NotMember(id) => coded_reply("not_member"@).with("node_id"@, JsonModel::Text(id)),
        MembershipErrorModel::CannotRemoveSelf => coded_reply("cannot_remove_self"@).with(
            "message"@,
            JsonModel::Text("Refusing to remove the leader itself; do this on another node"@),
        ),
        MembershipErrorModel::CannotRemoveLastServer => coded_reply("cannot_remove_last_server"@).with(
            "message"@,
            JsonModel::Text("Refusing to remove the last server; the cluster would be unable to make progress"@),
        ),
        MembershipErrorModel::StorageError(message) => coded_reply("storage_error"@).with(
            "message"@,
            JsonModel::Text(message),
        ),
    }
}

/// The reply to an abort that was refused.
pub open spec fn abort_tx_error_reply(error: AbortTxErrorModel) -> JsonModel {
    match error {
        AbortTxErrorModel::NotLeader => coded_reply("not_leader"@).with(
            "message"@,
            JsonModel::Text(not_leader_text()),
        ),
        AbortTxErrorModel::NotFound(tx_id) => coded_reply("tx_not_found"@).with("tx_id"@, JsonModel::Text(tx_id)).with(
            "message"@,
            JsonModel::Text("tx_id is not in pending_txs; already committed/aborted or never existed"@),
        ),
        AbortTxErrorModel::StorageError(message) => coded_reply("storage_error"@).with(
            "message"@,
            JsonModel::Text(message),
        ),
    }
}

/// The reply to a transaction.
pub open spec fn tx_reply(outcome: TxOutcomeModel) -> JsonModel {
    match outcome {
        TxOutcomeModel::Committed { begin_index, decide_index, tx_id } => JsonModel::object().with(
            "status"@,
            JsonModel::Text("ok"@),
        ).with("tx_id"@, JsonModel::Text(tx_id)).with("decision"@, JsonModel::Text("commit"@)).with(
            "begin_index"@,
            JsonModel::Number(begin_index),
        ).with("decide_index"@, JsonModel::Number(decide_index)),
        TxOutcomeModel::Aborted { tx_id, reason } => JsonModel::object().with(
            "status"@,
            JsonModel::Text("aborted"@),
        ).with("tx_id"@, JsonModel::Text(tx_id)).with("reason"@, JsonModel::Text(reason)),
        TxOutcomeModel::NotLeader { tx_id } => JsonModel::object().with("status"@, JsonModel::Text("error"@)).with(
            "message"@,
            JsonModel::Text("not leader"@),
        ).with("tx_id"@, JsonModel::Text(tx_id)),
    }
}

/// The reply to a transaction that was aborted on request.
pub open spec fn aborted_reply(tx_id: Seq<char>, decide_index: u64) -> JsonModel {
    JsonModel::object().with("status"@, JsonModel::Text("ok"@)).with("tx_id"@, JsonModel::Text(tx_id)).with(
        "decision"@,
        JsonModel::Text("abort"@),
    ).with("decide_index"@, JsonModel::Number(decide_index))
}

// ---- what waits ----

/// A read that waits for its confirmation.
#[derive(Debug, Clone)]
pub struct PendingRead {
    pub key: String,
    pub read: ReadIndex,
    pub started: Instant,
}

pub struct PendingReadModel {
    pub key: Seq<char>,
    pub index: u64,
    pub issued_at: Instant,
    pub started: Instant,
}

impl DeepView for PendingRead {
    type V = PendingReadModel;

    open spec fn deep_view(&self) -> PendingReadModel {
        PendingReadModel {
            key: self.key@,
            index: self.read.index,
            issued_at: self.read.issued_at,
            started: self.started,
        }
    }
}

/// A change of the members.
#[derive(Debug, Clone, PartialEq)]
pub enum MemberChange {
    Added(String),
    Removed(String),
}

pub enum MemberChangeModel {
    Added(Seq<char>),
    Removed(Seq<char>),
}

impl DeepView for MemberChange {
    type V = MemberChangeModel;

    open spec fn deep_view(&self) -> MemberChangeModel {
        match self {
            MemberChange::Added(id) => MemberChangeModel::Added(id@),
            MemberChange::Removed(id) => MemberChangeModel::Removed(id@),
        }
    }
}

/// A membership change that waits: for the commit of its first entry, then for
/// that of its second one, which makes `members` the servers. `since` is when
/// the wait began.
#[derive(Debug, Clone, PartialEq)]
pub struct PendingChange {
    pub change: MemberChange,
    pub members: Vec<ServerId>,
    pub joint_index: u64,
    pub joint_committed: bool,
    pub since: Instant,
}

pub struct PendingChangeModel {
    pub change: MemberChangeModel,
    pub members: Seq<ServerModel>,
    pub joint_index: u64,
    pub joint_committed: bool,
    pub since: Instant,
}

impl DeepView for PendingChange {
    type V = PendingChangeModel;

    open spec fn deep_view(&self) -> PendingChangeModel {
        PendingChangeModel {
            change: self.change.deep_view(),
            members: self.members.deep_view(),
            joint_index: self.joint_index,
            joint_committed: self.joint_committed,
            since: self.since,
        }
    }
}

/// What follows on a request.
pub enum Next {
    /// The answer.
    Reply(Value),
    /// The request waits, see [`PendingRead::poll`].
    Read(PendingRead),
    /// The request waits, see [`PendingChange::poll`].
    Change(PendingChange),
    /// The request waits, see [`TxRound`] and [`tx_outcome_reply`].
    Vote(TxRound),
}

pub enum NextModel {
    Reply(JsonModel),
    Read(PendingReadModel),
    Change(PendingChangeModel),
    Vote(TxRoundModel),
}

impl DeepView for Next {
    type V = NextModel;

    open spec fn deep_view(&self) -> NextModel {
        match self {
            Next::Reply(value) => NextModel::Reply(crate::json::json_of(*value)),
            Next::Read(read) => NextModel::Read(read.deep_view()),
            Next::Change(change) => NextModel::Change(change.deep_view()),
            Next::Vote(round) => NextModel::Vote(round.deep_view()),
        }
    }
}

/// What a request does: the node after it, what follows, and what to send to
/// the peers.
pub struct Dispatched {
    pub node: NodeModel,
    pub next: NextModel,
    pub outbound: Seq<(Seq<char>, AppendEntriesArgsModel)>,
}

/// A request that is answered at once and sends nothing.
pub open spec fn answered(node: NodeModel, reply: JsonModel) -> Dispatched {
    Dispatched { node, next: NextModel::Reply(reply), outbound: Seq::empty() }
}

/// A write: it is logged and replicated.
#[verifier::opaque]
pub open spec fn mutation(node: NodeModel, command: CommandModel) -> Dispatched {
    let proposed = node.propose(command);
    if node.state == NodeState::Leader && !node.storage.failed() {
        Dispatched {
            node: proposed.sync_logs(),
            next: NextModel::Reply(index_reply((node.log.len() + 1) as u64)),
            outbound: proposed.outbound(),
        }
    } else {
        answered(proposed, failure_reply())
    }
}

/// The value of a key in the node's store.
pub open spec fn stored(node: NodeModel, key: Seq<char>) -> Option<Seq<char>> {
    if node.store.data.contains_key(key) {
        Some(node.store.data[key])
    } else {
        None
    }
}

/// A read. A leader without peers applies what it has committed and answers; a
/// leader with peers anchors the read and waits until it is confirmed.
#[verifier::opaque]
pub open spec fn reading(node: NodeModel, key: Seq<char>) -> Dispatched {
    if node.state != NodeState::Leader {
        answered(node, not_leader_reply())
    } else if node.peers.len() == 0 {
        let applied = node.apply_logs();
        answered(applied, value_reply(stored(applied, key)))
    } else {
        Dispatched {
            node: node.sync_logs(),
            next: NextModel::Read(
                PendingReadModel {
                    key,
                    index: node.commit_index,
                    issued_at: node.clock.now,
                    started: node.clock.now,
                },
            ),
            outbound: node.outbound(),
        }
    }
}

/// A membership change that was proposed.
pub open spec fn changing(
    node: NodeModel,
    proposed: NodeModel,
    result: Result<u64, MembershipErrorModel>,
    change: MemberChangeModel,
    members: Seq<ServerModel>,
) -> Dispatched {
    match result {
        Ok(joint_index) => Dispatched {
            node: proposed.sync_logs(),
            next: NextModel::Change(
                PendingChangeModel { change, members, joint_index, joint_committed: false, since: node.clock.now },
            ),
            outbound: proposed.outbound(),
        },
        Err(error) => answered(proposed, membership_error_reply(error)),
    }
}

/// A server is added.
#[verifier::opaque]
pub open spec fn adding(node: NodeModel, server: ServerModel) -> Dispatched {
    let (proposed, result) = node.propose_add_node(server);
    let members = node.current_config.servers().push(server);
    changing(node, proposed, result, MemberChangeModel::Added(server.node_id), members)
}

/// A server is removed.
#[verifier::opaque]
pub open spec fn removing(node: NodeModel, node_id: Seq<char>) -> Dispatched {
    let (proposed, result) = node.propose_remove_node(node_id);
    let members = crate::raft::model::without_server(node.current_config.servers(), node_id);
    changing(node, proposed, result, MemberChangeModel::Removed(node_id), members)
}

/// A transaction is aborted on request.
#[verifier::opaque]
pub open spec fn aborting(node: NodeModel, tx_id: Seq<char>) -> Dispatched {
    let (proposed, result) = node.propose_abort_tx(tx_id);
    match result {
        Ok(decide_index) => answered(proposed.admin_abort_counted(), aborted_reply(tx_id, decide_index)),
        Err(error) => answered(proposed, abort_tx_error_reply(error).with("tx_id"@, JsonModel::Text(tx_id))),
    }
}

/// A transaction begins.
#[verifier::opaque]
pub open spec fn beginning(node: NodeModel, tx_id: Seq<char>, ops: Seq<crate::protocol::TxOpModel>) -> Dispatched {
    let (next, start, outbound) = crate::raft::coordinator::tx_begun(node, tx_id, ops);
    Dispatched {
        node: next,
        next: match start {
            TxStartModel::Finished(outcome) => NextModel::Reply(tx_reply(outcome)),
            TxStartModel::Voting(round) => NextModel::Vote(round),
        },
        outbound,
    }
}

/// What a node does with a client's command. Only a leader does anything.
pub open spec fn dispatched(node: NodeModel, command: CommandModel) -> Dispatched {
    if node.state != NodeState::Leader {
        answered(node, not_leader_reply())
    } else {
        match command {
            CommandModel::SetKey { .. } => mutation(node, command),
            CommandModel::Delete { .. } => mutation(node, command),
            CommandModel::DecideTx { .. } => mutation(node, command),
            CommandModel::Get { key } => reading(node, key),
            CommandModel::BeginTx { tx_id, ops } => beginning(node, tx_id, ops),
            CommandModel::Compact => answered(node, error_reply("compact not supported yet"@)),
            CommandModel::AddNode { server } => adding(node, server),
            CommandModel::RemoveNode { node_id } => removing(node, node_id),
            CommandModel::InstallConfiguration { .. } => answered(
                node,
                error_reply("InstallConfiguration is a leader-internal log entry; not a valid client command"@),
            ),
            CommandModel::AbortTx { tx_id } => aborting(node, tx_id),
        }
    }
}

/// The node after a request, what follows, and what to send, as `expected` says.
pub open spec fn does(expected: Dispatched, node: NodeModel, step: (Next, Outbound)) -> bool {
    &&& node == expected.node
    &&& step.0.deep_view() == expected.next
    &&& step.1.deep_view() == expected.outbound
}

/// Answers the clients of a node.
pub struct ClientHandler;

fn nothing() -> (none: Outbound)
    ensures
        none.deep_view() == Seq::<(Seq<char>, AppendEntriesArgsModel)>::empty(),
{
    let none: Outbound = Vec::new();
    assert(none.deep_view() =~= Seq::<(Seq<char>, AppendEntriesArgsModel)>::empty());
    none
}

/// The servers of the configuration that a leader will append when the first
/// phase of a change has been committed.
fn next_members(node: &RaftNode) -> (members: Vec<ServerId>)
    requires
        node@.pending_post_joint_simple is Some,
    ensures
        members.deep_view() == node@.pending_post_joint_simple->0.servers(),
{
    match &node.pending_post_joint_simple {
        Some(config) => config.all_servers(),
        None => Vec::new(),
    }
}

impl ClientHandler {
    /// Dispatches a client's command to the node.
    pub fn dispatch_command(command: Command, node: &mut RaftNode) -> (step: (Next, Outbound))
        requires
            old(node)@.log.len() + 3 <= usize::MAX,
            old(node)@.indices_ok(),
        ensures
            does(dispatched(old(node)@, command.deep_view()), final(node)@, step),
    {
        if node.state != NodeState::Leader {
            return (Next::Reply(not_leader()), nothing());
        }
        match command {
            Command::SetKey { key, value } => ClientHandler::apply_mutation(Command::SetKey { key, value }, node),
            Command::Delete { key } => ClientHandler::apply_mutation(Command::Delete { key }, node),
            Command::DecideTx { tx_id, decision } => ClientHandler::apply_mutation(
                Command::DecideTx { tx_id, decision },
                node,
            ),
            Command::Get { key } => ClientHandler::linearizable_get(key.as_str(), node),
            Command::BeginTx { tx_id, ops } => ClientHandler::begin_tx(tx_id, ops, node),
            Command::Compact => (Next::Reply(error_with("compact not supported yet")), nothing()),
            Command::AddNode { server } => ClientHandler::add_node(server, node),
            Command::RemoveNode { node_id } => ClientHandler::remove_node(node_id, node),
            Command::InstallConfiguration { config: _ } => (
                Next::Reply(
                    error_with(
                        "InstallConfiguration is a leader-internal log entry; not a valid client command",
                    ),
                ),
                nothing(),
            ),
            Command::AbortTx { tx_id } => ClientHandler::abort_tx(tx_id, node),
        }
    }

    /// Reads a key, in such a way that the answer is not older than any write
    /// that was acknowledged before the read.
    pub fn linearizable_get(key: &str, node: &mut RaftNode) -> (step: (Next, Outbound))
        requires
            old(node)@.log.len() < usize::MAX,
            old(node)@.indices_ok(),
        ensures
            does(reading(old(node)@, key@), final(node)@, step),
    {
        proof {
            reveal(reading);
        }
        if node.is_single_node() {
            if node.state != NodeState::Leader {
                return (Next::Reply(not_leader()), nothing());
            }
            node.apply_logs();
            return (Next::Reply(reply_with(node.state_machine.get(key))), nothing());
        }
        let started = node.clock.now;
        match node.begin_read() {
            Some((read, messages)) => (Next::Read(PendingRead { key: key.to_owned(), read, started }), messages),
            None => (Next::Reply(not_leader()), nothing()),
        }
    }

    /// Logs a write and replicates it.
    pub fn apply_mutation(command: Command, node: &mut RaftNode) -> (step: (Next, Outbound))
        requires
            old(node)@.log.len() + 2 <= usize::MAX,
            old(node)@.indices_ok(),
        ensures
            does(mutation(old(node)@, command.deep_view()), final(node)@, step),
    {
        proof {
            reveal(mutation);
        }
        if !node.propose(command) {
            let mut reply = object();
            put(&mut reply, "status", text("error"));
            return (Next::Reply(reply), nothing());
        }
        let index: u64 = node.log.len() as u64;
        let messages = node.sync_logs();
        let mut reply = object();
        put(&mut reply, "status", text("ok"));
        put(&mut reply, "index", number(index));
        (Next::Reply(reply), messages)
    }

    /// Adds a server to the cluster.
    pub fn add_node(server: ServerId, node: &mut RaftNode) -> (step: (Next, Outbound))
        requires
            old(node)@.log.len() + 2 <= usize::MAX,
            old(node)@.indices_ok(),
        ensures
            does(adding(old(node)@, server.deep_view()), final(node)@, step),
    {
        proof {
            reveal(adding);
        }
        let since = node.clock.now;
        let change = MemberChange::Added(server.node_id.clone());
        match node.propose_add_node(server) {
            Ok(joint_index) => {
                let members = next_members(node);
                let messages = node.sync_logs();
                (Next::Change(PendingChange { change, members, joint_index, joint_committed: false, since }), messages)
            },
            Err(error) => (Next::Reply(ClientHandler::membership_error_to_json(error)), nothing()),
        }
    }

    /// Removes a server from the cluster.
    pub fn remove_node(node_id: String, node: &mut RaftNode) -> (step: (Next, Outbound))
        requires
            old(node)@.log.len() + 2 <= usize::MAX,
            old(node)@.indices_ok(),
        ensures
            does(removing(old(node)@, node_id@), final(node)@, step),
    {
        proof {
            reveal(removing);
        }
        let since = node.clock.now;
        match node.propose_remove_node(node_id.as_str()) {
            Ok(joint_index) => {
                let members = next_members(node);
                let messages = node.sync_logs();
                let change = MemberChange::Removed(node_id);
                (Next::Change(PendingChange { change, members, joint_index, joint_committed: false, since }), messages)
            },
            Err(error) => (Next::Reply(ClientHandler::membership_error_to_json(error)), nothing()),
        }
    }

    /// The reply to a membership change that was refused.
    pub fn membership_error_to_json(error: MembershipError) -> (reply: Value)
        ensures
            crate::json::json_of(reply) == membership_error_reply(error.deep_view()),
    {
        match error {
            MembershipError::NotLeader => {
                let mut reply = coded("not_leader");
                put(&mut reply, "message", text("Not a leader. Please connect to the leader node."));
                reply
            },
            MembershipError::AlreadyMember(id) => {
                let mut reply = coded("already_member");
                put(&mut reply, "node_id", text(id.as_str()));
                reply
            },
            MembershipError::NotMember(id) => {
                let mut reply = coded("not_member");
                put(&mut reply, "node_id", text(id.as_str()));
                reply
            },
            MembershipError::CannotRemoveSelf => {
                let mut reply = coded("cannot_remove_self");
                put(&mut reply, "message", text("Refusing to remove the leader itself; do this on another node"));
                reply
            },
            MembershipError::CannotRemoveLastServer => {
                let mut reply = coded("cannot_remove_last_server");
                put(
                    &mut reply,
                    "message",
                    text("Refusing to remove the last server; the cluster would be unable to make progress"),
                );
                reply
            },
            MembershipError::StorageError(message) => {
                let mut reply = coded("storage_error");
                put(&mut reply, "message", text(message.as_str()));
                reply
            },
        }
    }

    /// The reply to an abort that was refused.
    pub fn abort_tx_error_to_json(error: AbortTxError) -> (reply: Value)
        ensures
            crate::json::json_of(reply) == abort_tx_error_reply(error.deep_view()),
    {
        match error {
            AbortTxError::NotLeader => {
                let mut reply = coded("not_leader");
                put(&mut reply, "message", text("Not a leader. Please connect to the leader node."));
                reply
            },
            AbortTxError::NotFound(tx_id) => {
                let mut reply = coded("tx_not_found");
                put(&mut reply, "tx_id", text(tx_id.as_str()));
                put(
                    &mut reply,
                    "message",
                    text("tx_id is not in pending_txs; already committed/aborted or never existed"),
                );
                reply
            },
            AbortTxError::StorageError(message) => {
                let mut reply = coded("storage_error");
                put(&mut reply, "message", text(message.as_str()));
                reply
            },
        }
    }

    /// Begins a transaction.
    pub fn begin_tx(tx_id: String, ops: Vec<TxOp>, node: &mut RaftNode) -> (step: (Next, Outbound))
        requires
            old(node)@.log.len() + 3 <= usize::MAX,
            old(node)@.indices_ok(),
        ensures
            does(beginning(old(node)@, tx_id@, ops.deep_view()), final(node)@, step),
    {
        proof {
            reveal(beginning);
        }
        let (start, messages) = begin_tx(node, tx_id, ops);
        match start {
            TxStart::Finished(outcome) => (Next::Reply(tx_outcome_reply(outcome)), messages),
            TxStart::Voting(round) => (Next::Vote(round), messages),
        }
    }

    /// Aborts a transaction that is stuck.
    pub fn abort_tx(tx_id: String, node: &mut RaftNode) -> (step: (Next, Outbound))
        requires
            old(node)@.log.len() < usize::MAX,
        ensures
            does(aborting(old(node)@, tx_id@), final(node)@, step),
    {
        proof {
            reveal(aborting);
        }
        match node.propose_abort_tx(tx_id.as_str()) {
            Ok(decide_index) => {
                node.count_admin_abort();
                let mut reply = object();
                put(&mut reply, "status", text("ok"));
                put(&mut reply, "tx_id", text(tx_id.as_str()));
                put(&mut reply, "decision", text("abort"));
                put(&mut reply, "decide_index", number(decide_index));
                (Next::Reply(reply), nothing())
            },
            Err(error) => {
                let mut reply = ClientHandler::abort_tx_error_to_json(error);
                put(&mut reply, "tx_id", text(tx_id.as_str()));
                (Next::Reply(reply), nothing())
            },
        }
    }
}

/// The reply to a transaction.
pub fn tx_outcome_reply(outcome: TxOutcome) -> (reply: Value)
    ensures
        crate::json::json_of(reply) == tx_reply(outcome.deep_view()),
{
    let mut reply = object();
    match outcome {
        TxOutcome::Committed { begin_index, decide_index, tx_id } => {
            put(&mut reply, "status", text("ok"));
            put(&mut reply, "tx_id", text(tx_id.as_str()));
            put(&mut reply, "decision", text("commit"));
            put(&mut reply, "begin_index", number(begin_index));
            put(&mut reply, "decide_index", number(decide_index));
        },
        TxOutcome::Aborted { tx_id, reason } => {
            put(&mut reply, "status", text("aborted"));
            put(&mut reply, "tx_id", text(tx_id.as_str()));
            put(&mut reply, "reason", text(reason.as_str()));
        },
        TxOutcome::NotLeader { tx_id } => {
            put(&mut reply, "status", text("error"));
            put(&mut reply, "message", text("not leader"));
            put(&mut reply, "tx_id", text(tx_id.as_str()));
        },
    }
    reply
}

// ---- polling ----

/// The time from `since` to `now`, in nanoseconds.
pub open spec fn waited(since: Instant, now: Instant) -> int {
    if now.nanos >= since.nanos {
        now.nanos - since.nanos
    } else {
        0
    }
}

/// What a read that waits comes to: the value once it is confirmed, an error
/// once it has waited too long, nothing before.
pub open spec fn read_polled(read: PendingReadModel, node: NodeModel) -> Option<JsonModel> {
    if node.read_confirmed(read.index, read.issued_at) {
        Some(value_reply(stored(node, read.key)))
    } else if waited(read.started, node.clock.now) > READ_TIMEOUT_MS * 1_000_000 {
        Some(error_reply("read confirmation timeout (leader may have lost quorum)"@))
    } else {
        None
    }
}

impl PendingRead {
    /// Looks whether the read can be answered.
    pub fn poll(&self, node: &RaftNode) -> (reply: Option<Value>)
        ensures
            match reply {
                Some(value) => read_polled(self.deep_view(), node@) == Some(crate::json::json_of(value)),
                None => read_polled(self.deep_view(), node@) is None,
            },
    {
        if node.confirm_read(self.read) {
            return Some(reply_with(node.state_machine.get(self.key.as_str())));
        }
        let limit: Duration = Duration::from_millis(READ_TIMEOUT_MS);
        if node.clock.now.since(self.started).nanos > limit.nanos {
            return Some(error_with("read confirmation timeout (leader may have lost quorum)"));
        }
        None
    }
}

/// The text of a change whose first entry was not committed in time.
pub open spec fn not_committed_text(change: MemberChangeModel, joint_index: u64) -> Seq<char> {
    (match change {
        MemberChangeModel::Added(_) => "AddNode: Joint entry at index "@,
        MemberChangeModel::Removed(_) => "RemoveNode: Joint entry at index "@,
    }) + crate::text::decimal(joint_index as nat) + " did not commit within 10s"@
}

/// The reply to a change whose second entry was not committed in time, which
/// says whether it was logged.
pub open spec fn halfway_reply(joint_index: u64, appended: bool) -> JsonModel {
    JsonModel::object().with("status"@, JsonModel::Text("ok"@)).with("joint_index"@, JsonModel::Number(joint_index)).with(
        "simple_appended"@,
        JsonModel::Bool(appended),
    )
}

/// The reply to a change that was made.
pub open spec fn changed_reply(change: MemberChangeModel, joint_index: u64) -> JsonModel {
    let done = JsonModel::object().with("status"@, JsonModel::Text("ok"@)).with(
        "joint_index"@,
        JsonModel::Number(joint_index),
    ).with("simple_index"@, JsonModel::Number((joint_index + 1) as u64));
    match change {
        MemberChangeModel::Added(id) => done.with("new_member"@, JsonModel::Text(id)),
        MemberChangeModel::Removed(id) => done.with("removed_member"@, JsonModel::Text(id)),
    }
}

/// A phase of a membership change has been waited for too long.
pub open spec fn overdue(since: Instant, now: Instant) -> bool {
    waited(since, now) >= CHANGE_TIMEOUT_SECS * 1_000_000_000
}

/// The change is made: its second entry is committed, and its servers are the
/// active configuration.
pub open spec fn change_installed(pending: PendingChangeModel, node: NodeModel) -> bool {
    &&& node.commit_index >= pending.joint_index + 1
    &&& node.current_config == crate::protocol::ConfigurationModel::Simple(pending.members)
}

/// What a membership change that waits comes to.
pub open spec fn change_polled(pending: PendingChangeModel, node: NodeModel) -> (
    PendingChangeModel,
    Option<JsonModel>,
) {
    let now = node.clock.now;
    if !pending.joint_committed && node.commit_index < pending.joint_index {
        (
            pending,
            if overdue(pending.since, now) {
                Some(error_reply(not_committed_text(pending.change, pending.joint_index)))
            } else {
                None
            },
        )
    } else {
        let second = PendingChangeModel {
            joint_committed: true,
            since: if pending.joint_committed {
                pending.since
            } else {
                now
            },
            ..pending
        };
        (
            second,
            if change_installed(pending, node) {
                Some(changed_reply(pending.change, pending.joint_index))
            } else if overdue(second.since, now) {
                Some(halfway_reply(pending.joint_index, node.log.len() > pending.joint_index))
            } else {
                None
            },
        )
    }
}

impl PendingChange {
    /// Looks whether the change can be answered: once both its entries are
    /// committed and its servers installed, or once either has been waited for
    /// too long.
    pub fn poll(&mut self, node: &RaftNode) -> (reply: Option<Value>)
        ensures
            final(self).deep_view() == change_polled(old(self).deep_view(), node@).0,
            match reply {
                Some(value) => change_polled(old(self).deep_view(), node@).1 == Some(crate::json::json_of(value)),
                None => change_polled(old(self).deep_view(), node@).1 is None,
            },
    {
        let now = node.clock.now;
        let limit: Duration = Duration::from_secs(CHANGE_TIMEOUT_SECS);
        if !self.joint_committed {
            if node.commit_index < self.joint_index {
                if now.since(self.since).nanos >= limit.nanos {
                    let mut message = match &self.change {
                        MemberChange::Added(_) => "AddNode: Joint entry at index ".to_owned(),
                        MemberChange::Removed(_) => "RemoveNode: Joint entry at index ".to_owned(),
                    };
                    push_decimal(&mut message, self.joint_index);
                    message.append(" did not commit within 10s");
                    return Some(error_with(message.as_str()));
                }
                return None;
            }
            self.joint_committed = true;
            self.since = now;
        }
        let installed = match &node.current_config {
            Configuration::Simple(servers) => servers.same(&self.members),
            Configuration::Joint { .. } => false,
        };
        if installed && node.commit_index > self.joint_index {
            let mut reply = object();
            put(&mut reply, "status", text("ok"));
            put(&mut reply, "joint_index", number(self.joint_index));
            put(&mut reply, "simple_index", number(self.joint_index + 1));
            match &self.change {
                MemberChange::Added(id) => {
                    put(&mut reply, "new_member", text(id.as_str()));
                },
                MemberChange::Removed(id) => {
                    put(&mut reply, "removed_member", text(id.as_str()));
                },
            }
            return Some(reply);
        }
        if now.since(self.since).nanos >= limit.nanos {
            let mut reply = object();
            put(&mut reply, "status", text("ok"));
            put(&mut reply, "joint_index", number(self.joint_index));
            put(&mut reply, "simple_appended", boolean(node.log.len() as u64 > self.joint_index));
            return Some(reply);
        }
        None
    }
}

// ---- laws ----

/// A membership change is reported as made only once it is: the index that is
/// reported is committed, and the new servers are the active configuration.
pub proof fn reported_changes_are_installed(pending: PendingChangeModel, node: NodeModel)
    ensures
        change_polled(pending, node).1 matches Some(reply) ==> {
            &&& reply.field("simple_index"@) is Some <==> change_installed(pending, node) && (pending.joint_committed
                || node.commit_index >= pending.joint_index)
            &&& reply.field("simple_index"@) is Some ==> reply == changed_reply(pending.change, pending.joint_index)
                && reply.number_field("simple_index"@) == Some((pending.joint_index + 1) as u64) && node.commit_index
                >= pending.joint_index + 1 && node.current_config == crate::protocol::ConfigurationModel::Simple(
                pending.members,
            )
        },
{
    reveal_strlit("simple_index");
    reveal_strlit("simple_appended");
    reveal_strlit("joint_index");
    reveal_strlit("status");
    reveal_strlit("message");
    reveal_strlit("new_member");
    reveal_strlit("removed_member");
    assert("simple_index"@.len() == 12);
    assert("simple_appended"@.len() == 15);
    assert("joint_index"@.len() == 11);
    assert("status"@.len() == 6);
    assert("message"@.len() == 7);
    assert("new_member"@.len() == 10);
    assert("removed_member"@.len() == 14);
}

/// A leader without peers that has committed and applied its whole log.
pub open spec fn settled(node: NodeModel) -> bool {
    &&& node.state == NodeState::Leader
    &&& node.peers.len() == 0
    &&& node.current_config matches crate::protocol::ConfigurationModel::Simple(servers)
    &&& servers.len() == 1
    &&& servers[0].node_id == node.node_id
    &&& node.commit_index == node.log.len()
    &&& node.last_applied == node.log.len()
}

proof fn lone_quorum(node: NodeModel)
    requires
        node.current_config matches crate::protocol::ConfigurationModel::Simple(servers) && servers.len() == 1
            && servers[0].node_id == node.node_id,
        0 < node.log.len() <= u64::MAX,
    ensures
        node.is_quorum_index(node.log.len() as u64),
        forall|index: u64| #[trigger] node.is_quorum_index(index) ==> index == node.log.len(),
{
    let len = node.log.len() as u64;
    let servers = node.current_config->Simple_0;
    let holds = crate::protocol::holds_index(node.match_index, node.node_id, len, len);
    assert(holds(servers.last()));
    assert(crate::protocol::count_where(servers, holds) == 1) by {
        reveal_with_fuel(crate::protocol::count_where, 2);
        assert(servers.drop_last() =~= Seq::<ServerModel>::empty());
    }
    assert(crate::protocol::quorum_holds(node.current_config, node.match_index, node.node_id, len, len));
}

/// A leader without peers reads what it has written, at once: the key that was
/// set has its value, and the leader is ready for the next request.
pub proof fn lone_leaders_read_their_writes(node: NodeModel, key: Seq<char>, value: Seq<char>)
    requires
        settled(node),
        !node.storage.failed(),
        node.log.len() < u64::MAX,
    ensures
        ({
            let write = dispatched(node, CommandModel::SetKey { key, value });
            let read = dispatched(write.node, CommandModel::Get { key });
            &&& write.next == NextModel::Reply(index_reply((node.log.len() + 1) as u64))
            &&& settled(write.node)
            &&& read.next == NextModel::Reply(value_reply(Some(value)))
        }),
{
    reveal(mutation);
    reveal(reading);
    let command = CommandModel::SetKey { key, value };
    let proposed = node.propose(command);
    lone_quorum(proposed);
    let index = choose|index: u64| proposed.is_quorum_index(index);
    let committed = NodeModel { commit_index: index, ..proposed };
    assert(committed.apply_next().apply_committed() == committed.apply_next());
    let written = dispatched(node, command).node;
    assert(written.apply_committed() == written);
}

// ---- what clients are told ----

/// The fields of each reply, by name, and no others.
pub proof fn replies_have_these_fields(
    value: Seq<char>,
    index: u64,
    message: Seq<char>,
    tx_id: Seq<char>,
    decide_index: u64,
)
    ensures
        value_reply(Some(value)) == JsonModel::Object(
            map!["status"@ => JsonModel::Text("ok"@), "data"@ => JsonModel::Text(value)],
        ),
        value_reply(None) == JsonModel::Object(map!["status"@ => JsonModel::Text("not_found"@)]),
        index_reply(index) == JsonModel::Object(
            map!["status"@ => JsonModel::Text("ok"@), "index"@ => JsonModel::Number(index)],
        ),
        failure_reply() == JsonModel::Object(map!["status"@ => JsonModel::Text("error"@)]),
        error_reply(message) == JsonModel::Object(
            map!["status"@ => JsonModel::Text("error"@), "message"@ => JsonModel::Text(message)],
        ),
        not_leader_reply() == JsonModel::Object(
            map!["error"@ => JsonModel::Text("Not a leader. Please connect to the leader node."@)],
        ),
        aborted_reply(tx_id, decide_index) == JsonModel::Object(
            map![
                "status"@ => JsonModel::Text("ok"@),
                "tx_id"@ => JsonModel::Text(tx_id),
                "decision"@ => JsonModel::Text("abort"@),
                "decide_index"@ => JsonModel::Number(decide_index)
            ],
        ),
        tx_reply((TxOutcomeModel::Committed { begin_index: index, decide_index, tx_id })) == JsonModel::Object(
            map![
                "status"@ => JsonModel::Text("ok"@),
                "tx_id"@ => JsonModel::Text(tx_id),
                "decision"@ => JsonModel::Text("commit"@),
                "begin_index"@ => JsonModel::Number(index),
                "decide_index"@ => JsonModel::Number(decide_index)
            ],
        ),
        tx_reply((TxOutcomeModel::Aborted { tx_id, reason: message })) == JsonModel::Object(
            map![
                "status"@ => JsonModel::Text("aborted"@),
                "tx_id"@ => JsonModel::Text(tx_id),
                "reason"@ => JsonModel::Text(message)
            ],
        ),
        tx_reply((TxOutcomeModel::NotLeader { tx_id })) == JsonModel::Object(
            map![
                "status"@ => JsonModel::Text("error"@),
                "message"@ => JsonModel::Text("not leader"@),
                "tx_id"@ => JsonModel::Text(tx_id)
            ],
        ),
{
}

/// A refusal says by its code what was wrong, and of which server or transaction.
pub proof fn refusals_have_these_codes(id: Seq<char>, message: Seq<char>)
    ensures
        ({
            let code = |c: Seq<char>, field: Seq<char>, text: Seq<char>|
                JsonModel::Object(
                    map![
                        "status"@ => JsonModel::Text("error"@),
                        "code"@ => JsonModel::Text(c),
                        field => JsonModel::Text(text)
                    ],
                );
            let no_leader = "Not a leader. Please connect to the leader node."@;
            &&& membership_error_reply(MembershipErrorModel::NotLeader) == code("not_leader"@, "message"@, no_leader)
            &&& membership_error_reply(MembershipErrorModel::AlreadyMember(id)) == code(
                "already_member"@,
                "node_id"@,
                id,
            )
            &&& membership_error_reply(MembershipErrorModel::NotMember(id)) == code("not_member"@, "node_id"@, id)
            &&& membership_error_reply(MembershipErrorModel::CannotRemoveSelf) == code(
                "cannot_remove_self"@,
                "message"@,
                "Refusing to remove the leader itself; do this on another node"@,
            )
            &&& membership_error_reply(MembershipErrorModel::CannotRemoveLastServer) == code(
                "cannot_remove_last_server"@,
                "message"@,
                "Refusing to remove the last server; the cluster would be unable to make progress"@,
            )
            &&& membership_error_reply(MembershipErrorModel::StorageError(message)) == code(
                "storage_error"@,
                "message"@,
                message,
            )
            &&& abort_tx_error_reply(AbortTxErrorModel::NotLeader) == code("not_leader"@, "message"@, no_leader)
            &&& abort_tx_error_reply(AbortTxErrorModel::StorageError(message)) == code(
                "storage_error"@,
                "message"@,
                message,
            )
            &&& abort_tx_error_reply(AbortTxErrorModel::NotFound(id)) == JsonModel::Object(
                map![
                    "status"@ => JsonModel::Text("error"@),
                    "code"@ => JsonModel::Text("tx_not_found"@),
                    "tx_id"@ => JsonModel::Text(id),
                    "message"@ => JsonModel::Text(
                        "tx_id is not in pending_txs; already committed/aborted or never existed"@,
                    )
                ],
            )
        }),
{
}

/// A write to a leader is at the end of its log, as the client sent it, when the
/// client learns its index, and every peer is sent to. A leader with peers
/// commits nothing by it. A leader whose medium takes no writes changes nothing
/// and says that it failed.
pub proof fn writes_are_logged_before_they_are_answered(node: NodeModel, command: CommandModel)
    requires
        node.state == NodeState::Leader,
        node.peers.len() > 0,
        node.log.len() < usize::MAX,
        command is SetKey || command is Delete || command is DecideTx,
    ensures
        ({
            let did = dispatched(node, command);
            let taken = !(node.storage.fault matches Some(f) && f.appends_left == 0);
            &&& taken ==> {
                &&& did.next == NextModel::Reply(
                    JsonModel::Object(
                        map![
                            "status"@ => JsonModel::Text("ok"@),
                            "index"@ => JsonModel::Number((node.log.len() + 1) as u64)
                        ],
                    ),
                )
                &&& did.node.log.len() == node.log.len() + 1
                &&& did.node.log.take(node.log.len() as int) == node.log
                &&& did.node.log.last().command == command
                &&& did.node.log.last().term == node.current_term
                &&& did.node.log.last().index == node.log.len() + 1
                &&& did.node.commit_index == node.commit_index && did.node.store == node.store
                &&& did.outbound.len() == node.peers.len()
                &&& forall|i: int|
                    0 <= i < node.peers.len() ==> #[trigger] did.outbound[i] == (
                        node.peers[i],
                        did.node.append_args(node.peers[i]),
                    )
            }
            &&& !taken ==> did.node == node && did.outbound.len() == 0 && did.next == NextModel::Reply(
                JsonModel::Object(map!["status"@ => JsonModel::Text("error"@)]),
            )
        }),
{
    reveal(mutation);
    assert(node.log.push(node.next_entry(command)).take(node.log.len() as int) =~= node.log);
}

/// A node that does not lead does nothing for a client but say so.
pub proof fn followers_answer_that_they_do_not_lead(node: NodeModel, command: CommandModel, key: Seq<char>)
    requires
        node.state != NodeState::Leader,
    ensures
        ({
            let refusal = NextModel::Reply(
                JsonModel::Object(
                    map!["error"@ => JsonModel::Text("Not a leader. Please connect to the leader node."@)],
                ),
            );
            &&& dispatched(node, command).node == node
            &&& dispatched(node, command).next == refusal
            &&& dispatched(node, command).outbound.len() == 0
            &&& reading(node, key).node == node && reading(node, key).next == refusal
        }),
{
    reveal(reading);
}

/// What a leader does not take from a client changes nothing: a configuration,
/// which only leaders log, and a compaction.
pub proof fn some_commands_are_not_for_clients(
    node: NodeModel,
    config: crate::protocol::ConfigurationModel,
)
    requires
        node.state == NodeState::Leader,
    ensures
        dispatched(node, CommandModel::Compact).node == node,
        dispatched(node, CommandModel::Compact).next == NextModel::Reply(
            JsonModel::Object(
                map![
                    "status"@ => JsonModel::Text("error"@),
                    "message"@ => JsonModel::Text("compact not supported yet"@)
                ],
            ),
        ),
        dispatched(node, (CommandModel::InstallConfiguration { config })).node == node,
        dispatched(node, (CommandModel::InstallConfiguration { config })).next == NextModel::Reply(
            JsonModel::Object(
                map![
                    "status"@ => JsonModel::Text("error"@),
                    "message"@ => JsonModel::Text(
                        "InstallConfiguration is a leader-internal log entry; not a valid client command"@,
                    )
                ],
            ),
        ),
{
}

/// A read by a leader with peers changes nothing, is anchored at what is
/// committed, counts from now, and has every peer sent to, so that their answers
/// confirm it.
pub proof fn reads_are_anchored_at_the_commit_index(node: NodeModel, key: Seq<char>)
    requires
        node.state == NodeState::Leader,
        node.peers.len() > 0,
    ensures
        ({
            let did = dispatched(node, (CommandModel::Get { key }));
            &&& did.node == node
            &&& did.next matches NextModel::Read(read) && {
                &&& read.key == key
                &&& read.index == node.commit_index
                &&& read.issued_at == node.clock.now
                &&& read.started == node.clock.now
            }
            &&& did.outbound.len() == node.peers.len()
            &&& forall|i: int|
                0 <= i < node.peers.len() ==> #[trigger] did.outbound[i] == (
                    node.peers[i],
                    node.append_args(node.peers[i]),
                )
        }),
{
    reveal(reading);
}

/// A leader without peers answers a read at once, from what is stored when all
/// that is committed is applied.
pub proof fn lone_leaders_answer_reads_at_once(node: NodeModel, key: Seq<char>)
    requires
        node.state == NodeState::Leader,
        node.peers.len() == 0,
    ensures
        ({
            let did = dispatched(node, (CommandModel::Get { key }));
            let data = node.apply_logs().store.data;
            &&& did.node == node.apply_logs()
            &&& did.outbound.len() == 0
            &&& data.contains_key(key) ==> did.next == NextModel::Reply(
                JsonModel::Object(map!["status"@ => JsonModel::Text("ok"@), "data"@ => JsonModel::Text(data[key])]),
            )
            &&& !data.contains_key(key) ==> did.next == NextModel::Reply(
                JsonModel::Object(map!["status"@ => JsonModel::Text("not_found"@)]),
            )
        }),
{
    reveal(reading);
}

/// When a read that waits is answered, and with what: with what is stored under
/// its key as soon as the node leads, has applied the index it is anchored at and
/// has heard from a quorum since it was issued, less than the longest election
/// timeout ago; with an error once it has waited for more than two seconds; and
/// not before either.
pub proof fn waiting_reads_are_answered(read: PendingReadModel, node: NodeModel)
    ensures
        ({
            let confirmed = {
                &&& node.state == NodeState::Leader
                &&& read.index <= node.last_applied
                &&& node.last_quorum_heartbeat_at is Some
                &&& read.issued_at.nanos <= node.last_quorum_heartbeat_at->0.nanos
                &&& node.clock.now.nanos < node.last_quorum_heartbeat_at->0.nanos + 10_000_000_000
            };
            let late = node.clock.now.nanos > read.started.nanos + 2_000_000_000;
            let data = node.store.data;
            &&& confirmed && data.contains_key(read.key) ==> read_polled(read, node) == Some(
                JsonModel::Object(
                    map!["status"@ => JsonModel::Text("ok"@), "data"@ => JsonModel::Text(data[read.key])],
                ),
            )
            &&& confirmed && !data.contains_key(read.key) ==> read_polled(read, node) == Some(
                JsonModel::Object(map!["status"@ => JsonModel::Text("not_found"@)]),
            )
            &&& !confirmed && late ==> read_polled(read, node) == Some(
                JsonModel::Object(
                    map![
                        "status"@ => JsonModel::Text("error"@),
                        "message"@ => JsonModel::Text(
                            "read confirmation timeout (leader may have lost quorum)"@,
                        )
                    ],
                ),
            )
            &&& !confirmed && !late ==> read_polled(read, node) is None
        }),
{
}

/// What a leader with peers does with a change of the members that it takes: the
/// members to come are the present servers and the new one behind them, or those
/// that go by another name than the removed one, all of them and in order; the
/// change waits for the entry at the end of the log, from now on.
pub proof fn changes_wait_for_their_entries(node: NodeModel, server: ServerModel, node_id: Seq<char>)
    requires
        node.state == NodeState::Leader,
        node.peers.len() > 0,
        node.log.len() < usize::MAX,
    ensures
        ({
            let servers = node.current_config.servers();
            let added = dispatched(node, (CommandModel::AddNode { server }));
            let removed = dispatched(node, (CommandModel::RemoveNode { node_id }));
            &&& node.propose_add_node(server).1 is Ok ==> {
                &&& added.node == node.propose_add_node(server).0
                &&& added.next matches NextModel::Change(pending) && {
                    &&& pending.change == MemberChangeModel::Added(server.node_id)
                    &&& pending.members == servers + seq![server]
                    &&& pending.joint_index == node.log.len() + 1
                    &&& !pending.joint_committed
                    &&& pending.since == node.clock.now
                }
                &&& added.outbound.len() == node.peers.len()
            }
            &&& node.propose_add_node(server).1 matches Err(error) ==> added.node == node && added.next
                == NextModel::Reply(membership_error_reply(error)) && added.outbound.len() == 0
            &&& node.propose_remove_node(node_id).1 is Ok ==> {
                &&& removed.node == node.propose_remove_node(node_id).0
                &&& removed.next matches NextModel::Change(pending) && {
                    &&& pending.change == MemberChangeModel::Removed(node_id)
                    &&& pending.members == servers.filter(|s: ServerModel| s.node_id != node_id)
                    &&& pending.joint_index == node.log.len() + 1
                    &&& !pending.joint_committed
                    &&& pending.since == node.clock.now
                }
                &&& removed.outbound.len() == node.peers.len()
            }
            &&& node.propose_remove_node(node_id).1 matches Err(error) ==> removed.node == node && removed.next
                == NextModel::Reply(membership_error_reply(error)) && removed.outbound.len() == 0
        }),
{
    reveal(adding);
    reveal(removing);
    let servers = node.current_config.servers();
    crate::raft::guarantees::additions_add_the_server_only(node, server);
    crate::raft::guarantees::removals_take_the_named_server_only(node, node_id, server);
    assert(servers.push(server) =~= servers + seq![server]);
}

/// When a change of the members that waits is answered, and with what. Its first
/// entry is waited for until it is committed, for ten seconds at most; then its
/// second one, from that moment on, until it is committed and the members are the
/// configuration, for ten seconds at most. The reply names the indices of what
/// was committed and of the server, or says how far the change came.
pub proof fn waiting_changes_are_answered(pending: PendingChangeModel, node: NodeModel)
    requires
        pending.joint_index < u64::MAX,
    ensures
        ({
            let (after, reply) = change_polled(pending, node);
            let now = node.clock.now;
            let first = pending.joint_committed || node.commit_index >= pending.joint_index;
            let done = first && node.commit_index > pending.joint_index && node.current_config
                == crate::protocol::ConfigurationModel::Simple(pending.members);
            let since = if first && !pending.joint_committed {
                now
            } else {
                pending.since
            };
            let late = now.nanos >= since.nanos + 10_000_000_000;
            &&& after == (PendingChangeModel { joint_committed: first, since, ..pending })
            &&& reply is Some <==> done || late
            &&& done ==> reply == Some(
                JsonModel::Object(
                    map![
                        "status"@ => JsonModel::Text("ok"@),
                        "joint_index"@ => JsonModel::Number(pending.joint_index),
                        "simple_index"@ => JsonModel::Number((pending.joint_index + 1) as u64),
                        (if pending.change is Added {
                            "new_member"@
                        } else {
                            "removed_member"@
                        }) => JsonModel::Text(
                            match pending.change {
                                MemberChangeModel::Added(id) => id,
                                MemberChangeModel::Removed(id) => id,
                            },
                        )
                    ],
                ),
            )
            &&& first && !done && late ==> reply == Some(
                JsonModel::Object(
                    map![
                        "status"@ => JsonModel::Text("ok"@),
                        "joint_index"@ => JsonModel::Number(pending.joint_index),
                        "simple_appended"@ => JsonModel::Bool(node.log.len() > pending.joint_index)
                    ],
                ),
            )
            &&& !first && late ==> reply == Some(
                JsonModel::Object(
                    map![
                        "status"@ => JsonModel::Text("error"@),
                        "message"@ => JsonModel::Text(
                            (if pending.change is Added {
                                "AddNode: Joint entry at index "@
                            } else {
                                "RemoveNode: Joint entry at index "@
                            }) + crate::text::decimal(pending.joint_index as nat) + " did not commit within 10s"@,
                        )
                    ],
                ),
            )
        }),
{
}

/// A client's abort is answered by the index at which it is logged, and counted
/// once; one that is refused changes nothing, and the answer names the
/// transaction.
pub proof fn aborts_are_answered(node: NodeModel, tx_id: Seq<char>)
    requires
        node.state == NodeState::Leader,
        node.log.len() < usize::MAX,
        node.metrics matches Some(m) ==> m.tx_admin_aborted_total < u64::MAX,
    ensures
        ({
            let did = dispatched(node, (CommandModel::AbortTx { tx_id }));
            let taken = node.store.pending.contains_key(tx_id) && !node.storage.failed();
            &&& did.outbound.len() == 0
            &&& taken ==> {
                &&& did.next == NextModel::Reply(
                    JsonModel::Object(
                        map![
                            "status"@ => JsonModel::Text("ok"@),
                            "tx_id"@ => JsonModel::Text(tx_id),
                            "decision"@ => JsonModel::Text("abort"@),
                            "decide_index"@ => JsonModel::Number((node.log.len() + 1) as u64)
                        ],
                    ),
                )
                &&& did.node.log.len() == node.log.len() + 1
                &&& did.node.log.last().command == (CommandModel::DecideTx {
                    tx_id,
                    decision: crate::protocol::TxDecision::Abort,
                })
                &&& node.metrics matches Some(m) ==> (did.node.metrics matches Some(n) && n.tx_admin_aborted_total
                    == m.tx_admin_aborted_total + 1 && n.tx_timeout_aborted_total == m.tx_timeout_aborted_total)
            }
            &&& !taken ==> did.node == node && (did.next matches NextModel::Reply(reply) && reply.field("tx_id"@)
                == Some(JsonModel::Text(tx_id)))
        }),
{
    reveal(aborting);
}

/// A client's transaction is answered at once where it is over, by what came of
/// it, and goes to the vote otherwise.
pub proof fn transactions_are_answered_or_voted_on(
    node: NodeModel,
    tx_id: Seq<char>,
    ops: Seq<crate::protocol::TxOpModel>,
)
    requires
        node.state == NodeState::Leader,
    ensures
        ({
            let did = dispatched(node, (CommandModel::BeginTx { tx_id, ops }));
            let (after, start, messages) = crate::raft::coordinator::tx_begun(node, tx_id, ops);
            &&& did.node == after
            &&& did.outbound == messages
            &&& start matches TxStartModel::Voting(round) ==> did.next == NextModel::Vote(round)
            &&& start matches TxStartModel::Finished(outcome) ==> did.next == NextModel::Reply(tx_reply(outcome))
        }),
{
    reveal(beginning);
}

} // verus!
