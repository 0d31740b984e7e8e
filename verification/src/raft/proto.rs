//! Conversions between the protocol's values and their wire messages.

use crate::protocol::{
    Command, CommandModel, Configuration, ConfigurationModel, LogEntry, LogEntryModel, ServerId, ServerModel,
    Snapshot, SnapshotModel, TxDecision, TxOp, TxOpModel,
};
use crate::raft::rpc::{
    AppendEntriesArgs, AppendEntriesArgsModel, AppendReplyArgs, AppendReplyArgsModel, InstallSnapshotArgs,
    InstallSnapshotArgsModel, InstallSnapshotReplyArgs, InstallSnapshotReplyArgsModel, RaftMessage, RaftMessageModel,
    RequestVoteArgs, RequestVoteArgsModel, VoteResponseArgs, VoteResponseArgsModel,
};
use crate::text_map::TextMap;
use vstd::prelude::*;

pub mod layout;
pub mod pb;

verus! {

// ---- what the wire messages of values are ----

pub open spec fn op_message(op: TxOpModel) -> pb::TxOpModel {
    pb::TxOpModel {
        body: Some(
            match op {
                TxOpModel::Put { key, value } => pb::TxOpBodyModel::Put(pb::KeyValueModel { key, value }),
                TxOpModel::Delete { key } => pb::TxOpBodyModel::Delete(pb::DeleteModel { key }),
            },
        ),
    }
}

pub open spec fn server_message(server: ServerModel) -> pb::ServerIdModel {
    pb::ServerIdModel { node_id: server.node_id, addr: server.addr }
}

pub open spec fn servers_message(servers: Seq<ServerModel>) -> Seq<pb::ServerIdModel> {
    Seq::new(servers.len(), |i: int| server_message(servers[i]))
}

pub open spec fn configuration_message(config: ConfigurationModel) -> pb::ConfigurationEntryModel {
    match config {
        ConfigurationModel::Simple(servers) => pb::ConfigurationEntryModel {
            kind: pb::KIND_SIMPLE,
            old_servers: Seq::empty(),
            new_servers: servers_message(servers),
        },
        ConfigurationModel::Joint { old, new } => pb::ConfigurationEntryModel {
            kind: pb::KIND_JOINT,
            old_servers: servers_message(old),
            new_servers: servers_message(new),
        },
    }
}

/// The wire message of a command. `AbortTx`, which the leader replaces before
/// anything is sent, has no body.
pub open spec fn command_message(command: CommandModel) -> pb::CommandModel {
    pb::CommandModel {
        body: match command {
            CommandModel::SetKey { key, value } => Some(
                pb::CommandBodyModel::KeyValue(pb::KeyValueModel { key, value }),
            ),
            CommandModel::Get { key } => Some(pb::CommandBodyModel::Get(pb::GetModel { key })),
            CommandModel::Delete { key } => Some(pb::CommandBodyModel::Delete(pb::DeleteModel { key })),
            CommandModel::Compact => Some(pb::CommandBodyModel::Compact(pb::EmptyModel {  })),
            CommandModel::BeginTx { tx_id, ops } => Some(
                pb::CommandBodyModel::BeginTx(
                    pb::BeginTxModel { tx_id, ops: Seq::new(ops.len(), |i: int| op_message(ops[i])) },
                ),
            ),
            CommandModel::DecideTx { tx_id, decision } => Some(
                pb::CommandBodyModel::DecideTx(
                    pb::DecideTxModel { tx_id, commit: decision == TxDecision::Commit },
                ),
            ),
            CommandModel::AbortTx { .. } => None,
            CommandModel::AddNode { server } => Some(pb::CommandBodyModel::AddNode(server_message(server))),
            CommandModel::RemoveNode { node_id } => Some(pb::CommandBodyModel::RemoveNode(node_id)),
            CommandModel::InstallConfiguration { config } => Some(
                pb::CommandBodyModel::InstallConfiguration(configuration_message(config)),
            ),
        },
    }
}

pub open spec fn entry_message(entry: LogEntryModel) -> pb::LogEntryModel {
    pb::LogEntryModel {
        term: entry.term,
        index: entry.index as u64,
        command: Some(command_message(entry.command)),
    }
}

pub open spec fn request_vote_message(a: RequestVoteArgsModel) -> pb::RequestVoteArgsModel {
    pb::RequestVoteArgsModel {
        term: a.term,
        candidate_id: a.candidate_id,
        last_log_index: a.last_log_index,
        last_log_term: a.last_log_term,
    }
}

pub open spec fn vote_response_message(a: VoteResponseArgsModel) -> pb::VoteResponseArgsModel {
    pb::VoteResponseArgsModel { term: a.term, vote_granted: a.vote_granted }
}

pub open spec fn append_entries_message(a: AppendEntriesArgsModel) -> pb::AppendEntriesArgsModel {
    pb::AppendEntriesArgsModel {
        term: a.term,
        leader_id: a.leader_id,
        prev_log_index: a.prev_log_index,
        prev_log_term: a.prev_log_term,
        entries: Seq::new(a.entries.len(), |i: int| entry_message(a.entries[i])),
        leader_commit: a.leader_commit,
    }
}

pub open spec fn append_reply_message(a: AppendReplyArgsModel) -> pb::AppendReplyArgsModel {
    pb::AppendReplyArgsModel { term: a.term, success: a.success }
}

pub open spec fn install_reply_message(a: InstallSnapshotReplyArgsModel) -> pb::InstallSnapshotReplyArgsModel {
    pb::InstallSnapshotReplyArgsModel { term: a.term }
}

/// `pairs` lists the entries of `data` in the order of their keys.
pub open spec fn lists_entries(pairs: Seq<pb::KeyValueModel>, data: Map<Seq<char>, Seq<char>>) -> bool {
    &&& crate::text_map::lists_keys(pair_keys(pairs), data)
    &&& forall|i: int| 0 <= i < pairs.len() ==> (#[trigger] pairs[i]).value == data[pairs[i].key]
}

pub open spec fn pair_keys(pairs: Seq<pb::KeyValueModel>) -> Seq<Seq<char>> {
    Seq::new(pairs.len(), |i: int| pairs[i].key)
}

/// `p` is the wire message of the snapshot `s`.
pub open spec fn is_snapshot_message(s: SnapshotModel, p: pb::SnapshotModel) -> bool {
    &&& p.last_included_index == s.last_included_index
    &&& p.last_included_term == s.last_included_term
    &&& lists_entries(p.data, s.data)
}

/// `p` is the wire message of `a`.
pub open spec fn is_install_message(a: InstallSnapshotArgsModel, p: pb::InstallSnapshotArgsModel) -> bool {
    &&& p.term == a.term
    &&& p.leader_id == a.leader_id
    &&& p.last_included_index == a.last_included_index
    &&& p.last_included_term == a.last_included_term
    &&& p.snapshot matches Some(s) && is_snapshot_message(a.snapshot, s)
}

/// `p` is the wire message of `m`.
pub open spec fn is_raft_message(m: RaftMessageModel, p: pb::RaftMessageModel) -> bool {
    match m {
        RaftMessageModel::RequestVote(a) => p.body == Some(
            pb::RaftMessageBodyModel::RequestVote(request_vote_message(a)),
        ),
        RaftMessageModel::VoteResponse(a) => p.body == Some(
            pb::RaftMessageBodyModel::VoteResponse(vote_response_message(a)),
        ),
        RaftMessageModel::AppendEntries(a) => p.body == Some(
            pb::RaftMessageBodyModel::AppendEntries(append_entries_message(a)),
        ),
        RaftMessageModel::AppendReply(a) => p.body == Some(
            pb::RaftMessageBodyModel::AppendReply(append_reply_message(a)),
        ),
        RaftMessageModel::InstallSnapshot(a) => p.body matches Some(pb::RaftMessageBodyModel::InstallSnapshot(q))
            && is_install_message(a, q),
        RaftMessageModel::InstallSnapshotReply(a) => p.body == Some(
            pb::RaftMessageBodyModel::InstallSnapshotReply(install_reply_message(a)),
        ),
        RaftMessageModel::RequestPreVote(a) => p.body == Some(
            pb::RaftMessageBodyModel::RequestPreVote(request_vote_message(a)),
        ),
        RaftMessageModel::PreVoteResponse(a) => p.body == Some(
            pb::RaftMessageBodyModel::PreVoteResponse(vote_response_message(a)),
        ),
    }
}

// ---- what wire messages stand for ----

/// The write of a wire message. One without a body deletes the empty key.
pub open spec fn message_op(p: pb::TxOpModel) -> TxOpModel {
    match p.body {
        Some(pb::TxOpBodyModel::Put(s)) => TxOpModel::Put { key: s.key, value: s.value },
        Some(pb::TxOpBodyModel::Delete(d)) => TxOpModel::Delete { key: d.key },
        None => TxOpModel::Delete { key: Seq::empty() },
    }
}

pub open spec fn message_server(p: pb::ServerIdModel) -> ServerModel {
    ServerModel { node_id: p.node_id, addr: p.addr }
}

pub open spec fn message_servers(p: Seq<pb::ServerIdModel>) -> Seq<ServerModel> {
    Seq::new(p.len(), |i: int| message_server(p[i]))
}

/// The configuration of a wire message: joint if it says so, otherwise simple.
pub open spec fn message_configuration(p: pb::ConfigurationEntryModel) -> ConfigurationModel {
    if p.kind == pb::KIND_JOINT {
        ConfigurationModel::Joint { old: message_servers(p.old_servers), new: message_servers(p.new_servers) }
    } else {
        ConfigurationModel::Simple(message_servers(p.new_servers))
    }
}

/// The command of a wire message. A membership command, which only a client
/// sends, and a message without a body are markers without effect.
pub open spec fn message_command(p: pb::CommandModel) -> CommandModel {
    match p.body {
        Some(pb::CommandBodyModel::KeyValue(s)) => CommandModel::SetKey { key: s.key, value: s.value },
        Some(pb::CommandBodyModel::Get(g)) => CommandModel::Get { key: g.key },
        Some(pb::CommandBodyModel::Delete(d)) => CommandModel::Delete { key: d.key },
        Some(pb::CommandBodyModel::Compact(_)) => CommandModel::Compact,
        Some(pb::CommandBodyModel::BeginTx(b)) => CommandModel::BeginTx {
            tx_id: b.tx_id,
            ops: Seq::new(b.ops.len(), |i: int| message_op(b.ops[i])),
        },
        Some(pb::CommandBodyModel::DecideTx(d)) => CommandModel::DecideTx {
            tx_id: d.tx_id,
            decision: if d.commit {
                TxDecision::Commit
            } else {
                TxDecision::Abort
            },
        },
        Some(pb::CommandBodyModel::AddNode(_)) => CommandModel::Compact,
        Some(pb::CommandBodyModel::RemoveNode(_)) => CommandModel::Compact,
        Some(pb::CommandBodyModel::InstallConfiguration(c)) => CommandModel::InstallConfiguration {
            config: message_configuration(c),
        },
        None => CommandModel::Compact,
    }
}

pub open spec fn message_entry(p: pb::LogEntryModel) -> LogEntryModel {
    LogEntryModel {
        term: p.term,
        index: p.index as usize,
        command: match p.command {
            Some(c) => message_command(c),
            None => CommandModel::Compact,
        },
    }
}

pub open spec fn message_request_vote(p: pb::RequestVoteArgsModel) -> RequestVoteArgsModel {
    RequestVoteArgsModel {
        term: p.term,
        candidate_id: p.candidate_id,
        last_log_index: p.last_log_index,
        last_log_term: p.last_log_term,
    }
}

pub open spec fn message_vote_response(p: pb::VoteResponseArgsModel) -> VoteResponseArgsModel {
    VoteResponseArgsModel { term: p.term, vote_granted: p.vote_granted }
}

pub open spec fn message_append_entries(p: pb::AppendEntriesArgsModel) -> AppendEntriesArgsModel {
    AppendEntriesArgsModel {
        term: p.term,
        leader_id: p.leader_id,
        prev_log_index: p.prev_log_index,
        prev_log_term: p.prev_log_term,
        entries: Seq::new(p.entries.len(), |i: int| message_entry(p.entries[i])),
        leader_commit: p.leader_commit,
    }
}

pub open spec fn message_append_reply(p: pb::AppendReplyArgsModel) -> AppendReplyArgsModel {
    AppendReplyArgsModel { term: p.term, success: p.success }
}

pub open spec fn message_install_reply(p: pb::InstallSnapshotReplyArgsModel) -> InstallSnapshotReplyArgsModel {
    InstallSnapshotReplyArgsModel { term: p.term }
}

/// The map of a list of pairs; of two pairs with one key the later counts.
pub open spec fn pairs_map(pairs: Seq<pb::KeyValueModel>) -> Map<Seq<char>, Seq<char>>
    decreases pairs.len(),
{
    if pairs.len() == 0 {
        Map::empty()
    } else {
        pairs_map(pairs.drop_last()).insert(pairs.last().key, pairs.last().value)
    }
}

pub open spec fn message_snapshot(p: pb::SnapshotModel) -> SnapshotModel {
    SnapshotModel {
        last_included_index: p.last_included_index,
        last_included_term: p.last_included_term,
        data: pairs_map(p.data),
    }
}

/// The arguments of a wire message. One without a snapshot carries an empty one.
pub open spec fn message_install(p: pb::InstallSnapshotArgsModel) -> InstallSnapshotArgsModel {
    InstallSnapshotArgsModel {
        term: p.term,
        leader_id: p.leader_id,
        last_included_index: p.last_included_index,
        last_included_term: p.last_included_term,
        snapshot: match p.snapshot {
            Some(s) => message_snapshot(s),
            None => SnapshotModel {
                last_included_index: p.last_included_index,
                last_included_term: p.last_included_term,
                data: Map::empty(),
            },
        },
    }
}

/// The message of a wire message. One without a body is a refused vote.
pub open spec fn message_raft(p: pb::RaftMessageModel) -> RaftMessageModel {
    match p.body {
        Some(pb::RaftMessageBodyModel::RequestVote(a)) => RaftMessageModel::RequestVote(message_request_vote(a)),
        Some(pb::RaftMessageBodyModel::VoteResponse(a)) => RaftMessageModel::VoteResponse(message_vote_response(a)),
        Some(pb::RaftMessageBodyModel::AppendEntries(a)) => RaftMessageModel::AppendEntries(
            message_append_entries(a),
        ),
        Some(pb::RaftMessageBodyModel::AppendReply(a)) => RaftMessageModel::AppendReply(message_append_reply(a)),
        Some(pb::RaftMessageBodyModel::InstallSnapshot(a)) => RaftMessageModel::InstallSnapshot(message_install(a)),
        Some(pb::RaftMessageBodyModel::InstallSnapshotReply(a)) => RaftMessageModel::InstallSnapshotReply(
            message_install_reply(a),
        ),
        Some(pb::RaftMessageBodyModel::RequestPreVote(a)) => RaftMessageModel::RequestPreVote(
            message_request_vote(a),
        ),
        Some(pb::RaftMessageBodyModel::PreVoteResponse(a)) => RaftMessageModel::PreVoteResponse(
            message_vote_response(a),
        ),
        None => RaftMessageModel::VoteResponse(VoteResponseArgsModel { term: 0, vote_granted: false }),
    }
}

// ---- to the wire ----

impl From<&TxOp> for pb::TxOp {
    fn from(op: &TxOp) -> (converted: Self)
        ensures
            converted.deep_view() == op_message(op.deep_view()),
    {
        let body = match op {
            TxOp::Put { key, value } => pb::TxOpBody::Put(pb::KeyValue { key: key.clone(), value: value.clone() }),
            TxOp::Delete { key } => pb::TxOpBody::Delete(pb::Delete { key: key.clone() }),
        };
        pb::TxOp { body: Some(body) }
    }
}

impl vstd::std_specs::convert::FromSpecImpl<&TxOp> for pb::TxOp {
    open spec fn obeys_from_spec() -> bool {
        false
    }

    open spec fn from_spec(op: &TxOp) -> Self {
        arbitrary()
    }
}

impl From<&ServerId> for pb::ServerId {
    fn from(s: &ServerId) -> (converted: Self)
        ensures
            converted.deep_view() == server_message(s.deep_view()),
    {
        pb::ServerId { node_id: s.node_id.clone(), addr: s.addr.clone() }
    }
}

impl vstd::std_specs::convert::FromSpecImpl<&ServerId> for pb::ServerId {
    open spec fn obeys_from_spec() -> bool {
        false
    }

    open spec fn from_spec(s: &ServerId) -> Self {
        arbitrary()
    }
}

/// The wire messages of servers.
fn servers_to_wire(servers: &Vec<ServerId>) -> (list: Vec<pb::ServerId>)
    ensures
        list.deep_view() == servers_message(servers.deep_view()),
{
    let mut list: Vec<pb::ServerId> = Vec::new();
    let mut i: usize = 0;
    while i < servers.len()
        invariant
            i <= servers@.len(),
            list@.len() == i,
            forall|j: int| 0 <= j < i ==> (#[trigger] list@[j]).deep_view() == server_message(servers@[j].deep_view()),
        decreases servers@.len() - i,
    {
        list.push(pb::ServerId::from(&servers[i]));
        i = i + 1;
    }
    assert(list.deep_view() =~= servers_message(servers.deep_view()));
    list
}

impl From<&Configuration> for pb::ConfigurationEntry {
    fn from(c: &Configuration) -> (converted: Self)
        ensures
            converted.deep_view() == configuration_message(c.deep_view()),
    {
        match c {
            Configuration::Simple(servers) => {
                let none: Vec<pb::ServerId> = Vec::new();
                assert(none.deep_view() =~= Seq::<pb::ServerIdModel>::empty());
                pb::ConfigurationEntry {
                    kind: pb::KIND_SIMPLE,
                    old_servers: none,
                    new_servers: servers_to_wire(servers),
                }
            },
            Configuration::Joint { old, new } => pb::ConfigurationEntry {
                kind: pb::KIND_JOINT,
                old_servers: servers_to_wire(old),
                new_servers: servers_to_wire(new),
            },
        }
    }
}

impl vstd::std_specs::convert::FromSpecImpl<&Configuration> for pb::ConfigurationEntry {
    open spec fn obeys_from_spec() -> bool {
        false
    }

    open spec fn from_spec(c: &Configuration) -> Self {
        arbitrary()
    }
}

/// The wire messages of writes.
fn ops_to_wire(ops: &Vec<TxOp>) -> (list: Vec<pb::TxOp>)
    ensures
        list.deep_view() == Seq::new(ops.deep_view().len(), |i: int| op_message(ops.deep_view()[i])),
{
    let mut list: Vec<pb::TxOp> = Vec::new();
    let mut i: usize = 0;
    while i < ops.len()
        invariant
            i <= ops@.len(),
            list@.len() == i,
            forall|j: int| 0 <= j < i ==> (#[trigger] list@[j]).deep_view() == op_message(ops@[j].deep_view()),
        decreases ops@.len() - i,
    {
        list.push(pb::TxOp::from(&ops[i]));
        i = i + 1;
    }
    assert(list.deep_view() =~= Seq::new(ops.deep_view().len(), |i: int| op_message(ops.deep_view()[i])));
    list
}

impl From<&Command> for pb::Command {
    fn from(c: &Command) -> (converted: Self)
        ensures
            converted.deep_view() == command_message(c.deep_view()),
    {
        let body = match c {
            Command::SetKey { key, value } => Some(
                pb::CommandBody::KeyValue(pb::KeyValue { key: key.clone(), value: value.clone() }),
            ),
            Command::Get { key } => Some(pb::CommandBody::Get(pb::Get { key: key.clone() })),
            Command::Delete { key } => Some(pb::CommandBody::Delete(pb::Delete { key: key.clone() })),
            Command::Compact => Some(pb::CommandBody::Compact(pb::Empty {  })),
            Command::BeginTx { tx_id, ops } => Some(
                pb::CommandBody::BeginTx(pb::BeginTx { tx_id: tx_id.clone(), ops: ops_to_wire(ops) }),
            ),
            Command::DecideTx { tx_id, decision } => Some(
                pb::CommandBody::DecideTx(
                    pb::DecideTx { tx_id: tx_id.clone(), commit: *decision == TxDecision::Commit },
                ),
            ),
            Command::AbortTx { .. } => None,
            Command::AddNode { server } => Some(pb::CommandBody::AddNode(pb::ServerId::from(server))),
            Command::RemoveNode { node_id } => Some(pb::CommandBody::RemoveNode(node_id.clone())),
            Command::InstallConfiguration { config } => Some(
                pb::CommandBody::InstallConfiguration(pb::ConfigurationEntry::from(config)),
            ),
        };
        pb::Command { body }
    }
}

impl vstd::std_specs::convert::FromSpecImpl<&Command> for pb::Command {
    open spec fn obeys_from_spec() -> bool {
        false
    }

    open spec fn from_spec(c: &Command) -> Self {
        arbitrary()
    }
}

impl From<&LogEntry> for pb::LogEntry {
    fn from(e: &LogEntry) -> (converted: Self)
        ensures
            converted.deep_view() == entry_message(e.deep_view()),
    {
        pb::LogEntry { term: e.term, index: e.index as u64, command: Some(pb::Command::from(&e.command)) }
    }
}

impl vstd::std_specs::convert::FromSpecImpl<&LogEntry> for pb::LogEntry {
    open spec fn obeys_from_spec() -> bool {
        false
    }

    open spec fn from_spec(e: &LogEntry) -> Self {
        arbitrary()
    }
}

impl From<&RequestVoteArgs> for pb::RequestVoteArgs {
    fn from(a: &RequestVoteArgs) -> (converted: Self)
        ensures
            converted.deep_view() == request_vote_message(a.deep_view()),
    {
        pb::RequestVoteArgs {
            term: a.term,
            candidate_id: a.candidate_id.clone(),
            last_log_index: a.last_log_index,
            last_log_term: a.last_log_term,
        }
    }
}

impl vstd::std_specs::convert::FromSpecImpl<&RequestVoteArgs> for pb::RequestVoteArgs {
    open spec fn obeys_from_spec() -> bool {
        false
    }

    open spec fn from_spec(a: &RequestVoteArgs) -> Self {
        arbitrary()
    }
}

impl From<&VoteResponseArgs> for pb::VoteResponseArgs {
    fn from(a: &VoteResponseArgs) -> (converted: Self)
        ensures
            converted.deep_view() == vote_response_message(a.deep_view()),
    {
        pb::VoteResponseArgs { term: a.term, vote_granted: a.vote_granted }
    }
}

impl vstd::std_specs::convert::FromSpecImpl<&VoteResponseArgs> for pb::VoteResponseArgs {
    open spec fn obeys_from_spec() -> bool {
        false
    }

    open spec fn from_spec(a: &VoteResponseArgs) -> Self {
        arbitrary()
    }
}

impl From<&AppendEntriesArgs> for pb::AppendEntriesArgs {
    fn from(a: &AppendEntriesArgs) -> (converted: Self)
        ensures
            converted.deep_view() == append_entries_message(a.deep_view()),
    {
        let mut entries: Vec<pb::LogEntry> = Vec::new();
        let mut i: usize = 0;
        while i < a.entries.len()
            invariant
                i <= a.entries@.len(),
                entries@.len() == i,
                forall|j: int|
                    0 <= j < i ==> (#[trigger] entries@[j]).deep_view() == entry_message(a.entries@[j].deep_view()),
            decreases a.entries@.len() - i,
        {
            entries.push(pb::LogEntry::from(&a.entries[i]));
            i = i + 1;
        }
        assert(entries.deep_view() =~= append_entries_message(a.deep_view()).entries);
        pb::AppendEntriesArgs {
            term: a.term,
            leader_id: a.leader_id.clone(),
            prev_log_index: a.prev_log_index,
            prev_log_term: a.prev_log_term,
            entries,
            leader_commit: a.leader_commit,
        }
    }
}

impl vstd::std_specs::convert::FromSpecImpl<&AppendEntriesArgs> for pb::AppendEntriesArgs {
    open spec fn obeys_from_spec() -> bool {
        false
    }

    open spec fn from_spec(a: &AppendEntriesArgs) -> Self {
        arbitrary()
    }
}

impl From<&AppendReplyArgs> for pb::AppendReplyArgs {
    fn from(a: &AppendReplyArgs) -> (converted: Self)
        ensures
            converted.deep_view() == append_reply_message(a.deep_view()),
    {
        pb::AppendReplyArgs { term: a.term, success: a.success }
    }
}

impl vstd::std_specs::convert::FromSpecImpl<&AppendReplyArgs> for pb::AppendReplyArgs {
    open spec fn obeys_from_spec() -> bool {
        false
    }

    open spec fn from_spec(a: &AppendReplyArgs) -> Self {
        arbitrary()
    }
}

impl From<&Snapshot> for pb::Snapshot {
    fn from(s: &Snapshot) -> (converted: Self)
        ensures
            is_snapshot_message(s.deep_view(), converted.deep_view()),
    {
        let n: usize = s.data.len();
        let ghost keys = s.data.keys();
        let mut data: Vec<pb::KeyValue> = Vec::new();
        let mut i: usize = 0;
        while i < n
            invariant
                i <= n == keys.len(),
                keys == s.data.keys(),
                data@.len() == i,
                forall|j: int|
                    0 <= j < i ==> (#[trigger] data@[j]).deep_view().key == keys[j] && data@[j].deep_view().value
                        == s.data@[keys[j]],
            decreases n - i,
        {
            let key = s.data.key_at(i);
            let value = s.data.value_at(i);
            data.push(pb::KeyValue { key: key.clone(), value: value.clone() });
            i = i + 1;
        }
        assert(pair_keys(data.deep_view()) =~= keys);
        pb::Snapshot { last_included_index: s.last_included_index, last_included_term: s.last_included_term, data }
    }
}

impl vstd::std_specs::convert::FromSpecImpl<&Snapshot> for pb::Snapshot {
    open spec fn obeys_from_spec() -> bool {
        false
    }

    open spec fn from_spec(s: &Snapshot) -> Self {
        arbitrary()
    }
}

impl From<&InstallSnapshotArgs> for pb::InstallSnapshotArgs {
    fn from(a: &InstallSnapshotArgs) -> (converted: Self)
        ensures
            is_install_message(a.deep_view(), converted.deep_view()),
    {
        pb::InstallSnapshotArgs {
            term: a.term,
            leader_id: a.leader_id.clone(),
            last_included_index: a.last_included_index,
            last_included_term: a.last_included_term,
            snapshot: Some(pb::Snapshot::from(&a.snapshot)),
        }
    }
}

impl vstd::std_specs::convert::FromSpecImpl<&InstallSnapshotArgs> for pb::InstallSnapshotArgs {
    open spec fn obeys_from_spec() -> bool {
        false
    }

    open spec fn from_spec(a: &InstallSnapshotArgs) -> Self {
        arbitrary()
    }
}

impl From<&InstallSnapshotReplyArgs> for pb::InstallSnapshotReplyArgs {
    fn from(a: &InstallSnapshotReplyArgs) -> (converted: Self)
        ensures
            converted.deep_view() == install_reply_message(a.deep_view()),
    {
        pb::InstallSnapshotReplyArgs { term: a.term }
    }
}

impl vstd::std_specs::convert::FromSpecImpl<&InstallSnapshotReplyArgs> for pb::InstallSnapshotReplyArgs {
    open spec fn obeys_from_spec() -> bool {
        false
    }

    open spec fn from_spec(a: &InstallSnapshotReplyArgs) -> Self {
        arbitrary()
    }
}

/// The wire message of a message.
pub fn encode_domain(domain: &RaftMessage) -> (message: pb::RaftMessage)
    ensures
        is_raft_message(domain.deep_view(), message.deep_view()),
{
    let body = match domain {
        RaftMessage::RequestVote(a) => pb::RaftMessageBody::RequestVote(pb::RequestVoteArgs::from(a)),
        RaftMessage::VoteResponse(a) => pb::RaftMessageBody::VoteResponse(pb::VoteResponseArgs::from(a)),
        RaftMessage::AppendEntries(a) => pb::RaftMessageBody::AppendEntries(pb::AppendEntriesArgs::from(a)),
        RaftMessage::AppendReply(a) => pb::RaftMessageBody::AppendReply(pb::AppendReplyArgs::from(a)),
        RaftMessage::InstallSnapshot(a) => pb::RaftMessageBody::InstallSnapshot(pb::InstallSnapshotArgs::from(a)),
        RaftMessage::InstallSnapshotReply(a) => pb::RaftMessageBody::InstallSnapshotReply(
            pb::InstallSnapshotReplyArgs::from(a),
        ),
        RaftMessage::RequestPreVote(a) => pb::RaftMessageBody::RequestPreVote(pb::RequestVoteArgs::from(a)),
        RaftMessage::PreVoteResponse(a) => pb::RaftMessageBody::PreVoteResponse(pb::VoteResponseArgs::from(a)),
    };
    pb::RaftMessage { body: Some(body) }
}

// ---- from the wire ----

impl From<pb::KeyValue> for Command {
    fn from(p: pb::KeyValue) -> (converted: Self)
        ensures
            converted.deep_view() == (CommandModel::SetKey { key: p.key@, value: p.value@ }),
    {
        Command::SetKey { key: p.key, value: p.value }
    }
}

impl vstd::std_specs::convert::FromSpecImpl<pb::KeyValue> for Command {
    open spec fn obeys_from_spec() -> bool {
        false
    }

    open spec fn from_spec(p: pb::KeyValue) -> Self {
        arbitrary()
    }
}

impl From<pb::Get> for Command {
    fn from(p: pb::Get) -> (converted: Self)
        ensures
            converted.deep_view() == (CommandModel::Get { key: p.key@ }),
    {
        Command::Get { key: p.key }
    }
}

impl vstd::std_specs::convert::FromSpecImpl<pb::Get> for Command {
    open spec fn obeys_from_spec() -> bool {
        false
    }

    open spec fn from_spec(p: pb::Get) -> Self {
        arbitrary()
    }
}

impl From<pb::Delete> for Command {
    fn from(p: pb::Delete) -> (converted: Self)
        ensures
            converted.deep_view() == (CommandModel::Delete { key: p.key@ }),
    {
        Command::Delete { key: p.key }
    }
}

impl vstd::std_specs::convert::FromSpecImpl<pb::Delete> for Command {
    open spec fn obeys_from_spec() -> bool {
        false
    }

    open spec fn from_spec(p: pb::Delete) -> Self {
        arbitrary()
    }
}

impl From<pb::Empty> for Command {
    fn from(p: pb::Empty) -> (converted: Self)
        ensures
            converted.deep_view() == CommandModel::Compact,
    {
        Command::Compact
    }
}

impl vstd::std_specs::convert::FromSpecImpl<pb::Empty> for Command {
    open spec fn obeys_from_spec() -> bool {
        false
    }

    open spec fn from_spec(p: pb::Empty) -> Self {
        arbitrary()
    }
}

impl From<pb::ServerId> for ServerId {
    fn from(s: pb::ServerId) -> (converted: Self)
        ensures
            converted.deep_view() == message_server(s.deep_view()),
    {
        ServerId { node_id: s.node_id, addr: s.addr }
    }
}

impl vstd::std_specs::convert::FromSpecImpl<pb::ServerId> for ServerId {
    open spec fn obeys_from_spec() -> bool {
        false
    }

    open spec fn from_spec(s: pb::ServerId) -> Self {
        arbitrary()
    }
}

/// The servers of wire messages.
fn servers_from_wire(list: &Vec<pb::ServerId>) -> (servers: Vec<ServerId>)
    ensures
        servers.deep_view() == message_servers(list.deep_view()),
{
    let mut servers: Vec<ServerId> = Vec::new();
    let mut i: usize = 0;
    while i < list.len()
        invariant
            i <= list@.len(),
            servers@.len() == i,
            forall|j: int|
                0 <= j < i ==> (#[trigger] servers@[j]).deep_view() == message_server(list@[j].deep_view()),
        decreases list@.len() - i,
    {
        let server = &list[i];
        servers.push(ServerId { node_id: server.node_id.clone(), addr: server.addr.clone() });
        i = i + 1;
    }
    assert(servers.deep_view() =~= message_servers(list.deep_view()));
    servers
}

impl From<pb::ConfigurationEntry> for Configuration {
    fn from(c: pb::ConfigurationEntry) -> (converted: Self)
        ensures
            converted.deep_view() == message_configuration(c.deep_view()),
    {
        let new = servers_from_wire(&c.new_servers);
        if c.kind == pb::KIND_JOINT {
            Configuration::Joint { old: servers_from_wire(&c.old_servers), new }
        } else {
            Configuration::Simple(new)
        }
    }
}

impl vstd::std_specs::convert::FromSpecImpl<pb::ConfigurationEntry> for Configuration {
    open spec fn obeys_from_spec() -> bool {
        false
    }

    open spec fn from_spec(c: pb::ConfigurationEntry) -> Self {
        arbitrary()
    }
}

/// The write of a wire message.
fn op_from_wire(p: &pb::TxOp) -> (op: TxOp)
    ensures
        op.deep_view() == message_op(p.deep_view()),
{
    match &p.body {
        Some(pb::TxOpBody::Put(s)) => TxOp::Put { key: s.key.clone(), value: s.value.clone() },
        Some(pb::TxOpBody::Delete(d)) => TxOp::Delete { key: d.key.clone() },
        None => TxOp::Delete { key: String::new() },
    }
}

impl From<pb::TxOp> for TxOp {
    fn from(p: pb::TxOp) -> (converted: Self)
        ensures
            converted.deep_view() == message_op(p.deep_view()),
    {
        op_from_wire(&p)
    }
}

impl vstd::std_specs::convert::FromSpecImpl<pb::TxOp> for TxOp {
    open spec fn obeys_from_spec() -> bool {
        false
    }

    open spec fn from_spec(p: pb::TxOp) -> Self {
        arbitrary()
    }
}

/// The command of a wire message.
fn command_from_wire(p: &pb::Command) -> (command: Command)
    ensures
        command.deep_view() == message_command(p.deep_view()),
{
    match &p.body {
        Some(pb::CommandBody::KeyValue(s)) => Command::SetKey { key: s.key.clone(), value: s.value.clone() },
        Some(pb::CommandBody::Get(g)) => Command::Get { key: g.key.clone() },
        Some(pb::CommandBody::Delete(d)) => Command::Delete { key: d.key.clone() },
        Some(pb::CommandBody::Compact(_)) => Command::Compact,
        Some(pb::CommandBody::BeginTx(b)) => {
            let mut ops: Vec<TxOp> = Vec::new();
            let mut i: usize = 0;
            while i < b.ops.len()
                invariant
                    i <= b.ops@.len(),
                    ops@.len() == i,
                    forall|j: int|
                        0 <= j < i ==> (#[trigger] ops@[j]).deep_view() == message_op(b.ops@[j].deep_view()),
                decreases b.ops@.len() - i,
            {
                ops.push(op_from_wire(&b.ops[i]));
                i = i + 1;
            }
            assert(ops.deep_view() =~= Seq::new(
                b.ops.deep_view().len(),
                |i: int| message_op(b.ops.deep_view()[i]),
            ));
            Command::BeginTx { tx_id: b.tx_id.clone(), ops }
        },
        Some(pb::CommandBody::DecideTx(d)) => {
            let decision = if d.commit {
                TxDecision::Commit
            } else {
                TxDecision::Abort
            };
            Command::DecideTx { tx_id: d.tx_id.clone(), decision }
        },
        Some(pb::CommandBody::AddNode(_)) => Command::Compact,
        Some(pb::CommandBody::RemoveNode(_)) => Command::Compact,
        Some(pb::CommandBody::InstallConfiguration(c)) => {
            let new = servers_from_wire(&c.new_servers);
            let config = if c.kind == pb::KIND_JOINT {
                Configuration::Joint { old: servers_from_wire(&c.old_servers), new }
            } else {
                Configuration::Simple(new)
            };
            Command::InstallConfiguration { config }
        },
        None => Command::Compact,
    }
}

impl From<pb::Command> for Command {
    fn from(p: pb::Command) -> (converted: Self)
        ensures
            converted.deep_view() == message_command(p.deep_view()),
    {
        command_from_wire(&p)
    }
}

impl vstd::std_specs::convert::FromSpecImpl<pb::Command> for Command {
    open spec fn obeys_from_spec() -> bool {
        false
    }

    open spec fn from_spec(p: pb::Command) -> Self {
        arbitrary()
    }
}

/// The log entry of a wire message.
fn entry_from_wire(p: &pb::LogEntry) -> (entry: LogEntry)
    ensures
        entry.deep_view() == message_entry(p.deep_view()),
{
    LogEntry {
        term: p.term,
        index: p.index as usize,
        command: match &p.command {
            Some(c) => command_from_wire(c),
            None => Command::Compact,
        },
    }
}

impl From<pb::LogEntry> for LogEntry {
    fn from(p: pb::LogEntry) -> (converted: Self)
        ensures
            converted.deep_view() == message_entry(p.deep_view()),
    {
        entry_from_wire(&p)
    }
}

impl vstd::std_specs::convert::FromSpecImpl<pb::LogEntry> for LogEntry {
    open spec fn obeys_from_spec() -> bool {
        false
    }

    open spec fn from_spec(p: pb::LogEntry) -> Self {
        arbitrary()
    }
}

impl From<pb::RequestVoteArgs> for RequestVoteArgs {
    fn from(p: pb::RequestVoteArgs) -> (converted: Self)
        ensures
            converted.deep_view() == message_request_vote(p.deep_view()),
    {
        RequestVoteArgs {
            term: p.term,
            candidate_id: p.candidate_id,
            last_log_index: p.last_log_index,
            last_log_term: p.last_log_term,
        }
    }
}

impl vstd::std_specs::convert::FromSpecImpl<pb::RequestVoteArgs> for RequestVoteArgs {
    open spec fn obeys_from_spec() -> bool {
        false
    }

    open spec fn from_spec(p: pb::RequestVoteArgs) -> Self {
        arbitrary()
    }
}

impl From<pb::VoteResponseArgs> for VoteResponseArgs {
    fn from(p: pb::VoteResponseArgs) -> (converted: Self)
        ensures
            converted.deep_view() == message_vote_response(p.deep_view()),
    {
        VoteResponseArgs { term: p.term, vote_granted: p.vote_granted }
    }
}

impl vstd::std_specs::convert::FromSpecImpl<pb::VoteResponseArgs> for VoteResponseArgs {
    open spec fn obeys_from_spec() -> bool {
        false
    }

    open spec fn from_spec(p: pb::VoteResponseArgs) -> Self {
        arbitrary()
    }
}

impl From<pb::AppendEntriesArgs> for AppendEntriesArgs {
    fn from(p: pb::AppendEntriesArgs) -> (converted: Self)
        ensures
            converted.deep_view() == message_append_entries(p.deep_view()),
    {
        let mut entries: Vec<LogEntry> = Vec::new();
        let mut i: usize = 0;
        while i < p.entries.len()
            invariant
                i <= p.entries@.len(),
                entries@.len() == i,
                forall|j: int|
                    0 <= j < i ==> (#[trigger] entries@[j]).deep_view() == message_entry(p.entries@[j].deep_view()),
            decreases p.entries@.len() - i,
        {
            entries.push(entry_from_wire(&p.entries[i]));
            i = i + 1;
        }
        assert(entries.deep_view() =~= message_append_entries(p.deep_view()).entries);
        AppendEntriesArgs {
            term: p.term,
            leader_id: p.leader_id,
            prev_log_index: p.prev_log_index,
            prev_log_term: p.prev_log_term,
            entries,
            leader_commit: p.leader_commit,
        }
    }
}

impl vstd::std_specs::convert::FromSpecImpl<pb::AppendEntriesArgs> for AppendEntriesArgs {
    open spec fn obeys_from_spec() -> bool {
        false
    }

    open spec fn from_spec(p: pb::AppendEntriesArgs) -> Self {
        arbitrary()
    }
}

impl From<pb::AppendReplyArgs> for AppendReplyArgs {
    fn from(p: pb::AppendReplyArgs) -> (converted: Self)
        ensures
            converted.deep_view() == message_append_reply(p.deep_view()),
    {
        AppendReplyArgs { term: p.term, success: p.success }
    }
}

impl vstd::std_specs::convert::FromSpecImpl<pb::AppendReplyArgs> for AppendReplyArgs {
    open spec fn obeys_from_spec() -> bool {
        false
    }

    open spec fn from_spec(p: pb::AppendReplyArgs) -> Self {
        arbitrary()
    }
}

impl From<pb::Snapshot> for Snapshot {
    fn from(p: pb::Snapshot) -> (converted: Self)
        ensures
            converted.deep_view() == message_snapshot(p.deep_view()),
    {
        let ghost pairs = p.data.deep_view();
        let mut data: TextMap<String> = TextMap::new();
        let mut i: usize = 0;
        assert(pairs.take(0) =~= Seq::<pb::KeyValueModel>::empty());
        while i < p.data.len()
            invariant
                i <= p.data@.len(),
                pairs == p.data.deep_view(),
                data@ == pairs_map(pairs.take(i as int)),
            decreases p.data@.len() - i,
        {
            let pair = &p.data[i];
            data.insert(pair.key.clone(), pair.value.clone());
            proof {
                assert(pairs.take(i + 1).drop_last() =~= pairs.take(i as int));
                assert(pairs.take(i + 1).last() == pair.deep_view());
            }
            i = i + 1;
        }
        assert(pairs.take(p.data@.len() as int) =~= pairs);
        Snapshot { last_included_index: p.last_included_index, last_included_term: p.last_included_term, data }
    }
}

impl vstd::std_specs::convert::FromSpecImpl<pb::Snapshot> for Snapshot {
    open spec fn obeys_from_spec() -> bool {
        false
    }

    open spec fn from_spec(p: pb::Snapshot) -> Self {
        arbitrary()
    }
}

impl From<pb::InstallSnapshotArgs> for InstallSnapshotArgs {
    fn from(p: pb::InstallSnapshotArgs) -> (converted: Self)
        ensures
            converted.deep_view() == message_install(p.deep_view()),
    {
        let snapshot = match p.snapshot {
            Some(s) => Snapshot::from(s),
            None => Snapshot {
                last_included_index: p.last_included_index,
                last_included_term: p.last_included_term,
                data: TextMap::new(),
            },
        };
        InstallSnapshotArgs {
            term: p.term,
            leader_id: p.leader_id,
            last_included_index: p.last_included_index,
            last_included_term: p.last_included_term,
            snapshot,
        }
    }
}

impl vstd::std_specs::convert::FromSpecImpl<pb::InstallSnapshotArgs> for InstallSnapshotArgs {
    open spec fn obeys_from_spec() -> bool {
        false
    }

    open spec fn from_spec(p: pb::InstallSnapshotArgs) -> Self {
        arbitrary()
    }
}

impl From<pb::InstallSnapshotReplyArgs> for InstallSnapshotReplyArgs {
    fn from(p: pb::InstallSnapshotReplyArgs) -> (converted: Self)
        ensures
            converted.deep_view() == message_install_reply(p.deep_view()),
    {
        InstallSnapshotReplyArgs { term: p.term }
    }
}

impl vstd::std_specs::convert::FromSpecImpl<pb::InstallSnapshotReplyArgs> for InstallSnapshotReplyArgs {
    open spec fn obeys_from_spec() -> bool {
        false
    }

    open spec fn from_spec(p: pb::InstallSnapshotReplyArgs) -> Self {
        arbitrary()
    }
}

/// The message of a wire message.
pub fn decode_domain(p: pb::RaftMessage) -> (domain: RaftMessage)
    ensures
        domain.deep_view() == message_raft(p.deep_view()),
{
    match p.body {
        Some(pb::RaftMessageBody::RequestVote(a)) => RaftMessage::RequestVote(RequestVoteArgs::from(a)),
        Some(pb::RaftMessageBody::VoteResponse(a)) => RaftMessage::VoteResponse(VoteResponseArgs::from(a)),
        Some(pb::RaftMessageBody::AppendEntries(a)) => RaftMessage::AppendEntries(AppendEntriesArgs::from(a)),
        Some(pb::RaftMessageBody::AppendReply(a)) => RaftMessage::AppendReply(AppendReplyArgs::from(a)),
        Some(pb::RaftMessageBody::InstallSnapshot(a)) => RaftMessage::InstallSnapshot(InstallSnapshotArgs::from(a)),
        Some(pb::RaftMessageBody::InstallSnapshotReply(a)) => RaftMessage::InstallSnapshotReply(
            InstallSnapshotReplyArgs::from(a),
        ),
        Some(pb::RaftMessageBody::RequestPreVote(a)) => RaftMessage::RequestPreVote(RequestVoteArgs::from(a)),
        Some(pb::RaftMessageBody::PreVoteResponse(a)) => RaftMessage::PreVoteResponse(VoteResponseArgs::from(a)),
        None => RaftMessage::VoteResponse(VoteResponseArgs { term: 0, vote_granted: false }),
    }
}

// ---- laws ----

/// A command that can stand in the log comes back from its wire message; a
/// client request that the leader replaces comes back as a marker without
/// effect.
pub proof fn command_round_trip(command: CommandModel)
    ensures
        message_command(command_message(command)) == if command is AddNode || command is RemoveNode || command
            is AbortTx {
            CommandModel::Compact
        } else {
            command
        },
{
    match command {
        CommandModel::BeginTx { tx_id, ops } => {
            let back = message_command(command_message(command));
            assert(back->BeginTx_ops =~= ops) by {
                assert forall|i: int| 0 <= i < ops.len() implies message_op(op_message(#[trigger] ops[i]))
                    == ops[i] by {}
            }
        },
        CommandModel::InstallConfiguration { config } => {
            match config {
                ConfigurationModel::Simple(servers) => servers_round_trip(servers),
                ConfigurationModel::Joint { old, new } => {
                    servers_round_trip(old);
                    servers_round_trip(new);
                },
            }
        },
        _ => {},
    }
}

proof fn servers_round_trip(servers: Seq<ServerModel>)
    ensures
        message_servers(servers_message(servers)) == servers,
{
    assert(message_servers(servers_message(servers)) =~= servers);
}

/// No entry holds a client request that the leader replaces.
pub open spec fn loggable(entries: Seq<LogEntryModel>) -> bool {
    forall|i: int|
        0 <= i < entries.len() ==> !((#[trigger] entries[i]).command is AddNode || entries[i].command is RemoveNode
            || entries[i].command is AbortTx)
}

proof fn pairs_of_entries(pairs: Seq<pb::KeyValueModel>, data: Map<Seq<char>, Seq<char>>, n: int)
    requires
        lists_entries(pairs, data),
        0 <= n <= pairs.len(),
    ensures
        forall|key: Seq<char>|
            #[trigger] pairs_map(pairs.take(n)).contains_key(key) <==> pair_keys(pairs).take(n).contains(key),
        forall|key: Seq<char>|
            pairs_map(pairs.take(n)).contains_key(key) ==> #[trigger] pairs_map(pairs.take(n))[key] == data[key],
    decreases n,
{
    let keys = pair_keys(pairs);
    if n > 0 {
        pairs_of_entries(pairs, data, n - 1);
        let before = pairs.take(n - 1);
        let after = pairs.take(n);
        assert(after.drop_last() =~= before);
        assert(after.last() == pairs[n - 1]);
        assert(keys[n - 1] == pairs[n - 1].key);
        assert(pairs_map(after) == pairs_map(before).insert(keys[n - 1], pairs[n - 1].value));
        assert forall|key: Seq<char>| keys.take(n).contains(key) == (keys.take(n - 1).contains(key) || key
            == keys[n - 1]) by {
            if keys.take(n - 1).contains(key) {
                assert(keys.take(n)[keys.take(n - 1).index_of(key)] == key);
            }
            assert(keys.take(n)[n - 1] == keys[n - 1]);
            if keys.take(n).contains(key) && key != keys[n - 1] {
                let p = keys.take(n).index_of(key);
                assert(keys.take(n - 1)[p] == key);
            }
        }
    } else {
        assert(pairs.take(0) =~= Seq::<pb::KeyValueModel>::empty());
        assert(pairs_map(pairs.take(0)) =~= Map::<Seq<char>, Seq<char>>::empty());
        assert(keys.take(0) =~= Seq::<Seq<char>>::empty());
    }
}

/// A snapshot comes back from its wire message.
pub proof fn snapshot_round_trip(s: SnapshotModel, p: pb::SnapshotModel)
    requires
        is_snapshot_message(s, p),
    ensures
        message_snapshot(p) == s,
{
    pairs_of_entries(p.data, s.data, p.data.len() as int);
    assert(p.data.take(p.data.len() as int) =~= p.data);
    assert(pair_keys(p.data).take(p.data.len() as int) =~= pair_keys(p.data));
    assert(pairs_map(p.data) =~= s.data) by {
        assert forall|key: Seq<char>| pairs_map(p.data).contains_key(key) <==> s.data.contains_key(key) by {
            assert(s.data.contains_key(key) <==> pair_keys(p.data).contains(key));
        }
    }
}

/// A message between nodes comes back from its wire message.
pub proof fn raft_message_round_trip(m: RaftMessageModel, p: pb::RaftMessageModel)
    requires
        is_raft_message(m, p),
        m matches RaftMessageModel::AppendEntries(a) ==> loggable(a.entries),
    ensures
        message_raft(p) == m,
{
    match m {
        RaftMessageModel::AppendEntries(a) => {
            let back = message_append_entries(append_entries_message(a));
            assert(back.entries =~= a.entries) by {
                assert forall|i: int| 0 <= i < a.entries.len() implies back.entries[i] == #[trigger] a.entries[i] by {
                    command_round_trip(a.entries[i].command);
                }
            }
        },
        RaftMessageModel::InstallSnapshot(a) => {
            let q = p.body->0->InstallSnapshot_0;
            snapshot_round_trip(a.snapshot, q.snapshot->0);
        },
        _ => {},
    }
}

} // verus!
