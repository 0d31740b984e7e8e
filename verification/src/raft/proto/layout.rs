//! Where each part of a message stands on the wire.

use crate::message::Message;
use crate::protocol::{CommandModel, ConfigurationModel, LogEntryModel, ServerModel, TxDecision, TxOpModel};
use crate::raft::proto::pb;
use crate::raft::rpc::{
    AppendEntriesArgsModel, AppendReplyArgsModel, InstallSnapshotArgsModel, InstallSnapshotReplyArgsModel,
    RaftMessageModel, RequestVoteArgsModel, VoteResponseArgsModel,
};
use crate::wire::{FieldModel, FieldValueModel};
use vstd::prelude::*;

verus! {

/// A number under a tag.
pub open spec fn number(tag: u32, value: u64) -> FieldModel {
    FieldModel { tag, value: FieldValueModel::Varint(value) }
}

/// A text under a tag.
pub open spec fn words(tag: u32, text: Seq<char>) -> FieldModel {
    FieldModel { tag, value: FieldValueModel::Bytes(vstd::utf8::encode_utf8(text)) }
}

/// A message under a tag.
pub open spec fn inner(tag: u32, fields: Seq<FieldModel>) -> FieldModel {
    FieldModel { tag, value: FieldValueModel::Bytes(crate::wire::fields_bytes(fields)) }
}

/// Numbers that are 0 and texts that are empty are left out.
pub proof fn defaults_are_left_out(tag: u32, value: u64, text: Seq<char>)
    ensures
        crate::message::varint_field(tag, 0) == Seq::<FieldModel>::empty(),
        crate::message::text_field(tag, Seq::empty()) == Seq::<FieldModel>::empty(),
        value != 0 ==> crate::message::varint_field(tag, value) == seq![number(tag, value)],
        text.len() > 0 ==> crate::message::text_field(tag, text) == seq![words(tag, text)],
        crate::message::flag(true) == 1,
        crate::message::flag(false) == 0,
{
}

// ---- commands ----

/// A write of a transaction: a put under 1, with its key under 1 and its value
/// under 2, and a removal under 2, with its key under 1.
pub proof fn writes_are_laid_out_so(key: Seq<char>, value: Seq<char>)
    requires
        key.len() > 0,
        value.len() > 0,
    ensures
        pb::TxOp::fields_of(crate::raft::proto::op_message((TxOpModel::Put { key, value }))) == seq![
            inner(1, seq![words(1, key), words(2, value)]),
        ],
        pb::TxOp::fields_of(crate::raft::proto::op_message((TxOpModel::Delete { key }))) == seq![
            inner(2, seq![words(1, key)]),
        ],
{
    assert(pb::KeyValue::fields_of(pb::KeyValueModel { key, value }) =~= seq![words(1, key), words(2, value)]);
    assert(pb::Delete::fields_of(pb::DeleteModel { key }) =~= seq![words(1, key)]);
}

/// Each command stands under its own tag, with its parts under theirs.
pub proof fn commands_are_laid_out_so(
    key: Seq<char>,
    value: Seq<char>,
    tx_id: Seq<char>,
    server: ServerModel,
    node_id: Seq<char>,
)
    requires
        key.len() > 0,
        value.len() > 0,
        tx_id.len() > 0,
        server.node_id.len() > 0,
        server.addr.len() > 0,
    ensures
        ({
            let fields = |command: CommandModel|
                pb::Command::fields_of(crate::raft::proto::command_message(command));
            &&& fields((CommandModel::SetKey { key, value })) == seq![inner(1, seq![words(1, key), words(2, value)])]
            &&& fields((CommandModel::Get { key })) == seq![inner(2, seq![words(1, key)])]
            &&& fields((CommandModel::Delete { key })) == seq![inner(3, seq![words(1, key)])]
            &&& fields(CommandModel::Compact) == seq![inner(4, Seq::empty())]
            &&& fields((CommandModel::DecideTx { tx_id, decision: TxDecision::Commit })) == seq![
                inner(6, seq![words(1, tx_id), number(2, 1)]),
            ]
            &&& fields((CommandModel::DecideTx { tx_id, decision: TxDecision::Abort })) == seq![
                inner(6, seq![words(1, tx_id)]),
            ]
            &&& fields((CommandModel::AddNode { server })) == seq![
                inner(7, seq![words(1, server.node_id), words(2, server.addr)]),
            ]
            &&& fields((CommandModel::RemoveNode { node_id })) == seq![words(8, node_id)]
            &&& fields((CommandModel::AbortTx { tx_id })) == Seq::<FieldModel>::empty()
        }),
{
    assert(pb::KeyValue::fields_of(pb::KeyValueModel { key, value }) =~= seq![words(1, key), words(2, value)]);
    assert(pb::Get::fields_of(pb::GetModel { key }) =~= seq![words(1, key)]);
    assert(pb::Delete::fields_of(pb::DeleteModel { key }) =~= seq![words(1, key)]);
    assert(pb::DecideTx::fields_of(pb::DecideTxModel { tx_id, commit: true }) =~= seq![words(1, tx_id), number(2, 1)]);
    assert(pb::DecideTx::fields_of(pb::DecideTxModel { tx_id, commit: false }) =~= seq![words(1, tx_id)]);
    assert(pb::ServerId::fields_of(crate::raft::proto::server_message(server)) =~= seq![
        words(1, server.node_id),
        words(2, server.addr),
    ]);
}

/// A transaction stands under 5: its name under 1 and its writes under 2, in
/// order.
pub proof fn transactions_are_laid_out_so(tx_id: Seq<char>, ops: Seq<TxOpModel>)
    requires
        tx_id.len() > 0,
    ensures
        pb::Command::fields_of(
            crate::raft::proto::command_message((CommandModel::BeginTx { tx_id, ops })),
        ) == seq![
            inner(
                5,
                seq![words(1, tx_id)] + Seq::new(
                    ops.len(),
                    |i: int| inner(2, pb::TxOp::fields_of(crate::raft::proto::op_message(ops[i]))),
                ),
            ),
        ],
{
    let writes = Seq::new(
        ops.len(),
        |i: int| inner(2, pb::TxOp::fields_of(crate::raft::proto::op_message(ops[i]))),
    );
    let models = Seq::new(ops.len(), |i: int| crate::raft::proto::op_message(ops[i]));
    assert(pb::BeginTx::fields_of(pb::BeginTxModel { tx_id, ops: models }) =~= seq![words(1, tx_id)] + writes);
}

/// A configuration stands under 9: its kind under 1, 1 for a simple and 2 for a
/// joint one; the old servers of a joint one under 2; and the new servers, which
/// are those of a simple one, under 3. A server has its name under 1 and its
/// address under 2.
pub proof fn configurations_are_laid_out_so(old: Seq<ServerModel>, new: Seq<ServerModel>)
    ensures
        ({
            let fields = |config: ConfigurationModel|
                pb::Command::fields_of(
                    crate::raft::proto::command_message((CommandModel::InstallConfiguration { config })),
                );
            let listed = |tag: u32, servers: Seq<ServerModel>|
                Seq::new(
                    servers.len(),
                    |i: int| inner(tag, pb::ServerId::fields_of(crate::raft::proto::server_message(servers[i]))),
                );
            &&& fields(ConfigurationModel::Simple(new)) == seq![inner(9, seq![number(1, 1)] + listed(3, new))]
            &&& fields((ConfigurationModel::Joint { old, new })) == seq![
                inner(9, seq![number(1, 2)] + listed(2, old) + listed(3, new)),
            ]
        }),
{
    let listed = |tag: u32, servers: Seq<ServerModel>|
        Seq::new(
            servers.len(),
            |i: int| inner(tag, pb::ServerId::fields_of(crate::raft::proto::server_message(servers[i]))),
        );
    let simple = crate::raft::proto::configuration_message(ConfigurationModel::Simple(new));
    let joint = crate::raft::proto::configuration_message(ConfigurationModel::Joint { old, new });
    assert(pb::ConfigurationEntry::fields_of(simple) =~= seq![number(1, 1)] + listed(3, new));
    assert(pb::ConfigurationEntry::fields_of(joint) =~= seq![number(1, 2)] + listed(2, old) + listed(3, new));
}

/// An entry of the log has its term under 1, its index under 2 and its command
/// under 3.
pub proof fn entries_are_laid_out_so(entry: LogEntryModel)
    requires
        entry.term > 0,
        entry.index > 0,
    ensures
        pb::LogEntry::fields_of(crate::raft::proto::entry_message(entry)) == seq![
            number(1, entry.term),
            number(2, entry.index as u64),
            inner(3, pb::Command::fields_of(crate::raft::proto::command_message(entry.command))),
        ],
{
    assert(pb::LogEntry::fields_of(crate::raft::proto::entry_message(entry)) =~= seq![
        number(1, entry.term),
        number(2, entry.index as u64),
        inner(3, pb::Command::fields_of(crate::raft::proto::command_message(entry.command))),
    ]);
}

// ---- messages between nodes ----

/// Each message stands under its own tag.
pub proof fn messages_have_these_tags(m: RaftMessageModel, p: pb::RaftMessageModel)
    requires
        crate::raft::proto::is_raft_message(m, p),
    ensures
        pb::RaftMessage::fields_of(p).len() == 1,
        pb::RaftMessage::fields_of(p)[0].tag == match m {
            RaftMessageModel::RequestVote(_) => 1u32,
            RaftMessageModel::VoteResponse(_) => 2,
            RaftMessageModel::AppendEntries(_) => 3,
            RaftMessageModel::AppendReply(_) => 4,
            RaftMessageModel::InstallSnapshot(_) => 5,
            RaftMessageModel::InstallSnapshotReply(_) => 6,
            RaftMessageModel::RequestPreVote(_) => 7,
            RaftMessageModel::PreVoteResponse(_) => 8,
        },
{
}

/// A request for a vote has the term, the candidate, and the index and the term
/// of its last entry under 1 to 4, as a vote and as a probe.
pub proof fn vote_requests_are_laid_out_so(a: RequestVoteArgsModel, vote: pb::RaftMessageModel, probe: pb::RaftMessageModel)
    requires
        crate::raft::proto::is_raft_message(RaftMessageModel::RequestVote(a), vote),
        crate::raft::proto::is_raft_message(RaftMessageModel::RequestPreVote(a), probe),
        a.term > 0,
        a.candidate_id.len() > 0,
        a.last_log_index > 0,
        a.last_log_term > 0,
    ensures
        ({
            let parts = seq![
                number(1, a.term),
                words(2, a.candidate_id),
                number(3, a.last_log_index),
                number(4, a.last_log_term),
            ];
            &&& pb::RaftMessage::fields_of(vote) == seq![inner(1, parts)]
            &&& pb::RaftMessage::fields_of(probe) == seq![inner(7, parts)]
        }),
{
    assert(pb::RequestVoteArgs::fields_of(crate::raft::proto::request_vote_message(a)) =~= seq![
        number(1, a.term),
        words(2, a.candidate_id),
        number(3, a.last_log_index),
        number(4, a.last_log_term),
    ]);
}

/// A vote, and the answer to a probe, has the term under 1 and whether it was
/// granted under 2.
pub proof fn votes_are_laid_out_so(a: VoteResponseArgsModel, vote: pb::RaftMessageModel, probe: pb::RaftMessageModel)
    requires
        crate::raft::proto::is_raft_message(RaftMessageModel::VoteResponse(a), vote),
        crate::raft::proto::is_raft_message(RaftMessageModel::PreVoteResponse(a), probe),
        a.term > 0,
    ensures
        ({
            let parts = if a.vote_granted {
                seq![number(1, a.term), number(2, 1)]
            } else {
                seq![number(1, a.term)]
            };
            &&& pb::RaftMessage::fields_of(vote) == seq![inner(2, parts)]
            &&& pb::RaftMessage::fields_of(probe) == seq![inner(8, parts)]
        }),
{
    let parts = if a.vote_granted {
        seq![number(1, a.term), number(2, 1)]
    } else {
        seq![number(1, a.term)]
    };
    assert(pb::VoteResponseArgs::fields_of(crate::raft::proto::vote_response_message(a)) =~= parts);
}

/// A leader's entries come with the term, the leader, and the index and the term
/// of the entry before them under 1 to 4; the entries stand under 5, in order, and
/// what the leader has committed under 6.
pub proof fn appends_are_laid_out_so(a: AppendEntriesArgsModel, p: pb::RaftMessageModel)
    requires
        crate::raft::proto::is_raft_message(RaftMessageModel::AppendEntries(a), p),
        a.term > 0,
        a.leader_id.len() > 0,
        a.prev_log_index > 0,
        a.prev_log_term > 0,
        a.leader_commit > 0,
    ensures
        pb::RaftMessage::fields_of(p) == seq![
            inner(
                3,
                seq![
                    number(1, a.term),
                    words(2, a.leader_id),
                    number(3, a.prev_log_index),
                    number(4, a.prev_log_term),
                ] + Seq::new(
                    a.entries.len(),
                    |i: int| inner(5, pb::LogEntry::fields_of(crate::raft::proto::entry_message(a.entries[i]))),
                ) + seq![number(6, a.leader_commit)],
            ),
        ],
{
    let entries = Seq::new(
        a.entries.len(),
        |i: int| inner(5, pb::LogEntry::fields_of(crate::raft::proto::entry_message(a.entries[i]))),
    );
    assert(pb::AppendEntriesArgs::fields_of(crate::raft::proto::append_entries_message(a)) =~= seq![
        number(1, a.term),
        words(2, a.leader_id),
        number(3, a.prev_log_index),
        number(4, a.prev_log_term),
    ] + entries + seq![number(6, a.leader_commit)]);
}

/// The answers to entries and to a snapshot have the term under 1, and the former
/// whether they were taken under 2.
pub proof fn answers_are_laid_out_so(
    a: AppendReplyArgsModel,
    b: InstallSnapshotReplyArgsModel,
    appended: pb::RaftMessageModel,
    installed: pb::RaftMessageModel,
)
    requires
        crate::raft::proto::is_raft_message(RaftMessageModel::AppendReply(a), appended),
        crate::raft::proto::is_raft_message(RaftMessageModel::InstallSnapshotReply(b), installed),
        a.term > 0,
        b.term > 0,
    ensures
        pb::RaftMessage::fields_of(appended) == seq![
            inner(
                4,
                if a.success {
                    seq![number(1, a.term), number(2, 1)]
                } else {
                    seq![number(1, a.term)]
                },
            ),
        ],
        pb::RaftMessage::fields_of(installed) == seq![inner(6, seq![number(1, b.term)])],
{
    let parts = if a.success {
        seq![number(1, a.term), number(2, 1)]
    } else {
        seq![number(1, a.term)]
    };
    assert(pb::AppendReplyArgs::fields_of(crate::raft::proto::append_reply_message(a)) =~= parts);
    assert(pb::InstallSnapshotReplyArgs::fields_of(crate::raft::proto::install_reply_message(b)) =~= seq![
        number(1, b.term),
    ]);
}

/// A snapshot comes with the term, the leader, and the index and the term that it
/// reaches to under 1 to 4, and stands under 5: again with that index and term
/// under 1 and 2, and with a pair for every key under 3, each once, the key under
/// 1 and its value under 2.
pub proof fn snapshots_are_laid_out_so(a: InstallSnapshotArgsModel, p: pb::RaftMessageModel, data: Seq<pb::KeyValueModel>)
    requires
        p.body matches Some(pb::RaftMessageBodyModel::InstallSnapshot(q)) && q.snapshot matches Some(s) && s.data
            == data,
        crate::raft::proto::is_raft_message(RaftMessageModel::InstallSnapshot(a), p),
        a.term > 0,
        a.leader_id.len() > 0,
        a.last_included_index > 0,
        a.last_included_term > 0,
        a.snapshot.last_included_index > 0,
        a.snapshot.last_included_term > 0,
    ensures
        pb::RaftMessage::fields_of(p) == seq![
            inner(
                5,
                seq![
                    number(1, a.term),
                    words(2, a.leader_id),
                    number(3, a.last_included_index),
                    number(4, a.last_included_term),
                    inner(
                        5,
                        seq![
                            number(1, a.snapshot.last_included_index),
                            number(2, a.snapshot.last_included_term),
                        ] + Seq::new(data.len(), |i: int| inner(3, pb::KeyValue::fields_of(data[i]))),
                    ),
                ],
            ),
        ],
        forall|i: int|
            0 <= i < data.len() && (#[trigger] data[i]).key.len() > 0 && data[i].value.len() > 0
                ==> pb::KeyValue::fields_of(data[i]) == seq![words(1, data[i].key), words(2, data[i].value)],
        forall|i: int|
            0 <= i < data.len() ==> a.snapshot.data.contains_key((#[trigger] data[i]).key) && data[i].value
                == a.snapshot.data[data[i].key],
        forall|key: Seq<char>| #[trigger]
            a.snapshot.data.contains_key(key) ==> exists|i: int| 0 <= i < data.len() && (#[trigger] data[i]).key == key,
        forall|i: int, j: int| 0 <= i < j < data.len() ==> (#[trigger] data[i]).key != (#[trigger] data[j]).key,
{
    let q = p.body->0->InstallSnapshot_0;
    let s = q.snapshot->0;
    let pairs = Seq::new(data.len(), |i: int| inner(3, pb::KeyValue::fields_of(data[i])));
    assert(pb::Snapshot::fields_of(s) =~= seq![
        number(1, a.snapshot.last_included_index),
        number(2, a.snapshot.last_included_term),
    ] + pairs);
    assert(pb::InstallSnapshotArgs::fields_of(q) =~= seq![
        number(1, a.term),
        words(2, a.leader_id),
        number(3, a.last_included_index),
        number(4, a.last_included_term),
        inner(5, pb::Snapshot::fields_of(s)),
    ]);
    assert forall|i: int|
        0 <= i < data.len() && (#[trigger] data[i]).key.len() > 0 && data[i].value.len() > 0 implies pb::KeyValue::fields_of(
        data[i],
    ) == seq![words(1, data[i].key), words(2, data[i].value)] by {
        assert(pb::KeyValue::fields_of(data[i]) =~= seq![words(1, data[i].key), words(2, data[i].value)]);
    }
    let keys = crate::raft::proto::pair_keys(data);
    assert forall|i: int| 0 <= i < data.len() implies a.snapshot.data.contains_key((#[trigger] data[i]).key)
        && data[i].value == a.snapshot.data[data[i].key] by {
        assert(keys[i] == data[i].key);
        assert(keys.contains(keys[i]));
    }
    assert forall|key: Seq<char>| #[trigger] a.snapshot.data.contains_key(key) implies exists|i: int|
        0 <= i < data.len() && (#[trigger] data[i]).key == key by {
        assert(keys.contains(key));
        let i = choose|i: int| 0 <= i < keys.len() && keys[i] == key;
        assert(data[i].key == key);
    }
    assert forall|i: int, j: int| 0 <= i < j < data.len() implies (#[trigger] data[i]).key != (
    #[trigger] data[j]).key by {
        assert(keys[i] == data[i].key && keys[j] == data[j].key);
        if data[i].key == data[j].key {
            crate::text_map::ascending_keys_are_distinct(keys, i, j);
        }
    }
}

/// A request for a transaction's vote has the term, the transaction, and the index
/// and the term of the leader's last entry under 1 to 4; the answer has the term,
/// whether the vote was granted, and the reason under 1 to 3.
pub proof fn transaction_votes_are_laid_out_so(
    request: crate::coordination::VoteRequestModel,
    response: crate::coordination::VoteResponseModel,
)
    requires
        request.term > 0,
        request.tx_id.len() > 0,
        request.last_log_index > 0,
        request.last_log_term > 0,
        response.term > 0,
        response.reason.len() > 0,
    ensures
        crate::coordination::pb::VoteRequest::fields_of(request) == seq![
            number(1, request.term),
            words(2, request.tx_id),
            number(3, request.last_log_index),
            number(4, request.last_log_term),
        ],
        crate::coordination::pb::VoteResponse::fields_of(response) == if response.vote_granted {
            seq![number(1, response.term), number(2, 1), words(3, response.reason)]
        } else {
            seq![number(1, response.term), words(3, response.reason)]
        },
{
    assert(crate::coordination::pb::VoteRequest::fields_of(request) =~= seq![
        number(1, request.term),
        words(2, request.tx_id),
        number(3, request.last_log_index),
        number(4, request.last_log_term),
    ]);
    let parts = if response.vote_granted {
        seq![number(1, response.term), number(2, 1), words(3, response.reason)]
    } else {
        seq![number(1, response.term), words(3, response.reason)]
    };
    assert(crate::coordination::pb::VoteResponse::fields_of(response) =~= parts);
}

// ---- reading ----

/// What a message without its parts is read as. A command without a body, and a
/// membership command, which no node sends, has no effect; so has an entry
/// without a command. A write without a body removes the empty key. A message
/// without a body is a refused vote of no term. A configuration is joint only if
/// it says so.
pub proof fn missing_parts_are_read_so(
    term: u64,
    index: u64,
    server: pb::ServerIdModel,
    node_id: Seq<char>,
    config: pb::ConfigurationEntryModel,
)
    ensures
        crate::raft::proto::message_command((pb::CommandModel { body: None })) == CommandModel::Compact,
        crate::raft::proto::message_command(
            (pb::CommandModel { body: Some(pb::CommandBodyModel::AddNode(server)) }),
        ) == CommandModel::Compact,
        crate::raft::proto::message_command(
            (pb::CommandModel { body: Some(pb::CommandBodyModel::RemoveNode(node_id)) }),
        ) == CommandModel::Compact,
        crate::raft::proto::message_entry((pb::LogEntryModel { term, index, command: None })) == (LogEntryModel {
            term,
            index: index as usize,
            command: CommandModel::Compact,
        }),
        crate::raft::proto::message_op((pb::TxOpModel { body: None })) == (TxOpModel::Delete { key: Seq::empty() }),
        crate::raft::proto::message_raft((pb::RaftMessageModel { body: None })) == RaftMessageModel::VoteResponse(
            (VoteResponseArgsModel { term: 0, vote_granted: false }),
        ),
        crate::raft::proto::message_configuration(config) is Joint <==> config.kind == 2,
        crate::raft::proto::message_configuration(config) matches ConfigurationModel::Simple(servers) ==> {
            &&& servers.len() == config.new_servers.len()
            &&& forall|i: int|
                0 <= i < servers.len() ==> (#[trigger] servers[i]).node_id == config.new_servers[i].node_id
                    && servers[i].addr == config.new_servers[i].addr
        },
{
}

proof fn later_pairs_count(pairs: Seq<pb::KeyValueModel>, i: int)
    requires
        0 <= i < pairs.len(),
        forall|j: int| i < j < pairs.len() ==> (#[trigger] pairs[j]).key != pairs[i].key,
    ensures
        crate::raft::proto::pairs_map(pairs).contains_key(pairs[i].key),
        crate::raft::proto::pairs_map(pairs)[pairs[i].key] == pairs[i].value,
    decreases pairs.len(),
{
    if i < pairs.len() - 1 {
        let rest = pairs.drop_last();
        assert(rest[i] == pairs[i]);
        assert forall|j: int| i < j < rest.len() implies (#[trigger] rest[j]).key != rest[i].key by {
            assert(rest[j] == pairs[j]);
        }
        later_pairs_count(rest, i);
        assert(pairs[pairs.len() - 1].key != pairs[i].key);
    }
}

proof fn pairs_make_the_keys(pairs: Seq<pb::KeyValueModel>, key: Seq<char>)
    ensures
        crate::raft::proto::pairs_map(pairs).contains_key(key) <==> exists|i: int|
            0 <= i < pairs.len() && (#[trigger] pairs[i]).key == key,
    decreases pairs.len(),
{
    if pairs.len() > 0 {
        let rest = pairs.drop_last();
        pairs_make_the_keys(rest, key);
        assert(pairs[pairs.len() - 1] == pairs.last());
        if exists|i: int| 0 <= i < rest.len() && (#[trigger] rest[i]).key == key {
            let i = choose|i: int| 0 <= i < rest.len() && (#[trigger] rest[i]).key == key;
            assert(pairs[i].key == key);
        }
        if exists|i: int| 0 <= i < pairs.len() && (#[trigger] pairs[i]).key == key {
            let i = choose|i: int| 0 <= i < pairs.len() && (#[trigger] pairs[i]).key == key;
            if i < rest.len() {
                assert(rest[i].key == key);
            }
        }
    }
}

/// The data of a snapshot that is read has the keys of its pairs, each with the
/// value of the last pair for it, and the index and term that the message says.
pub proof fn snapshots_are_read_so(p: pb::SnapshotModel, i: int, key: Seq<char>)
    requires
        0 <= i < p.data.len(),
        forall|j: int| i < j < p.data.len() ==> (#[trigger] p.data[j]).key != p.data[i].key,
    ensures
        ({
            let s = crate::raft::proto::message_snapshot(p);
            &&& s.last_included_index == p.last_included_index
            &&& s.last_included_term == p.last_included_term
            &&& s.data.contains_key(p.data[i].key) && s.data[p.data[i].key] == p.data[i].value
            &&& s.data.contains_key(key) <==> exists|j: int| 0 <= j < p.data.len() && (#[trigger] p.data[j]).key == key
        }),
{
    later_pairs_count(p.data, i);
    pairs_make_the_keys(p.data, key);
}

} // verus!
