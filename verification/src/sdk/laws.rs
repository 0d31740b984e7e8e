//! How the replies of a node and what a client makes of them fit together.

use crate::json::JsonModel;
use crate::protocol::CommandModel;
use crate::raft::coordinator::TxOutcomeModel;
use crate::raft::model::NodeModel;
use crate::raft::node::NodeState;
use crate::sdk::error::ClientErrorModel;
use crate::sdk::transaction::TxResultModel;
use vstd::prelude::*;

verus! {

/// The keys of replies are different texts.
proof fn reply_keys_differ()
    ensures
        "error"@ != "status"@,
        "error"@ != "index"@,
        "error"@ != "data"@,
        "error"@ != "message"@,
        "error"@ != "tx_id"@,
        "error"@ != "decision"@,
        "error"@ != "begin_index"@,
        "error"@ != "decide_index"@,
        "error"@ != "reason"@,
        "error"@ != "code"@,
        "error"@ != "node_id"@,
        "status"@ != "index"@,
        "status"@ != "data"@,
        "status"@ != "message"@,
        "status"@ != "tx_id"@,
        "status"@ != "decision"@,
        "status"@ != "begin_index"@,
        "status"@ != "decide_index"@,
        "status"@ != "reason"@,
        "decision"@ != "begin_index"@,
        "decision"@ != "decide_index"@,
        "begin_index"@ != "decide_index"@,
        "message"@ != "tx_id"@,
{
    reveal_strlit("error");
    reveal_strlit("status");
    reveal_strlit("index");
    reveal_strlit("data");
    reveal_strlit("message");
    reveal_strlit("tx_id");
    reveal_strlit("decision");
    reveal_strlit("begin_index");
    reveal_strlit("decide_index");
    reveal_strlit("reason");
    reveal_strlit("code");
    reveal_strlit("node_id");
    assert("error"@[0] == 'e');
    assert("status"@[0] == 's');
    assert("index"@[0] == 'i');
    assert("data"@.len() == 4);
    assert("message"@[0] == 'm');
    assert("tx_id"@[0] == 't');
    assert("decision"@.len() == 8);
    assert("begin_index"@[0] == 'b');
    assert("decide_index"@.len() == 12);
    assert("reason"@[0] == 'r');
    assert("code"@[0] == 'c');
    assert("node_id"@[0] == 'n');
}

/// The words of a reply's status are different texts.
proof fn status_words_differ()
    ensures
        "ok"@ != "error"@,
        "ok"@ != "not_found"@,
        "ok"@ != "aborted"@,
        "aborted"@ != "error"@,
        "not_found"@ != "error"@,
{
    reveal_strlit("ok");
    reveal_strlit("error");
    reveal_strlit("not_found");
    reveal_strlit("aborted");
    assert("ok"@.len() == 2);
    assert("error"@.len() == 5);
    assert("not_found"@.len() == 9);
    assert("aborted"@.len() == 7);
}

/// A client reads the log index of a write out of the node's reply to it.
pub proof fn acknowledged_writes_are_read(index: u64)
    ensures
        crate::sdk::client::index_result(crate::client::index_reply(index)) == Ok::<u64, ClientErrorModel>(index),
{
    reply_keys_differ();
}

/// A client reads the value of a key, or that it has none, out of the node's
/// reply.
pub proof fn values_are_read(value: Option<Seq<char>>)
    ensures
        crate::sdk::client::get_result(crate::client::value_reply(value)) == Ok::<
            Option<Seq<char>>,
            ClientErrorModel,
        >(value),
{
    reply_keys_differ();
    status_words_differ();
}

/// Every request to a node that does not lead changes nothing, and the client
/// learns that the node does not lead.
pub proof fn followers_are_recognised(node: NodeModel, command: CommandModel, tx_id: Seq<char>)
    requires
        node.state != NodeState::Leader,
    ensures
        crate::client::dispatched(node, command) == crate::client::answered(node, crate::client::not_leader_reply()),
        ({
            let reply = crate::client::not_leader_reply();
            let refusal = ClientErrorModel::NotLeader(crate::client::not_leader_text());
            &&& crate::sdk::client::index_result(reply) == Err::<u64, ClientErrorModel>(refusal)
            &&& crate::sdk::client::get_result(reply) == Err::<Option<Seq<char>>, ClientErrorModel>(refusal)
            &&& crate::sdk::client::tx_result(tx_id, reply) == Err::<TxResultModel, ClientErrorModel>(refusal)
        }),
{
    let message = crate::client::not_leader_text();
    reveal_strlit("Not a leader. Please connect to the leader node.");
    reveal_strlit("Not a leader");
    assert(message.subrange(0, "Not a leader"@.len() as int) =~= "Not a leader"@);
    assert(crate::text::starts_with_text(message, "Not a leader"@));
}

/// A write that could not be logged is an error for the client.
pub proof fn failed_writes_are_errors()
    ensures
        crate::sdk::client::index_result(crate::client::failure_reply()) == Err::<u64, ClientErrorModel>(
            ClientErrorModel::Server("server error"@),
        ),
{
    reply_keys_differ();
    status_words_differ();
}

/// The client learns what came of a transaction: its indices if it was
/// committed, the reason if it was aborted.
pub proof fn outcomes_are_read(outcome: TxOutcomeModel)
    ensures
        match outcome {
            TxOutcomeModel::Committed { begin_index, decide_index, tx_id } => crate::sdk::client::tx_result(
                tx_id,
                crate::client::tx_reply(outcome),
            ) == Ok::<TxResultModel, ClientErrorModel>(
                TxResultModel { decision: "commit"@, begin_index, decide_index, tx_id },
            ),
            TxOutcomeModel::Aborted { tx_id, reason } => crate::sdk::client::tx_result(
                tx_id,
                crate::client::tx_reply(outcome),
            ) == Err::<TxResultModel, ClientErrorModel>(ClientErrorModel::TxAborted { tx_id, reason }),
            TxOutcomeModel::NotLeader { tx_id } => crate::sdk::client::tx_result(
                tx_id,
                crate::client::tx_reply(outcome),
            ) == Err::<TxResultModel, ClientErrorModel>(ClientErrorModel::Server("not leader"@)),
        },
{
    reply_keys_differ();
    status_words_differ();
}

/// A reply whose status is `error` is never taken for a success.
pub proof fn refusals_are_errors(message: Seq<char>, tx_id: Seq<char>)
    ensures
        ({
            let reply = crate::client::error_reply(message);
            let refused = ClientErrorModel::Server(message);
            &&& crate::sdk::client::index_result(reply) == Err::<u64, ClientErrorModel>(refused)
            &&& crate::sdk::client::tx_result(tx_id, reply) == Err::<TxResultModel, ClientErrorModel>(refused)
            &&& crate::sdk::client::get_result(reply) is Err
        }),
{
    reply_keys_differ();
    status_words_differ();
}

/// The text under a name of a reply, if there is one.
pub open spec fn says(resp: JsonModel, name: Seq<char>, word: Seq<char>) -> bool {
    resp matches JsonModel::Object(fields) && fields.contains_key(name) && fields[name] == JsonModel::Text(word)
}

/// When a client has the index of a write: when the reply holds no error, its
/// status is `ok` and it has a number under `index`, and that is the index. An
/// error that the reply holds is told by its own words, which also say whether
/// the node leads.
pub proof fn indices_are_taken_from_replies(resp: JsonModel, index: u64, message: Seq<char>)
    ensures
        crate::sdk::client::index_result(resp) == Ok::<u64, ClientErrorModel>(index) <==> {
            &&& forall|word: Seq<char>| !(#[trigger] says(resp, "error"@, word))
            &&& says(resp, "status"@, "ok"@)
            &&& resp matches JsonModel::Object(fields) && fields.contains_key("index"@) && fields["index"@]
                == JsonModel::Number(index)
        },
        says(resp, "error"@, message) ==> crate::sdk::client::index_result(resp) == Err::<u64, ClientErrorModel>(
            if message.len() >= 12 && message.take(12) == "Not a leader"@ {
                ClientErrorModel::NotLeader(message)
            } else {
                ClientErrorModel::Server(message)
            },
        ),
        (forall|word: Seq<char>| !(#[trigger] says(resp, "error"@, word))) && says(resp, "status"@, "error"@) && says(
            resp,
            "message"@,
            message,
        ) ==> crate::sdk::client::index_result(resp) == Err::<u64, ClientErrorModel>(
            ClientErrorModel::Server(message),
        ),
{
    refusals_are_found(resp, message);
    status_words_differ();
    if says(resp, "status"@, "ok"@) {
        assert(resp.text_field("status"@) == Some("ok"@));
    }
}

proof fn refusals_are_found(resp: JsonModel, message: Seq<char>)
    ensures
        crate::sdk::client::refusal(resp) is None <==> forall|word: Seq<char>| !(#[trigger] says(
            resp,
            "error"@,
            word,
        )),
        says(resp, "error"@, message) ==> crate::sdk::client::refusal(resp) == Some(
            if message.len() >= 12 && message.take(12) == "Not a leader"@ {
                ClientErrorModel::NotLeader(message)
            } else {
                ClientErrorModel::Server(message)
            },
        ),
{
    reveal_strlit("Not a leader");
    assert("Not a leader"@.len() == 12);
    if message.len() >= 12 {
        assert(message.subrange(0, 12) =~= message.take(12));
    }
    match resp.text_field("error"@) {
        Some(word) => {
            assert(says(resp, "error"@, word));
        },
        None => {},
    }
}

/// What a client makes of the reply to a read that holds no error: the text under
/// `data` where the status is `ok`, no value where it is `not_found`, and an error
/// for every other status.
pub proof fn values_are_taken_from_replies(resp: JsonModel, value: Seq<char>)
    requires
        forall|word: Seq<char>| !(#[trigger] says(resp, "error"@, word)),
    ensures
        says(resp, "status"@, "ok"@) && says(resp, "data"@, value) ==> crate::sdk::client::get_result(resp) == Ok::<
            Option<Seq<char>>,
            ClientErrorModel,
        >(Some(value)),
        says(resp, "status"@, "not_found"@) ==> crate::sdk::client::get_result(resp) == Ok::<
            Option<Seq<char>>,
            ClientErrorModel,
        >(None),
        crate::sdk::client::get_result(resp) is Ok ==> says(resp, "status"@, "ok"@) || says(
            resp,
            "status"@,
            "not_found"@,
        ),
        crate::sdk::client::get_result(resp) == Ok::<Option<Seq<char>>, ClientErrorModel>(Some(value)) ==> says(
            resp,
            "data"@,
            value,
        ),
{
    refusals_are_found(resp, value);
    status_words_differ();
}

/// What a client makes of the reply to a transaction that holds no error: both
/// indices where the status is `ok` and they are there, the reason where it is
/// `aborted`, and never a success otherwise.
pub proof fn transactions_are_taken_from_replies(
    tx_id: Seq<char>,
    resp: JsonModel,
    begin_index: u64,
    decide_index: u64,
    decision: Seq<char>,
    reason: Seq<char>,
)
    requires
        forall|word: Seq<char>| !(#[trigger] says(resp, "error"@, word)),
    ensures
        ({
            let result = crate::sdk::client::tx_result(tx_id, resp);
            let has = |name: Seq<char>, n: u64|
                (resp matches JsonModel::Object(fields) && fields.contains_key(name) && fields[name]
                    == JsonModel::Number(n));
            &&& says(resp, "status"@, "ok"@) && says(resp, "decision"@, decision) && has("begin_index"@, begin_index)
                && has("decide_index"@, decide_index) ==> result == Ok::<TxResultModel, ClientErrorModel>(
                (TxResultModel { decision, begin_index, decide_index, tx_id }),
            )
            &&& result matches Ok(r) ==> says(resp, "status"@, "ok"@) && has("begin_index"@, r.begin_index) && has(
                "decide_index"@,
                r.decide_index,
            ) && r.tx_id == tx_id
            &&& says(resp, "status"@, "aborted"@) && says(resp, "reason"@, reason) ==> result == Err::<
                TxResultModel,
                ClientErrorModel,
            >((ClientErrorModel::TxAborted { tx_id, reason }))
        }),
{
    refusals_are_found(resp, reason);
    status_words_differ();
}

/// The fields of each request, by name, and no others.
pub proof fn requests_have_these_fields(key: Seq<char>, value: Seq<char>, tx_id: Seq<char>, ops: Seq<JsonModel>)
    ensures
        crate::sdk::client::set_request(key, value) == JsonModel::Object(
            map![
                "Set"@ => JsonModel::Object(map!["key"@ => JsonModel::Text(key), "value"@ => JsonModel::Text(value)])
            ],
        ),
        crate::sdk::client::get_request(key) == JsonModel::Object(
            map!["Get"@ => JsonModel::Object(map!["key"@ => JsonModel::Text(key)])],
        ),
        crate::sdk::client::delete_request(key) == JsonModel::Object(
            map!["Delete"@ => JsonModel::Object(map!["key"@ => JsonModel::Text(key)])],
        ),
        crate::sdk::client::begin_tx_request(tx_id, ops) == JsonModel::Object(
            map![
                "BeginTx"@ => JsonModel::Object(
                    map!["tx_id"@ => JsonModel::Text(tx_id), "ops"@ => JsonModel::List(ops)],
                )
            ],
        ),
        crate::sdk::client::decide_tx_request(tx_id, true) == JsonModel::Object(
            map![
                "DecideTx"@ => JsonModel::Object(
                    map![
                        "tx_id"@ => JsonModel::Text(tx_id),
                        "decision"@ => JsonModel::Object(map!["Commit"@ => JsonModel::Null])
                    ],
                )
            ],
        ),
        crate::sdk::client::decide_tx_request(tx_id, false) == JsonModel::Object(
            map![
                "DecideTx"@ => JsonModel::Object(
                    map![
                        "tx_id"@ => JsonModel::Text(tx_id),
                        "decision"@ => JsonModel::Object(map!["Abort"@ => JsonModel::Null])
                    ],
                )
            ],
        ),
        crate::sdk::transaction::put_op(key, value) == JsonModel::Object(
            map![
                "Put"@ => JsonModel::Object(map!["key"@ => JsonModel::Text(key), "value"@ => JsonModel::Text(value)])
            ],
        ),
        crate::sdk::transaction::delete_op(key) == JsonModel::Object(
            map!["Delete"@ => JsonModel::Object(map!["key"@ => JsonModel::Text(key)])],
        ),
{
}

} // verus!
