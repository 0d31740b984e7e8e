//! The requests of a client, and their results.

use crate::json::{list, null, number_field, object, put, text, text_field, to_text, JsonModel};
use crate::sdk::error::{ClientError, ClientErrorModel};
use crate::sdk::transaction::{Transaction, TxResult, TxResultModel};
use crate::text::{chars_of, occurs_here, str_equal};
use serde_json::Value;
use vstd::prelude::*;

verus! {

broadcast use vstd::string::group_string_axioms;

// ---- requests ----

/// A request to set a key.
pub open spec fn set_request(key: Seq<char>, value: Seq<char>) -> JsonModel {
    JsonModel::object().with(
        "Set"@,
        JsonModel::object().with("key"@, JsonModel::Text(key)).with("value"@, JsonModel::Text(value)),
    )
}

/// A request to read a key.
pub open spec fn get_request(key: Seq<char>) -> JsonModel {
    JsonModel::object().with("Get"@, JsonModel::object().with("key"@, JsonModel::Text(key)))
}

/// A request to remove a key.
pub open spec fn delete_request(key: Seq<char>) -> JsonModel {
    JsonModel::object().with("Delete"@, JsonModel::object().with("key"@, JsonModel::Text(key)))
}

/// A request to run a transaction.
pub open spec fn begin_tx_request(tx_id: Seq<char>, ops: Seq<JsonModel>) -> JsonModel {
    JsonModel::object().with(
        "BeginTx"@,
        JsonModel::object().with("tx_id"@, JsonModel::Text(tx_id)).with("ops"@, JsonModel::List(ops)),
    )
}

/// A request to decide a transaction.
pub open spec fn decide_tx_request(tx_id: Seq<char>, commit: bool) -> JsonModel {
    JsonModel::object().with(
        "DecideTx"@,
        JsonModel::object().with("tx_id"@, JsonModel::Text(tx_id)).with(
            "decision"@,
            JsonModel::object().with(
                if commit {
                    "Commit"@
                } else {
                    "Abort"@
                },
                JsonModel::Null,
            ),
        ),
    )
}

/// A client.
pub struct Client;

impl Client {
    /// The request to set a key. Its reply is read by
    /// [`Client::parse_index_response`].
    pub fn set(key: &str, value: &str) -> (request: Value)
        ensures
            crate::json::json_of(request) == set_request(key@, value@),
    {
        let mut fields = object();
        put(&mut fields, "key", text(key));
        put(&mut fields, "value", text(value));
        let mut request = object();
        put(&mut request, "Set", fields);
        request
    }

    /// The request to read a key. Its reply is read by
    /// [`Client::parse_get_response`].
    pub fn get(key: &str) -> (request: Value)
        ensures
            crate::json::json_of(request) == get_request(key@),
    {
        let mut fields = object();
        put(&mut fields, "key", text(key));
        let mut request = object();
        put(&mut request, "Get", fields);
        request
    }

    /// The request to remove a key. Its reply is read by
    /// [`Client::parse_index_response`].
    pub fn delete(key: &str) -> (request: Value)
        ensures
            crate::json::json_of(request) == delete_request(key@),
    {
        let mut fields = object();
        put(&mut fields, "key", text(key));
        let mut request = object();
        put(&mut request, "Delete", fields);
        request
    }

    /// A transaction without writes, which nothing is sent of yet.
    pub fn begin_tx(tx_id: String) -> (transaction: Transaction)
        ensures
            transaction.tx_id == tx_id,
            transaction.ops@.len() == 0,
    {
        Transaction::new(tx_id)
    }

    /// The request to run a transaction. Its reply is read by
    /// [`Client::parse_begin_tx_response`].
    pub fn begin_tx_request(tx_id: &str, ops: Vec<Value>) -> (request: Value)
        ensures
            crate::json::json_of(request) == begin_tx_request(tx_id@, crate::sdk::transaction::json_models(ops@)),
    {
        let mut fields = object();
        put(&mut fields, "tx_id", text(tx_id));
        put(&mut fields, "ops", list(ops));
        let mut request = object();
        put(&mut request, "BeginTx", fields);
        request
    }

    /// The request to decide a transaction. Its reply is read by
    /// [`Client::parse_decide_tx_response`].
    pub fn decide_tx_request(tx_id: &str, commit: bool) -> (request: Value)
        ensures
            crate::json::json_of(request) == decide_tx_request(tx_id@, commit),
    {
        let mut decision = object();
        put(
            &mut decision,
            if commit {
                "Commit"
            } else {
                "Abort"
            },
            null(),
        );
        let mut fields = object();
        put(&mut fields, "tx_id", text(tx_id));
        put(&mut fields, "decision", decision);
        let mut request = object();
        put(&mut request, "DecideTx", fields);
        request
    }
}

// ---- replies ----

/// The refusal that a reply holds in its field `error`.
pub open spec fn refusal(resp: JsonModel) -> Option<ClientErrorModel> {
    match resp.text_field("error"@) {
        Some(message) => if crate::text::starts_with_text(message, "Not a leader"@) {
            Some(ClientErrorModel::NotLeader(message))
        } else {
            Some(ClientErrorModel::Server(message))
        },
        None => None,
    }
}

/// The message of a reply whose status is `error`.
pub open spec fn server_message(resp: JsonModel) -> Seq<char> {
    match resp.text_field("message"@) {
        Some(message) => message,
        None => "server error"@,
    }
}

/// The log index that a write was given.
pub open spec fn index_result(resp: JsonModel) -> Result<u64, ClientErrorModel> {
    match refusal(resp) {
        Some(error) => Err(error),
        None => if resp.text_field("status"@) == Some("ok"@) {
            match resp.number_field("index"@) {
                Some(index) => Ok(index),
                None => Err(ClientErrorModel::Server("missing index: "@ + crate::json::json_text(resp))),
            }
        } else if resp.text_field("status"@) == Some("error"@) {
            Err(ClientErrorModel::Server(server_message(resp)))
        } else {
            Err(ClientErrorModel::Server("unexpected response: "@ + crate::json::json_text(resp)))
        },
    }
}

/// The value that was read, none if the key has none.
pub open spec fn get_result(resp: JsonModel) -> Result<Option<Seq<char>>, ClientErrorModel> {
    match refusal(resp) {
        Some(error) => Err(error),
        None => if resp.text_field("status"@) == Some("ok"@) {
            Ok(resp.text_field("data"@))
        } else if resp.text_field("status"@) == Some("not_found"@) {
            Ok(None)
        } else {
            Err(ClientErrorModel::Server("unexpected Get response: "@ + crate::json::json_text(resp)))
        },
    }
}

/// What came of a transaction.
pub open spec fn tx_result(tx_id: Seq<char>, resp: JsonModel) -> Result<TxResultModel, ClientErrorModel> {
    match refusal(resp) {
        Some(error) => Err(error),
        None => if resp.text_field("status"@) == Some("ok"@) {
            match (resp.number_field("begin_index"@), resp.number_field("decide_index"@)) {
                (Some(begin_index), Some(decide_index)) => Ok(
                    TxResultModel {
                        decision: match resp.text_field("decision"@) {
                            Some(decision) => decision,
                            None => "commit"@,
                        },
                        begin_index,
                        decide_index,
                        tx_id,
                    },
                ),
                (None, _) => Err(ClientErrorModel::Server("missing begin_index: "@ + crate::json::json_text(resp))),
                (_, None) => Err(ClientErrorModel::Server("missing decide_index: "@ + crate::json::json_text(resp))),
            }
        } else if resp.text_field("status"@) == Some("aborted"@) {
            Err(
                ClientErrorModel::TxAborted {
                    tx_id,
                    reason: match resp.text_field("reason"@) {
                        Some(reason) => reason,
                        None => ""@,
                    },
                },
            )
        } else if resp.text_field("status"@) == Some("error"@) {
            Err(ClientErrorModel::Server(server_message(resp)))
        } else {
            Err(ClientErrorModel::Server("unexpected BeginTx response: "@ + crate::json::json_text(resp)))
        },
    }
}

/// `prefix` and the text of `resp`.
fn described(prefix: &str, resp: &Value) -> (message: String)
    ensures
        message@ == prefix@ + crate::json::json_text(crate::json::json_of(*resp)),
{
    let mut message = prefix.to_owned();
    let shown = to_text(resp);
    message.append(shown.as_str());
    message
}

/// Whether the reply's field `status` is `word`.
fn status_is(resp: &Value, word: &str) -> (is: bool)
    ensures
        is == (crate::json::json_of(*resp).text_field("status"@) == Some(word@)),
{
    match text_field(resp, "status") {
        Some(status) => str_equal(status, word),
        None => false,
    }
}

impl Client {
    /// Refuses a reply that holds an error.
    pub fn check_not_leader(resp: &Value) -> (checked: Result<(), ClientError>)
        ensures
            match checked {
                Ok(_) => refusal(crate::json::json_of(*resp)) is None,
                Err(error) => refusal(crate::json::json_of(*resp)) == Some(error.deep_view()),
            },
    {
        match text_field(resp, "error") {
            Some(message) => {
                let chars = chars_of(message);
                let words = chars_of("Not a leader");
                if occurs_here(&chars, &words, 0) {
                    Err(ClientError::NotLeader(message.to_owned()))
                } else {
                    Err(ClientError::Server(message.to_owned()))
                }
            },
            None => Ok(()),
        }
    }

    /// The message of a reply whose status is `error`.
    fn server_error(resp: &Value) -> (error: ClientError)
        ensures
            error.deep_view() == ClientErrorModel::Server(server_message(crate::json::json_of(*resp))),
    {
        match text_field(resp, "message") {
            Some(message) => ClientError::Server(message.to_owned()),
            None => ClientError::Server("server error".to_owned()),
        }
    }

    /// Reads the reply to a write: the log index that it was given.
    pub fn parse_index_response(resp: &Value) -> (result: Result<u64, ClientError>)
        ensures
            crate::sdk::error::outcome(result) == index_result(crate::json::json_of(*resp)),
    {
        match Client::check_not_leader(resp) {
            Err(error) => Err(error),
            Ok(_) => {
                if status_is(resp, "ok") {
                    match number_field(resp, "index") {
                        Some(index) => Ok(index),
                        None => Err(ClientError::Server(described("missing index: ", resp))),
                    }
                } else if status_is(resp, "error") {
                    Err(Client::server_error(resp))
                } else {
                    Err(ClientError::Server(described("unexpected response: ", resp)))
                }
            },
        }
    }

    /// Reads the reply to a read: the value of the key, none if it has none.
    pub fn parse_get_response(resp: &Value) -> (result: Result<Option<String>, ClientError>)
        ensures
            crate::sdk::error::outcome(result) == get_result(crate::json::json_of(*resp)),
    {
        match Client::check_not_leader(resp) {
            Err(error) => Err(error),
            Ok(_) => {
                if status_is(resp, "ok") {
                    match text_field(resp, "data") {
                        Some(data) => Ok(Some(data.to_owned())),
                        None => Ok(None),
                    }
                } else if status_is(resp, "not_found") {
                    Ok(None)
                } else {
                    Err(ClientError::Server(described("unexpected Get response: ", resp)))
                }
            },
        }
    }

    /// Reads the reply to a transaction.
    pub fn parse_begin_tx_response(tx_id: &str, resp: &Value) -> (result: Result<TxResult, ClientError>)
        ensures
            crate::sdk::error::outcome(result) == tx_result(tx_id@, crate::json::json_of(*resp)),
    {
        match Client::check_not_leader(resp) {
            Err(error) => Err(error),
            Ok(_) => {
                if status_is(resp, "ok") {
                    let decision = match text_field(resp, "decision") {
                        Some(decision) => decision.to_owned(),
                        None => "commit".to_owned(),
                    };
                    match number_field(resp, "begin_index") {
                        None => Err(ClientError::Server(described("missing begin_index: ", resp))),
                        Some(begin_index) => match number_field(resp, "decide_index") {
                            None => Err(ClientError::Server(described("missing decide_index: ", resp))),
                            Some(decide_index) => Ok(
                                TxResult { decision, begin_index, decide_index, tx_id: tx_id.to_owned() },
                            ),
                        },
                    }
                } else if status_is(resp, "aborted") {
                    let reason = match text_field(resp, "reason") {
                        Some(reason) => reason.to_owned(),
                        None => "".to_owned(),
                    };
                    Err(ClientError::TxAborted { tx_id: tx_id.to_owned(), reason })
                } else if status_is(resp, "error") {
                    Err(Client::server_error(resp))
                } else {
                    Err(ClientError::Server(described("unexpected BeginTx response: ", resp)))
                }
            },
        }
    }

    /// Reads the reply to a decision.
    pub fn parse_decide_tx_response(resp: &Value) -> (result: Result<(), ClientError>)
        ensures
            match result {
                Ok(_) => index_result(crate::json::json_of(*resp)) is Ok,
                Err(error) => index_result(crate::json::json_of(*resp)) == Err::<u64, ClientErrorModel>(error.deep_view()),
            },
    {
        match Client::parse_index_response(resp) {
            Ok(_) => Ok(()),
            Err(error) => Err(error),
        }
    }
}

} // verus!
