//! A transaction of a client: its writes are gathered, and sent when it
//! commits.

use crate::json::{object, put, text};
use crate::sdk::client::Client;
use serde_json::Value;
use vstd::prelude::*;

verus! {

broadcast use vstd::string::group_string_axioms;

/// What came of a transaction that was committed.
#[derive(Debug, Clone, PartialEq, Eq)]
pub struct TxResult {
    pub decision: String,
    pub begin_index: u64,
    pub decide_index: u64,
    pub tx_id: String,
}

pub struct TxResultModel {
    pub decision: Seq<char>,
    pub begin_index: u64,
    pub decide_index: u64,
    pub tx_id: Seq<char>,
}

impl DeepView for TxResult {
    type V = TxResultModel;

    open spec fn deep_view(&self) -> TxResultModel {
        TxResultModel {
            decision: self.decision@,
            begin_index: self.begin_index,
            decide_index: self.decide_index,
            tx_id: self.tx_id@,
        }
    }
}

/// A write of a transaction, as a request holds it.
pub open spec fn put_op(key: Seq<char>, value: Seq<char>) -> crate::json::JsonModel {
    crate::json::JsonModel::object().with(
        "Put"@,
        crate::json::JsonModel::object().with("key"@, crate::json::JsonModel::Text(key)).with(
            "value"@,
            crate::json::JsonModel::Text(value),
        ),
    )
}

/// A removal of a transaction, as a request holds it.
pub open spec fn delete_op(key: Seq<char>) -> crate::json::JsonModel {
    crate::json::JsonModel::object().with(
        "Delete"@,
        crate::json::JsonModel::object().with("key"@, crate::json::JsonModel::Text(key)),
    )
}

/// What JSON values hold.
pub open spec fn json_models(values: Seq<Value>) -> Seq<crate::json::JsonModel> {
    Seq::new(values.len(), |i: int| crate::json::json_of(values[i]))
}

/// A transaction that has not been sent.
pub struct Transaction {
    pub tx_id: String,
    pub ops: Vec<Value>,
}

impl Transaction {
    /// A transaction without writes.
    pub fn new(tx_id: String) -> (transaction: Self)
        ensures
            transaction.tx_id == tx_id,
            transaction.ops@.len() == 0,
    {
        Transaction { tx_id, ops: Vec::new() }
    }

    /// Adds a write.
    pub fn set(&mut self, key: &str, value: &str) -> (this: &mut Self)
        ensures
            this.tx_id == old(self).tx_id,
            json_models(this.ops@) == json_models(old(self).ops@).push(put_op(key@, value@)),
            *final(self) == *final(this),
    {
        let mut fields = object();
        put(&mut fields, "key", text(key));
        put(&mut fields, "value", text(value));
        let mut op = object();
        put(&mut op, "Put", fields);
        self.ops.push(op);
        assert(json_models(self.ops@) =~= json_models(old(self).ops@).push(put_op(key@, value@)));
        self
    }

    /// Adds a removal.
    pub fn delete(&mut self, key: &str) -> (this: &mut Self)
        ensures
            this.tx_id == old(self).tx_id,
            json_models(this.ops@) == json_models(old(self).ops@).push(delete_op(key@)),
            *final(self) == *final(this),
    {
        let mut fields = object();
        put(&mut fields, "key", text(key));
        let mut op = object();
        put(&mut op, "Delete", fields);
        self.ops.push(op);
        assert(json_models(self.ops@) =~= json_models(old(self).ops@).push(delete_op(key@)));
        self
    }

    /// The request that sends the transaction to be committed.
    pub fn commit(self) -> (request: Value)
        ensures
            crate::json::json_of(request) == crate::sdk::client::begin_tx_request(
                self.tx_id@,
                json_models(self.ops@),
            ),
    {
        Client::begin_tx_request(self.tx_id.as_str(), self.ops)
    }

    /// The request that aborts the transaction.
    pub fn abort(self) -> (request: Value)
        ensures
            crate::json::json_of(request) == crate::sdk::client::decide_tx_request(self.tx_id@, false),
    {
        Client::decide_tx_request(self.tx_id.as_str(), false)
    }
}

} // verus!
