//! What can go wrong for a client.

use vstd::prelude::*;

verus! {

broadcast use vstd::string::group_string_axioms;

/// Why a request has no result.
#[derive(Debug, Clone, PartialEq, Eq)]
pub enum ClientError {
    /// The connection failed.
    Transport(String),
    /// The reply is not JSON.
    MalformedResponse(String),
    /// The node does not lead.
    NotLeader(String),
    /// The transaction was aborted.
    TxAborted { tx_id: String, reason: String },
    /// The node refused the request.
    Server(String),
    /// The node closed the connection.
    ConnectionClosed,
}

pub enum ClientErrorModel {
    Transport(Seq<char>),
    MalformedResponse(Seq<char>),
    NotLeader(Seq<char>),
    TxAborted { tx_id: Seq<char>, reason: Seq<char> },
    Server(Seq<char>),
    ConnectionClosed,
}

impl DeepView for ClientError {
    type V = ClientErrorModel;

    open spec fn deep_view(&self) -> ClientErrorModel {
        match self {
            ClientError::Transport(s) => ClientErrorModel::Transport(s@),
            ClientError::MalformedResponse(s) => ClientErrorModel::MalformedResponse(s@),
            ClientError::NotLeader(s) => ClientErrorModel::NotLeader(s@),
            ClientError::TxAborted { tx_id, reason } => ClientErrorModel::TxAborted { tx_id: tx_id@, reason: reason@ },
            ClientError::Server(s) => ClientErrorModel::Server(s@),
            ClientError::ConnectionClosed => ClientErrorModel::ConnectionClosed,
        }
    }
}

/// The `Debug` text of a text.
pub uninterp spec fn debug_text(s: Seq<char>) -> Seq<char>;

/// `Debug` of `str`, as `format` writes it: the text in quotes, with escapes; a
/// function of the text.
#[verifier::external_body]
fn format_debug(s: &str) -> (quoted: String)
    ensures
        quoted@ == debug_text(s@),
{
    format!("{:?}", s)
}

/// The message of an error.
pub open spec fn error_text(error: ClientErrorModel) -> Seq<char> {
    match error {
        ClientErrorModel::Transport(s) => "transport: "@ + s,
        ClientErrorModel::MalformedResponse(s) => "malformed response: "@ + s,
        ClientErrorModel::NotLeader(s) => "not a leader (server says: "@ + s + ")"@,
        ClientErrorModel::TxAborted { tx_id, reason } => "transaction "@ + debug_text(tx_id) + " aborted: "@ + reason,
        ClientErrorModel::Server(s) => "server error: "@ + s,
        ClientErrorModel::ConnectionClosed => "connection closed by server"@,
    }
}

impl ClientError {
    /// The message of the error.
    pub fn to_string(&self) -> (message: String)
        ensures
            message@ == error_text(self.deep_view()),
    {
        match self {
            ClientError::Transport(s) => {
                let mut message = "transport: ".to_owned();
                message.append(s.as_str());
                message
            },
            ClientError::MalformedResponse(s) => {
                let mut message = "malformed response: ".to_owned();
                message.append(s.as_str());
                message
            },
            ClientError::NotLeader(s) => {
                let mut message = "not a leader (server says: ".to_owned();
                message.append(s.as_str());
                message.append(")");
                message
            },
            ClientError::TxAborted { tx_id, reason } => {
                let mut message = "transaction ".to_owned();
                let quoted = format_debug(tx_id.as_str());
                message.append(quoted.as_str());
                message.append(" aborted: ");
                message.append(reason.as_str());
                message
            },
            ClientError::Server(s) => {
                let mut message = "server error: ".to_owned();
                message.append(s.as_str());
                message
            },
            ClientError::ConnectionClosed => "connection closed by server".to_owned(),
        }
    }
}

/// The model of a result.
pub open spec fn outcome<T: DeepView>(result: Result<T, ClientError>) -> Result<T::V, ClientErrorModel> {
    match result {
        Ok(value) => Ok(value.deep_view()),
        Err(error) => Err(error.deep_view()),
    }
}

} // verus!
