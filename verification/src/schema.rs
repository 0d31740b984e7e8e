//! The messages of the protobuf schemas and the kinds of their fields.

use vstd::prelude::*;

verus! {

/// A message type.
#[derive(Debug, Clone, Copy, PartialEq, Eq, Structural)]
pub enum MessageKind {
    KeyValue,
    Key,
    Empty,
    TxOp,
    BeginTx,
    DecideTx,
    ServerId,
    ConfigurationEntry,
    Command,
    LogEntry,
    RequestVoteArgs,
    VoteResponseArgs,
    AppendEntriesArgs,
    AppendReplyArgs,
    Snapshot,
    InstallSnapshotArgs,
    InstallSnapshotReplyArgs,
    RaftMessage,
    VoteRequest,
    VoteResponse,
}

/// How the contents of a field are to be read.
#[derive(Debug, Clone, Copy, PartialEq, Eq, Structural)]
pub enum FieldKind {
    Varint,
    Text,
    Message(MessageKind),
}

/// How deep messages nest below a message type.
pub open spec fn depth(kind: MessageKind) -> nat {
    match kind {
        MessageKind::RaftMessage => 7,
        MessageKind::AppendEntriesArgs => 6,
        MessageKind::LogEntry => 5,
        MessageKind::Command => 4,
        MessageKind::BeginTx => 3,
        MessageKind::InstallSnapshotArgs => 3,
        MessageKind::TxOp => 2,
        MessageKind::ConfigurationEntry => 2,
        MessageKind::Snapshot => 2,
        _ => 1,
    }
}

/// The kind of the field `tag` of a message; `None` for a tag that the message
/// does not have.
pub open spec fn field_kind(kind: MessageKind, tag: u32) -> Option<FieldKind> {
    match kind {
        MessageKind::KeyValue | MessageKind::ServerId => if tag == 1 || tag == 2 {
            Some(FieldKind::Text)
        } else {
            None
        },
        MessageKind::Key => if tag == 1 {
            Some(FieldKind::Text)
        } else {
            None
        },
        MessageKind::Empty => None,
        MessageKind::TxOp => if tag == 1 {
            Some(FieldKind::Message(MessageKind::KeyValue))
        } else if tag == 2 {
            Some(FieldKind::Message(MessageKind::Key))
        } else {
            None
        },
        MessageKind::BeginTx => if tag == 1 {
            Some(FieldKind::Text)
        } else if tag == 2 {
            Some(FieldKind::Message(MessageKind::TxOp))
        } else {
            None
        },
        MessageKind::DecideTx => if tag == 1 {
            Some(FieldKind::Text)
        } else if tag == 2 {
            Some(FieldKind::Varint)
        } else {
            None
        },
        MessageKind::ConfigurationEntry => if tag == 1 {
            Some(FieldKind::Varint)
        } else if tag == 2 || tag == 3 {
            Some(FieldKind::Message(MessageKind::ServerId))
        } else {
            None
        },
        MessageKind::Command => if tag == 1 {
            Some(FieldKind::Message(MessageKind::KeyValue))
        } else if tag == 2 || tag == 3 {
            Some(FieldKind::Message(MessageKind::Key))
        } else if tag == 4 {
            Some(FieldKind::Message(MessageKind::Empty))
        } else if tag == 5 {
            Some(FieldKind::Message(MessageKind::BeginTx))
        } else if tag == 6 {
            Some(FieldKind::Message(MessageKind::DecideTx))
        } else if tag == 7 {
            Some(FieldKind::Message(MessageKind::ServerId))
        } else if tag == 8 {
            Some(FieldKind::Text)
        } else if tag == 9 {
            Some(FieldKind::Message(MessageKind::ConfigurationEntry))
        } else {
            None
        },
        MessageKind::LogEntry => if tag == 1 || tag == 2 {
            Some(FieldKind::Varint)
        } else if tag == 3 {
            Some(FieldKind::Message(MessageKind::Command))
        } else {
            None
        },
        MessageKind::RequestVoteArgs | MessageKind::VoteRequest => if tag == 2 {
            Some(FieldKind::Text)
        } else if tag == 1 || tag == 3 || tag == 4 {
            Some(FieldKind::Varint)
        } else {
            None
        },
        MessageKind::VoteResponseArgs | MessageKind::AppendReplyArgs => if tag == 1 || tag == 2 {
            Some(FieldKind::Varint)
        } else {
            None
        },
        MessageKind::AppendEntriesArgs => if tag == 2 {
            Some(FieldKind::Text)
        } else if tag == 5 {
            Some(FieldKind::Message(MessageKind::LogEntry))
        } else if tag == 1 || tag == 3 || tag == 4 || tag == 6 {
            Some(FieldKind::Varint)
        } else {
            None
        },
        MessageKind::Snapshot => if tag == 1 || tag == 2 {
            Some(FieldKind::Varint)
        } else if tag == 3 {
            Some(FieldKind::Message(MessageKind::KeyValue))
        } else {
            None
        },
        MessageKind::InstallSnapshotArgs => if tag == 2 {
            Some(FieldKind::Text)
        } else if tag == 5 {
            Some(FieldKind::Message(MessageKind::Snapshot))
        } else if tag == 1 || tag == 3 || tag == 4 {
            Some(FieldKind::Varint)
        } else {
            None
        },
        MessageKind::InstallSnapshotReplyArgs => if tag == 1 {
            Some(FieldKind::Varint)
        } else {
            None
        },
        MessageKind::RaftMessage => if tag == 1 || tag == 7 {
            Some(FieldKind::Message(MessageKind::RequestVoteArgs))
        } else if tag == 2 || tag == 8 {
            Some(FieldKind::Message(MessageKind::VoteResponseArgs))
        } else if tag == 3 {
            Some(FieldKind::Message(MessageKind::AppendEntriesArgs))
        } else if tag == 4 {
            Some(FieldKind::Message(MessageKind::AppendReplyArgs))
        } else if tag == 5 {
            Some(FieldKind::Message(MessageKind::InstallSnapshotArgs))
        } else if tag == 6 {
            Some(FieldKind::Message(MessageKind::InstallSnapshotReplyArgs))
        } else {
            None
        },
        MessageKind::VoteResponse => if tag == 1 || tag == 2 {
            Some(FieldKind::Varint)
        } else if tag == 3 {
            Some(FieldKind::Text)
        } else {
            None
        },
    }
}

/// Looks up the kind of the field `tag` of a message.
pub fn find_field_kind(kind: MessageKind, tag: u32) -> (found: Option<FieldKind>)
    ensures
        found == field_kind(kind, tag),
        found matches Some(FieldKind::Message(inner)) ==> depth(inner) < depth(kind),
{
    match kind {
        MessageKind::KeyValue | MessageKind::ServerId => if tag == 1 || tag == 2 {
            Some(FieldKind::Text)
        } else {
            None
        },
        MessageKind::Key => if tag == 1 {
            Some(FieldKind::Text)
        } else {
            None
        },
        MessageKind::Empty => None,
        MessageKind::TxOp => if tag == 1 {
            Some(FieldKind::Message(MessageKind::KeyValue))
        } else if tag == 2 {
            Some(FieldKind::Message(MessageKind::Key))
        } else {
            None
        },
        MessageKind::BeginTx => if tag == 1 {
            Some(FieldKind::Text)
        } else if tag == 2 {
            Some(FieldKind::Message(MessageKind::TxOp))
        } else {
            None
        },
        MessageKind::DecideTx => if tag == 1 {
            Some(FieldKind::Text)
        } else if tag == 2 {
            Some(FieldKind::Varint)
        } else {
            None
        },
        MessageKind::ConfigurationEntry => if tag == 1 {
            Some(FieldKind::Varint)
        } else if tag == 2 || tag == 3 {
            Some(FieldKind::Message(MessageKind::ServerId))
        } else {
            None
        },
        MessageKind::Command => if tag == 1 {
            Some(FieldKind::Message(MessageKind::KeyValue))
        } else if tag == 2 || tag == 3 {
            Some(FieldKind::Message(MessageKind::Key))
        } else if tag == 4 {
            Some(FieldKind::Message(MessageKind::Empty))
        } else if tag == 5 {
            Some(FieldKind::Message(MessageKind::BeginTx))
        } else if tag == 6 {
            Some(FieldKind::Message(MessageKind::DecideTx))
        } else if tag == 7 {
            Some(FieldKind::Message(MessageKind::ServerId))
        } else if tag == 8 {
            Some(FieldKind::Text)
        } else if tag == 9 {
            Some(FieldKind::Message(MessageKind::ConfigurationEntry))
        } else {
            None
        },
        MessageKind::LogEntry => if tag == 1 || tag == 2 {
            Some(FieldKind::Varint)
        } else if tag == 3 {
            Some(FieldKind::Message(MessageKind::Command))
        } else {
            None
        },
        MessageKind::RequestVoteArgs | MessageKind::VoteRequest => if tag == 2 {
            Some(FieldKind::Text)
        } else if tag == 1 || tag == 3 || tag == 4 {
            Some(FieldKind::Varint)
        } else {
            None
        },
        MessageKind::VoteResponseArgs | MessageKind::AppendReplyArgs => if tag == 1 || tag == 2 {
            Some(FieldKind::Varint)
        } else {
            None
        },
        MessageKind::AppendEntriesArgs => if tag == 2 {
            Some(FieldKind::Text)
        } else if tag == 5 {
            Some(FieldKind::Message(MessageKind::LogEntry))
        } else if tag == 1 || tag == 3 || tag == 4 || tag == 6 {
            Some(FieldKind::Varint)
        } else {
            None
        },
        MessageKind::Snapshot => if tag == 1 || tag == 2 {
            Some(FieldKind::Varint)
        } else if tag == 3 {
            Some(FieldKind::Message(MessageKind::KeyValue))
        } else {
            None
        },
        MessageKind::InstallSnapshotArgs => if tag == 2 {
            Some(FieldKind::Text)
        } else if tag == 5 {
            Some(FieldKind::Message(MessageKind::Snapshot))
        } else if tag == 1 || tag == 3 || tag == 4 {
            Some(FieldKind::Varint)
        } else {
            None
        },
        MessageKind::InstallSnapshotReplyArgs => if tag == 1 {
            Some(FieldKind::Varint)
        } else {
            None
        },
        MessageKind::RaftMessage => if tag == 1 || tag == 7 {
            Some(FieldKind::Message(MessageKind::RequestVoteArgs))
        } else if tag == 2 || tag == 8 {
            Some(FieldKind::Message(MessageKind::VoteResponseArgs))
        } else if tag == 3 {
            Some(FieldKind::Message(MessageKind::AppendEntriesArgs))
        } else if tag == 4 {
            Some(FieldKind::Message(MessageKind::AppendReplyArgs))
        } else if tag == 5 {
            Some(FieldKind::Message(MessageKind::InstallSnapshotArgs))
        } else if tag == 6 {
            Some(FieldKind::Message(MessageKind::InstallSnapshotReplyArgs))
        } else {
            None
        },
        MessageKind::VoteResponse => if tag == 1 || tag == 2 {
            Some(FieldKind::Varint)
        } else if tag == 3 {
            Some(FieldKind::Text)
        } else {
            None
        },
    }
}

} // verus!
