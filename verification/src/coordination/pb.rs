//! The vote messages as they stand on the wire.

use crate::message::{push_text, push_varint, read_text, read_varint, Message};
use crate::schema::MessageKind;
use crate::wire::{Field, FieldModel};
use vstd::prelude::*;

verus! {

broadcast use crate::message::group_fields;

#[derive(Debug, Clone, PartialEq)]
pub struct VoteRequest {
    pub term: u64,
    pub tx_id: String,
    pub last_log_index: u64,
    pub last_log_term: u64,
}

#[derive(Debug, Clone, PartialEq)]
pub struct VoteResponse {
    pub term: u64,
    pub vote_granted: bool,
    pub reason: String,
}

impl DeepView for VoteRequest {
    type V = crate::coordination::VoteRequestModel;

    open spec fn deep_view(&self) -> crate::coordination::VoteRequestModel {
        crate::coordination::VoteRequestModel {
            term: self.term,
            tx_id: self.tx_id@,
            last_log_index: self.last_log_index,
            last_log_term: self.last_log_term,
        }
    }
}

impl DeepView for VoteResponse {
    type V = crate::coordination::VoteResponseModel;

    open spec fn deep_view(&self) -> crate::coordination::VoteResponseModel {
        crate::coordination::VoteResponseModel {
            term: self.term,
            vote_granted: self.vote_granted,
            reason: self.reason@,
        }
    }
}

impl Message for VoteRequest {
    open spec fn kind() -> MessageKind {
        MessageKind::VoteRequest
    }

    open spec fn fields_of(m: crate::coordination::VoteRequestModel) -> Seq<FieldModel> {
        Seq::empty() + crate::message::varint_field(1, m.term) + crate::message::text_field(2, m.tx_id)
            + crate::message::varint_field(3, m.last_log_index) + crate::message::varint_field(4, m.last_log_term)
    }

    open spec fn of_fields(fields: Seq<FieldModel>) -> crate::coordination::VoteRequestModel {
        crate::coordination::VoteRequestModel {
            term: crate::message::last_varint(fields, 1),
            tx_id: crate::message::last_text(fields, 2),
            last_log_index: crate::message::last_varint(fields, 3),
            last_log_term: crate::message::last_varint(fields, 4),
        }
    }

    proof fn fields_make_value(m: crate::coordination::VoteRequestModel, level: nat) {
        assert(m.tx_id.len() == 0 ==> m.tx_id =~= Seq::<char>::empty());
    }

    fn message_kind() -> (kind: MessageKind) {
        MessageKind::VoteRequest
    }

    fn to_fields(&self) -> (fields: Vec<Field>) {
        let mut fields: Vec<Field> = Vec::new();
        assert(fields.deep_view() =~= Seq::<FieldModel>::empty());
        push_varint(&mut fields, 1, self.term);
        push_text(&mut fields, 2, &self.tx_id);
        push_varint(&mut fields, 3, self.last_log_index);
        push_varint(&mut fields, 4, self.last_log_term);
        fields
    }

    fn from_fields(fields: &Vec<Field>) -> (value: Self) {
        VoteRequest {
            term: read_varint(fields, 1),
            tx_id: read_text(Ghost(MessageKind::VoteRequest), fields, 2),
            last_log_index: read_varint(fields, 3),
            last_log_term: read_varint(fields, 4),
        }
    }
}

impl Message for VoteResponse {
    open spec fn kind() -> MessageKind {
        MessageKind::VoteResponse
    }

    open spec fn fields_of(m: crate::coordination::VoteResponseModel) -> Seq<FieldModel> {
        Seq::empty() + crate::message::varint_field(1, m.term) + crate::message::varint_field(
            2,
            crate::message::flag(m.vote_granted),
        ) + crate::message::text_field(3, m.reason)
    }

    open spec fn of_fields(fields: Seq<FieldModel>) -> crate::coordination::VoteResponseModel {
        crate::coordination::VoteResponseModel {
            term: crate::message::last_varint(fields, 1),
            vote_granted: crate::message::last_varint(fields, 2) != 0,
            reason: crate::message::last_text(fields, 3),
        }
    }

    proof fn fields_make_value(m: crate::coordination::VoteResponseModel, level: nat) {
        assert(m.reason.len() == 0 ==> m.reason =~= Seq::<char>::empty());
    }

    fn message_kind() -> (kind: MessageKind) {
        MessageKind::VoteResponse
    }

    fn to_fields(&self) -> (fields: Vec<Field>) {
        let mut fields: Vec<Field> = Vec::new();
        assert(fields.deep_view() =~= Seq::<FieldModel>::empty());
        push_varint(&mut fields, 1, self.term);
        push_varint(&mut fields, 2, if self.vote_granted { 1 } else { 0 });
        push_text(&mut fields, 3, &self.reason);
        fields
    }

    fn from_fields(fields: &Vec<Field>) -> (value: Self) {
        VoteResponse {
            term: read_varint(fields, 1),
            vote_granted: read_varint(fields, 2) != 0,
            reason: read_text(Ghost(MessageKind::VoteResponse), fields, 3),
        }
    }
}

} // verus!
