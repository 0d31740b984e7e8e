//! The messages between nodes as they stand on the wire.

use crate::message;
use crate::message::{
    push_chosen_text, push_message, push_optional, push_repeated, push_text, push_varint, read_chosen, read_optional, read_repeated,
    read_text, read_varint, Message,
};
use crate::schema::MessageKind;
use crate::wire::{Field, FieldModel};
use vstd::prelude::*;

verus! {

broadcast use crate::message::group_fields;

/// The kind of a configuration entry that is not set.
pub const KIND_UNSPECIFIED: i32 = 0;

/// The kind of a simple configuration.
pub const KIND_SIMPLE: i32 = 1;

/// The kind of a joint configuration.
pub const KIND_JOINT: i32 = 2;

/// A key and its value.
#[derive(Debug, Clone, PartialEq)]
pub struct KeyValue {
    pub key: String,
    pub value: String,
}

#[verifier::ext_equal]
pub struct KeyValueModel {
    pub key: Seq<char>,
    pub value: Seq<char>,
}

impl DeepView for KeyValue {
    type V = KeyValueModel;

    open spec fn deep_view(&self) -> KeyValueModel {
        KeyValueModel {
            key: self.key@,
            value: self.value@,
        }
    }
}

impl Message for KeyValue {
    open spec fn kind() -> MessageKind {
        MessageKind::KeyValue
    }

    open spec fn fields_of(m: KeyValueModel) -> Seq<FieldModel> {
        Seq::empty()
            + message::text_field(1, m.key)
            + message::text_field(2, m.value)
    }

    open spec fn of_fields(fields: Seq<FieldModel>) -> KeyValueModel {
        KeyValueModel {
            key: message::last_text(fields, 1),
            value: message::last_text(fields, 2),
        }
    }

    #[verifier::spinoff_prover]
    #[verifier::rlimit(60)]
    proof fn fields_make_value(m: KeyValueModel, level: nat) {
        assert(m.key.len() == 0 ==> m.key =~= Seq::<char>::empty());
        assert(m.value.len() == 0 ==> m.value =~= Seq::<char>::empty());
    }

    fn message_kind() -> (kind: MessageKind) {
        MessageKind::KeyValue
    }

    fn to_fields(&self) -> (fields: Vec<Field>) {
        let mut fields: Vec<Field> = Vec::new();
        assert(fields.deep_view() =~= Seq::<FieldModel>::empty());
        push_text(&mut fields, 1, &self.key);
        push_text(&mut fields, 2, &self.value);
        fields
    }

    fn from_fields(fields: &Vec<Field>) -> (value: Self) {
        KeyValue {
            key: read_text(Ghost(MessageKind::KeyValue), fields, 1),
            value: read_text(Ghost(MessageKind::KeyValue), fields, 2),
        }
    }
}

/// A key to read.
#[derive(Debug, Clone, PartialEq)]
pub struct Get {
    pub key: String,
}

#[verifier::ext_equal]
pub struct GetModel {
    pub key: Seq<char>,
}

impl DeepView for Get {
    type V = GetModel;

    open spec fn deep_view(&self) -> GetModel {
        GetModel {
            key: self.key@,
        }
    }
}

impl Message for Get {
    open spec fn kind() -> MessageKind {
        MessageKind::Key
    }

    open spec fn fields_of(m: GetModel) -> Seq<FieldModel> {
        Seq::empty()
            + message::text_field(1, m.key)
    }

    open spec fn of_fields(fields: Seq<FieldModel>) -> GetModel {
        GetModel {
            key: message::last_text(fields, 1),
        }
    }

    #[verifier::spinoff_prover]
    #[verifier::rlimit(60)]
    proof fn fields_make_value(m: GetModel, level: nat) {
        assert(m.key.len() == 0 ==> m.key =~= Seq::<char>::empty());
    }

    fn message_kind() -> (kind: MessageKind) {
        MessageKind::Key
    }

    fn to_fields(&self) -> (fields: Vec<Field>) {
        let mut fields: Vec<Field> = Vec::new();
        assert(fields.deep_view() =~= Seq::<FieldModel>::empty());
        push_text(&mut fields, 1, &self.key);
        fields
    }

    fn from_fields(fields: &Vec<Field>) -> (value: Self) {
        Get {
            key: read_text(Ghost(MessageKind::Key), fields, 1),
        }
    }
}

/// A key to delete.
#[derive(Debug, Clone, PartialEq)]
pub struct Delete {
    pub key: String,
}

#[verifier::ext_equal]
pub struct DeleteModel {
    pub key: Seq<char>,
}

impl DeepView for Delete {
    type V = DeleteModel;

    open spec fn deep_view(&self) -> DeleteModel {
        DeleteModel {
            key: self.key@,
        }
    }
}

impl Message for Delete {
    open spec fn kind() -> MessageKind {
        MessageKind::Key
    }

    open spec fn fields_of(m: DeleteModel) -> Seq<FieldModel> {
        Seq::empty()
            + message::text_field(1, m.key)
    }

    open spec fn of_fields(fields: Seq<FieldModel>) -> DeleteModel {
        DeleteModel {
            key: message::last_text(fields, 1),
        }
    }

    #[verifier::spinoff_prover]
    #[verifier::rlimit(60)]
    proof fn fields_make_value(m: DeleteModel, level: nat) {
        assert(m.key.len() == 0 ==> m.key =~= Seq::<char>::empty());
    }

    fn message_kind() -> (kind: MessageKind) {
        MessageKind::Key
    }

    fn to_fields(&self) -> (fields: Vec<Field>) {
        let mut fields: Vec<Field> = Vec::new();
        assert(fields.deep_view() =~= Seq::<FieldModel>::empty());
        push_text(&mut fields, 1, &self.key);
        fields
    }

    fn from_fields(fields: &Vec<Field>) -> (value: Self) {
        Delete {
            key: read_text(Ghost(MessageKind::Key), fields, 1),
        }
    }
}

/// No contents.
#[derive(Debug, Clone, PartialEq)]
pub struct Empty {}

pub struct EmptyModel {}

impl DeepView for Empty {
    type V = EmptyModel;

    open spec fn deep_view(&self) -> EmptyModel {
        EmptyModel {}
    }
}

impl Message for Empty {
    open spec fn kind() -> MessageKind {
        MessageKind::Empty
    }

    open spec fn fields_of(m: EmptyModel) -> Seq<FieldModel> {
        Seq::empty()
    }

    open spec fn of_fields(fields: Seq<FieldModel>) -> EmptyModel {
        EmptyModel {}
    }

    #[verifier::spinoff_prover]
    #[verifier::rlimit(60)]
    proof fn fields_make_value(m: EmptyModel, level: nat) {
    }

    fn message_kind() -> (kind: MessageKind) {
        MessageKind::Empty
    }

    fn to_fields(&self) -> (fields: Vec<Field>) {
        let fields: Vec<Field> = Vec::new();
        assert(fields.deep_view() =~= Seq::<FieldModel>::empty());
        fields
    }

    fn from_fields(fields: &Vec<Field>) -> (value: Self) {
        Empty {}
    }
}

/// One write of a transaction.
#[derive(Debug, Clone, PartialEq)]
pub struct TxOp {
    pub body: Option<TxOpBody>,
}

#[derive(Debug, Clone, PartialEq)]
pub enum TxOpBody {
    Put(KeyValue),
    Delete(Delete),
}

#[verifier::ext_equal]
pub struct TxOpModel {
    pub body: Option<TxOpBodyModel>,
}

#[verifier::ext_equal]
pub enum TxOpBodyModel {
    Put(KeyValueModel),
    Delete(DeleteModel),
}

impl DeepView for TxOpBody {
    type V = TxOpBodyModel;

    open spec fn deep_view(&self) -> TxOpBodyModel {
        match self {
            TxOpBody::Put(x) => TxOpBodyModel::Put(x.deep_view()),
            TxOpBody::Delete(x) => TxOpBodyModel::Delete(x.deep_view()),
        }
    }
}

impl DeepView for TxOp {
    type V = TxOpModel;

    open spec fn deep_view(&self) -> TxOpModel {
        TxOpModel { body: self.body.deep_view() }
    }
}

impl Message for TxOp {
    open spec fn kind() -> MessageKind {
        MessageKind::TxOp
    }

    open spec fn fields_of(m: TxOpModel) -> Seq<FieldModel> {
        match m.body {
            Some(TxOpBodyModel::Put(x)) => message::message_field(1, KeyValue::fields_of(x)),
            Some(TxOpBodyModel::Delete(x)) => message::message_field(2, Delete::fields_of(x)),
            None => Seq::empty(),
        }
    }

    open spec fn of_fields(fields: Seq<FieldModel>) -> TxOpModel {
        TxOpModel {
            body: match message::chosen(fields, 1, 2) {
                Some((tag, inner)) => Some(
                    if tag == 1 {
                        TxOpBodyModel::Put(KeyValue::of_fields(inner))
                    } else {
                        TxOpBodyModel::Delete(Delete::of_fields(inner))
                    },
                ),
                None => None,
            },
        }
    }

    #[verifier::spinoff_prover]
    #[verifier::rlimit(60)]
    proof fn fields_make_value(m: TxOpModel, level: nat) {
        match m.body {
            Some(TxOpBodyModel::Put(x)) => message::message_makes_value::<KeyValue>(Self::kind(), 1, 2, 1, x, level),
            Some(TxOpBodyModel::Delete(x)) => message::message_makes_value::<Delete>(Self::kind(), 1, 2, 2, x, level),
            None => {},
        }
    }

    fn message_kind() -> (kind: MessageKind) {
        MessageKind::TxOp
    }

    fn to_fields(&self) -> (fields: Vec<Field>) {
        let mut fields: Vec<Field> = Vec::new();
        assert(fields.deep_view() =~= Seq::<FieldModel>::empty());
        match &self.body {
            Some(TxOpBody::Put(x)) => push_message(&mut fields, 1, &x.to_fields()),
            Some(TxOpBody::Delete(x)) => push_message(&mut fields, 2, &x.to_fields()),
            None => {},
        }
        assert(fields.deep_view() =~= Self::fields_of(self.deep_view()));
        fields
    }

    fn from_fields(fields: &Vec<Field>) -> (value: Self) {
        match read_chosen(Ghost(MessageKind::TxOp), fields, 1, 2) {
            Some((tag, inner)) => {
                let body = 
                if tag == 1 {
                    TxOpBody::Put(KeyValue::from_fields(&inner))
                } else {
                    TxOpBody::Delete(Delete::from_fields(&inner))
                };
                TxOp { body: Some(body) }
            },
            None => TxOp { body: None },
        }
    }
}

/// The writes of a transaction.
#[derive(Debug, Clone, PartialEq)]
pub struct BeginTx {
    pub tx_id: String,
    pub ops: Vec<TxOp>,
}

#[verifier::ext_equal]
pub struct BeginTxModel {
    pub tx_id: Seq<char>,
    pub ops: Seq<TxOpModel>,
}

impl DeepView for BeginTx {
    type V = BeginTxModel;

    open spec fn deep_view(&self) -> BeginTxModel {
        BeginTxModel {
            tx_id: self.tx_id@,
            ops: self.ops.deep_view(),
        }
    }
}

impl Message for BeginTx {
    open spec fn kind() -> MessageKind {
        MessageKind::BeginTx
    }

    open spec fn fields_of(m: BeginTxModel) -> Seq<FieldModel> {
        Seq::empty()
            + message::text_field(1, m.tx_id)
            + message::repeated_field(2, message::lists_of::<TxOp>(m.ops))
    }

    open spec fn of_fields(fields: Seq<FieldModel>) -> BeginTxModel {
        BeginTxModel {
            tx_id: message::last_text(fields, 1),
            ops: message::values_of::<TxOp>(message::each(fields, 2)),
        }
    }

    #[verifier::spinoff_prover]
    #[verifier::rlimit(60)]
    proof fn fields_make_value(m: BeginTxModel, level: nat) {
        assert(m.tx_id.len() == 0 ==> m.tx_id =~= Seq::<char>::empty());
        message::repeated_makes_values::<TxOp>(Self::kind(), 2, m.ops, level);
    }

    fn message_kind() -> (kind: MessageKind) {
        MessageKind::BeginTx
    }

    fn to_fields(&self) -> (fields: Vec<Field>) {
        let mut fields: Vec<Field> = Vec::new();
        assert(fields.deep_view() =~= Seq::<FieldModel>::empty());
        push_text(&mut fields, 1, &self.tx_id);
        push_repeated(&mut fields, 2, &self.ops);
        fields
    }

    fn from_fields(fields: &Vec<Field>) -> (value: Self) {
        BeginTx {
            tx_id: read_text(Ghost(MessageKind::BeginTx), fields, 1),
            ops: read_repeated(Ghost(MessageKind::BeginTx), fields, 2),
        }
    }
}

/// The outcome of a transaction.
#[derive(Debug, Clone, PartialEq)]
pub struct DecideTx {
    pub tx_id: String,
    pub commit: bool,
}

#[verifier::ext_equal]
pub struct DecideTxModel {
    pub tx_id: Seq<char>,
    pub commit: bool,
}

impl DeepView for DecideTx {
    type V = DecideTxModel;

    open spec fn deep_view(&self) -> DecideTxModel {
        DecideTxModel {
            tx_id: self.tx_id@,
            commit: self.commit,
        }
    }
}

impl Message for DecideTx {
    open spec fn kind() -> MessageKind {
        MessageKind::DecideTx
    }

    open spec fn fields_of(m: DecideTxModel) -> Seq<FieldModel> {
        Seq::empty()
            + message::text_field(1, m.tx_id)
            + message::varint_field(2, message::flag(m.commit))
    }

    open spec fn of_fields(fields: Seq<FieldModel>) -> DecideTxModel {
        DecideTxModel {
            tx_id: message::last_text(fields, 1),
            commit: message::last_varint(fields, 2) != 0,
        }
    }

    #[verifier::spinoff_prover]
    #[verifier::rlimit(60)]
    proof fn fields_make_value(m: DecideTxModel, level: nat) {
        assert(m.tx_id.len() == 0 ==> m.tx_id =~= Seq::<char>::empty());
    }

    fn message_kind() -> (kind: MessageKind) {
        MessageKind::DecideTx
    }

    fn to_fields(&self) -> (fields: Vec<Field>) {
        let mut fields: Vec<Field> = Vec::new();
        assert(fields.deep_view() =~= Seq::<FieldModel>::empty());
        push_text(&mut fields, 1, &self.tx_id);
        push_varint(&mut fields, 2, if self.commit { 1 } else { 0 });
        fields
    }

    fn from_fields(fields: &Vec<Field>) -> (value: Self) {
        DecideTx {
            tx_id: read_text(Ghost(MessageKind::DecideTx), fields, 1),
            commit: read_varint(fields, 2) != 0,
        }
    }
}

/// A server's name and address.
#[derive(Debug, Clone, PartialEq)]
pub struct ServerId {
    pub node_id: String,
    pub addr: String,
}

#[verifier::ext_equal]
pub struct ServerIdModel {
    pub node_id: Seq<char>,
    pub addr: Seq<char>,
}

impl DeepView for ServerId {
    type V = ServerIdModel;

    open spec fn deep_view(&self) -> ServerIdModel {
        ServerIdModel {
            node_id: self.node_id@,
            addr: self.addr@,
        }
    }
}

impl Message for ServerId {
    open spec fn kind() -> MessageKind {
        MessageKind::ServerId
    }

    open spec fn fields_of(m: ServerIdModel) -> Seq<FieldModel> {
        Seq::empty()
            + message::text_field(1, m.node_id)
            + message::text_field(2, m.addr)
    }

    open spec fn of_fields(fields: Seq<FieldModel>) -> ServerIdModel {
        ServerIdModel {
            node_id: message::last_text(fields, 1),
            addr: message::last_text(fields, 2),
        }
    }

    #[verifier::spinoff_prover]
    #[verifier::rlimit(60)]
    proof fn fields_make_value(m: ServerIdModel, level: nat) {
        assert(m.node_id.len() == 0 ==> m.node_id =~= Seq::<char>::empty());
        assert(m.addr.len() == 0 ==> m.addr =~= Seq::<char>::empty());
    }

    fn message_kind() -> (kind: MessageKind) {
        MessageKind::ServerId
    }

    fn to_fields(&self) -> (fields: Vec<Field>) {
        let mut fields: Vec<Field> = Vec::new();
        assert(fields.deep_view() =~= Seq::<FieldModel>::empty());
        push_text(&mut fields, 1, &self.node_id);
        push_text(&mut fields, 2, &self.addr);
        fields
    }

    fn from_fields(fields: &Vec<Field>) -> (value: Self) {
        ServerId {
            node_id: read_text(Ghost(MessageKind::ServerId), fields, 1),
            addr: read_text(Ghost(MessageKind::ServerId), fields, 2),
        }
    }
}

/// A cluster configuration; `kind` is one of the `KIND_` numbers.
#[derive(Debug, Clone, PartialEq)]
pub struct ConfigurationEntry {
    pub kind: i32,
    pub old_servers: Vec<ServerId>,
    pub new_servers: Vec<ServerId>,
}

#[verifier::ext_equal]
pub struct ConfigurationEntryModel {
    pub kind: i32,
    pub old_servers: Seq<ServerIdModel>,
    pub new_servers: Seq<ServerIdModel>,
}

impl DeepView for ConfigurationEntry {
    type V = ConfigurationEntryModel;

    open spec fn deep_view(&self) -> ConfigurationEntryModel {
        ConfigurationEntryModel {
            kind: self.kind,
            old_servers: self.old_servers.deep_view(),
            new_servers: self.new_servers.deep_view(),
        }
    }
}

impl Message for ConfigurationEntry {
    open spec fn kind() -> MessageKind {
        MessageKind::ConfigurationEntry
    }

    open spec fn fields_of(m: ConfigurationEntryModel) -> Seq<FieldModel> {
        Seq::empty()
            + message::varint_field(1, m.kind as u64)
            + message::repeated_field(2, message::lists_of::<ServerId>(m.old_servers))
            + message::repeated_field(3, message::lists_of::<ServerId>(m.new_servers))
    }

    open spec fn of_fields(fields: Seq<FieldModel>) -> ConfigurationEntryModel {
        ConfigurationEntryModel {
            kind: message::last_varint(fields, 1) as i32,
            old_servers: message::values_of::<ServerId>(message::each(fields, 2)),
            new_servers: message::values_of::<ServerId>(message::each(fields, 3)),
        }
    }

    #[verifier::spinoff_prover]
    #[verifier::rlimit(60)]
    proof fn fields_make_value(m: ConfigurationEntryModel, level: nat) {
        let kind = m.kind;
        assert((kind as u64) as i32 == kind) by (bit_vector);
        assert(kind as u64 == 0 ==> kind == 0) by (bit_vector);
        message::repeated_makes_values::<ServerId>(Self::kind(), 2, m.old_servers, level);
        message::repeated_makes_values::<ServerId>(Self::kind(), 3, m.new_servers, level);
    }

    fn message_kind() -> (kind: MessageKind) {
        MessageKind::ConfigurationEntry
    }

    fn to_fields(&self) -> (fields: Vec<Field>) {
        let mut fields: Vec<Field> = Vec::new();
        assert(fields.deep_view() =~= Seq::<FieldModel>::empty());
        push_varint(&mut fields, 1, self.kind as u64);
        push_repeated(&mut fields, 2, &self.old_servers);
        push_repeated(&mut fields, 3, &self.new_servers);
        fields
    }

    fn from_fields(fields: &Vec<Field>) -> (value: Self) {
        ConfigurationEntry {
            kind: read_varint(fields, 1) as i32,
            old_servers: read_repeated(Ghost(MessageKind::ConfigurationEntry), fields, 2),
            new_servers: read_repeated(Ghost(MessageKind::ConfigurationEntry), fields, 3),
        }
    }
}

/// A command.
#[derive(Debug, Clone, PartialEq)]
pub struct Command {
    pub body: Option<CommandBody>,
}

#[derive(Debug, Clone, PartialEq)]
pub enum CommandBody {
    KeyValue(KeyValue),
    Get(Get),
    Delete(Delete),
    Compact(Empty),
    BeginTx(BeginTx),
    DecideTx(DecideTx),
    AddNode(ServerId),
    RemoveNode(String),
    InstallConfiguration(ConfigurationEntry),
}

#[verifier::ext_equal]
pub struct CommandModel {
    pub body: Option<CommandBodyModel>,
}

#[verifier::ext_equal]
pub enum CommandBodyModel {
    KeyValue(KeyValueModel),
    Get(GetModel),
    Delete(DeleteModel),
    Compact(EmptyModel),
    BeginTx(BeginTxModel),
    DecideTx(DecideTxModel),
    AddNode(ServerIdModel),
    RemoveNode(Seq<char>),
    InstallConfiguration(ConfigurationEntryModel),
}

impl DeepView for CommandBody {
    type V = CommandBodyModel;

    open spec fn deep_view(&self) -> CommandBodyModel {
        match self {
            CommandBody::KeyValue(x) => CommandBodyModel::KeyValue(x.deep_view()),
            CommandBody::Get(x) => CommandBodyModel::Get(x.deep_view()),
            CommandBody::Delete(x) => CommandBodyModel::Delete(x.deep_view()),
            CommandBody::Compact(x) => CommandBodyModel::Compact(x.deep_view()),
            CommandBody::BeginTx(x) => CommandBodyModel::BeginTx(x.deep_view()),
            CommandBody::DecideTx(x) => CommandBodyModel::DecideTx(x.deep_view()),
            CommandBody::AddNode(x) => CommandBodyModel::AddNode(x.deep_view()),
            CommandBody::RemoveNode(x) => CommandBodyModel::RemoveNode(x@),
            CommandBody::InstallConfiguration(x) => CommandBodyModel::InstallConfiguration(x.deep_view()),
        }
    }
}

impl DeepView for Command {
    type V = CommandModel;

    open spec fn deep_view(&self) -> CommandModel {
        CommandModel { body: self.body.deep_view() }
    }
}

impl Message for Command {
    open spec fn kind() -> MessageKind {
        MessageKind::Command
    }

    open spec fn fields_of(m: CommandModel) -> Seq<FieldModel> {
        match m.body {
            Some(CommandBodyModel::KeyValue(x)) => message::message_field(1, KeyValue::fields_of(x)),
            Some(CommandBodyModel::Get(x)) => message::message_field(2, Get::fields_of(x)),
            Some(CommandBodyModel::Delete(x)) => message::message_field(3, Delete::fields_of(x)),
            Some(CommandBodyModel::Compact(x)) => message::message_field(4, Empty::fields_of(x)),
            Some(CommandBodyModel::BeginTx(x)) => message::message_field(5, BeginTx::fields_of(x)),
            Some(CommandBodyModel::DecideTx(x)) => message::message_field(6, DecideTx::fields_of(x)),
            Some(CommandBodyModel::AddNode(x)) => message::message_field(7, ServerId::fields_of(x)),
            Some(CommandBodyModel::RemoveNode(x)) => message::chosen_text_field(8, x),
            Some(CommandBodyModel::InstallConfiguration(x)) => message::message_field(9, ConfigurationEntry::fields_of(x)),
            None => Seq::empty(),
        }
    }

    open spec fn of_fields(fields: Seq<FieldModel>) -> CommandModel {
        CommandModel {
            body: match message::chosen(fields, 1, 9) {
                Some((tag, inner)) => Some(
                    if tag == 1 {
                        CommandBodyModel::KeyValue(KeyValue::of_fields(inner))
                    } else if tag == 2 {
                        CommandBodyModel::Get(Get::of_fields(inner))
                    } else if tag == 3 {
                        CommandBodyModel::Delete(Delete::of_fields(inner))
                    } else if tag == 4 {
                        CommandBodyModel::Compact(Empty::of_fields(inner))
                    } else if tag == 5 {
                        CommandBodyModel::BeginTx(BeginTx::of_fields(inner))
                    } else if tag == 6 {
                        CommandBodyModel::DecideTx(DecideTx::of_fields(inner))
                    } else if tag == 7 {
                        CommandBodyModel::AddNode(ServerId::of_fields(inner))
                    } else if tag == 8 {
                        CommandBodyModel::RemoveNode(message::last_text(fields, 8))
                    } else {
                        CommandBodyModel::InstallConfiguration(ConfigurationEntry::of_fields(inner))
                    },
                ),
                None => None,
            },
        }
    }

    #[verifier::spinoff_prover]
    #[verifier::rlimit(60)]
    proof fn fields_make_value(m: CommandModel, level: nat) {
        match m.body {
            Some(CommandBodyModel::KeyValue(x)) => message::message_makes_value::<KeyValue>(Self::kind(), 1, 9, 1, x, level),
            Some(CommandBodyModel::Get(x)) => message::message_makes_value::<Get>(Self::kind(), 1, 9, 2, x, level),
            Some(CommandBodyModel::Delete(x)) => message::message_makes_value::<Delete>(Self::kind(), 1, 9, 3, x, level),
            Some(CommandBodyModel::Compact(x)) => message::message_makes_value::<Empty>(Self::kind(), 1, 9, 4, x, level),
            Some(CommandBodyModel::BeginTx(x)) => message::message_makes_value::<BeginTx>(Self::kind(), 1, 9, 5, x, level),
            Some(CommandBodyModel::DecideTx(x)) => message::message_makes_value::<DecideTx>(Self::kind(), 1, 9, 6, x, level),
            Some(CommandBodyModel::AddNode(x)) => message::message_makes_value::<ServerId>(Self::kind(), 1, 9, 7, x, level),
            Some(CommandBodyModel::RemoveNode(x)) => message::chosen_text_makes_value(Self::kind(), 1, 9, 8, x, level),
            Some(CommandBodyModel::InstallConfiguration(x)) => message::message_makes_value::<ConfigurationEntry>(Self::kind(), 1, 9, 9, x, level),
            None => {},
        }
    }

    fn message_kind() -> (kind: MessageKind) {
        MessageKind::Command
    }

    fn to_fields(&self) -> (fields: Vec<Field>) {
        let mut fields: Vec<Field> = Vec::new();
        assert(fields.deep_view() =~= Seq::<FieldModel>::empty());
        match &self.body {
            Some(CommandBody::KeyValue(x)) => push_message(&mut fields, 1, &x.to_fields()),
            Some(CommandBody::Get(x)) => push_message(&mut fields, 2, &x.to_fields()),
            Some(CommandBody::Delete(x)) => push_message(&mut fields, 3, &x.to_fields()),
            Some(CommandBody::Compact(x)) => push_message(&mut fields, 4, &x.to_fields()),
            Some(CommandBody::BeginTx(x)) => push_message(&mut fields, 5, &x.to_fields()),
            Some(CommandBody::DecideTx(x)) => push_message(&mut fields, 6, &x.to_fields()),
            Some(CommandBody::AddNode(x)) => push_message(&mut fields, 7, &x.to_fields()),
            Some(CommandBody::RemoveNode(x)) => push_chosen_text(&mut fields, 8, x),
            Some(CommandBody::InstallConfiguration(x)) => push_message(&mut fields, 9, &x.to_fields()),
            None => {},
        }
        assert(fields.deep_view() =~= Self::fields_of(self.deep_view()));
        fields
    }

    fn from_fields(fields: &Vec<Field>) -> (value: Self) {
        match read_chosen(Ghost(MessageKind::Command), fields, 1, 9) {
            Some((tag, inner)) => {
                let body = 
                if tag == 1 {
                    CommandBody::KeyValue(KeyValue::from_fields(&inner))
                } else if tag == 2 {
                    CommandBody::Get(Get::from_fields(&inner))
                } else if tag == 3 {
                    CommandBody::Delete(Delete::from_fields(&inner))
                } else if tag == 4 {
                    CommandBody::Compact(Empty::from_fields(&inner))
                } else if tag == 5 {
                    CommandBody::BeginTx(BeginTx::from_fields(&inner))
                } else if tag == 6 {
                    CommandBody::DecideTx(DecideTx::from_fields(&inner))
                } else if tag == 7 {
                    CommandBody::AddNode(ServerId::from_fields(&inner))
                } else if tag == 8 {
                    CommandBody::RemoveNode(read_text(Ghost(MessageKind::Command), fields, 8))
                } else {
                    CommandBody::InstallConfiguration(ConfigurationEntry::from_fields(&inner))
                };
                Command { body: Some(body) }
            },
            None => Command { body: None },
        }
    }
}

/// A log entry.
#[derive(Debug, Clone, PartialEq)]
pub struct LogEntry {
    pub term: u64,
    pub index: u64,
    pub command: Option<Command>,
}

#[verifier::ext_equal]
pub struct LogEntryModel {
    pub term: u64,
    pub index: u64,
    pub command: Option<CommandModel>,
}

impl DeepView for LogEntry {
    type V = LogEntryModel;

    open spec fn deep_view(&self) -> LogEntryModel {
        LogEntryModel {
            term: self.term,
            index: self.index,
            command: self.command.deep_view(),
        }
    }
}

impl Message for LogEntry {
    open spec fn kind() -> MessageKind {
        MessageKind::LogEntry
    }

    open spec fn fields_of(m: LogEntryModel) -> Seq<FieldModel> {
        Seq::empty()
            + message::varint_field(1, m.term)
            + message::varint_field(2, m.index)
            + message::repeated_field(3, message::optional_list::<Command>(m.command))
    }

    open spec fn of_fields(fields: Seq<FieldModel>) -> LogEntryModel {
        LogEntryModel {
            term: message::last_varint(fields, 1),
            index: message::last_varint(fields, 2),
            command: message::optional_of::<Command>(message::chosen(fields, 3, 3)),
        }
    }

    #[verifier::spinoff_prover]
    #[verifier::rlimit(60)]
    proof fn fields_make_value(m: LogEntryModel, level: nat) {
        message::optional_makes_value::<Command>(Self::kind(), 3, m.command, level);
    }

    fn message_kind() -> (kind: MessageKind) {
        MessageKind::LogEntry
    }

    fn to_fields(&self) -> (fields: Vec<Field>) {
        let mut fields: Vec<Field> = Vec::new();
        assert(fields.deep_view() =~= Seq::<FieldModel>::empty());
        push_varint(&mut fields, 1, self.term);
        push_varint(&mut fields, 2, self.index);
        push_optional(&mut fields, 3, &self.command);
        fields
    }

    fn from_fields(fields: &Vec<Field>) -> (value: Self) {
        LogEntry {
            term: read_varint(fields, 1),
            index: read_varint(fields, 2),
            command: read_optional(Ghost(MessageKind::LogEntry), fields, 3),
        }
    }
}

/// A request for a vote.
#[derive(Debug, Clone, PartialEq)]
pub struct RequestVoteArgs {
    pub term: u64,
    pub candidate_id: String,
    pub last_log_index: u64,
    pub last_log_term: u64,
}

#[verifier::ext_equal]
pub struct RequestVoteArgsModel {
    pub term: u64,
    pub candidate_id: Seq<char>,
    pub last_log_index: u64,
    pub last_log_term: u64,
}

impl DeepView for RequestVoteArgs {
    type V = RequestVoteArgsModel;

    open spec fn deep_view(&self) -> RequestVoteArgsModel {
        RequestVoteArgsModel {
            term: self.term,
            candidate_id: self.candidate_id@,
            last_log_index: self.last_log_index,
            last_log_term: self.last_log_term,
        }
    }
}

impl Message for RequestVoteArgs {
    open spec fn kind() -> MessageKind {
        MessageKind::RequestVoteArgs
    }

    open spec fn fields_of(m: RequestVoteArgsModel) -> Seq<FieldModel> {
        Seq::empty()
            + message::varint_field(1, m.term)
            + message::text_field(2, m.candidate_id)
            + message::varint_field(3, m.last_log_index)
            + message::varint_field(4, m.last_log_term)
    }

    open spec fn of_fields(fields: Seq<FieldModel>) -> RequestVoteArgsModel {
        RequestVoteArgsModel {
            term: message::last_varint(fields, 1),
            candidate_id: message::last_text(fields, 2),
            last_log_index: message::last_varint(fields, 3),
            last_log_term: message::last_varint(fields, 4),
        }
    }

    #[verifier::spinoff_prover]
    #[verifier::rlimit(60)]
    proof fn fields_make_value(m: RequestVoteArgsModel, level: nat) {
        assert(m.candidate_id.len() == 0 ==> m.candidate_id =~= Seq::<char>::empty());
    }

    fn message_kind() -> (kind: MessageKind) {
        MessageKind::RequestVoteArgs
    }

    fn to_fields(&self) -> (fields: Vec<Field>) {
        let mut fields: Vec<Field> = Vec::new();
        assert(fields.deep_view() =~= Seq::<FieldModel>::empty());
        push_varint(&mut fields, 1, self.term);
        push_text(&mut fields, 2, &self.candidate_id);
        push_varint(&mut fields, 3, self.last_log_index);
        push_varint(&mut fields, 4, self.last_log_term);
        fields
    }

    fn from_fields(fields: &Vec<Field>) -> (value: Self) {
        RequestVoteArgs {
            term: read_varint(fields, 1),
            candidate_id: read_text(Ghost(MessageKind::RequestVoteArgs), fields, 2),
            last_log_index: read_varint(fields, 3),
            last_log_term: read_varint(fields, 4),
        }
    }
}

/// The answer to a request for a vote.
#[derive(Debug, Clone, PartialEq)]
pub struct VoteResponseArgs {
    pub term: u64,
    pub vote_granted: bool,
}

#[verifier::ext_equal]
pub struct VoteResponseArgsModel {
    pub term: u64,
    pub vote_granted: bool,
}

impl DeepView for VoteResponseArgs {
    type V = VoteResponseArgsModel;

    open spec fn deep_view(&self) -> VoteResponseArgsModel {
        VoteResponseArgsModel {
            term: self.term,
            vote_granted: self.vote_granted,
        }
    }
}

impl Message for VoteResponseArgs {
    open spec fn kind() -> MessageKind {
        MessageKind::VoteResponseArgs
    }

    open spec fn fields_of(m: VoteResponseArgsModel) -> Seq<FieldModel> {
        Seq::empty()
            + message::varint_field(1, m.term)
            + message::varint_field(2, message::flag(m.vote_granted))
    }

    open spec fn of_fields(fields: Seq<FieldModel>) -> VoteResponseArgsModel {
        VoteResponseArgsModel {
            term: message::last_varint(fields, 1),
            vote_granted: message::last_varint(fields, 2) != 0,
        }
    }

    #[verifier::spinoff_prover]
    #[verifier::rlimit(60)]
    proof fn fields_make_value(m: VoteResponseArgsModel, level: nat) {
    }

    fn message_kind() -> (kind: MessageKind) {
        MessageKind::VoteResponseArgs
    }

    fn to_fields(&self) -> (fields: Vec<Field>) {
        let mut fields: Vec<Field> = Vec::new();
        assert(fields.deep_view() =~= Seq::<FieldModel>::empty());
        push_varint(&mut fields, 1, self.term);
        push_varint(&mut fields, 2, if self.vote_granted { 1 } else { 0 });
        fields
    }

    fn from_fields(fields: &Vec<Field>) -> (value: Self) {
        VoteResponseArgs {
            term: read_varint(fields, 1),
            vote_granted: read_varint(fields, 2) != 0,
        }
    }
}

/// Log entries for a follower.
#[derive(Debug, Clone, PartialEq)]
pub struct AppendEntriesArgs {
    pub term: u64,
    pub leader_id: String,
    pub prev_log_index: u64,
    pub prev_log_term: u64,
    pub entries: Vec<LogEntry>,
    pub leader_commit: u64,
}

#[verifier::ext_equal]
pub struct AppendEntriesArgsModel {
    pub term: u64,
    pub leader_id: Seq<char>,
    pub prev_log_index: u64,
    pub prev_log_term: u64,
    pub entries: Seq<LogEntryModel>,
    pub leader_commit: u64,
}

impl DeepView for AppendEntriesArgs {
    type V = AppendEntriesArgsModel;

    open spec fn deep_view(&self) -> AppendEntriesArgsModel {
        AppendEntriesArgsModel {
            term: self.term,
            leader_id: self.leader_id@,
            prev_log_index: self.prev_log_index,
            prev_log_term: self.prev_log_term,
            entries: self.entries.deep_view(),
            leader_commit: self.leader_commit,
        }
    }
}

impl Message for AppendEntriesArgs {
    open spec fn kind() -> MessageKind {
        MessageKind::AppendEntriesArgs
    }

    open spec fn fields_of(m: AppendEntriesArgsModel) -> Seq<FieldModel> {
        Seq::empty()
            + message::varint_field(1, m.term)
            + message::text_field(2, m.leader_id)
            + message::varint_field(3, m.prev_log_index)
            + message::varint_field(4, m.prev_log_term)
            + message::repeated_field(5, message::lists_of::<LogEntry>(m.entries))
            + message::varint_field(6, m.leader_commit)
    }

    open spec fn of_fields(fields: Seq<FieldModel>) -> AppendEntriesArgsModel {
        AppendEntriesArgsModel {
            term: message::last_varint(fields, 1),
            leader_id: message::last_text(fields, 2),
            prev_log_index: message::last_varint(fields, 3),
            prev_log_term: message::last_varint(fields, 4),
            entries: message::values_of::<LogEntry>(message::each(fields, 5)),
            leader_commit: message::last_varint(fields, 6),
        }
    }

    #[verifier::spinoff_prover]
    #[verifier::rlimit(60)]
    proof fn fields_make_value(m: AppendEntriesArgsModel, level: nat) {
        assert(m.leader_id.len() == 0 ==> m.leader_id =~= Seq::<char>::empty());
        message::repeated_makes_values::<LogEntry>(Self::kind(), 5, m.entries, level);
    }

    fn message_kind() -> (kind: MessageKind) {
        MessageKind::AppendEntriesArgs
    }

    fn to_fields(&self) -> (fields: Vec<Field>) {
        let mut fields: Vec<Field> = Vec::new();
        assert(fields.deep_view() =~= Seq::<FieldModel>::empty());
        push_varint(&mut fields, 1, self.term);
        push_text(&mut fields, 2, &self.leader_id);
        push_varint(&mut fields, 3, self.prev_log_index);
        push_varint(&mut fields, 4, self.prev_log_term);
        push_repeated(&mut fields, 5, &self.entries);
        push_varint(&mut fields, 6, self.leader_commit);
        fields
    }

    fn from_fields(fields: &Vec<Field>) -> (value: Self) {
        AppendEntriesArgs {
            term: read_varint(fields, 1),
            leader_id: read_text(Ghost(MessageKind::AppendEntriesArgs), fields, 2),
            prev_log_index: read_varint(fields, 3),
            prev_log_term: read_varint(fields, 4),
            entries: read_repeated(Ghost(MessageKind::AppendEntriesArgs), fields, 5),
            leader_commit: read_varint(fields, 6),
        }
    }
}

/// The answer to log entries.
#[derive(Debug, Clone, PartialEq)]
pub struct AppendReplyArgs {
    pub term: u64,
    pub success: bool,
}

#[verifier::ext_equal]
pub struct AppendReplyArgsModel {
    pub term: u64,
    pub success: bool,
}

impl DeepView for AppendReplyArgs {
    type V = AppendReplyArgsModel;

    open spec fn deep_view(&self) -> AppendReplyArgsModel {
        AppendReplyArgsModel {
            term: self.term,
            success: self.success,
        }
    }
}

impl Message for AppendReplyArgs {
    open spec fn kind() -> MessageKind {
        MessageKind::AppendReplyArgs
    }

    open spec fn fields_of(m: AppendReplyArgsModel) -> Seq<FieldModel> {
        Seq::empty()
            + message::varint_field(1, m.term)
            + message::varint_field(2, message::flag(m.success))
    }

    open spec fn of_fields(fields: Seq<FieldModel>) -> AppendReplyArgsModel {
        AppendReplyArgsModel {
            term: message::last_varint(fields, 1),
            success: message::last_varint(fields, 2) != 0,
        }
    }

    #[verifier::spinoff_prover]
    #[verifier::rlimit(60)]
    proof fn fields_make_value(m: AppendReplyArgsModel, level: nat) {
    }

    fn message_kind() -> (kind: MessageKind) {
        MessageKind::AppendReplyArgs
    }

    fn to_fields(&self) -> (fields: Vec<Field>) {
        let mut fields: Vec<Field> = Vec::new();
        assert(fields.deep_view() =~= Seq::<FieldModel>::empty());
        push_varint(&mut fields, 1, self.term);
        push_varint(&mut fields, 2, if self.success { 1 } else { 0 });
        fields
    }

    fn from_fields(fields: &Vec<Field>) -> (value: Self) {
        AppendReplyArgs {
            term: read_varint(fields, 1),
            success: read_varint(fields, 2) != 0,
        }
    }
}

/// A snapshot; `data` is a map, each entry a key and its value.
#[derive(Debug, Clone, PartialEq)]
pub struct Snapshot {
    pub last_included_index: u64,
    pub last_included_term: u64,
    pub data: Vec<KeyValue>,
}

#[verifier::ext_equal]
pub struct SnapshotModel {
    pub last_included_index: u64,
    pub last_included_term: u64,
    pub data: Seq<KeyValueModel>,
}

impl DeepView for Snapshot {
    type V = SnapshotModel;

    open spec fn deep_view(&self) -> SnapshotModel {
        SnapshotModel {
            last_included_index: self.last_included_index,
            last_included_term: self.last_included_term,
            data: self.data.deep_view(),
        }
    }
}

impl Message for Snapshot {
    open spec fn kind() -> MessageKind {
        MessageKind::Snapshot
    }

    open spec fn fields_of(m: SnapshotModel) -> Seq<FieldModel> {
        Seq::empty()
            + message::varint_field(1, m.last_included_index)
            + message::varint_field(2, m.last_included_term)
            + message::repeated_field(3, message::lists_of::<KeyValue>(m.data))
    }

    open spec fn of_fields(fields: Seq<FieldModel>) -> SnapshotModel {
        SnapshotModel {
            last_included_index: message::last_varint(fields, 1),
            last_included_term: message::last_varint(fields, 2),
            data: message::values_of::<KeyValue>(message::each(fields, 3)),
        }
    }

    #[verifier::spinoff_prover]
    #[verifier::rlimit(60)]
    proof fn fields_make_value(m: SnapshotModel, level: nat) {
        message::repeated_makes_values::<KeyValue>(Self::kind(), 3, m.data, level);
    }

    fn message_kind() -> (kind: MessageKind) {
        MessageKind::Snapshot
    }

    fn to_fields(&self) -> (fields: Vec<Field>) {
        let mut fields: Vec<Field> = Vec::new();
        assert(fields.deep_view() =~= Seq::<FieldModel>::empty());
        push_varint(&mut fields, 1, self.last_included_index);
        push_varint(&mut fields, 2, self.last_included_term);
        push_repeated(&mut fields, 3, &self.data);
        fields
    }

    fn from_fields(fields: &Vec<Field>) -> (value: Self) {
        Snapshot {
            last_included_index: read_varint(fields, 1),
            last_included_term: read_varint(fields, 2),
            data: read_repeated(Ghost(MessageKind::Snapshot), fields, 3),
        }
    }
}

/// A snapshot for a lagging follower.
#[derive(Debug, Clone, PartialEq)]
pub struct InstallSnapshotArgs {
    pub term: u64,
    pub leader_id: String,
    pub last_included_index: u64,
    pub last_included_term: u64,
    pub snapshot: Option<Snapshot>,
}

#[verifier::ext_equal]
pub struct InstallSnapshotArgsModel {
    pub term: u64,
    pub leader_id: Seq<char>,
    pub last_included_index: u64,
    pub last_included_term: u64,
    pub snapshot: Option<SnapshotModel>,
}

impl DeepView for InstallSnapshotArgs {
    type V = InstallSnapshotArgsModel;

    open spec fn deep_view(&self) -> InstallSnapshotArgsModel {
        InstallSnapshotArgsModel {
            term: self.term,
            leader_id: self.leader_id@,
            last_included_index: self.last_included_index,
            last_included_term: self.last_included_term,
            snapshot: self.snapshot.deep_view(),
        }
    }
}

impl Message for InstallSnapshotArgs {
    open spec fn kind() -> MessageKind {
        MessageKind::InstallSnapshotArgs
    }

    open spec fn fields_of(m: InstallSnapshotArgsModel) -> Seq<FieldModel> {
        Seq::empty()
            + message::varint_field(1, m.term)
            + message::text_field(2, m.leader_id)
            + message::varint_field(3, m.last_included_index)
            + message::varint_field(4, m.last_included_term)
            + message::repeated_field(5, message::optional_list::<Snapshot>(m.snapshot))
    }

    open spec fn of_fields(fields: Seq<FieldModel>) -> InstallSnapshotArgsModel {
        InstallSnapshotArgsModel {
            term: message::last_varint(fields, 1),
            leader_id: message::last_text(fields, 2),
            last_included_index: message::last_varint(fields, 3),
            last_included_term: message::last_varint(fields, 4),
            snapshot: message::optional_of::<Snapshot>(message::chosen(fields, 5, 5)),
        }
    }

    #[verifier::spinoff_prover]
    #[verifier::rlimit(60)]
    proof fn fields_make_value(m: InstallSnapshotArgsModel, level: nat) {
        assert(m.leader_id.len() == 0 ==> m.leader_id =~= Seq::<char>::empty());
        message::optional_makes_value::<Snapshot>(Self::kind(), 5, m.snapshot, level);
    }

    fn message_kind() -> (kind: MessageKind) {
        MessageKind::InstallSnapshotArgs
    }

    fn to_fields(&self) -> (fields: Vec<Field>) {
        let mut fields: Vec<Field> = Vec::new();
        assert(fields.deep_view() =~= Seq::<FieldModel>::empty());
        push_varint(&mut fields, 1, self.term);
        push_text(&mut fields, 2, &self.leader_id);
        push_varint(&mut fields, 3, self.last_included_index);
        push_varint(&mut fields, 4, self.last_included_term);
        push_optional(&mut fields, 5, &self.snapshot);
        fields
    }

    fn from_fields(fields: &Vec<Field>) -> (value: Self) {
        InstallSnapshotArgs {
            term: read_varint(fields, 1),
            leader_id: read_text(Ghost(MessageKind::InstallSnapshotArgs), fields, 2),
            last_included_index: read_varint(fields, 3),
            last_included_term: read_varint(fields, 4),
            snapshot: read_optional(Ghost(MessageKind::InstallSnapshotArgs), fields, 5),
        }
    }
}

/// The answer to a snapshot.
#[derive(Debug, Clone, PartialEq)]
pub struct InstallSnapshotReplyArgs {
    pub term: u64,
}

#[verifier::ext_equal]
pub struct InstallSnapshotReplyArgsModel {
    pub term: u64,
}

impl DeepView for InstallSnapshotReplyArgs {
    type V = InstallSnapshotReplyArgsModel;

    open spec fn deep_view(&self) -> InstallSnapshotReplyArgsModel {
        InstallSnapshotReplyArgsModel {
            term: self.term,
        }
    }
}

impl Message for InstallSnapshotReplyArgs {
    open spec fn kind() -> MessageKind {
        MessageKind::InstallSnapshotReplyArgs
    }

    open spec fn fields_of(m: InstallSnapshotReplyArgsModel) -> Seq<FieldModel> {
        Seq::empty()
            + message::varint_field(1, m.term)
    }

    open spec fn of_fields(fields: Seq<FieldModel>) -> InstallSnapshotReplyArgsModel {
        InstallSnapshotReplyArgsModel {
            term: message::last_varint(fields, 1),
        }
    }

    #[verifier::spinoff_prover]
    #[verifier::rlimit(60)]
    proof fn fields_make_value(m: InstallSnapshotReplyArgsModel, level: nat) {
    }

    fn message_kind() -> (kind: MessageKind) {
        MessageKind::InstallSnapshotReplyArgs
    }

    fn to_fields(&self) -> (fields: Vec<Field>) {
        let mut fields: Vec<Field> = Vec::new();
        assert(fields.deep_view() =~= Seq::<FieldModel>::empty());
        push_varint(&mut fields, 1, self.term);
        fields
    }

    fn from_fields(fields: &Vec<Field>) -> (value: Self) {
        InstallSnapshotReplyArgs {
            term: read_varint(fields, 1),
        }
    }
}

/// A message between nodes.
#[derive(Debug, Clone, PartialEq)]
pub struct RaftMessage {
    pub body: Option<RaftMessageBody>,
}

#[derive(Debug, Clone, PartialEq)]
pub enum RaftMessageBody {
    RequestVote(RequestVoteArgs),
    VoteResponse(VoteResponseArgs),
    AppendEntries(AppendEntriesArgs),
    AppendReply(AppendReplyArgs),
    InstallSnapshot(InstallSnapshotArgs),
    InstallSnapshotReply(InstallSnapshotReplyArgs),
    RequestPreVote(RequestVoteArgs),
    PreVoteResponse(VoteResponseArgs),
}

#[verifier::ext_equal]
pub struct RaftMessageModel {
    pub body: Option<RaftMessageBodyModel>,
}

#[verifier::ext_equal]
pub enum RaftMessageBodyModel {
    RequestVote(RequestVoteArgsModel),
    VoteResponse(VoteResponseArgsModel),
    AppendEntries(AppendEntriesArgsModel),
    AppendReply(AppendReplyArgsModel),
    InstallSnapshot(InstallSnapshotArgsModel),
    InstallSnapshotReply(InstallSnapshotReplyArgsModel),
    RequestPreVote(RequestVoteArgsModel),
    PreVoteResponse(VoteResponseArgsModel),
}

impl DeepView for RaftMessageBody {
    type V = RaftMessageBodyModel;

    open spec fn deep_view(&self) -> RaftMessageBodyModel {
        match self {
            RaftMessageBody::RequestVote(x) => RaftMessageBodyModel::RequestVote(x.deep_view()),
            RaftMessageBody::VoteResponse(x) => RaftMessageBodyModel::VoteResponse(x.deep_view()),
            RaftMessageBody::AppendEntries(x) => RaftMessageBodyModel::AppendEntries(x.deep_view()),
            RaftMessageBody::AppendReply(x) => RaftMessageBodyModel::AppendReply(x.deep_view()),
            RaftMessageBody::InstallSnapshot(x) => RaftMessageBodyModel::InstallSnapshot(x.deep_view()),
            RaftMessageBody::InstallSnapshotReply(x) => RaftMessageBodyModel::InstallSnapshotReply(x.deep_view()),
            RaftMessageBody::RequestPreVote(x) => RaftMessageBodyModel::RequestPreVote(x.deep_view()),
            RaftMessageBody::PreVoteResponse(x) => RaftMessageBodyModel::PreVoteResponse(x.deep_view()),
        }
    }
}

impl DeepView for RaftMessage {
    type V = RaftMessageModel;

    open spec fn deep_view(&self) -> RaftMessageModel {
        RaftMessageModel { body: self.body.deep_view() }
    }
}

impl Message for RaftMessage {
    open spec fn kind() -> MessageKind {
        MessageKind::RaftMessage
    }

    open spec fn fields_of(m: RaftMessageModel) -> Seq<FieldModel> {
        match m.body {
            Some(RaftMessageBodyModel::RequestVote(x)) => message::message_field(1, RequestVoteArgs::fields_of(x)),
            Some(RaftMessageBodyModel::VoteResponse(x)) => message::message_field(2, VoteResponseArgs::fields_of(x)),
            Some(RaftMessageBodyModel::AppendEntries(x)) => message::message_field(3, AppendEntriesArgs::fields_of(x)),
            Some(RaftMessageBodyModel::AppendReply(x)) => message::message_field(4, AppendReplyArgs::fields_of(x)),
            Some(RaftMessageBodyModel::InstallSnapshot(x)) => message::message_field(5, InstallSnapshotArgs::fields_of(x)),
            Some(RaftMessageBodyModel::InstallSnapshotReply(x)) => message::message_field(6, InstallSnapshotReplyArgs::fields_of(x)),
            Some(RaftMessageBodyModel::RequestPreVote(x)) => message::message_field(7, RequestVoteArgs::fields_of(x)),
            Some(RaftMessageBodyModel::PreVoteResponse(x)) => message::message_field(8, VoteResponseArgs::fields_of(x)),
            None => Seq::empty(),
        }
    }

    open spec fn of_fields(fields: Seq<FieldModel>) -> RaftMessageModel {
        RaftMessageModel {
            body: match message::chosen(fields, 1, 8) {
                Some((tag, inner)) => Some(
                    if tag == 1 {
                        RaftMessageBodyModel::RequestVote(RequestVoteArgs::of_fields(inner))
                    } else if tag == 2 {
                        RaftMessageBodyModel::VoteResponse(VoteResponseArgs::of_fields(inner))
                    } else if tag == 3 {
                        RaftMessageBodyModel::AppendEntries(AppendEntriesArgs::of_fields(inner))
                    } else if tag == 4 {
                        RaftMessageBodyModel::AppendReply(AppendReplyArgs::of_fields(inner))
                    } else if tag == 5 {
                        RaftMessageBodyModel::InstallSnapshot(InstallSnapshotArgs::of_fields(inner))
                    } else if tag == 6 {
                        RaftMessageBodyModel::InstallSnapshotReply(InstallSnapshotReplyArgs::of_fields(inner))
                    } else if tag == 7 {
                        RaftMessageBodyModel::RequestPreVote(RequestVoteArgs::of_fields(inner))
                    } else {
                        RaftMessageBodyModel::PreVoteResponse(VoteResponseArgs::of_fields(inner))
                    },
                ),
                None => None,
            },
        }
    }

    #[verifier::spinoff_prover]
    #[verifier::rlimit(60)]
    proof fn fields_make_value(m: RaftMessageModel, level: nat) {
        match m.body {
            Some(RaftMessageBodyModel::RequestVote(x)) => message::message_makes_value::<RequestVoteArgs>(Self::kind(), 1, 8, 1, x, level),
            Some(RaftMessageBodyModel::VoteResponse(x)) => message::message_makes_value::<VoteResponseArgs>(Self::kind(), 1, 8, 2, x, level),
            Some(RaftMessageBodyModel::AppendEntries(x)) => message::message_makes_value::<AppendEntriesArgs>(Self::kind(), 1, 8, 3, x, level),
            Some(RaftMessageBodyModel::AppendReply(x)) => message::message_makes_value::<AppendReplyArgs>(Self::kind(), 1, 8, 4, x, level),
            Some(RaftMessageBodyModel::InstallSnapshot(x)) => message::message_makes_value::<InstallSnapshotArgs>(Self::kind(), 1, 8, 5, x, level),
            Some(RaftMessageBodyModel::InstallSnapshotReply(x)) => message::message_makes_value::<InstallSnapshotReplyArgs>(Self::kind(), 1, 8, 6, x, level),
            Some(RaftMessageBodyModel::RequestPreVote(x)) => message::message_makes_value::<RequestVoteArgs>(Self::kind(), 1, 8, 7, x, level),
            Some(RaftMessageBodyModel::PreVoteResponse(x)) => message::message_makes_value::<VoteResponseArgs>(Self::kind(), 1, 8, 8, x, level),
            None => {},
        }
    }

    fn message_kind() -> (kind: MessageKind) {
        MessageKind::RaftMessage
    }

    fn to_fields(&self) -> (fields: Vec<Field>) {
        let mut fields: Vec<Field> = Vec::new();
        assert(fields.deep_view() =~= Seq::<FieldModel>::empty());
        match &self.body {
            Some(RaftMessageBody::RequestVote(x)) => push_message(&mut fields, 1, &x.to_fields()),
            Some(RaftMessageBody::VoteResponse(x)) => push_message(&mut fields, 2, &x.to_fields()),
            Some(RaftMessageBody::AppendEntries(x)) => push_message(&mut fields, 3, &x.to_fields()),
            Some(RaftMessageBody::AppendReply(x)) => push_message(&mut fields, 4, &x.to_fields()),
            Some(RaftMessageBody::InstallSnapshot(x)) => push_message(&mut fields, 5, &x.to_fields()),
            Some(RaftMessageBody::InstallSnapshotReply(x)) => push_message(&mut fields, 6, &x.to_fields()),
            Some(RaftMessageBody::RequestPreVote(x)) => push_message(&mut fields, 7, &x.to_fields()),
            Some(RaftMessageBody::PreVoteResponse(x)) => push_message(&mut fields, 8, &x.to_fields()),
            None => {},
        }
        assert(fields.deep_view() =~= Self::fields_of(self.deep_view()));
        fields
    }

    fn from_fields(fields: &Vec<Field>) -> (value: Self) {
        match read_chosen(Ghost(MessageKind::RaftMessage), fields, 1, 8) {
            Some((tag, inner)) => {
                let body = 
                if tag == 1 {
                    RaftMessageBody::RequestVote(RequestVoteArgs::from_fields(&inner))
                } else if tag == 2 {
                    RaftMessageBody::VoteResponse(VoteResponseArgs::from_fields(&inner))
                } else if tag == 3 {
                    RaftMessageBody::AppendEntries(AppendEntriesArgs::from_fields(&inner))
                } else if tag == 4 {
                    RaftMessageBody::AppendReply(AppendReplyArgs::from_fields(&inner))
                } else if tag == 5 {
                    RaftMessageBody::InstallSnapshot(InstallSnapshotArgs::from_fields(&inner))
                } else if tag == 6 {
                    RaftMessageBody::InstallSnapshotReply(InstallSnapshotReplyArgs::from_fields(&inner))
                } else if tag == 7 {
                    RaftMessageBody::RequestPreVote(RequestVoteArgs::from_fields(&inner))
                } else {
                    RaftMessageBody::PreVoteResponse(VoteResponseArgs::from_fields(&inner))
                };
                RaftMessage { body: Some(body) }
            },
            None => RaftMessage { body: None },
        }
    }
}

} // verus!
