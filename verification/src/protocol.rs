//! Commands, cluster configurations and the quorum rule.

use crate::data::{Duplicate, Same};
use crate::text::str_equal;
use crate::text_map::TextMap;
use crate::time::Instant;
use vstd::prelude::*;

verus! {

/// A client request or a log entry's payload.
#[derive(Debug, Clone, PartialEq)]
pub enum Command {
    SetKey { key: String, value: String },
    Get { key: String },
    Delete { key: String },
    Compact,
    /// Opens a transaction. Votes travel on a side channel, never in the log.
    BeginTx { tx_id: String, ops: Vec<TxOp> },
    DecideTx { tx_id: String, decision: TxDecision },
    /// Client request to abort a pending transaction. The leader replaces it
    /// by `DecideTx`; it never stands in the log.
    AbortTx { tx_id: String },
    /// Client request to add a server. The leader replaces it by
    /// `InstallConfiguration` entries; it never stands in the log.
    AddNode { server: ServerId },
    /// Client request to remove a server, handled like `AddNode`.
    RemoveNode { node_id: String },
    /// Log entry that installs a cluster configuration.
    InstallConfiguration { config: Configuration },
}

/// Stable identity of a server: its logical name and the endpoint to dial.
#[derive(Debug, Clone, PartialEq, Eq, Hash)]
pub struct ServerId {
    pub node_id: String,
    pub addr: String,
}

/// The active cluster configuration.
#[derive(Debug, Clone, PartialEq)]
pub enum Configuration {
    /// Steady state: one set of servers and a simple majority.
    Simple(Vec<ServerId>),
    /// Transition between two sets: a majority of both is needed.
    Joint { old: Vec<ServerId>, new: Vec<ServerId> },
}

/// One buffered write of a transaction.
#[derive(Debug, Clone, PartialEq)]
pub enum TxOp {
    Put { key: String, value: String },
    Delete { key: String },
}

/// One peer's decision on a pending transaction.
#[derive(Debug, Clone, PartialEq)]
pub enum Vote {
    Yes,
    No(String),
}

/// The outcome of a transaction.
#[derive(Debug, Clone, Copy, PartialEq, Eq, Structural)]
pub enum TxDecision {
    Commit,
    Abort,
}

/// One entry of the replicated log.
#[derive(Debug, Clone, PartialEq)]
pub struct LogEntry {
    pub term: u64,
    pub index: usize,
    pub command: Command,
}

/// The state machine's contents at a known log position: `data` is the effect
/// of every entry up to and with `last_included_index`.
#[derive(Debug, PartialEq)]
pub struct Snapshot {
    pub last_included_index: u64,
    pub last_included_term: u64,
    pub data: TextMap<String>,
}

/// Token of a linearizable read: the log position it is anchored to and when
/// it was issued.
#[derive(Debug, Clone, Copy)]
pub struct ReadIndex {
    pub index: u64,
    pub issued_at: Instant,
}

/// Why a membership change was refused.
#[derive(Debug, Clone, PartialEq)]
pub enum MembershipError {
    NotLeader,
    AlreadyMember(String),
    NotMember(String),
    CannotRemoveSelf,
    CannotRemoveLastServer,
    StorageError(String),
}

/// Why aborting a transaction was refused.
#[derive(Debug, Clone, PartialEq)]
pub enum AbortTxError {
    NotLeader,
    NotFound(String),
    StorageError(String),
}

// ---- models ----

#[verifier::ext_equal]
pub enum TxOpModel {
    Put { key: Seq<char>, value: Seq<char> },
    Delete { key: Seq<char> },
}

#[verifier::ext_equal]
pub struct ServerModel {
    pub node_id: Seq<char>,
    pub addr: Seq<char>,
}

#[verifier::ext_equal]
pub enum ConfigurationModel {
    Simple(Seq<ServerModel>),
    Joint { old: Seq<ServerModel>, new: Seq<ServerModel> },
}

#[verifier::ext_equal]
pub enum CommandModel {
    SetKey { key: Seq<char>, value: Seq<char> },
    Get { key: Seq<char> },
    Delete { key: Seq<char> },
    Compact,
    BeginTx { tx_id: Seq<char>, ops: Seq<TxOpModel> },
    DecideTx { tx_id: Seq<char>, decision: TxDecision },
    AbortTx { tx_id: Seq<char> },
    AddNode { server: ServerModel },
    RemoveNode { node_id: Seq<char> },
    InstallConfiguration { config: ConfigurationModel },
}

#[verifier::ext_equal]
pub enum VoteModel {
    Yes,
    No(Seq<char>),
}

#[verifier::ext_equal]
pub struct LogEntryModel {
    pub term: u64,
    pub index: usize,
    pub command: CommandModel,
}

#[verifier::ext_equal]
pub struct SnapshotModel {
    pub last_included_index: u64,
    pub last_included_term: u64,
    pub data: Map<Seq<char>, Seq<char>>,
}

#[verifier::ext_equal]
pub enum MembershipErrorModel {
    NotLeader,
    AlreadyMember(Seq<char>),
    NotMember(Seq<char>),
    CannotRemoveSelf,
    CannotRemoveLastServer,
    StorageError(Seq<char>),
}

#[verifier::ext_equal]
pub enum AbortTxErrorModel {
    NotLeader,
    NotFound(Seq<char>),
    StorageError(Seq<char>),
}

impl DeepView for TxOp {
    type V = TxOpModel;

    open spec fn deep_view(&self) -> TxOpModel {
        match self {
            TxOp::Put { key, value } => TxOpModel::Put { key: key@, value: value@ },
            TxOp::Delete { key } => TxOpModel::Delete { key: key@ },
        }
    }
}

impl DeepView for ServerId {
    type V = ServerModel;

    open spec fn deep_view(&self) -> ServerModel {
        ServerModel { node_id: self.node_id@, addr: self.addr@ }
    }
}

impl DeepView for Configuration {
    type V = ConfigurationModel;

    open spec fn deep_view(&self) -> ConfigurationModel {
        match self {
            Configuration::Simple(servers) => ConfigurationModel::Simple(servers.deep_view()),
            Configuration::Joint { old, new } => ConfigurationModel::Joint {
                old: old.deep_view(),
                new: new.deep_view(),
            },
        }
    }
}

impl DeepView for TxDecision {
    type V = TxDecision;

    open spec fn deep_view(&self) -> TxDecision {
        *self
    }
}

impl DeepView for Vote {
    type V = VoteModel;

    open spec fn deep_view(&self) -> VoteModel {
        match self {
            Vote::Yes => VoteModel::Yes,
            Vote::No(reason) => VoteModel::No(reason@),
        }
    }
}

impl DeepView for Command {
    type V = CommandModel;

    open spec fn deep_view(&self) -> CommandModel {
        match self {
            Command::SetKey { key, value } => CommandModel::SetKey { key: key@, value: value@ },
            Command::Get { key } => CommandModel::Get { key: key@ },
            Command::Delete { key } => CommandModel::Delete { key: key@ },
            Command::Compact => CommandModel::Compact,
            Command::BeginTx { tx_id, ops } => CommandModel::BeginTx { tx_id: tx_id@, ops: ops.deep_view() },
            Command::DecideTx { tx_id, decision } => CommandModel::DecideTx { tx_id: tx_id@, decision: *decision },
            Command::AbortTx { tx_id } => CommandModel::AbortTx { tx_id: tx_id@ },
            Command::AddNode { server } => CommandModel::AddNode { server: server.deep_view() },
            Command::RemoveNode { node_id } => CommandModel::RemoveNode { node_id: node_id@ },
            Command::InstallConfiguration { config } => CommandModel::InstallConfiguration {
                config: config.deep_view(),
            },
        }
    }
}

impl DeepView for LogEntry {
    type V = LogEntryModel;

    open spec fn deep_view(&self) -> LogEntryModel {
        LogEntryModel { term: self.term, index: self.index, command: self.command.deep_view() }
    }
}

impl DeepView for Snapshot {
    type V = SnapshotModel;

    open spec fn deep_view(&self) -> SnapshotModel {
        SnapshotModel {
            last_included_index: self.last_included_index,
            last_included_term: self.last_included_term,
            data: self.data@,
        }
    }
}

impl DeepView for MembershipError {
    type V = MembershipErrorModel;

    open spec fn deep_view(&self) -> MembershipErrorModel {
        match self {
            MembershipError::NotLeader => MembershipErrorModel::NotLeader,
            MembershipError::AlreadyMember(id) => MembershipErrorModel::AlreadyMember(id@),
            MembershipError::NotMember(id) => MembershipErrorModel::NotMember(id@),
            MembershipError::CannotRemoveSelf => MembershipErrorModel::CannotRemoveSelf,
            MembershipError::CannotRemoveLastServer => MembershipErrorModel::CannotRemoveLastServer,
            MembershipError::StorageError(reason) => MembershipErrorModel::StorageError(reason@),
        }
    }
}

impl DeepView for AbortTxError {
    type V = AbortTxErrorModel;

    open spec fn deep_view(&self) -> AbortTxErrorModel {
        match self {
            AbortTxError::NotLeader => AbortTxErrorModel::NotLeader,
            AbortTxError::NotFound(id) => AbortTxErrorModel::NotFound(id@),
            AbortTxError::StorageError(reason) => AbortTxErrorModel::StorageError(reason@),
        }
    }
}

// ---- copies and comparisons ----

impl Duplicate for TxOp {
    fn duplicate(&self) -> (copy: Self) {
        match self {
            TxOp::Put { key, value } => TxOp::Put { key: key.clone(), value: value.clone() },
            TxOp::Delete { key } => TxOp::Delete { key: key.clone() },
        }
    }
}

impl Same for TxOp {
    fn same(&self, other: &Self) -> (equal: bool) {
        match (self, other) {
            (TxOp::Put { key: k1, value: v1 }, TxOp::Put { key: k2, value: v2 }) => *k1 == *k2 && *v1 == *v2,
            (TxOp::Delete { key: k1 }, TxOp::Delete { key: k2 }) => *k1 == *k2,
            _ => false,
        }
    }
}

impl Duplicate for ServerId {
    fn duplicate(&self) -> (copy: Self) {
        ServerId { node_id: self.node_id.clone(), addr: self.addr.clone() }
    }
}

impl Same for ServerId {
    fn same(&self, other: &Self) -> (equal: bool) {
        self.node_id == other.node_id && self.addr == other.addr
    }
}

impl Duplicate for Configuration {
    fn duplicate(&self) -> (copy: Self) {
        match self {
            Configuration::Simple(servers) => Configuration::Simple(servers.duplicate()),
            Configuration::Joint { old, new } => Configuration::Joint {
                old: old.duplicate(),
                new: new.duplicate(),
            },
        }
    }
}

impl Same for Configuration {
    fn same(&self, other: &Self) -> (equal: bool) {
        match (self, other) {
            (Configuration::Simple(a), Configuration::Simple(b)) => a.same(b),
            (
                Configuration::Joint { old: old1, new: new1 },
                Configuration::Joint { old: old2, new: new2 },
            ) => old1.same(old2) && new1.same(new2),
            _ => false,
        }
    }
}

impl Duplicate for Vote {
    fn duplicate(&self) -> (copy: Self) {
        match self {
            Vote::Yes => Vote::Yes,
            Vote::No(reason) => Vote::No(reason.clone()),
        }
    }
}

impl Duplicate for Command {
    fn duplicate(&self) -> (copy: Self) {
        match self {
            Command::SetKey { key, value } => Command::SetKey { key: key.clone(), value: value.clone() },
            Command::Get { key } => Command::Get { key: key.clone() },
            Command::Delete { key } => Command::Delete { key: key.clone() },
            Command::Compact => Command::Compact,
            Command::BeginTx { tx_id, ops } => Command::BeginTx { tx_id: tx_id.clone(), ops: ops.duplicate() },
            Command::DecideTx { tx_id, decision } => Command::DecideTx { tx_id: tx_id.clone(), decision: *decision },
            Command::AbortTx { tx_id } => Command::AbortTx { tx_id: tx_id.clone() },
            Command::AddNode { server } => Command::AddNode { server: server.duplicate() },
            Command::RemoveNode { node_id } => Command::RemoveNode { node_id: node_id.clone() },
            Command::InstallConfiguration { config } => Command::InstallConfiguration {
                config: config.duplicate(),
            },
        }
    }
}

impl Same for Command {
    fn same(&self, other: &Self) -> (equal: bool) {
        match (self, other) {
            (Command::SetKey { key: k1, value: v1 }, Command::SetKey { key: k2, value: v2 }) => *k1 == *k2 && *v1 == *v2,
            (Command::Get { key: k1 }, Command::Get { key: k2 }) => *k1 == *k2,
            (Command::Delete { key: k1 }, Command::Delete { key: k2 }) => *k1 == *k2,
            (Command::Compact, Command::Compact) => true,
            (Command::BeginTx { tx_id: t1, ops: o1 }, Command::BeginTx { tx_id: t2, ops: o2 }) => *t1 == *t2
                && o1.same(o2),
            (
                Command::DecideTx { tx_id: t1, decision: d1 },
                Command::DecideTx { tx_id: t2, decision: d2 },
            ) => *t1 == *t2 && *d1 == *d2,
            (Command::AbortTx { tx_id: t1 }, Command::AbortTx { tx_id: t2 }) => *t1 == *t2,
            (Command::AddNode { server: s1 }, Command::AddNode { server: s2 }) => s1.same(s2),
            (Command::RemoveNode { node_id: n1 }, Command::RemoveNode { node_id: n2 }) => *n1 == *n2,
            (
                Command::InstallConfiguration { config: c1 },
                Command::InstallConfiguration { config: c2 },
            ) => c1.same(c2),
            _ => false,
        }
    }
}

impl Duplicate for LogEntry {
    fn duplicate(&self) -> (copy: Self) {
        LogEntry { term: self.term, index: self.index, command: self.command.duplicate() }
    }
}

impl Same for LogEntry {
    fn same(&self, other: &Self) -> (equal: bool) {
        self.term == other.term && self.index == other.index && self.command.same(&other.command)
    }
}

impl Duplicate for Snapshot {
    fn duplicate(&self) -> (copy: Self) {
        Snapshot {
            last_included_index: self.last_included_index,
            last_included_term: self.last_included_term,
            data: self.data.duplicate(),
        }
    }
}

// ---- configurations ----

/// Some server of `servers` is named `node_id`.
pub open spec fn has_server(servers: Seq<ServerModel>, node_id: Seq<char>) -> bool {
    exists|i: int| 0 <= i < servers.len() && (#[trigger] servers[i]).node_id == node_id
}

/// `old` followed by those servers of `new` whose name has not come before.
pub open spec fn merged_servers(old: Seq<ServerModel>, new: Seq<ServerModel>) -> Seq<ServerModel>
    decreases new.len(),
{
    if new.len() == 0 {
        old
    } else {
        let before = merged_servers(old, new.drop_last());
        if has_server(before, new.last().node_id) {
            before
        } else {
            before.push(new.last())
        }
    }
}

/// The address of the first server named `node_id`.
pub open spec fn first_addr(servers: Seq<ServerModel>, node_id: Seq<char>) -> Option<Seq<char>>
    decreases servers.len(),
{
    if servers.len() == 0 {
        None
    } else if servers[0].node_id == node_id {
        Some(servers[0].addr)
    } else {
        first_addr(servers.drop_first(), node_id)
    }
}

impl ConfigurationModel {
    /// Every server that is sent log entries under this configuration.
    pub open spec fn servers(self) -> Seq<ServerModel> {
        match self {
            ConfigurationModel::Simple(servers) => servers,
            ConfigurationModel::Joint { old, new } => merged_servers(old, new),
        }
    }

    /// Whether a server named `node_id` is a member.
    pub open spec fn has_member(self, node_id: Seq<char>) -> bool {
        has_server(self.servers(), node_id)
    }
}

/// Whether some server of `servers` is named `node_id`.
pub fn names_server(servers: &Vec<ServerId>, node_id: &str) -> (found: bool)
    ensures
        found == has_server(servers.deep_view(), node_id@),
{
    let ghost model = servers.deep_view();
    let mut i: usize = 0;
    while i < servers.len()
        invariant
            i <= servers@.len(),
            model == servers.deep_view(),
            forall|j: int| 0 <= j < i ==> (#[trigger] model[j]).node_id != node_id@,
        decreases servers@.len() - i,
    {
        assert(model[i as int] == servers@[i as int].deep_view());
        if str_equal(servers[i].node_id.as_str(), node_id) {
            return true;
        }
        i = i + 1;
    }
    false
}

impl Configuration {
    /// All servers that should receive `AppendEntries` in this configuration:
    /// during `Joint` those of `old` and of `new`, each name once.
    pub fn all_servers(&self) -> (servers: Vec<ServerId>)
        ensures
            servers.deep_view() == self.deep_view().servers(),
    {
        match self {
            Configuration::Simple(servers) => servers.duplicate(),
            Configuration::Joint { old, new } => {
                let mut combined: Vec<ServerId> = old.duplicate();
                let ghost new_model = new.deep_view();
                let mut i: usize = 0;
                assert(new_model.take(0) =~= Seq::<ServerModel>::empty());
                while i < new.len()
                    invariant
                        i <= new@.len(),
                        new_model == new.deep_view(),
                        combined.deep_view() == merged_servers(old.deep_view(), new_model.take(i as int)),
                    decreases new@.len() - i,
                {
                    let server = &new[i];
                    let ghost before = combined.deep_view();
                    proof {
                        assert(new_model.take(i + 1).drop_last() =~= new_model.take(i as int));
                        assert(new_model.take(i + 1).last() == server.deep_view());
                    }
                    if !names_server(&combined, server.node_id.as_str()) {
                        combined.push(server.duplicate());
                        assert(combined.deep_view() =~= before.push(server.deep_view()));
                    }
                    i = i + 1;
                }
                assert(new_model.take(new@.len() as int) =~= new_model);
                combined
            },
        }
    }

    /// The servers among which votes are counted: those of `all_servers`.
    pub fn effective_servers(&self) -> (servers: Vec<ServerId>)
        ensures
            servers.deep_view() == self.deep_view().servers(),
    {
        self.all_servers()
    }

    /// The number of servers; during `Joint` that of the larger set.
    pub fn size(&self) -> (n: usize)
        ensures
            n == match self.deep_view() {
                ConfigurationModel::Simple(servers) => servers.len(),
                ConfigurationModel::Joint { old, new } => if old.len() > new.len() {
                    old.len()
                } else {
                    new.len()
                },
            },
    {
        match self {
            Configuration::Simple(servers) => servers.len(),
            Configuration::Joint { old, new } => {
                if old.len() > new.len() {
                    old.len()
                } else {
                    new.len()
                }
            },
        }
    }

    /// The address of the server named `node_id`.
    pub fn addr_of(&self, node_id: &str) -> (addr: Option<String>)
        ensures
            addr.deep_view() == first_addr(self.deep_view().servers(), node_id@),
    {
        let servers = self.all_servers();
        let ghost model = servers.deep_view();
        let mut i: usize = 0;
        assert(model.skip(0) =~= model);
        while i < servers.len()
            invariant
                i <= servers@.len(),
                model == servers.deep_view(),
                model == self.deep_view().servers(),
                first_addr(model, node_id@) == first_addr(model.skip(i as int), node_id@),
            decreases servers@.len() - i,
        {
            assert(model.skip(i as int)[0] == servers@[i as int].deep_view());
            if str_equal(servers[i].node_id.as_str(), node_id) {
                return Some(servers[i].addr.clone());
            }
            assert(model.skip(i as int).drop_first() =~= model.skip(i + 1));
            i = i + 1;
        }
        None
    }

    /// Whether `node_id` is a member of this configuration.
    pub fn contains(&self, node_id: &str) -> (member: bool)
        ensures
            member == self.deep_view().has_member(node_id@),
    {
        let servers = self.all_servers();
        names_server(&servers, node_id)
    }
}

/// A merge names exactly the servers that either side names.
pub proof fn merged_servers_is_union(old: Seq<ServerModel>, new: Seq<ServerModel>, node_id: Seq<char>)
    ensures
        has_server(merged_servers(old, new), node_id) <==> has_server(old, node_id) || has_server(new, node_id),
    decreases new.len(),
{
    if new.len() > 0 {
        let rest = new.drop_last();
        let before = merged_servers(old, rest);
        let merged = merged_servers(old, new);
        merged_servers_is_union(old, rest, node_id);
        assert(new =~= rest.push(new.last()));
        assert(has_server(new, node_id) <==> has_server(rest, node_id) || new.last().node_id == node_id) by {
            if has_server(rest, node_id) {
                let i = choose|i: int| 0 <= i < rest.len() && (#[trigger] rest[i]).node_id == node_id;
                assert(new[i].node_id == node_id);
            }
            if new.last().node_id == node_id {
                assert(new[new.len() - 1].node_id == node_id);
            }
            if has_server(new, node_id) && new.last().node_id != node_id {
                let i = choose|i: int| 0 <= i < new.len() && (#[trigger] new[i]).node_id == node_id;
                assert(rest[i].node_id == node_id);
            }
        }
        if !has_server(before, new.last().node_id) {
            if has_server(before, node_id) {
                let i = choose|i: int| 0 <= i < before.len() && (#[trigger] before[i]).node_id == node_id;
                assert(merged[i].node_id == node_id);
            }
            if new.last().node_id == node_id {
                assert(merged[before.len() as int].node_id == node_id);
            }
            if has_server(merged, node_id) && new.last().node_id != node_id {
                let i = choose|i: int| 0 <= i < merged.len() && (#[trigger] merged[i]).node_id == node_id;
                assert(before[i].node_id == node_id);
            }
        }
    }
}

/// No two servers of `servers` share a name.
pub open spec fn distinct_names(servers: Seq<ServerModel>) -> bool {
    forall|i: int, j: int|
        0 <= i < j < servers.len() ==> (#[trigger] servers[i]).node_id != (#[trigger] servers[j]).node_id
}

/// A merge with distinct names on the left has distinct names.
pub proof fn merged_servers_has_no_duplicates(old: Seq<ServerModel>, new: Seq<ServerModel>)
    requires
        distinct_names(old),
    ensures
        distinct_names(merged_servers(old, new)),
    decreases new.len(),
{
    if new.len() > 0 {
        merged_servers_has_no_duplicates(old, new.drop_last());
    }
}

// ---- quorums ----

/// The highest index that `server` is known to hold: `self_index` for the
/// local server, the recorded index for another, 0 for an unknown one.
pub open spec fn replicated_index(
    server: ServerModel,
    match_index: Map<Seq<char>, u64>,
    self_node_id: Seq<char>,
    self_index: u64,
) -> u64 {
    if server.node_id == self_node_id {
        self_index
    } else if match_index.contains_key(server.node_id) {
        match_index[server.node_id]
    } else {
        0
    }
}

/// How many servers satisfy `holds`.
pub open spec fn count_where(servers: Seq<ServerModel>, holds: spec_fn(ServerModel) -> bool) -> nat
    decreases servers.len(),
{
    if servers.len() == 0 {
        0
    } else {
        count_where(servers.drop_last(), holds) + if holds(servers.last()) {
            1nat
        } else {
            0nat
        }
    }
}

/// More than half of `servers` satisfy `holds`.
pub open spec fn majority(servers: Seq<ServerModel>, holds: spec_fn(ServerModel) -> bool) -> bool {
    count_where(servers, holds) > servers.len() / 2
}

/// What holds of a server that is known to have replicated `index`.
pub open spec fn holds_index(
    match_index: Map<Seq<char>, u64>,
    self_node_id: Seq<char>,
    self_index: u64,
    index: u64,
) -> spec_fn(ServerModel) -> bool {
    |server: ServerModel| replicated_index(server, match_index, self_node_id, self_index) >= index
}

/// The quorum rule: a majority of a simple configuration, a majority of each
/// side of a joint one.
pub open spec fn quorum(config: ConfigurationModel, holds: spec_fn(ServerModel) -> bool) -> bool {
    match config {
        ConfigurationModel::Simple(servers) => majority(servers, holds),
        ConfigurationModel::Joint { old, new } => majority(old, holds) && majority(new, holds),
    }
}

/// A quorum of `config` is known to have replicated `index`.
pub open spec fn quorum_holds(
    config: ConfigurationModel,
    match_index: Map<Seq<char>, u64>,
    self_node_id: Seq<char>,
    self_index: u64,
    index: u64,
) -> bool {
    quorum(config, holds_index(match_index, self_node_id, self_index, index))
}

/// Fewer demands are met by at least as many servers.
pub proof fn count_where_monotone(
    servers: Seq<ServerModel>,
    strong: spec_fn(ServerModel) -> bool,
    weak: spec_fn(ServerModel) -> bool,
)
    requires
        forall|s: ServerModel| #[trigger] strong(s) ==> weak(s),
    ensures
        count_where(servers, strong) <= count_where(servers, weak) <= servers.len(),
    decreases servers.len(),
{
    if servers.len() > 0 {
        count_where_monotone(servers.drop_last(), strong, weak);
    }
}

/// What a quorum has replicated includes every earlier index.
pub proof fn quorum_is_downward_closed(
    config: ConfigurationModel,
    match_index: Map<Seq<char>, u64>,
    self_node_id: Seq<char>,
    self_index: u64,
    lower: u64,
    index: u64,
)
    requires
        lower <= index,
        quorum_holds(config, match_index, self_node_id, self_index, index),
    ensures
        quorum_holds(config, match_index, self_node_id, self_index, lower),
{
    let strong = holds_index(match_index, self_node_id, self_index, index);
    let weak = holds_index(match_index, self_node_id, self_index, lower);
    match config {
        ConfigurationModel::Simple(servers) => count_where_monotone(servers, strong, weak),
        ConfigurationModel::Joint { old, new } => {
            count_where_monotone(old, strong, weak);
            count_where_monotone(new, strong, weak);
        },
    }
}

proof fn overlap_count(
    servers: Seq<ServerModel>,
    p: spec_fn(ServerModel) -> bool,
    q: spec_fn(ServerModel) -> bool,
)
    ensures
        count_where(servers, p) + count_where(servers, q) > servers.len() ==> exists|i: int|
            0 <= i < servers.len() && p(#[trigger] servers[i]) && q(servers[i]),
    decreases servers.len(),
{
    if servers.len() > 0 {
        let rest = servers.drop_last();
        overlap_count(rest, p, q);
        let last = servers.len() - 1;
        if p(servers.last()) && q(servers.last()) {
            assert(p(servers[last]) && q(servers[last]));
        } else if count_where(servers, p) + count_where(servers, q) > servers.len() {
            let i = choose|i: int| 0 <= i < rest.len() && p(#[trigger] rest[i]) && q(rest[i]);
            assert(p(servers[i]) && q(servers[i]));
        }
    }
}

/// Two majorities of the same servers have a server in common.
pub proof fn majorities_overlap(
    servers: Seq<ServerModel>,
    p: spec_fn(ServerModel) -> bool,
    q: spec_fn(ServerModel) -> bool,
)
    requires
        majority(servers, p),
        majority(servers, q),
    ensures
        exists|i: int| 0 <= i < servers.len() && p(#[trigger] servers[i]) && q(servers[i]),
{
    overlap_count(servers, p, q);
}

/// A quorum of the joint configuration has a server in common with every
/// quorum of the old configuration and with every quorum of the new one, so
/// that the two sides of a membership change cannot decide apart.
pub proof fn joint_quorum_overlaps_both_sides(
    old: Seq<ServerModel>,
    new: Seq<ServerModel>,
    joint: spec_fn(ServerModel) -> bool,
    side: spec_fn(ServerModel) -> bool,
)
    requires
        quorum(ConfigurationModel::Joint { old, new }, joint),
    ensures
        quorum(ConfigurationModel::Simple(old), side) ==> exists|i: int|
            0 <= i < old.len() && joint(#[trigger] old[i]) && side(old[i]),
        quorum(ConfigurationModel::Simple(new), side) ==> exists|i: int|
            0 <= i < new.len() && joint(#[trigger] new[i]) && side(new[i]),
{
    if quorum(ConfigurationModel::Simple(old), side) {
        majorities_overlap(old, joint, side);
    }
    if quorum(ConfigurationModel::Simple(new), side) {
        majorities_overlap(new, joint, side);
    }
}

/// Whether more than half of `servers` have replicated `index`.
fn majority_reached(
    servers: &Vec<ServerId>,
    match_index: &TextMap<u64>,
    self_node_id: &str,
    self_index: u64,
    index: u64,
) -> (reached: bool)
    ensures
        reached == majority(
            servers.deep_view(),
            holds_index(match_index@, self_node_id@, self_index, index),
        ),
{
    let ghost model = servers.deep_view();
    let ghost holds = holds_index(match_index@, self_node_id@, self_index, index);
    let mut count: usize = 0;
    let mut i: usize = 0;
    while i < servers.len()
        invariant
            i <= servers@.len(),
            count <= i,
            model == servers.deep_view(),
            holds == holds_index(match_index@, self_node_id@, self_index, index),
            count == count_where(model.take(i as int), holds),
        decreases servers@.len() - i,
    {
        let server = &servers[i];
        let replicated: u64 = if str_equal(server.node_id.as_str(), self_node_id) {
            self_index
        } else {
            match match_index.get(server.node_id.as_str()) {
                Some(found) => *found,
                None => 0,
            }
        };
        proof {
            assert(model.take(i + 1).drop_last() =~= model.take(i as int));
            assert(model.take(i + 1).last() == server.deep_view());
            assert(replicated == replicated_index(server.deep_view(), match_index@, self_node_id@, self_index));
        }
        if replicated >= index {
            count = count + 1;
        }
        i = i + 1;
    }
    assert(model.take(servers@.len() as int) =~= model);
    count > servers.len() / 2
}

/// Whether a quorum of `config` has replicated `index`: a majority of a simple
/// configuration, a majority of both sides of a joint one.
pub fn config_quorum_reached(
    config: &Configuration,
    match_index: &TextMap<u64>,
    self_node_id: &str,
    self_index: u64,
    index: u64,
) -> (reached: bool)
    ensures
        reached == quorum_holds(config.deep_view(), match_index@, self_node_id@, self_index, index),
{
    match config {
        Configuration::Simple(servers) => majority_reached(servers, match_index, self_node_id, self_index, index),
        Configuration::Joint { old, new } => {
            let old_ok = majority_reached(old, match_index, self_node_id, self_index, index);
            let new_ok = majority_reached(new, match_index, self_node_id, self_index, index);
            old_ok && new_ok
        },
    }
}

/// `best` is the highest index up to `self_index` that a quorum of `config`
/// has replicated, 0 if there is none.
pub open spec fn is_quorum_index(
    config: ConfigurationModel,
    match_index: Map<Seq<char>, u64>,
    self_node_id: Seq<char>,
    self_index: u64,
    best: u64,
) -> bool {
    &&& best <= self_index
    &&& best > 0 ==> quorum_holds(config, match_index, self_node_id, self_index, best)
    &&& forall|index: u64|
        best < index <= self_index ==> !#[trigger] quorum_holds(config, match_index, self_node_id, self_index, index)
}

/// The highest index up to `self_index` that a quorum of `config` has
/// replicated, 0 if there is none.
pub fn config_quorum_reached_index(
    config: &Configuration,
    match_index: &TextMap<u64>,
    self_node_id: &str,
    self_index: u64,
) -> (best: u64)
    ensures
        is_quorum_index(config.deep_view(), match_index@, self_node_id@, self_index, best),
{
    let mut lo: u64 = 0;
    let mut hi: u64 = self_index;
    while lo < hi
        invariant
            lo <= hi <= self_index,
            lo > 0 ==> quorum_holds(config.deep_view(), match_index@, self_node_id@, self_index, lo),
            forall|index: u64|
                hi < index <= self_index ==> !#[trigger] quorum_holds(
                    config.deep_view(),
                    match_index@,
                    self_node_id@,
                    self_index,
                    index,
                ),
        decreases hi - lo,
    {
        let mid: u64 = hi - (hi - lo) / 2;
        if config_quorum_reached(config, match_index, self_node_id, self_index, mid) {
            lo = mid;
        } else {
            proof {
                assert forall|index: u64| mid <= index <= self_index implies !#[trigger] quorum_holds(
                    config.deep_view(),
                    match_index@,
                    self_node_id@,
                    self_index,
                    index,
                ) by {
                    if quorum_holds(config.deep_view(), match_index@, self_node_id@, self_index, index) {
                        quorum_is_downward_closed(
                            config.deep_view(),
                            match_index@,
                            self_node_id@,
                            self_index,
                            mid,
                            index,
                        );
                    }
                }
            }
            hi = mid - 1;
        }
    }
    lo
}

// ---- what quorums and configurations come to ----

proof fn counting_is_filtering(servers: Seq<ServerModel>, holds: spec_fn(ServerModel) -> bool)
    ensures
        count_where(servers, holds) == servers.filter(holds).len(),
    decreases servers.len(),
{
    reveal(Seq::filter);
    if servers.len() > 0 {
        counting_is_filtering(servers.drop_last(), holds);
    }
}

/// A quorum of a simple configuration is more than half of its servers; one of
/// a joint configuration is more than half of the old ones and more than half of
/// the new ones.
pub proof fn quorums_are_more_than_half(
    servers: Seq<ServerModel>,
    new: Seq<ServerModel>,
    holds: spec_fn(ServerModel) -> bool,
)
    ensures
        quorum(ConfigurationModel::Simple(servers), holds) <==> 2 * servers.filter(holds).len() > servers.len(),
        quorum((ConfigurationModel::Joint { old: servers, new }), holds) <==> 2 * servers.filter(holds).len()
            > servers.len() && 2 * new.filter(holds).len() > new.len(),
{
    counting_is_filtering(servers, holds);
    counting_is_filtering(new, holds);
}

/// An index is replicated by a quorum where more than half of the servers, on
/// each side of a joint configuration, are known to hold it: the server itself
/// up to its own index, every other up to the index that is kept under its name,
/// and one of which nothing is kept at index 0 only.
pub proof fn replication_takes_more_than_half(
    servers: Seq<ServerModel>,
    new: Seq<ServerModel>,
    match_index: Map<Seq<char>, u64>,
    self_node_id: Seq<char>,
    self_index: u64,
    index: u64,
)
    ensures
        ({
            let holds = |s: ServerModel|
                if s.node_id == self_node_id {
                    index <= self_index
                } else {
                    index == 0 || (match_index.contains_key(s.node_id) && index <= match_index[s.node_id])
                };
            let in_old = 2 * servers.filter(holds).len() > servers.len();
            let in_new = 2 * new.filter(holds).len() > new.len();
            &&& quorum_holds(ConfigurationModel::Simple(servers), match_index, self_node_id, self_index, index)
                <==> in_old
            &&& quorum_holds(
                ConfigurationModel::Joint { old: servers, new },
                match_index,
                self_node_id,
                self_index,
                index,
            ) <==> in_old && in_new
        }),
{
    let holds = |s: ServerModel|
        if s.node_id == self_node_id {
            index <= self_index
        } else {
            index == 0 || (match_index.contains_key(s.node_id) && index <= match_index[s.node_id])
        };
    assert(holds_index(match_index, self_node_id, self_index, index) =~= holds);
    quorums_are_more_than_half(servers, new, holds);
}

proof fn quorum_index_below(
    config: ConfigurationModel,
    match_index: Map<Seq<char>, u64>,
    self_node_id: Seq<char>,
    self_index: u64,
    upper: u64,
) -> (best: u64)
    requires
        upper <= self_index,
        forall|index: u64|
            upper < index <= self_index ==> !#[trigger] quorum_holds(
                config,
                match_index,
                self_node_id,
                self_index,
                index,
            ),
    ensures
        is_quorum_index(config, match_index, self_node_id, self_index, best),
    decreases upper,
{
    if upper == 0 || quorum_holds(config, match_index, self_node_id, self_index, upper) {
        upper
    } else {
        quorum_index_below(config, match_index, self_node_id, self_index, (upper - 1) as u64)
    }
}

/// There is always a highest index that a quorum has replicated, 0 if need be.
pub proof fn quorum_index_exists(
    config: ConfigurationModel,
    match_index: Map<Seq<char>, u64>,
    self_node_id: Seq<char>,
    self_index: u64,
) -> (best: u64)
    ensures
        is_quorum_index(config, match_index, self_node_id, self_index, best),
{
    quorum_index_below(config, match_index, self_node_id, self_index, self_index)
}

/// The servers of a joint configuration are the old ones, all of them and in
/// order, and then the new ones that go by another name than every old one, in
/// order. Those of a simple configuration are its servers.
pub proof fn servers_are_old_and_then_new(old: Seq<ServerModel>, new: Seq<ServerModel>)
    requires
        forall|i: int, j: int|
            0 <= i < j < new.len() ==> (#[trigger] new[i]).node_id != (#[trigger] new[j]).node_id,
    ensures
        ({
            let fresh = |s: ServerModel|
                (forall|i: int| 0 <= i < old.len() ==> (#[trigger] old[i]).node_id != s.node_id);
            &&& ConfigurationModel::Simple(old).servers() == old
            &&& (ConfigurationModel::Joint { old, new }).servers() == old + new.filter(fresh)
        }),
    decreases new.len(),
{
    reveal(Seq::filter);
    let fresh = |s: ServerModel| (forall|i: int| 0 <= i < old.len() ==> (#[trigger] old[i]).node_id != s.node_id);
    if new.len() == 0 {
        assert(old + new.filter(fresh) =~= old);
    } else {
        let rest = new.drop_last();
        let last = new.last();
        assert forall|i: int, j: int| 0 <= i < j < rest.len() implies (#[trigger] rest[i]).node_id != (
        #[trigger] rest[j]).node_id by {
            assert(rest[i] == new[i] && rest[j] == new[j]);
        }
        servers_are_old_and_then_new(old, rest);
        let before = merged_servers(old, rest);
        merged_servers_is_union(old, rest, last.node_id);
        assert(!has_server(rest, last.node_id)) by {
            if has_server(rest, last.node_id) {
                let i = choose|i: int| 0 <= i < rest.len() && (#[trigger] rest[i]).node_id == last.node_id;
                assert(new[i].node_id == last.node_id && new[new.len() - 1] == last);
            }
        }
        assert(has_server(old, last.node_id) == !fresh(last));
        if fresh(last) {
            assert((old + rest.filter(fresh)).push(last) =~= old + rest.filter(fresh).push(last));
        }
    }
}

/// A server is a member exactly where some server of the configuration goes by
/// its name, and its address is that of the first such server.
pub proof fn members_are_found_by_name(servers: Seq<ServerModel>, node_id: Seq<char>)
    ensures
        ConfigurationModel::Simple(servers).has_member(node_id) <==> exists|i: int|
            0 <= i < servers.len() && (#[trigger] servers[i]).node_id == node_id,
        match first_addr(servers, node_id) {
            Some(addr) => exists|i: int|
                0 <= i < servers.len() && (#[trigger] servers[i]).node_id == node_id && servers[i].addr == addr && forall|
                    j: int,
                | 0 <= j < i ==> (#[trigger] servers[j]).node_id != node_id,
            None => forall|i: int| 0 <= i < servers.len() ==> (#[trigger] servers[i]).node_id != node_id,
        },
    decreases servers.len(),
{
    if servers.len() > 0 && servers[0].node_id != node_id {
        let rest = servers.drop_first();
        members_are_found_by_name(rest, node_id);
        match first_addr(servers, node_id) {
            Some(addr) => {
                let i = choose|i: int|
                    0 <= i < rest.len() && (#[trigger] rest[i]).node_id == node_id && rest[i].addr == addr && forall|
                        j: int,
                    | 0 <= j < i ==> (#[trigger] rest[j]).node_id != node_id;
                assert(servers[i + 1] == rest[i]);
                assert forall|j: int| 0 <= j < i + 1 implies (#[trigger] servers[j]).node_id != node_id by {
                    if j > 0 {
                        assert(rest[j - 1] == servers[j]);
                    }
                }
            },
            None => {
                assert forall|i: int| 0 <= i < servers.len() implies (#[trigger] servers[i]).node_id != node_id by {
                    if i > 0 {
                        assert(rest[i - 1] == servers[i]);
                    }
                }
            },
        }
    }
}

} // verus!
