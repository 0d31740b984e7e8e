//! A sequential model of the key-value store, against which a cluster's reads
//! are checked.

use crate::data::Duplicate;
use crate::protocol::{Command, CommandModel, LogEntryModel, TxDecision, TxOp, TxOpModel};
use crate::raft::sim_harness::SimCluster;
use crate::state_machine::StoreModel;
use crate::text_map::TextMap;
use vstd::prelude::*;

verus! {

/// Applies committed commands one by one, in the order of their log indices.
/// The writes of a transaction are staged out of sight until it is decided.
#[derive(Debug)]
pub struct ReferenceModel {
    state: TextMap<String>,
    pending: TextMap<Vec<TxOp>>,
    /// The index of the next entry to apply; log indices start at 1.
    next_index: u64,
}

#[verifier::ext_equal]
pub struct Reference {
    pub state: Map<Seq<char>, Seq<char>>,
    pub pending: Map<Seq<char>, Seq<TxOpModel>>,
    pub next_index: u64,
}

impl View for ReferenceModel {
    type V = Reference;

    closed spec fn view(&self) -> Reference {
        Reference { state: self.state@, pending: self.pending@, next_index: self.next_index }
    }
}

impl Reference {
    pub open spec fn fresh() -> Reference {
        Reference { state: Map::empty(), pending: Map::empty(), next_index: 1 }
    }

    /// The effect of a command, whatever its index.
    pub open spec fn effect(self, command: CommandModel) -> Reference {
        match command {
            CommandModel::SetKey { key, value } => Reference { state: self.state.insert(key, value), ..self },
            CommandModel::Delete { key } => Reference { state: self.state.remove(key), ..self },
            CommandModel::BeginTx { tx_id, ops } => Reference { pending: self.pending.insert(tx_id, ops), ..self },
            CommandModel::DecideTx { tx_id, decision } => if self.pending.contains_key(tx_id) {
                Reference {
                    state: match decision {
                        TxDecision::Commit => crate::state_machine::apply_ops(self.state, self.pending[tx_id]),
                        TxDecision::Abort => self.state,
                    },
                    pending: self.pending.remove(tx_id),
                    ..self
                }
            } else {
                self
            },
            _ => self,
        }
    }

    /// The next entry is applied.
    pub open spec fn advance(self, command: CommandModel) -> Reference {
        Reference { next_index: (self.next_index + 1) as u64, ..self.effect(command) }
    }

    /// Entries are applied one after the other.
    pub open spec fn advance_all(self, entries: Seq<LogEntryModel>) -> Reference
        decreases entries.len(),
    {
        if entries.len() == 0 {
            self
        } else {
            self.advance_all(entries.drop_last()).advance(entries.last().command)
        }
    }

    /// The entries of a log from the next index up to `commit_index`, as far
    /// as the log reaches.
    pub open spec fn due(self, log: Seq<LogEntryModel>, commit_index: u64) -> Seq<LogEntryModel> {
        let end = if commit_index < log.len() {
            commit_index as int
        } else {
            log.len() as int
        };
        if 1 <= self.next_index <= end {
            log.subrange(self.next_index - 1, end)
        } else {
            Seq::empty()
        }
    }
}

impl Default for ReferenceModel {
    fn default() -> (model: Self)
        ensures
            model@ == Reference::fresh(),
    {
        ReferenceModel::new()
    }
}

impl ReferenceModel {
    /// A model to which nothing has been applied.
    pub fn new() -> (model: Self)
        ensures
            model@ == Reference::fresh(),
    {
        ReferenceModel { state: TextMap::new(), pending: TextMap::new(), next_index: 1 }
    }

    /// Applies the command of the entry at `index`, if that is the next one.
    /// Whether it was applied.
    pub fn apply(&mut self, index: u64, command: &Command) -> (applied: bool)
        requires
            old(self)@.next_index < u64::MAX,
        ensures
            applied == (index == old(self)@.next_index),
            final(self)@ == if applied {
                old(self)@.advance(command.deep_view())
            } else {
                old(self)@
            },
    {
        if index != self.next_index {
            return false;
        }
        self.next_index = self.next_index + 1;
        match command {
            Command::SetKey { key, value } => {
                self.state.insert(key.clone(), value.clone());
            },
            Command::Delete { key } => {
                self.state.remove(key.as_str());
            },
            Command::BeginTx { tx_id, ops } => {
                self.pending.insert(tx_id.clone(), ops.duplicate());
            },
            Command::DecideTx { tx_id, decision } => {
                let staged: Option<Vec<TxOp>> = match self.pending.get(tx_id.as_str()) {
                    Some(ops) => Some(ops.duplicate()),
                    None => None,
                };
                match staged {
                    Some(ops) => {
                        self.pending.remove(tx_id.as_str());
                        if *decision == TxDecision::Commit {
                            self.apply_ops(&ops);
                        }
                    },
                    None => {},
                }
            },
            _ => {},
        }
        true
    }

    /// Applies the writes of a transaction, in order.
    fn apply_ops(&mut self, ops: &Vec<TxOp>)
        ensures
            final(self)@ == (Reference {
                state: crate::state_machine::apply_ops(old(self)@.state, ops.deep_view()),
                ..old(self)@
            }),
    {
        let ghost model = ops.deep_view();
        let mut i: usize = 0;
        assert(model.take(0) =~= Seq::<TxOpModel>::empty());
        while i < ops.len()
            invariant
                i <= ops@.len(),
                model == ops.deep_view(),
                self@ == (Reference {
                    state: crate::state_machine::apply_ops(old(self)@.state, model.take(i as int)),
                    ..old(self)@
                }),
            decreases ops@.len() - i,
        {
            proof {
                assert(model.take(i + 1).drop_last() =~= model.take(i as int));
                assert(model.take(i + 1).last() == ops@[i as int].deep_view());
            }
            match &ops[i] {
                TxOp::Put { key, value } => {
                    self.state.insert(key.clone(), value.clone());
                },
                TxOp::Delete { key } => {
                    self.state.remove(key.as_str());
                },
            }
            i = i + 1;
        }
        assert(model.take(ops@.len() as int) =~= model);
    }

    /// Applies what the first leader of the cluster has up to `commit_index`.
    /// How many entries were applied; none without a leader.
    pub fn drain_to(&mut self, cluster: &SimCluster, commit_index: u64) -> (applied: usize)
        requires
            forall|i: int| 0 <= i < cluster@.len() ==> (#[trigger] cluster@[i]).raft.log.len() < usize::MAX,
        ensures
            crate::raft::sim_harness::leaderless(cluster@) ==> applied == 0 && final(self)@ == old(self)@,
            forall|leader: int|
                #![trigger crate::raft::sim_harness::is_first_leader(cluster@, leader)]
                crate::raft::sim_harness::is_first_leader(cluster@, leader) ==> {
                    let due = old(self)@.due(cluster@[leader].raft.log, commit_index);
                    applied == due.len() && final(self)@ == old(self)@.advance_all(due)
                },
    {
        match cluster.leader_index() {
            Some(leader) => self.drain_node(cluster, leader, commit_index),
            None => 0,
        }
    }

    /// Applies what a node has up to `commit_index`. How many entries were
    /// applied.
    fn drain_node(&mut self, cluster: &SimCluster, node: usize, commit_index: u64) -> (applied: usize)
        requires
            node < cluster@.len(),
            cluster@[node as int].raft.log.len() < usize::MAX,
        ensures
            applied == old(self)@.due(cluster@[node as int].raft.log, commit_index).len(),
            final(self)@ == old(self)@.advance_all(
                old(self)@.due(cluster@[node as int].raft.log, commit_index),
            ),
    {
        let ghost log = cluster@[node as int].raft.log;
        let ghost due = self@.due(log, commit_index);
        let mut applied: usize = 0;
        assert(due.take(0) =~= Seq::<LogEntryModel>::empty());
        assert(due.take(due.len() as int) =~= due);
        assert(cluster@[node as int] == cluster.nodes@[node as int].deep_view());
        while self.next_index <= commit_index
            invariant_except_break
                node < cluster@.len(),
                cluster@[node as int] == cluster.nodes@[node as int].deep_view(),
                log == cluster@[node as int].raft.log,
                log.len() < usize::MAX,
                due == old(self)@.due(log, commit_index),
                applied <= due.len(),
                due.take(due.len() as int) == due,
                self@ == old(self)@.advance_all(due.take(applied as int)),
                self@.next_index == old(self)@.next_index + applied,
            ensures
                applied == due.len(),
                self@ == old(self)@.advance_all(due),
            decreases commit_index + 1 - self.next_index,
        {
            let entry = match cluster.nodes[node].raft.get_log_entry(self.next_index) {
                Some(entry) => entry,
                None => {
                    break;
                },
            };
            let index: u64 = self.next_index;
            proof {
                assert(due[applied as int] == entry.deep_view());
                assert(due.take(applied + 1).drop_last() =~= due.take(applied as int));
                assert(due.take(applied + 1).last() == entry.deep_view());
            }
            let _ = self.apply(index, &entry.command);
            applied = applied + 1;
        }
        applied
    }

    /// The value of `key`.
    pub fn get(&self, key: &str) -> (value: Option<&String>)
        ensures
            match value {
                Some(v) => self@.state.contains_key(key@) && v@ == self@.state[key@],
                None => !self@.state.contains_key(key@),
            },
    {
        self.state.get(key)
    }

    /// All keys and their values.
    pub fn snapshot(&self) -> (state: &TextMap<String>)
        ensures
            state@ == self@.state,
    {
        &self.state
    }

    /// The index of the last entry that was applied.
    pub fn applied_index(&self) -> (index: u64)
        ensures
            index == if self@.next_index > 0 {
                self@.next_index - 1
            } else {
                0
            },
    {
        self.next_index.saturating_sub(1)
    }

    /// Forgets everything.
    pub fn reset(&mut self)
        ensures
            final(self)@ == Reference::fresh(),
    {
        self.state = TextMap::new();
        self.pending = TextMap::new();
        self.next_index = 1;
    }

    /// Starts anew with what the first leader of the cluster has up to
    /// `commit_index`. How many entries were applied; none without a leader.
    pub fn replay_from_leader(&mut self, cluster: &SimCluster, commit_index: u64) -> (applied: usize)
        requires
            forall|i: int| 0 <= i < cluster@.len() ==> (#[trigger] cluster@[i]).raft.log.len() < usize::MAX,
        ensures
            crate::raft::sim_harness::leaderless(cluster@) ==> applied == 0 && final(self)@ == Reference::fresh(),
            forall|leader: int|
                #![trigger crate::raft::sim_harness::is_first_leader(cluster@, leader)]
                crate::raft::sim_harness::is_first_leader(cluster@, leader) ==> {
                    let due = Reference::fresh().due(cluster@[leader].raft.log, commit_index);
                    applied == due.len() && final(self)@ == Reference::fresh().advance_all(due)
                },
    {
        match cluster.leader_index() {
            Some(leader) => self.replay_from_node(cluster, leader, commit_index),
            None => {
                self.reset();
                0
            },
        }
    }

    /// Starts anew with what the node at `leader_idx` has up to `commit_index`.
    /// How many entries were applied.
    pub fn replay_from_node(&mut self, cluster: &SimCluster, leader_idx: usize, commit_index: u64) -> (applied: usize)
        requires
            leader_idx < cluster@.len(),
            cluster@[leader_idx as int].raft.log.len() < usize::MAX,
        ensures
            applied == Reference::fresh().due(cluster@[leader_idx as int].raft.log, commit_index).len(),
            final(self)@ == Reference::fresh().advance_all(
                Reference::fresh().due(cluster@[leader_idx as int].raft.log, commit_index),
            ),
    {
        self.reset();
        self.drain_node(cluster, leader_idx, commit_index)
    }
}

// ---- laws ----

/// The model and a state machine hold the same data and have the same writes
/// staged.
pub open spec fn agrees(reference: Reference, store: StoreModel) -> bool {
    &&& reference.state == store.data
    &&& reference.pending.dom() == store.pending.dom()
    &&& forall|id: Seq<char>|
        #[trigger] reference.pending.contains_key(id) ==> reference.pending[id] == store.pending[id].ops
}

/// The model agrees with the state machine after every command that it agreed
/// before.
pub proof fn model_agrees_after_each_command(
    reference: Reference,
    store: StoreModel,
    command: CommandModel,
    at: u64,
)
    requires
        agrees(reference, store),
    ensures
        agrees(reference.advance(command), store.apply(command, at)),
{
    let r = reference.advance(command);
    let s = store.apply(command, at);
    assert(reference.pending.dom() =~= store.pending.dom());
    match command {
        CommandModel::DecideTx { tx_id, .. } => {
            assert(reference.pending.contains_key(tx_id) == store.pending.dom().contains(tx_id));
        },
        _ => {},
    }
    assert(r.pending.dom() =~= s.pending.dom());
}

/// On every committed prefix of a log the model and the state machine agree:
/// what a node has applied from the start is what the model has.
pub proof fn model_agrees_on_every_prefix(log: Seq<LogEntryModel>, n: int, at: u64)
    requires
        0 <= n <= log.len(),
    ensures
        agrees(
            Reference::fresh().advance_all(log.take(n)),
            crate::raft::laws::store_after(StoreModel::empty(), log.take(n), at),
        ),
    decreases n,
{
    if n > 0 {
        model_agrees_on_every_prefix(log, n - 1, at);
        assert(log.take(n).drop_last() =~= log.take(n - 1));
        store_after_push(StoreModel::empty(), log.take(n - 1), log[n - 1], at);
        assert(log.take(n) =~= log.take(n - 1).push(log[n - 1]));
        model_agrees_after_each_command(
            Reference::fresh().advance_all(log.take(n - 1)),
            crate::raft::laws::store_after(StoreModel::empty(), log.take(n - 1), at),
            log[n - 1].command,
            at,
        );
    } else {
        assert(log.take(0) =~= Seq::<LogEntryModel>::empty());
        assert(Reference::fresh().pending.dom() =~= StoreModel::empty().pending.dom());
    }
}

proof fn store_after_push(store: StoreModel, entries: Seq<LogEntryModel>, entry: LogEntryModel, at: u64)
    ensures
        crate::raft::laws::store_after(store, entries.push(entry), at) == crate::raft::laws::store_after(
            store,
            entries,
            at,
        ).apply(entry.command, at),
    decreases entries.len(),
{
    let all = entries.push(entry);
    if entries.len() > 0 {
        assert(all.drop_first() =~= entries.drop_first().push(entry));
        assert(all[0] == entries[0]);
        store_after_push(store.apply(entries[0].command, at), entries.drop_first(), entry, at);
    } else {
        assert(all.drop_first() =~= Seq::<LogEntryModel>::empty());
        assert(crate::raft::laws::store_after(store.apply(entry.command, at), all.drop_first(), at) == store.apply(
            entry.command,
            at,
        ));
    }
}

proof fn advance_all_concat(reference: Reference, a: Seq<LogEntryModel>, b: Seq<LogEntryModel>)
    ensures
        reference.advance_all(a + b) == reference.advance_all(a).advance_all(b),
    decreases b.len(),
{
    if b.len() == 0 {
        assert(a + b =~= a);
    } else {
        assert((a + b).drop_last() =~= a + b.drop_last());
        advance_all_concat(reference, a, b.drop_last());
    }
}

proof fn advance_all_counts(reference: Reference, entries: Seq<LogEntryModel>)
    requires
        reference.next_index + entries.len() <= u64::MAX,
    ensures
        reference.advance_all(entries).next_index == reference.next_index + entries.len(),
    decreases entries.len(),
{
    if entries.len() > 0 {
        advance_all_counts(reference, entries.drop_last());
    }
}

/// Draining a log in two steps comes to the same as starting anew with all of
/// it, as long as it is the same log.
pub proof fn draining_in_steps_is_replaying(log: Seq<LogEntryModel>, first: u64, second: u64)
    requires
        first <= second <= log.len() < u64::MAX,
    ensures
        ({
            let fresh = Reference::fresh();
            let once = fresh.advance_all(fresh.due(log, first));
            once.advance_all(once.due(log, second)) == fresh.advance_all(fresh.due(log, second))
        }),
{
    let fresh = Reference::fresh();
    let a = fresh.due(log, first);
    assert(a =~= log.take(first as int));
    advance_all_counts(fresh, a);
    let once = fresh.advance_all(a);
    let b = once.due(log, second);
    assert(b =~= log.subrange(first as int, second as int));
    assert(a + b =~= fresh.due(log, second));
    advance_all_concat(fresh, a, b);
}

// ---- where values come from ----

/// A call that changes the model.
pub enum Call {
    Apply(u64, CommandModel),
    Reset,
}

impl Reference {
    /// Commands are applied one after the other.
    pub open spec fn advance_by(self, commands: Seq<CommandModel>) -> Reference
        decreases commands.len(),
    {
        if commands.len() == 0 {
            self
        } else {
            self.advance_by(commands.drop_last()).advance(commands.last())
        }
    }

    /// A new model after calls.
    pub open spec fn after(calls: Seq<Call>) -> Reference
        decreases calls.len(),
    {
        if calls.len() == 0 {
            Reference::fresh()
        } else {
            let before = Reference::after(calls.drop_last());
            match calls.last() {
                Call::Apply(index, command) => if index == before.next_index {
                    before.advance(command)
                } else {
                    before
                },
                Call::Reset => Reference::fresh(),
            }
        }
    }
}

/// The commands that calls have applied since the last reset.
pub open spec fn applied(calls: Seq<Call>) -> Seq<CommandModel>
    decreases calls.len(),
{
    if calls.len() == 0 {
        Seq::empty()
    } else {
        let before = applied(calls.drop_last());
        match calls.last() {
            Call::Apply(index, command) => if index == Reference::after(calls.drop_last()).next_index {
                before.push(command)
            } else {
                before
            },
            Call::Reset => Seq::empty(),
        }
    }
}

/// What a transaction has staged before the command at `n`: the writes of the
/// last command that began it, unless it has been decided since.
pub open spec fn staged(commands: Seq<CommandModel>, n: int, tx: Seq<char>) -> Option<Seq<TxOpModel>>
    decreases n,
{
    if n <= 0 {
        None
    } else {
        match commands[n - 1] {
            CommandModel::BeginTx { tx_id, ops } => if tx_id == tx {
                Some(ops)
            } else {
                staged(commands, n - 1, tx)
            },
            CommandModel::DecideTx { tx_id, .. } => if tx_id == tx {
                None
            } else {
                staged(commands, n - 1, tx)
            },
            _ => staged(commands, n - 1, tx),
        }
    }
}

/// The writes that take effect with the command at `i`: its own, or those of
/// the transaction that it commits.
pub open spec fn writes(commands: Seq<CommandModel>, i: int) -> Seq<TxOpModel> {
    match commands[i] {
        CommandModel::SetKey { key, value } => seq![TxOpModel::Put { key, value }],
        CommandModel::Delete { key } => seq![TxOpModel::Delete { key }],
        CommandModel::DecideTx { tx_id, decision: TxDecision::Commit } => match staged(commands, i, tx_id) {
            Some(ops) => ops,
            None => Seq::empty(),
        },
        _ => Seq::empty(),
    }
}

/// The key that a write is to.
pub open spec fn written_key(op: TxOpModel) -> Seq<char> {
    match op {
        TxOpModel::Put { key, .. } => key,
        TxOpModel::Delete { key } => key,
    }
}

/// `ops[j]` is the last write to `key` among `ops`.
pub open spec fn last_among(ops: Seq<TxOpModel>, key: Seq<char>, j: int) -> bool {
    &&& 0 <= j < ops.len()
    &&& written_key(ops[j]) == key
    &&& forall|k: int| j < k < ops.len() ==> written_key(#[trigger] ops[k]) != key
}

/// No write among `ops` is to `key`.
pub open spec fn leaves_alone(ops: Seq<TxOpModel>, key: Seq<char>) -> bool {
    forall|k: int| 0 <= k < ops.len() ==> written_key(#[trigger] ops[k]) != key
}

/// The last write to `key` is the write `j` of those that take effect with the
/// command at `i`.
pub open spec fn last_write(commands: Seq<CommandModel>, key: Seq<char>, i: int, j: int) -> bool {
    &&& 0 <= i < commands.len()
    &&& last_among(writes(commands, i), key, j)
    &&& forall|k: int| i < k < commands.len() ==> leaves_alone(#[trigger] writes(commands, k), key)
}

/// What `data` has under `key` is what the write left there.
pub open spec fn left_by(op: TxOpModel, data: Map<Seq<char>, Seq<char>>, key: Seq<char>) -> bool {
    match op {
        TxOpModel::Put { value, .. } => data.contains_key(key) && data[key] == value,
        TxOpModel::Delete { .. } => !data.contains_key(key),
    }
}

proof fn ops_leave(data: Map<Seq<char>, Seq<char>>, ops: Seq<TxOpModel>, key: Seq<char>) -> (last: int)
    ensures
        ({
            let after = crate::state_machine::apply_ops(data, ops);
            if leaves_alone(ops, key) {
                after.contains_key(key) == data.contains_key(key) && after[key] == data[key]
            } else {
                last_among(ops, key, last) && left_by(ops[last], after, key)
            }
        }),
    decreases ops.len(),
{
    if ops.len() == 0 {
        0
    } else {
        let rest = ops.drop_last();
        let before = ops_leave(data, rest, key);
        if written_key(ops.last()) == key {
            assert(ops[ops.len() - 1] == ops.last());
            ops.len() - 1
        } else {
            if leaves_alone(rest, key) {
                assert forall|k: int| 0 <= k < ops.len() implies written_key(#[trigger] ops[k]) != key by {
                    if k < rest.len() {
                        assert(rest[k] == ops[k]);
                    }
                }
            } else {
                assert(ops[before] == rest[before]);
                assert forall|k: int| before < k < ops.len() implies written_key(#[trigger] ops[k]) != key by {
                    if k < rest.len() {
                        assert(rest[k] == ops[k]);
                    }
                }
            }
            before
        }
    }
}

proof fn staged_in_prefix(commands: Seq<CommandModel>, more: Seq<CommandModel>, n: int, tx: Seq<char>)
    requires
        0 <= n <= commands.len(),
        commands.is_prefix_of(more),
    ensures
        staged(commands, n, tx) == staged(more, n, tx),
    decreases n,
{
    if n > 0 {
        assert(commands[n - 1] == more[n - 1]);
        staged_in_prefix(commands, more, n - 1, tx);
    }
}

proof fn writes_in_prefix(commands: Seq<CommandModel>, more: Seq<CommandModel>, i: int)
    requires
        0 <= i < commands.len(),
        commands.is_prefix_of(more),
    ensures
        writes(commands, i) == writes(more, i),
{
    assert(commands[i] == more[i]);
    match commands[i] {
        CommandModel::DecideTx { tx_id, .. } => staged_in_prefix(commands, more, i, tx_id),
        _ => {},
    }
}

proof fn pending_is_staged(commands: Seq<CommandModel>, tx: Seq<char>)
    ensures
        ({
            let pending = Reference::fresh().advance_by(commands).pending;
            staged(commands, commands.len() as int, tx) == if pending.contains_key(tx) {
                Some(pending[tx])
            } else {
                None
            }
        }),
    decreases commands.len(),
{
    if commands.len() > 0 {
        let rest = commands.drop_last();
        pending_is_staged(rest, tx);
        staged_in_prefix(rest, commands, rest.len() as int, tx);
    }
}

proof fn state_is_written(commands: Seq<CommandModel>)
    requires
        commands.len() > 0,
    ensures
        Reference::fresh().advance_by(commands).state == crate::state_machine::apply_ops(
            Reference::fresh().advance_by(commands.drop_last()).state,
            writes(commands, commands.len() - 1),
        ),
{
    let rest = commands.drop_last();
    let before = Reference::fresh().advance_by(rest);
    let i = commands.len() - 1;
    reveal_with_fuel(crate::state_machine::apply_ops, 2);
    match commands.last() {
        CommandModel::DecideTx { tx_id, decision } => {
            pending_is_staged(rest, tx_id);
            staged_in_prefix(rest, commands, i, tx_id);
        },
        CommandModel::SetKey { .. } | CommandModel::Delete { .. } => {
            assert(writes(commands, i).drop_last() =~= Seq::<TxOpModel>::empty());
        },
        _ => {},
    }
}

proof fn command_writes_are_last(commands: Seq<CommandModel>, key: Seq<char>) -> (found: (int, int))
    ensures
        ({
            let state = Reference::fresh().advance_by(commands).state;
            if forall|i: int| 0 <= i < commands.len() ==> leaves_alone(#[trigger] writes(commands, i), key) {
                !state.contains_key(key)
            } else {
                last_write(commands, key, found.0, found.1) && left_by(writes(commands, found.0)[found.1], state, key)
            }
        }),
    decreases commands.len(),
{
    if commands.len() == 0 {
        (0, 0)
    } else {
        let rest = commands.drop_last();
        let n = commands.len() - 1;
        let ops = writes(commands, n);
        state_is_written(commands);
        let j = ops_leave(Reference::fresh().advance_by(rest).state, ops, key);
        assert forall|i: int| 0 <= i < n implies #[trigger] writes(rest, i) == writes(commands, i) by {
            writes_in_prefix(rest, commands, i);
        }
        if leaves_alone(ops, key) {
            let (i, k) = command_writes_are_last(rest, key);
            if forall|i: int| 0 <= i < rest.len() ==> leaves_alone(#[trigger] writes(rest, i), key) {
                assert forall|i: int| 0 <= i < commands.len() implies leaves_alone(
                    #[trigger] writes(commands, i),
                    key,
                ) by {
                    if i < n {
                        assert(leaves_alone(writes(rest, i), key));
                    }
                }
            } else {
                assert(writes(rest, i) == writes(commands, i));
                assert forall|m: int| i < m < commands.len() implies leaves_alone(
                    #[trigger] writes(commands, m),
                    key,
                ) by {
                    if m < n {
                        assert(leaves_alone(writes(rest, m), key));
                    }
                }
                let some = choose|m: int| 0 <= m < rest.len() && !leaves_alone(#[trigger] writes(rest, m), key);
                assert(!leaves_alone(writes(commands, some), key));
            }
            (i, k)
        } else {
            assert(!leaves_alone(writes(commands, n), key));
            (n, j)
        }
    }
}

proof fn calls_apply(calls: Seq<Call>)
    ensures
        Reference::after(calls) == Reference::fresh().advance_by(applied(calls)),
    decreases calls.len(),
{
    if calls.len() > 0 {
        calls_apply(calls.drop_last());
        match calls.last() {
            Call::Apply(_, command) => {
                assert(applied(calls.drop_last()).push(command).drop_last() =~= applied(calls.drop_last()));
            },
            Call::Reset => {},
        }
    }
}

/// A value that the model holds was put there by the last write to its key that
/// took effect since the last reset: a write of its own, or one of a transaction
/// that was begun and then committed. What a transaction has staged and not
/// committed is never seen; a key whose last write deleted it, or that was never
/// written, is not there.
pub proof fn values_are_the_last_written(calls: Seq<Call>, key: Seq<char>)
    ensures
        ({
            let state = Reference::after(calls).state;
            let commands = applied(calls);
            &&& state.contains_key(key) <==> exists|i: int, j: int|
                #![trigger last_write(commands, key, i, j)]
                last_write(commands, key, i, j) && writes(commands, i)[j] is Put
            &&& forall|i: int, j: int| #[trigger]
                last_write(commands, key, i, j) ==> left_by(writes(commands, i)[j], state, key)
            &&& state.contains_key(key) ==> exists|i: int, j: int|
                #![trigger last_write(commands, key, i, j)]
                last_write(commands, key, i, j) && writes(commands, i)[j] == (TxOpModel::Put { key, value: state[key] })
        }),
{
    let state = Reference::after(calls).state;
    let commands = applied(calls);
    calls_apply(calls);
    let (i, j) = command_writes_are_last(commands, key);
    assert forall|a: int, b: int| #[trigger] last_write(commands, key, a, b) implies left_by(
        writes(commands, a)[b],
        state,
        key,
    ) by {
        assert(!leaves_alone(writes(commands, a), key));
        assert(!leaves_alone(writes(commands, i), key));
        assert(a == i);
        assert(b == j);
    }
    if state.contains_key(key) {
        assert(last_write(commands, key, i, j));
    }
}

/// What draining a log applies is the commands of its entries.
pub proof fn entries_are_commands(reference: Reference, entries: Seq<LogEntryModel>)
    ensures
        reference.advance_all(entries) == reference.advance_by(
            Seq::new(entries.len(), |i: int| entries[i].command),
        ),
    decreases entries.len(),
{
    let commands = Seq::new(entries.len(), |i: int| entries[i].command);
    if entries.len() > 0 {
        let rest = entries.drop_last();
        entries_are_commands(reference, rest);
        assert(commands.drop_last() =~= Seq::new(rest.len(), |i: int| rest[i].command));
    }
}

/// What is due of a log: the entries from the next index on, up to the commit
/// index and as far as the log reaches, each once and in order. Once they are
/// applied nothing up to there is due any more.
pub proof fn due_entries_follow_the_next_index(reference: Reference, log: Seq<LogEntryModel>, commit_index: u64)
    requires
        reference.next_index >= 1,
        log.len() < u64::MAX,
    ensures
        ({
            let due = reference.due(log, commit_index);
            let after = reference.advance_all(due);
            let next = reference.next_index as int;
            &&& forall|i: int| 0 <= i < due.len() ==> #[trigger] due[i] == log[next - 1 + i]
            &&& due.len() > 0 ==> next - 1 + due.len() == if commit_index < log.len() {
                commit_index as int
            } else {
                log.len() as int
            }
            &&& due.len() == 0 <==> next > commit_index || next > log.len()
            &&& after.next_index == next + due.len()
            &&& after.due(log, commit_index).len() == 0
        }),
{
    advance_all_counts(reference, reference.due(log, commit_index));
}

/// A command changes the model under its own key or transaction only: a write
/// sets its key, a deletion removes it, a transaction is staged with its writes,
/// and a decision ends it. The data of an aborted transaction, and of one that is
/// not staged, stays as it is.
pub proof fn commands_change_the_model_so(
    reference: Reference,
    key: Seq<char>,
    value: Seq<char>,
    tx_id: Seq<char>,
    ops: Seq<TxOpModel>,
    other: Seq<char>,
)
    requires
        other != key,
        reference.next_index < u64::MAX,
    ensures
        ({
            let set = reference.advance((CommandModel::SetKey { key, value }));
            let deleted = reference.advance((CommandModel::Delete { key }));
            let begun = reference.advance((CommandModel::BeginTx { tx_id, ops }));
            let aborted = reference.advance((CommandModel::DecideTx { tx_id, decision: TxDecision::Abort }));
            let committed = begun.advance((CommandModel::DecideTx { tx_id, decision: TxDecision::Commit }));
            &&& set.state.contains_key(key) && set.state[key] == value
            &&& !deleted.state.contains_key(key)
            &&& set.state.contains_key(other) == reference.state.contains_key(other)
            &&& reference.state.contains_key(other) ==> set.state[other] == reference.state[other]
            &&& deleted.state.contains_key(other) == reference.state.contains_key(other)
            &&& reference.state.contains_key(other) ==> deleted.state[other] == reference.state[other]
            &&& begun.state == reference.state
            &&& begun.pending.contains_key(tx_id) && begun.pending[tx_id] == ops
            &&& aborted.state == reference.state
            &&& !aborted.pending.contains_key(tx_id)
            &&& !committed.pending.contains_key(tx_id)
            &&& set.next_index == reference.next_index + 1
            &&& begun.next_index == reference.next_index + 1
            &&& aborted.next_index == reference.next_index + 1
            &&& reference.advance(CommandModel::Compact) == (Reference {
                next_index: (reference.next_index + 1) as u64,
                ..reference
            })
        }),
{
}

} // verus!
