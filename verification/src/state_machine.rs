//! The key-value state machine: committed data, and transactions that are
//! staged but not yet decided.

use crate::data::Duplicate;
use crate::protocol::{Command, CommandModel, TxDecision, TxOp, TxOpModel, Vote, VoteModel};
use crate::text_map::TextMap;
use crate::time::Duration;
use vstd::prelude::*;

verus! {

/// A staged transaction: its writes, the votes on it, and when it began.
#[derive(Debug, PartialEq)]
pub struct PendingTx {
    pub ops: Vec<TxOp>,
    pub votes: TextMap<Vote>,
    pub begin_unix_ms: u64,
}

/// What can be seen of a staged transaction.
#[derive(Debug, Clone, Copy, PartialEq, Eq, Structural)]
pub struct PendingTxView {
    pub yes_votes: usize,
    pub no_votes: usize,
    pub op_count: usize,
}

/// The state machine that committed log entries are applied to.
#[derive(Debug, PartialEq)]
pub struct StateMachine {
    pub data: TextMap<String>,
    pub pending_txs: TextMap<PendingTx>,
}

// ---- models ----

#[verifier::ext_equal]
pub struct PendingTxModel {
    pub ops: Seq<TxOpModel>,
    pub votes: Map<Seq<char>, VoteModel>,
    pub begin_unix_ms: u64,
}

#[verifier::ext_equal]
pub struct StoreModel {
    pub data: Map<Seq<char>, Seq<char>>,
    pub pending: Map<Seq<char>, PendingTxModel>,
}

impl DeepView for PendingTx {
    type V = PendingTxModel;

    open spec fn deep_view(&self) -> PendingTxModel {
        PendingTxModel {
            ops: self.ops.deep_view(),
            votes: self.votes@,
            begin_unix_ms: self.begin_unix_ms,
        }
    }
}

impl View for StateMachine {
    type V = StoreModel;

    open spec fn view(&self) -> StoreModel {
        StoreModel { data: self.data@, pending: self.pending_txs@ }
    }
}

/// The effect of one write on the data.
pub open spec fn apply_op(data: Map<Seq<char>, Seq<char>>, op: TxOpModel) -> Map<Seq<char>, Seq<char>> {
    match op {
        TxOpModel::Put { key, value } => data.insert(key, value),
        TxOpModel::Delete { key } => data.remove(key),
    }
}

/// The effect of a sequence of writes on the data.
pub open spec fn apply_ops(data: Map<Seq<char>, Seq<char>>, ops: Seq<TxOpModel>) -> Map<Seq<char>, Seq<char>>
    decreases ops.len(),
{
    if ops.len() == 0 {
        data
    } else {
        apply_op(apply_ops(data, ops.drop_last()), ops.last())
    }
}

/// `key` is written by none of `ops`.
pub open spec fn untouched(ops: Seq<TxOpModel>, key: Seq<char>) -> bool {
    forall|i: int| 0 <= i < ops.len() ==> match #[trigger] ops[i] {
        TxOpModel::Put { key: k, .. } => k != key,
        TxOpModel::Delete { key: k } => k != key,
    }
}

impl StoreModel {
    pub open spec fn empty() -> StoreModel {
        StoreModel { data: Map::empty(), pending: Map::empty() }
    }

    /// Stages a transaction; one already staged under the same id is replaced.
    pub open spec fn begin(self, tx_id: Seq<char>, ops: Seq<TxOpModel>, at: u64) -> StoreModel {
        StoreModel {
            pending: self.pending.insert(
                tx_id,
                PendingTxModel { ops, votes: Map::empty(), begin_unix_ms: at },
            ),
            ..self
        }
    }

    /// Decides a transaction: a commit applies all its writes, an abort none;
    /// either way it is no longer staged. An unknown id changes nothing.
    pub open spec fn decide(self, tx_id: Seq<char>, decision: TxDecision) -> StoreModel {
        if self.pending.contains_key(tx_id) {
            StoreModel {
                data: match decision {
                    TxDecision::Commit => apply_ops(self.data, self.pending[tx_id].ops),
                    TxDecision::Abort => self.data,
                },
                pending: self.pending.remove(tx_id),
            }
        } else {
            self
        }
    }

    /// Records `peer`'s vote on a staged transaction.
    pub open spec fn vote(self, tx_id: Seq<char>, peer: Seq<char>, vote: VoteModel) -> StoreModel {
        if self.pending.contains_key(tx_id) {
            let tx = self.pending[tx_id];
            StoreModel {
                pending: self.pending.insert(tx_id, PendingTxModel { votes: tx.votes.insert(peer, vote), ..tx }),
                ..self
            }
        } else {
            self
        }
    }

    /// The effect of a committed command, applied at wall-clock time `at`.
    pub open spec fn apply(self, command: CommandModel, at: u64) -> StoreModel {
        match command {
            CommandModel::SetKey { key, value } => StoreModel { data: self.data.insert(key, value), ..self },
            CommandModel::Delete { key } => StoreModel { data: self.data.remove(key), ..self },
            CommandModel::BeginTx { tx_id, ops } => self.begin(tx_id, ops, at),
            CommandModel::DecideTx { tx_id, decision } => self.decide(tx_id, decision),
            _ => self,
        }
    }
}

/// The peers whose vote on `tx` is Yes.
pub open spec fn yes_voters(tx: PendingTxModel) -> Set<Seq<char>> {
    tx.votes.dom().filter(|peer: Seq<char>| tx.votes[peer] is Yes)
}

/// The peers whose vote on `tx` is No.
pub open spec fn no_voters(tx: PendingTxModel) -> Set<Seq<char>> {
    tx.votes.dom().filter(|peer: Seq<char>| tx.votes[peer] is No)
}

/// `tx` began more than `threshold_ms` milliseconds before `now`.
pub open spec fn older_than(tx: PendingTxModel, threshold_ms: int, now: u64) -> bool {
    now - tx.begin_unix_ms > threshold_ms
}

impl StateMachine {
    /// An empty state machine.
    pub fn new() -> (store: Self)
        ensures
            store@ == StoreModel::empty(),
    {
        StateMachine { data: TextMap::new(), pending_txs: TextMap::new() }
    }

    /// Sets `key` to `value`.
    pub fn set(&mut self, key: &str, value: &str)
        ensures
            final(self)@ == (StoreModel { data: old(self)@.data.insert(key@, value@), ..old(self)@ }),
    {
        self.data.insert(key.to_owned(), value.to_owned());
    }

    /// Removes `key`.
    pub fn delete(&mut self, key: &str)
        ensures
            final(self)@ == (StoreModel { data: old(self)@.data.remove(key@), ..old(self)@ }),
    {
        self.data.remove(key);
    }

    /// The committed value of `key`. Staged writes are not seen.
    pub fn get(&self, key: &str) -> (value: Option<String>)
        ensures
            value.deep_view() == if self@.data.contains_key(key@) {
                Some(self@.data[key@])
            } else {
                None
            },
    {
        match self.data.get(key) {
            Some(value) => Some(value.clone()),
            None => None,
        }
    }

    /// Stages the writes of a transaction that begins at `begin_unix_ms`.
    pub fn begin_tx_at(&mut self, tx_id: String, ops: Vec<TxOp>, begin_unix_ms: u64)
        ensures
            final(self)@ == old(self)@.begin(tx_id@, ops.deep_view(), begin_unix_ms),
    {
        let tx = PendingTx { ops, votes: TextMap::new(), begin_unix_ms };
        self.pending_txs.insert(tx_id, tx);
    }

    /// Decides a transaction: a commit applies all its writes, an abort none.
    pub fn decide_tx(&mut self, tx_id: &str, decision: TxDecision)
        ensures
            final(self)@ == old(self)@.decide(tx_id@, decision),
    {
        let ops: Vec<TxOp> = match self.pending_txs.get(tx_id) {
            None => {
                return;
            },
            Some(tx) => tx.ops.duplicate(),
        };
        self.pending_txs.remove(tx_id);
        match decision {
            TxDecision::Abort => {},
            TxDecision::Commit => {
                let ghost model = ops.deep_view();
                let ghost pending = self.pending_txs@;
                let mut i: usize = 0;
                assert(model.take(0) =~= Seq::<TxOpModel>::empty());
                while i < ops.len()
                    invariant
                        i <= ops@.len(),
                        model == ops.deep_view(),
                        self.pending_txs@ == pending,
                        self.data@ == apply_ops(old(self).data@, model.take(i as int)),
                    decreases ops@.len() - i,
                {
                    proof {
                        assert(model.take(i + 1).drop_last() =~= model.take(i as int));
                        assert(model.take(i + 1).last() == ops@[i as int].deep_view());
                    }
                    match &ops[i] {
                        TxOp::Put { key, value } => self.data.insert(key.clone(), value.clone()),
                        TxOp::Delete { key } => self.data.remove(key.as_str()),
                    }
                    i = i + 1;
                }
                assert(model.take(ops@.len() as int) =~= model);
            },
        }
    }

    /// Records `peer`'s vote on a staged transaction. Whether there is one.
    pub fn record_vote(&mut self, tx_id: &str, peer: String, vote: Vote) -> (recorded: bool)
        ensures
            recorded == old(self)@.pending.contains_key(tx_id@),
            final(self)@ == old(self)@.vote(tx_id@, peer@, vote.deep_view()),
    {
        let mut tx: PendingTx = match self.pending_txs.get(tx_id) {
            None => {
                return false;
            },
            Some(tx) => PendingTx {
                ops: tx.ops.duplicate(),
                votes: tx.votes.duplicate(),
                begin_unix_ms: tx.begin_unix_ms,
            },
        };
        tx.votes.insert(peer, vote);
        self.pending_txs.insert(tx_id.to_owned(), tx);
        true
    }

    /// Whether a transaction is staged under `tx_id`.
    pub fn is_tx_pending(&self, tx_id: &str) -> (pending: bool)
        ensures
            pending == self@.pending.contains_key(tx_id@),
    {
        self.pending_txs.contains_key(tx_id)
    }

    /// The number of staged transactions.
    pub fn pending_tx_count(&self) -> (n: usize)
        ensures
            n == self@.pending.dom().len(),
    {
        let n: usize = self.pending_txs.len();
        proof {
            keys_count(self.pending_txs.keys(), self.pending_txs@);
        }
        n
    }

    /// The votes and the number of writes of a staged transaction.
    pub fn pending_tx(&self, tx_id: &str) -> (view: Option<PendingTxView>)
        ensures
            match view {
                Some(v) => {
                    &&& self@.pending.contains_key(tx_id@)
                    &&& v.yes_votes == yes_voters(self@.pending[tx_id@]).len()
                    &&& v.no_votes == no_voters(self@.pending[tx_id@]).len()
                    &&& v.op_count == self@.pending[tx_id@].ops.len()
                },
                None => !self@.pending.contains_key(tx_id@),
            },
    {
        match self.pending_txs.get(tx_id) {
            None => None,
            Some(tx) => {
                let (yes_votes, no_votes) = tx.tally();
                Some(PendingTxView { yes_votes, no_votes, op_count: tx.ops.len() })
            },
        }
    }

    /// The ids, in order, of the transactions that began more than
    /// `threshold` before `now_unix_ms`.
    pub fn pending_txs_older_than(&self, threshold: Duration, now_unix_ms: u64) -> (ids: Vec<String>)
        ensures
            crate::text_map::ascending(ids.deep_view()),
            forall|id: Seq<char>|
                ids.deep_view().contains(id) <==> (#[trigger] self@.pending.contains_key(id) && older_than(
                    self@.pending[id],
                    threshold.nanos as int / 1_000_000,
                    now_unix_ms,
                )),
    {
        let limit: u128 = threshold.as_millis();
        let n: usize = self.pending_txs.len();
        let ghost keys = self.pending_txs.keys();
        let mut ids: Vec<String> = Vec::new();
        let mut i: usize = 0;
        while i < n
            invariant
                i <= n == keys.len(),
                keys == self.pending_txs.keys(),
                crate::text_map::lists_keys(keys, self.pending_txs@),
                limit == threshold.nanos / 1_000_000,
                forall|j: int|
                    0 <= j < ids@.len() ==> exists|k: int| 0 <= k < i && #[trigger] keys[k] == (#[trigger] ids@[j])@,
                crate::text_map::ascending(ids.deep_view()),
                forall|k: int|
                    0 <= k < i ==> (ids.deep_view().contains(#[trigger] keys[k]) <==> older_than(
                        self.pending_txs@[keys[k]],
                        threshold.nanos as int / 1_000_000,
                        now_unix_ms,
                    )),
            decreases n - i,
        {
            let tx = self.pending_txs.value_at(i);
            let ghost before = ids.deep_view();
            let ghost ids_before = ids@;
            if now_unix_ms > tx.begin_unix_ms && (now_unix_ms - tx.begin_unix_ms) as u128 > limit {
                ids.push(self.pending_txs.key_at(i).clone());
                proof {
                    let after = ids.deep_view();
                    assert(after =~= before.push(keys[i as int]));
                    assert forall|a: int, b: int| 0 <= a < b < after.len() implies crate::text::text_less(
                        #[trigger] after[a],
                        #[trigger] after[b],
                    ) by {
                        if b == before.len() {
                            assert(after[a] == ids_before[a]@);
                            let k = choose|k: int| 0 <= k < i && #[trigger] keys[k] == ids_before[a]@;
                            assert(crate::text::text_less(keys[k], keys[i as int]));
                        } else {
                            assert(crate::text::text_less(before[a], before[b]));
                        }
                    }
                    assert forall|j: int| 0 <= j < ids@.len() implies exists|k: int|
                        0 <= k < i + 1 && #[trigger] keys[k] == (#[trigger] ids@[j])@ by {
                        if j == ids_before.len() {
                            assert(keys[i as int] == ids@[j]@);
                        } else {
                            assert(ids@[j] == ids_before[j]);
                        }
                    }
                    assert forall|k: int| 0 <= k < i + 1 implies (after.contains(#[trigger] keys[k])
                        <==> older_than(
                        self.pending_txs@[keys[k]],
                        threshold.nanos as int / 1_000_000,
                        now_unix_ms,
                    )) by {
                        if k == i {
                            assert(after[before.len() as int] == keys[k]);
                        } else {
                            assert(crate::text::text_less(keys[k], keys[i as int]));
                            crate::text::text_less_irreflexive(keys[k]);
                            if before.contains(keys[k]) {
                                assert(after[before.index_of(keys[k])] == keys[k]);
                            }
                            if after.contains(keys[k]) {
                                let p = after.index_of(keys[k]);
                                assert(before[p] == keys[k]);
                            }
                        }
                    }
                }
            } else {
                proof {
                    assert(!before.contains(keys[i as int])) by {
                        if before.contains(keys[i as int]) {
                            let p = before.index_of(keys[i as int]);
                            assert(ids@[p]@ == keys[i as int]);
                            let k = choose|k: int| 0 <= k < i && #[trigger] keys[k] == ids@[p]@;
                            assert(crate::text::text_less(keys[k], keys[i as int]));
                            crate::text::text_less_irreflexive(keys[k]);
                        }
                    }
                }
            }
            i = i + 1;
        }
        proof {
            assert forall|id: Seq<char>|
                ids.deep_view().contains(id) <==> (#[trigger] self@.pending.contains_key(id) && older_than(
                    self@.pending[id],
                    threshold.nanos as int / 1_000_000,
                    now_unix_ms,
                )) by {
                if ids.deep_view().contains(id) {
                    let p = ids.deep_view().index_of(id);
                    assert(ids@[p]@ == id);
                    let k = choose|k: int| 0 <= k < n && #[trigger] keys[k] == ids@[p]@;
                    assert(keys.contains(id));
                }
                if self@.pending.contains_key(id) {
                    let k = keys.index_of(id);
                    assert(keys[k] == id);
                }
            }
        }
        ids
    }

    /// A copy of the committed data.
    pub fn snapshot_data(&self) -> (data: TextMap<String>)
        ensures
            data@ == self@.data,
    {
        self.data.duplicate()
    }

    /// Drops the data and every staged transaction.
    pub fn clear_for_snapshot(&mut self)
        ensures
            final(self)@ == StoreModel::empty(),
    {
        self.data = TextMap::new();
        self.pending_txs = TextMap::new();
    }

    /// Replaces the contents by those of a snapshot.
    pub fn install_snapshot(&mut self, data: TextMap<String>)
        ensures
            final(self)@ == (StoreModel { data: data@, pending: Map::empty() }),
    {
        self.data = data;
        self.pending_txs = TextMap::new();
    }

    /// Applies a committed command at wall-clock time `now_unix_ms`.
    pub fn apply(&mut self, command: &Command, now_unix_ms: u64)
        ensures
            final(self)@ == old(self)@.apply(command.deep_view(), now_unix_ms),
    {
        match command {
            Command::SetKey { key, value } => self.set(key.as_str(), value.as_str()),
            Command::Delete { key } => self.delete(key.as_str()),
            Command::BeginTx { tx_id, ops } => self.begin_tx_at(tx_id.clone(), ops.duplicate(), now_unix_ms),
            Command::DecideTx { tx_id, decision } => self.decide_tx(tx_id.as_str(), *decision),
            _ => {},
        }
    }
}

proof fn keys_count<A>(keys: Seq<Seq<char>>, map: Map<Seq<char>, A>)
    requires
        crate::text_map::lists_keys(keys, map),
    ensures
        keys.len() == map.dom().len(),
        keys.to_set() == map.dom(),
        map.dom().finite(),
{
    assert(keys.no_duplicates()) by {
        assert forall|i: int, j: int| 0 <= i < keys.len() && 0 <= j < keys.len() && i != j implies keys[i]
            != keys[j] by {
            if keys[i] == keys[j] {
                crate::text_map::ascending_keys_are_distinct(keys, i, j);
            }
        }
    }
    assert(keys.to_set() =~= map.dom()) by {
        assert forall|k: Seq<char>| keys.to_set().contains(k) <==> map.dom().contains(k) by {
            assert(map.contains_key(k) <==> keys.contains(k));
        }
    }
    keys.unique_seq_to_set();
}

impl PendingTx {
    /// How many voted Yes and how many voted No.
    fn tally(&self) -> (tally: (usize, usize))
        ensures
            tally.0 == yes_voters(self.deep_view()).len(),
            tally.1 == no_voters(self.deep_view()).len(),
    {
        let n: usize = self.votes.len();
        let ghost keys = self.votes.keys();
        let ghost votes = self.votes@;
        let mut yes: usize = 0;
        let mut no: usize = 0;
        let mut i: usize = 0;
        let ghost mut yes_set: Set<Seq<char>> = Set::empty();
        let ghost mut no_set: Set<Seq<char>> = Set::empty();
        while i < n
            invariant
                i <= n == keys.len(),
                keys == self.votes.keys(),
                votes == self.votes@,
                crate::text_map::lists_keys(keys, votes),
                yes <= i,
                no <= i,
                yes_set.finite(),
                no_set.finite(),
                yes == yes_set.len(),
                no == no_set.len(),
                forall|k: Seq<char>|
                    #[trigger] yes_set.contains(k) <==> keys.take(i as int).contains(k) && votes[k] is Yes,
                forall|k: Seq<char>|
                    #[trigger] no_set.contains(k) <==> keys.take(i as int).contains(k) && votes[k] is No,
            decreases n - i,
        {
            let vote = self.votes.value_at(i);
            proof {
                let key = keys[i as int];
                let before = keys.take(i as int);
                let after = keys.take(i + 1);
                assert forall|k: Seq<char>| after.contains(k) == (before.contains(k) || k == key) by {
                    if before.contains(k) {
                        assert(after[before.index_of(k)] == k);
                    }
                    assert(after[i as int] == key);
                    if after.contains(k) && k != key {
                        let p = after.index_of(k);
                        assert(before[p] == k);
                    }
                }
                assert(!before.contains(key)) by {
                    if before.contains(key) {
                        let p = before.index_of(key);
                        assert(keys[p] == key);
                        crate::text_map::ascending_keys_are_distinct(keys, p, i as int);
                    }
                }
                if votes[key] is Yes {
                    yes_set = yes_set.insert(key);
                } else {
                    no_set = no_set.insert(key);
                }
            }
            match vote {
                Vote::Yes => {
                    yes = yes + 1;
                },
                Vote::No(_) => {
                    no = no + 1;
                },
            }
            i = i + 1;
        }
        proof {
            assert(keys.take(n as int) =~= keys);
            assert forall|k: Seq<char>| votes.dom().contains(k) <==> keys.contains(k) by {
                assert(votes.contains_key(k) <==> keys.contains(k));
            }
            assert(yes_set =~= yes_voters(self.deep_view()));
            assert(no_set =~= no_voters(self.deep_view()));
        }
        (yes, no)
    }
}

// ---- laws ----

/// Read isolation: staging a transaction changes no committed value.
pub proof fn staged_writes_are_invisible(store: StoreModel, tx_id: Seq<char>, ops: Seq<TxOpModel>, at: u64)
    ensures
        store.begin(tx_id, ops, at).data == store.data,
{
}

/// Atomicity: a commit applies every write of the transaction, in order, an
/// abort none of them, and either way the transaction is no longer staged.
pub proof fn decision_is_atomic(store: StoreModel, tx_id: Seq<char>, ops: Seq<TxOpModel>, at: u64)
    ensures
        store.begin(tx_id, ops, at).decide(tx_id, TxDecision::Commit) == (StoreModel {
            data: apply_ops(store.data, ops),
            pending: store.pending.remove(tx_id),
        }),
        store.begin(tx_id, ops, at).decide(tx_id, TxDecision::Abort) == (StoreModel {
            data: store.data,
            pending: store.pending.remove(tx_id),
        }),
{
    let begun = store.begin(tx_id, ops, at);
    assert(begun.pending.remove(tx_id) =~= store.pending.remove(tx_id));
}

/// A transaction is decided once: a second decision changes nothing.
pub proof fn second_decision_changes_nothing(
    store: StoreModel,
    tx_id: Seq<char>,
    first: TxDecision,
    second: TxDecision,
)
    ensures
        store.decide(tx_id, first).decide(tx_id, second) == store.decide(tx_id, first),
{
}

/// A commit leaves every key that it does not write as it was.
pub proof fn commit_touches_only_its_keys(
    data: Map<Seq<char>, Seq<char>>,
    ops: Seq<TxOpModel>,
    key: Seq<char>,
)
    requires
        untouched(ops, key),
    ensures
        apply_ops(data, ops).contains_key(key) == data.contains_key(key),
        data.contains_key(key) ==> apply_ops(data, ops)[key] == data[key],
    decreases ops.len(),
{
    if ops.len() > 0 {
        assert(untouched(ops.drop_last(), key)) by {
            assert forall|i: int| 0 <= i < ops.drop_last().len() implies match #[trigger] ops.drop_last()[i] {
                TxOpModel::Put { key: k, .. } => k != key,
                TxOpModel::Delete { key: k } => k != key,
            } by {
                assert(ops.drop_last()[i] == ops[i]);
            }
        }
        commit_touches_only_its_keys(data, ops.drop_last(), key);
        assert(ops[ops.len() - 1] == ops.last());
    }
}

/// A vote changes neither the data nor the writes that are staged.
pub proof fn votes_change_no_writes(store: StoreModel, tx_id: Seq<char>, peer: Seq<char>, vote: VoteModel)
    ensures
        store.vote(tx_id, peer, vote).data == store.data,
        store.vote(tx_id, peer, vote).pending.dom() == store.pending.dom(),
        forall|id: Seq<char>|
            store.pending.contains_key(id) ==> (#[trigger] store.vote(tx_id, peer, vote).pending[id]).ops
                == store.pending[id].ops,
{
    assert(store.vote(tx_id, peer, vote).pending.dom() =~= store.pending.dom());
}

// ---- what commands and transactions come to ----

/// What each command does to the data and to what is staged: a write sets its
/// key and no other, a deletion removes its key and no other, and no other
/// command but a decision touches the data.
pub proof fn commands_do_what_they_say(store: StoreModel, key: Seq<char>, value: Seq<char>, other: Seq<char>, at: u64)
    requires
        other != key,
    ensures
        ({
            let set = store.apply((CommandModel::SetKey { key, value }), at);
            let deleted = store.apply((CommandModel::Delete { key }), at);
            &&& set.data.contains_key(key) && set.data[key] == value
            &&& !deleted.data.contains_key(key)
            &&& set.data.contains_key(other) == store.data.contains_key(other)
            &&& deleted.data.contains_key(other) == store.data.contains_key(other)
            &&& store.data.contains_key(other) ==> set.data[other] == store.data[other] && deleted.data[other]
                == store.data[other]
            &&& set.pending == store.pending && deleted.pending == store.pending
            &&& store.apply((CommandModel::Get { key }), at) == store
            &&& store.apply(CommandModel::Compact, at) == store
            &&& store.apply((CommandModel::RemoveNode { node_id: key }), at) == store
            &&& store.apply((CommandModel::AbortTx { tx_id: key }), at) == store
        }),
{
}

/// A transaction that begins is staged with its writes, without votes and with
/// the time of its beginning. Neither the data nor another transaction changes.
pub proof fn transactions_are_staged_whole(
    store: StoreModel,
    tx_id: Seq<char>,
    ops: Seq<TxOpModel>,
    at: u64,
    other: Seq<char>,
)
    requires
        other != tx_id,
    ensures
        ({
            let begun = store.apply((CommandModel::BeginTx { tx_id, ops }), at);
            &&& begun.data == store.data
            &&& begun.pending.contains_key(tx_id)
            &&& begun.pending[tx_id].ops == ops
            &&& begun.pending[tx_id].begin_unix_ms == at
            &&& forall|peer: Seq<char>| !(#[trigger] begun.pending[tx_id].votes.contains_key(peer))
            &&& begun.pending.contains_key(other) == store.pending.contains_key(other)
            &&& store.pending.contains_key(other) ==> begun.pending[other] == store.pending[other]
        }),
{
}

proof fn last_op_wins(data: Map<Seq<char>, Seq<char>>, ops: Seq<TxOpModel>, j: int)
    requires
        0 <= j < ops.len(),
        match ops[j] {
            TxOpModel::Put { key, .. } => untouched(ops.skip(j + 1), key),
            TxOpModel::Delete { key } => untouched(ops.skip(j + 1), key),
        },
    ensures
        match ops[j] {
            TxOpModel::Put { key, value } => apply_ops(data, ops).contains_key(key) && apply_ops(data, ops)[key] == value,
            TxOpModel::Delete { key } => !apply_ops(data, ops).contains_key(key),
        },
    decreases ops.len(),
{
    if j < ops.len() - 1 {
        let rest = ops.drop_last();
        let key = match ops[j] {
            TxOpModel::Put { key, .. } => key,
            TxOpModel::Delete { key } => key,
        };
        assert(rest[j] == ops[j]);
        assert(untouched(rest.skip(j + 1), key)) by {
            assert forall|i: int| 0 <= i < rest.skip(j + 1).len() implies match #[trigger] rest.skip(j + 1)[i] {
                TxOpModel::Put { key: k, .. } => k != key,
                TxOpModel::Delete { key: k } => k != key,
            } by {
                assert(rest.skip(j + 1)[i] == ops.skip(j + 1)[i]);
            }
        }
        last_op_wins(data, rest, j);
        assert(ops.skip(j + 1)[ops.len() - j - 2] == ops.last());
    }
}

/// What a decision comes to, key by key. After a commit a key holds what the
/// last write of the transaction to it says, and a key that the transaction does
/// not write is as before; after an abort every key is. Either way the
/// transaction is gone and no other changes; the decision of a transaction that
/// is not staged changes nothing.
pub proof fn decisions_take_effect_whole(
    store: StoreModel,
    tx_id: Seq<char>,
    decision: TxDecision,
    j: int,
    key: Seq<char>,
    other: Seq<char>,
    at: u64,
)
    requires
        store.pending.contains_key(tx_id),
        other != tx_id,
    ensures
        ({
            let ops = store.pending[tx_id].ops;
            let writes = |i: int| ops[i] == (TxOpModel::Delete { key }) || (ops[i] matches TxOpModel::Put { key: k, .. }
                && k == key);
            let decided = store.apply((CommandModel::DecideTx { tx_id, decision }), at);
            let commits = decision == TxDecision::Commit;
            &&& commits && 0 <= j < ops.len() && ops[j] == (TxOpModel::Delete { key }) && (forall|i: int|
                j < i < ops.len() ==> !(#[trigger] writes(i))) ==> !decided.data.contains_key(key)
            &&& commits && 0 <= j < ops.len() && (ops[j] matches TxOpModel::Put { key: k, .. } && k == key) && (forall|
                i: int,
            | j < i < ops.len() ==> !(#[trigger] writes(i))) ==> decided.data.contains_key(key) && decided.data[key]
                == ops[j]->Put_value
            &&& !commits || (forall|i: int| 0 <= i < ops.len() ==> !(#[trigger] writes(i)))
                ==> decided.data.contains_key(key) == store.data.contains_key(key) && (store.data.contains_key(key)
                ==> decided.data[key] == store.data[key])
            &&& !decided.pending.contains_key(tx_id)
            &&& decided.pending.contains_key(other) == store.pending.contains_key(other)
            &&& store.pending.contains_key(other) ==> decided.pending[other] == store.pending[other]
        }),
        !store.pending.contains_key(other) ==> store.apply((CommandModel::DecideTx { tx_id: other, decision }), at)
            == store,
{
    let ops = store.pending[tx_id].ops;
    let writes = |i: int| ops[i] == (TxOpModel::Delete { key }) || (ops[i] matches TxOpModel::Put { key: k, .. }
        && k == key);
    if decision == TxDecision::Commit {
        if forall|i: int| 0 <= i < ops.len() ==> !(#[trigger] writes(i)) {
            assert(untouched(ops, key)) by {
                assert forall|i: int| 0 <= i < ops.len() implies match #[trigger] ops[i] {
                    TxOpModel::Put { key: k, .. } => k != key,
                    TxOpModel::Delete { key: k } => k != key,
                } by {
                    assert(!writes(i));
                }
            }
            commit_touches_only_its_keys(store.data, ops, key);
        }
        if 0 <= j < ops.len() && writes(j) && (forall|i: int| j < i < ops.len() ==> !(#[trigger] writes(i))) {
            assert(untouched(ops.skip(j + 1), key)) by {
                assert forall|i: int| 0 <= i < ops.skip(j + 1).len() implies match #[trigger] ops.skip(j + 1)[i] {
                    TxOpModel::Put { key: k, .. } => k != key,
                    TxOpModel::Delete { key: k } => k != key,
                } by {
                    assert(!writes(j + 1 + i));
                }
            }
            last_op_wins(store.data, ops, j);
        }
    }
}

/// A vote is kept with the transaction that it is on, under the voter's name, in
/// place of an earlier one; it changes no other vote, no other transaction, no
/// write and no value. A vote on a transaction that is not staged is lost.
pub proof fn votes_are_kept_by_voter(
    store: StoreModel,
    tx_id: Seq<char>,
    peer: Seq<char>,
    vote: VoteModel,
    other: Seq<char>,
)
    ensures
        ({
            let voted = store.vote(tx_id, peer, vote);
            &&& voted.data == store.data
            &&& !store.pending.contains_key(tx_id) ==> voted == store
            &&& store.pending.contains_key(tx_id) ==> {
                let tx = voted.pending[tx_id];
                &&& voted.pending.contains_key(tx_id)
                &&& tx.votes.contains_key(peer) && tx.votes[peer] == vote
                &&& other != peer ==> tx.votes.contains_key(other) == store.pending[tx_id].votes.contains_key(other)
                &&& other != peer && tx.votes.contains_key(other) ==> tx.votes[other]
                    == store.pending[tx_id].votes[other]
                &&& tx.ops == store.pending[tx_id].ops
                &&& tx.begin_unix_ms == store.pending[tx_id].begin_unix_ms
            }
            &&& other != tx_id ==> voted.pending.contains_key(other) == store.pending.contains_key(other)
            &&& other != tx_id && store.pending.contains_key(other) ==> voted.pending[other] == store.pending[other]
        }),
{
}

/// A transaction is overdue once more than the threshold has gone by since it
/// began, and not before.
pub proof fn transactions_become_overdue(tx: PendingTxModel, threshold_ms: int, now: u64)
    ensures
        older_than(tx, threshold_ms, now) <==> tx.begin_unix_ms + threshold_ms < now,
{
}

/// A command that neither writes nor belongs to a transaction has no effect.
pub proof fn other_commands_have_no_effect(store: StoreModel, command: CommandModel, at: u64)
    requires
        !(command is SetKey || command is Delete || command is BeginTx || command is DecideTx),
    ensures
        store.apply(command, at) == store,
{
}

/// Who voted yes, and who voted no: each voter by the vote that is kept of it.
pub proof fn voters_are_told_by_their_votes(tx: PendingTxModel, peer: Seq<char>)
    ensures
        yes_voters(tx).contains(peer) <==> tx.votes.contains_key(peer) && tx.votes[peer] == VoteModel::Yes,
        no_voters(tx).contains(peer) <==> tx.votes.contains_key(peer) && tx.votes[peer] is No,
        tx.votes.contains_key(peer) ==> (yes_voters(tx).contains(peer) <==> !no_voters(tx).contains(peer)),
{
}

} // verus!
