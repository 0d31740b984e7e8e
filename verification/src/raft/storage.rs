//! What a node keeps on its medium: the term and vote, the log file and the
//! latest snapshot.
//!
//! The node works on an image of the medium. Every write to the image is noted
//! in a journal, from which the host brings the files up to date before it
//! lets the outcome be seen.

use crate::data::Duplicate;
use crate::message::{decode, encode_length_delimited_to_vec};
use crate::protocol::{LogEntry, LogEntryModel, Snapshot, SnapshotModel};
use crate::raft::proto::pb;
use crate::wire::take_varint;
use vstd::prelude::*;
use vstd::slice::slice_subrange;

verus! {

/// A write that the host has yet to perform.
#[derive(Debug, Clone, Copy, PartialEq, Eq, Structural)]
pub enum StorageWrite {
    /// The term and vote changed.
    Meta,
    /// One entry was appended to the log file.
    Append,
    /// The snapshot changed.
    Snapshot,
    /// The log file is to be written anew.
    Rewrite,
}

/// What the host knows to be wrong with the medium: after `appends_left` more
/// entries it takes no write any more.
#[derive(Debug, Clone, PartialEq)]
pub struct StorageFault {
    pub appends_left: u64,
    pub reason: String,
}

/// The image of a node's medium.
#[derive(Debug, PartialEq)]
pub struct RaftStorage {
    pub term: u64,
    pub vote: Option<String>,
    /// The entries that the log file stands for.
    pub wal: Vec<LogEntry>,
    /// The size of the log file, in bytes.
    pub wal_bytes: u64,
    pub snapshot: Option<Snapshot>,
    pub fault: Option<StorageFault>,
    pub journal: Vec<StorageWrite>,
}

#[verifier::ext_equal]
pub struct FaultModel {
    pub appends_left: u64,
    pub reason: Seq<char>,
}

#[verifier::ext_equal]
pub struct StorageModel {
    pub term: u64,
    pub vote: Option<Seq<char>>,
    pub wal: Seq<LogEntryModel>,
    pub wal_bytes: u64,
    pub snapshot: Option<SnapshotModel>,
    pub fault: Option<FaultModel>,
    pub journal: Seq<StorageWrite>,
}

impl DeepView for StorageFault {
    type V = FaultModel;

    open spec fn deep_view(&self) -> FaultModel {
        FaultModel { appends_left: self.appends_left, reason: self.reason@ }
    }
}

impl View for RaftStorage {
    type V = StorageModel;

    open spec fn view(&self) -> StorageModel {
        StorageModel {
            term: self.term,
            vote: self.vote.deep_view(),
            wal: self.wal.deep_view(),
            wal_bytes: self.wal_bytes,
            snapshot: self.snapshot.deep_view(),
            fault: self.fault.deep_view(),
            journal: self.journal@,
        }
    }
}

/// The bytes that an entry takes in the log file.
pub open spec fn frame(entry: LogEntryModel) -> Seq<u8> {
    crate::message::delimited_bytes::<pb::LogEntry>(crate::raft::proto::entry_message(entry))
}

/// A sum that stops at the largest 64-bit number.
pub open spec fn capped_sum(a: u64, b: nat) -> u64 {
    if a + b > u64::MAX {
        u64::MAX
    } else {
        (a + b) as u64
    }
}

/// The size of a log file with these entries.
pub open spec fn wal_size(entries: Seq<LogEntryModel>) -> u64
    decreases entries.len(),
{
    if entries.len() == 0 {
        0
    } else {
        capped_sum(wal_size(entries.drop_last()), frame(entries.last()).len())
    }
}

/// The entries that lie behind `index`, in order.
pub open spec fn entries_after(entries: Seq<LogEntryModel>, index: u64) -> Seq<LogEntryModel>
    decreases entries.len(),
{
    if entries.len() == 0 {
        Seq::empty()
    } else if entries.last().index > index {
        entries_after(entries.drop_last(), index).push(entries.last())
    } else {
        entries_after(entries.drop_last(), index)
    }
}

/// The entries up to the last that lies before `index`.
pub open spec fn cut_back(entries: Seq<LogEntryModel>, index: usize) -> Seq<LogEntryModel>
    decreases entries.len(),
{
    if entries.len() > 0 && entries.last().index >= index {
        cut_back(entries.drop_last(), index)
    } else {
        entries
    }
}

/// What a log file with these entries, in the order in which they were
/// appended, stands for.
pub open spec fn standing(entries: Seq<LogEntryModel>) -> Seq<LogEntryModel>
    decreases entries.len(),
{
    if entries.len() == 0 {
        Seq::empty()
    } else {
        cut_back(standing(entries.drop_last()), entries.last().index).push(entries.last())
    }
}

impl StorageModel {
    pub open spec fn empty() -> StorageModel {
        StorageModel {
            term: 0,
            vote: None,
            wal: Seq::empty(),
            wal_bytes: 0,
            snapshot: None,
            fault: None,
            journal: Seq::empty(),
        }
    }

    /// The medium takes no write any more.
    pub open spec fn failed(self) -> bool {
        self.fault matches Some(f) && f.appends_left == 0
    }

    pub open spec fn save_meta(self, term: u64, vote: Option<Seq<char>>) -> StorageModel {
        if self.failed() {
            self
        } else {
            StorageModel { term, vote, journal: self.journal.push(StorageWrite::Meta), ..self }
        }
    }

    /// The log file only grows: an entry takes the place of an earlier one at
    /// its index, and of all that followed it.
    pub open spec fn append(self, entry: LogEntryModel) -> StorageModel {
        if self.failed() {
            self
        } else {
            StorageModel {
                wal: cut_back(self.wal, entry.index).push(entry),
                wal_bytes: capped_sum(self.wal_bytes, frame(entry).len()),
                fault: match self.fault {
                    Some(f) => Some(FaultModel { appends_left: (f.appends_left - 1) as u64, ..f }),
                    None => None,
                },
                journal: self.journal.push(StorageWrite::Append),
                ..self
            }
        }
    }

    pub open spec fn save_snapshot(self, snapshot: SnapshotModel) -> StorageModel {
        if self.failed() {
            self
        } else {
            StorageModel {
                snapshot: Some(snapshot),
                journal: self.journal.push(StorageWrite::Snapshot),
                ..self
            }
        }
    }

    /// Keeps only the entries of the log file that lie behind `index`.
    pub open spec fn rewrite(self, index: u64) -> StorageModel {
        if self.failed() {
            self
        } else {
            StorageModel {
                wal: entries_after(self.wal, index),
                wal_bytes: wal_size(entries_after(self.wal, index)),
                journal: self.journal.push(StorageWrite::Rewrite),
                ..self
            }
        }
    }
}

/// The entries that lie behind `index`.
pub fn keep_after(entries: &Vec<LogEntry>, index: u64) -> (kept: Vec<LogEntry>)
    ensures
        kept.deep_view() == entries_after(entries.deep_view(), index),
{
    let ghost model = entries.deep_view();
    let mut kept: Vec<LogEntry> = Vec::new();
    let mut i: usize = 0;
    assert(model.take(0) =~= Seq::<LogEntryModel>::empty());
    assert(kept.deep_view() =~= Seq::<LogEntryModel>::empty());
    while i < entries.len()
        invariant
            i <= entries@.len(),
            model == entries.deep_view(),
            kept.deep_view() == entries_after(model.take(i as int), index),
        decreases entries@.len() - i,
    {
        let ghost before = kept.deep_view();
        proof {
            assert(model.take(i + 1).drop_last() =~= model.take(i as int));
            assert(model.take(i + 1).last() == entries@[i as int].deep_view());
        }
        if entries[i].index as u64 > index {
            kept.push(entries[i].duplicate());
            assert(kept.deep_view() =~= before.push(entries@[i as int].deep_view()));
        }
        i = i + 1;
    }
    assert(model.take(entries@.len() as int) =~= model);
    kept
}

/// Drops the entries behind the last that lies before `index`.
fn drop_from(entries: &mut Vec<LogEntry>, index: usize)
    ensures
        final(entries).deep_view() == cut_back(old(entries).deep_view(), index),
{
    while entries.len() > 0 && entries[entries.len() - 1].index >= index
        invariant
            cut_back(entries.deep_view(), index) == cut_back(old(entries).deep_view(), index),
        decreases entries@.len(),
    {
        let ghost before = entries.deep_view();
        let _ = entries.pop();
        assert(entries.deep_view() =~= before.drop_last());
    }
}

fn capped_add(a: u64, b: usize) -> (sum: u64)
    ensures
        sum == capped_sum(a, b as nat),
{
    if b as u64 > u64::MAX - a {
        u64::MAX
    } else {
        a + b as u64
    }
}

/// The bytes that an entry takes in the log file.
pub fn frame_bytes(entry: &LogEntry) -> (bytes: Vec<u8>)
    ensures
        bytes@ == frame(entry.deep_view()),
{
    encode_length_delimited_to_vec(&pb::LogEntry::from(entry))
}

impl RaftStorage {
    /// The image of an empty medium.
    pub fn new() -> (storage: Self)
        ensures
            storage@ == StorageModel::empty(),
    {
        let storage = RaftStorage {
            term: 0,
            vote: None,
            wal: Vec::new(),
            wal_bytes: 0,
            snapshot: None,
            fault: None,
            journal: Vec::new(),
        };
        assert(storage@.wal =~= Seq::<LogEntryModel>::empty());
        storage
    }

    /// Whether the medium takes no write any more, and why.
    fn refusal(&self) -> (refusal: Option<String>)
        ensures
            refusal is Some == self@.failed(),
            refusal matches Some(reason) ==> reason@ == self@.fault->0.reason,
    {
        match &self.fault {
            Some(fault) => {
                if fault.appends_left == 0 {
                    Some(fault.reason.clone())
                } else {
                    None
                }
            },
            None => None,
        }
    }

    /// Stores the term and vote.
    pub fn save_meta(&mut self, term: u64, vote: Option<String>) -> (saved: Result<(), String>)
        ensures
            final(self)@ == old(self)@.save_meta(term, vote.deep_view()),
            saved is Ok == !old(self)@.failed(),
            saved matches Err(reason) ==> reason@ == old(self)@.fault->0.reason,
    {
        match self.refusal() {
            Some(reason) => Err(reason),
            None => {
                self.term = term;
                self.vote = vote;
                self.journal.push(StorageWrite::Meta);
                Ok(())
            },
        }
    }

    /// Appends an entry to the log file. It takes the place of an earlier entry
    /// at its index, and of all that followed it.
    pub fn append_wal_log(&mut self, entry: &LogEntry) -> (appended: Result<(), String>)
        ensures
            final(self)@ == old(self)@.append(entry.deep_view()),
            appended is Ok == !old(self)@.failed(),
            appended matches Err(reason) ==> reason@ == old(self)@.fault->0.reason,
    {
        match self.refusal() {
            Some(reason) => Err(reason),
            None => {
                let size: usize = frame_bytes(entry).len();
                self.wal_bytes = capped_add(self.wal_bytes, size);
                drop_from(&mut self.wal, entry.index);
                let ghost kept = self.wal.deep_view();
                self.wal.push(entry.duplicate());
                self.journal.push(StorageWrite::Append);
                let fault = self.fault.take();
                self.fault = match fault {
                    Some(f) => Some(StorageFault { appends_left: f.appends_left - 1, reason: f.reason }),
                    None => None,
                };
                assert(self@.wal =~= kept.push(entry.deep_view()));
                Ok(())
            },
        }
    }

    /// Stores a snapshot in place of an earlier one.
    pub fn save_snapshot(&mut self, snapshot: &Snapshot) -> (saved: Result<(), String>)
        ensures
            final(self)@ == old(self)@.save_snapshot(snapshot.deep_view()),
            saved is Ok == !old(self)@.failed(),
            saved matches Err(reason) ==> reason@ == old(self)@.fault->0.reason,
    {
        match self.refusal() {
            Some(reason) => Err(reason),
            None => {
                self.snapshot = Some(snapshot.duplicate());
                self.journal.push(StorageWrite::Snapshot);
                Ok(())
            },
        }
    }

    /// Drops the entries of the log file that a snapshot at `last_included`
    /// covers.
    pub fn rewrite_wal_after_snapshot(&mut self, last_included: u64) -> (rewritten: Result<(), String>)
        ensures
            final(self)@ == old(self)@.rewrite(last_included),
            rewritten is Ok == !old(self)@.failed(),
            rewritten matches Err(reason) ==> reason@ == old(self)@.fault->0.reason,
    {
        match self.refusal() {
            Some(reason) => Err(reason),
            None => {
                let kept = keep_after(&self.wal, last_included);
                let ghost model = kept.deep_view();
                let mut size: u64 = 0;
                let mut i: usize = 0;
                assert(model.take(0) =~= Seq::<LogEntryModel>::empty());
                while i < kept.len()
                    invariant
                        i <= kept@.len(),
                        model == kept.deep_view(),
                        size == wal_size(model.take(i as int)),
                    decreases kept@.len() - i,
                {
                    proof {
                        assert(model.take(i + 1).drop_last() =~= model.take(i as int));
                        assert(model.take(i + 1).last() == kept@[i as int].deep_view());
                    }
                    let len: usize = frame_bytes(&kept[i]).len();
                    size = capped_add(size, len);
                    i = i + 1;
                }
                assert(model.take(kept@.len() as int) =~= model);
                self.wal = kept;
                self.wal_bytes = size;
                self.journal.push(StorageWrite::Rewrite);
                Ok(())
            },
        }
    }

    /// The latest snapshot.
    pub fn load_snapshot(&self) -> (snapshot: Option<Snapshot>)
        ensures
            snapshot.deep_view() == self@.snapshot,
    {
        self.snapshot.duplicate()
    }

    /// The entries that the log file stands for.
    pub fn restore_wal_log(&self) -> (entries: Vec<LogEntry>)
        ensures
            entries.deep_view() == self@.wal,
    {
        self.wal.duplicate()
    }

    /// What a node starts from: the term, the vote and the log.
    pub fn load_initial_state(&self) -> (state: (u64, Option<String>, Vec<LogEntry>))
        ensures
            state.0 == self@.term,
            state.1.deep_view() == self@.vote,
            state.2.deep_view() == self@.wal,
    {
        (self.term, self.vote.duplicate(), self.wal.duplicate())
    }

    /// The size of the log file, in bytes.
    pub fn wal_size_bytes(&self) -> (bytes: u64)
        ensures
            bytes == self@.wal_bytes,
    {
        self.wal_bytes
    }

    /// Hands the pending writes to the host.
    pub fn take_journal(&mut self) -> (writes: Vec<StorageWrite>)
        ensures
            writes@ == old(self)@.journal,
            final(self)@ == (StorageModel { journal: Seq::empty(), ..old(self)@ }),
    {
        let mut writes: Vec<StorageWrite> = Vec::new();
        std::mem::swap(&mut writes, &mut self.journal);
        writes
    }
}

// ---- the log file ----

/// The bytes of a log file.
pub open spec fn wal_file(entries: Seq<LogEntryModel>) -> Seq<u8>
    decreases entries.len(),
{
    if entries.len() == 0 {
        Seq::empty()
    } else {
        frame(entries[0]) + wal_file(entries.drop_first())
    }
}

/// The entries of a log file, up to the first place that is not a whole entry.
pub open spec fn wal_entries(bytes: Seq<u8>) -> Seq<LogEntryModel>
    decreases bytes.len(),
{
    match crate::wire::leading_varint(bytes) {
        Some((len, n)) => if 1 <= n && len <= bytes.len() - n {
            match crate::message::read_message::<pb::LogEntry>(bytes.subrange(n as int, n + len)) {
                Ok(p) => seq![crate::raft::proto::message_entry(p)] + wal_entries(bytes.skip(n + len)),
                Err(_) => Seq::empty(),
            }
        } else {
            Seq::empty()
        },
        None => Seq::empty(),
    }
}

/// Reads a log file up to the first place that is not a whole entry.
pub fn read_wal(bytes: &[u8]) -> (entries: Vec<LogEntry>)
    ensures
        entries.deep_view() == wal_entries(bytes@),
{
    let mut entries: Vec<LogEntry> = Vec::new();
    let mut rest: &[u8] = bytes;
    assert(entries.deep_view() + wal_entries(bytes@) =~= wal_entries(bytes@));
    assert(entries.deep_view() + Seq::<LogEntryModel>::empty() =~= entries.deep_view());
    loop
        invariant
            wal_entries(bytes@) == entries.deep_view() + wal_entries(rest@),
            entries.deep_view() + Seq::<LogEntryModel>::empty() == entries.deep_view(),
        decreases rest@.len(),
    {
        proof {
            crate::wire::leading_varint_bounds(rest@);
        }
        match take_varint(rest) {
            Ok((len, body)) => {
                if len > body.len() as u64 {
                    return entries;
                }
                let cut: usize = len as usize;
                let payload = slice_subrange(body, 0, cut);
                let after = slice_subrange(body, cut, body.len());
                proof {
                    let (_, n) = crate::wire::leading_varint(rest@).unwrap();
                    assert(payload@ =~= rest@.subrange(n as int, n + len));
                    assert(after@ =~= rest@.skip(n + len));
                }
                match decode::<pb::LogEntry>(payload) {
                    Ok(p) => {
                        let ghost before = entries.deep_view();
                        let entry = LogEntry::from(p);
                        let ghost model = entry.deep_view();
                        entries.push(entry);
                        proof {
                            assert(entries.deep_view() =~= before.push(model));
                            assert(before + (seq![model] + wal_entries(after@)) =~= entries.deep_view()
                                + wal_entries(after@));
                            assert(entries.deep_view() + Seq::<LogEntryModel>::empty() =~= entries.deep_view());
                        }
                        rest = after;
                    },
                    Err(_) => {
                        return entries;
                    },
                }
            },
            Err(_) => {
                return entries;
            },
        }
    }
}

impl RaftStorage {
    /// The image of a medium that holds a log file with these bytes, and
    /// nothing else.
    pub fn open(wal: &[u8]) -> (storage: Self)
        ensures
            storage@ == (StorageModel {
                wal: standing(wal_entries(wal@)),
                wal_bytes: wal_size(wal_entries(wal@)),
                ..StorageModel::empty()
            }),
    {
        let entries = read_wal(wal);
        let ghost model = entries.deep_view();
        let mut storage = RaftStorage::new();
        let mut i: usize = 0;
        assert(model.take(0) =~= Seq::<LogEntryModel>::empty());
        while i < entries.len()
            invariant
                i <= entries@.len(),
                model == entries.deep_view(),
                storage@ == (StorageModel {
                    wal: standing(model.take(i as int)),
                    wal_bytes: wal_size(model.take(i as int)),
                    journal: storage@.journal,
                    ..StorageModel::empty()
                }),
            decreases entries@.len() - i,
        {
            proof {
                assert(model.take(i + 1).drop_last() =~= model.take(i as int));
                assert(model.take(i + 1).last() == entries@[i as int].deep_view());
            }
            let _ = storage.append_wal_log(&entries[i]);
            i = i + 1;
        }
        assert(model.take(entries@.len() as int) =~= model);
        storage.journal = Vec::new();
        storage
    }
}

proof fn first_entry_round_trip(first: LogEntryModel, tail: Seq<u8>)
    requires
        !(first.command is AddNode || first.command is RemoveNode || first.command is AbortTx),
        crate::message::message_bytes::<pb::LogEntry>(crate::raft::proto::entry_message(first)).len() <= u64::MAX,
    ensures
        wal_entries(frame(first) + tail) == seq![first] + wal_entries(tail),
{
    let p = crate::raft::proto::entry_message(first);
    let body = crate::message::message_bytes::<pb::LogEntry>(p);
    let bytes = frame(first) + tail;
    crate::message::message_round_trip::<pb::LogEntry>(p);
    crate::wire::varint_round_trip(body.len() as u64, body + tail);
    let n = crate::wire::varint(body.len()).len();
    assert(bytes =~= crate::wire::varint(body.len()) + (body + tail));
    assert(bytes.subrange(n as int, (n + body.len()) as int) =~= body);
    assert(bytes.skip((n + body.len()) as int) =~= tail);
    crate::raft::proto::command_round_trip(first.command);
    assert(crate::raft::proto::message_entry(p) == first);
}

/// A log file gives back the entries that were written to it.
pub proof fn wal_round_trip(entries: Seq<LogEntryModel>)
    requires
        crate::raft::proto::loggable(entries),
        wal_file(entries).len() <= u64::MAX,
    ensures
        wal_entries(wal_file(entries)) == entries,
    decreases entries.len(),
{
    if entries.len() == 0 {
        crate::wire::leading_varint_bounds(Seq::empty());
        assert(wal_entries(Seq::empty()) =~= Seq::<LogEntryModel>::empty());
    } else {
        let rest = entries.drop_first();
        let first = entries[0];
        assert(crate::raft::proto::loggable(rest)) by {
            assert forall|i: int| 0 <= i < rest.len() implies !((#[trigger] rest[i]).command is AddNode || rest[i].command is RemoveNode
                || rest[i].command is AbortTx) by {
                assert(rest[i] == entries[i + 1]);
            }
        }
        wal_round_trip(rest);
        first_entry_round_trip(first, wal_file(rest));
        assert(seq![first] + rest =~= entries);
    }
}

proof fn file_grows_by_a_frame(entries: Seq<LogEntryModel>, entry: LogEntryModel)
    ensures
        wal_file(entries.push(entry)) == wal_file(entries) + frame(entry),
    decreases entries.len(),
{
    let grown = entries.push(entry);
    if entries.len() == 0 {
        assert(grown.drop_first() =~= Seq::<LogEntryModel>::empty());
        assert(wal_file(grown.drop_first()) =~= Seq::<u8>::empty());
        assert(wal_file(grown) =~= frame(entry) + Seq::<u8>::empty());
        assert(wal_file(entries) =~= Seq::<u8>::empty());
    } else {
        file_grows_by_a_frame(entries.drop_first(), entry);
        assert(grown.drop_first() =~= entries.drop_first().push(entry));
        assert(wal_file(grown) =~= wal_file(entries) + frame(entry));
    }
}

/// To append an entry's bytes to a log file has the effect that the entry has
/// on the image of the medium: a node that opens the file finds the entry, and
/// before it what was there before.
pub proof fn appended_bytes_are_found(entries: Seq<LogEntryModel>, entry: LogEntryModel)
    requires
        crate::raft::proto::loggable(entries.push(entry)),
        (wal_file(entries) + frame(entry)).len() <= u64::MAX,
    ensures
        standing(wal_entries(wal_file(entries) + frame(entry))) == cut_back(
            standing(wal_entries(wal_file(entries))),
            entry.index,
        ).push(entry),
{
    let grown = entries.push(entry);
    file_grows_by_a_frame(entries, entry);
    assert(crate::raft::proto::loggable(entries)) by {
        assert forall|i: int| 0 <= i < entries.len() implies !((#[trigger] entries[i]).command is AddNode
            || entries[i].command is RemoveNode || entries[i].command is AbortTx) by {
            assert(grown[i] == entries[i]);
        }
    }
    wal_round_trip(entries);
    wal_round_trip(grown);
    assert(grown.drop_last() =~= entries);
}

/// What is left of the log file after a snapshot lies behind it, and nothing
/// else does.
pub proof fn rewrite_keeps_exactly_the_later_entries(entries: Seq<LogEntryModel>, index: u64, entry: LogEntryModel)
    ensures
        entries_after(entries, index).contains(entry) <==> entries.contains(entry) && entry.index > index,
    decreases entries.len(),
{
    if entries.len() > 0 {
        let rest = entries.drop_last();
        let kept = entries_after(entries, index);
        let before = entries_after(rest, index);
        rewrite_keeps_exactly_the_later_entries(rest, index, entry);
        if entries.contains(entry) && entry != entries.last() {
            let i = entries.index_of(entry);
            assert(rest[i] == entry);
        }
        if rest.contains(entry) {
            assert(entries[rest.index_of(entry)] == entry);
        }
        assert(entries[entries.len() - 1] == entries.last());
        if entries.last().index > index {
            assert(kept[before.len() as int] == entries.last());
            if before.contains(entry) {
                assert(kept[before.index_of(entry)] == entry);
            }
            if kept.contains(entry) && entry != entries.last() {
                assert(before[kept.index_of(entry)] == entry);
            }
        }
    }
}

// ---- what a write does to the medium ----

/// The entries that lie behind an index are those with a higher one, all of them
/// and in order.
pub proof fn later_entries_are_filtered(entries: Seq<LogEntryModel>, index: u64)
    ensures
        entries_after(entries, index) == entries.filter(|e: LogEntryModel| e.index > index),
    decreases entries.len(),
{
    reveal(Seq::filter);
    if entries.len() > 0 {
        later_entries_are_filtered(entries.drop_last(), index);
    }
}

proof fn cut_back_is_a_prefix(entries: Seq<LogEntryModel>, index: usize, n: int)
    requires
        0 <= n <= entries.len(),
        n > 0 ==> entries[n - 1].index < index,
        forall|i: int| n <= i < entries.len() ==> (#[trigger] entries[i]).index >= index,
    ensures
        cut_back(entries, index) == entries.take(n),
    decreases entries.len(),
{
    if n < entries.len() {
        let rest = entries.drop_last();
        assert(entries[entries.len() - 1].index >= index);
        assert forall|i: int| n <= i < rest.len() implies (#[trigger] rest[i]).index >= index by {
            assert(rest[i] == entries[i]);
        }
        cut_back_is_a_prefix(rest, index, n);
        assert(rest.take(n) =~= entries.take(n));
    } else {
        assert(entries.take(n) =~= entries);
    }
}

/// An entry that is appended stands behind those entries of the file that come
/// before its index, as they were, and is the last one; the file is longer by
/// the entry's bytes. Neither the term, the vote nor the snapshot changes.
pub proof fn appended_entries_stand_last(storage: StorageModel, entry: LogEntryModel, n: int)
    requires
        storage.fault matches Some(f) ==> f.appends_left > 0,
        storage.wal_bytes + frame(entry).len() <= u64::MAX,
        0 <= n <= storage.wal.len(),
        n > 0 ==> storage.wal[n - 1].index < entry.index,
        forall|i: int| n <= i < storage.wal.len() ==> (#[trigger] storage.wal[i]).index >= entry.index,
    ensures
        ({
            let after = storage.append(entry);
            &&& after.wal == storage.wal.take(n) + seq![entry]
            &&& after.wal_bytes == storage.wal_bytes + frame(entry).len()
            &&& after.journal == storage.journal.push(StorageWrite::Append)
            &&& after.term == storage.term && after.vote == storage.vote && after.snapshot == storage.snapshot
            &&& storage.fault is None ==> after.fault is None
        }),
{
    cut_back_is_a_prefix(storage.wal, entry.index, n);
    assert(storage.wal.take(n).push(entry) =~= storage.wal.take(n) + seq![entry]);
}

/// Each other write changes what it is about and nothing else, and is noted for
/// the host: the term and vote; the snapshot; and the log file, of which the
/// entries with a higher index stay.
pub proof fn writes_change_one_thing(
    storage: StorageModel,
    term: u64,
    vote: Option<Seq<char>>,
    snapshot: SnapshotModel,
    index: u64,
)
    requires
        storage.fault matches Some(f) ==> f.appends_left > 0,
    ensures
        ({
            let meta = storage.save_meta(term, vote);
            let saved = storage.save_snapshot(snapshot);
            let kept = storage.rewrite(index);
            &&& meta.term == term && meta.vote == vote && meta.journal == storage.journal.push(StorageWrite::Meta)
            &&& meta == (StorageModel { term, vote, journal: meta.journal, ..storage })
            &&& saved.snapshot == Some(snapshot) && saved.journal == storage.journal.push(StorageWrite::Snapshot)
            &&& saved == (StorageModel { snapshot: saved.snapshot, journal: saved.journal, ..storage })
            &&& kept.wal == storage.wal.filter(|e: LogEntryModel| e.index > index)
            &&& kept.journal == storage.journal.push(StorageWrite::Rewrite)
            &&& kept == (StorageModel {
                wal: kept.wal,
                wal_bytes: kept.wal_bytes,
                journal: kept.journal,
                ..storage
            })
        }),
{
    later_entries_are_filtered(storage.wal, index);
}

/// A medium that takes no writes stays as it is under every write; one that has
/// room for a number of entries takes that many.
pub proof fn failed_media_stay_as_they_are(
    storage: StorageModel,
    term: u64,
    vote: Option<Seq<char>>,
    snapshot: SnapshotModel,
    index: u64,
    entry: LogEntryModel,
)
    requires
        storage.fault is Some,
    ensures
        storage.fault->0.appends_left == 0 ==> {
            &&& storage.save_meta(term, vote) == storage
            &&& storage.save_snapshot(snapshot) == storage
            &&& storage.rewrite(index) == storage
            &&& storage.append(entry) == storage
        },
        storage.fault->0.appends_left > 0 ==> {
            &&& storage.append(entry).wal.len() > 0 && storage.append(entry).wal.last() == entry
            &&& storage.append(entry).fault matches Some(f) && f.appends_left + 1 == storage.fault->0.appends_left
                && f.reason == storage.fault->0.reason
        },
{
}

/// The entry at `i` is overwritten: one with its index or a lower one was appended
/// behind it.
pub open spec fn overwritten(entries: Seq<LogEntryModel>, i: int) -> bool {
    exists|j: int| i < j < entries.len() && (#[trigger] entries[j]).index <= entries[i].index
}

proof fn cut_back_keeps_the_lower(entries: Seq<LogEntryModel>, index: usize)
    requires
        forall|i: int, j: int| 0 <= i < j < entries.len() ==> (#[trigger] entries[i]).index < (#[trigger] entries[j]).index,
    ensures
        ({
            let kept = cut_back(entries, index);
            &&& kept.len() <= entries.len()
            &&& kept == entries.take(kept.len() as int)
            &&& forall|i: int| 0 <= i < kept.len() ==> (#[trigger] entries[i]).index < index
            &&& forall|i: int| kept.len() <= i < entries.len() ==> (#[trigger] entries[i]).index >= index
        }),
    decreases entries.len(),
{
    if entries.len() > 0 && entries.last().index >= index {
        let rest = entries.drop_last();
        assert forall|i: int, j: int| 0 <= i < j < rest.len() implies (#[trigger] rest[i]).index < (
        #[trigger] rest[j]).index by {
            assert(rest[i] == entries[i] && rest[j] == entries[j]);
        }
        cut_back_keeps_the_lower(rest, index);
        let kept = cut_back(entries, index);
        assert(forall|i: int| 0 <= i < rest.len() ==> #[trigger] rest[i] == entries[i]);
        assert(kept =~= entries.take(kept.len() as int));
        assert forall|i: int| 0 <= i < kept.len() implies (#[trigger] entries[i]).index < index by {
            assert(rest[i].index < index);
        }
        assert forall|i: int| kept.len() <= i < entries.len() implies (#[trigger] entries[i]).index >= index by {
            if i < rest.len() {
                assert(rest[i].index >= index);
            }
        }
    } else {
        assert(entries.take(entries.len() as int) =~= entries);
        assert forall|i: int| 0 <= i < entries.len() implies (#[trigger] entries[i]).index < index by {
            let last = entries.len() - 1;
            assert(i == last || entries[i].index < entries[last].index);
        }
    }
}

/// What a log file stands for: of all the entries that were ever appended those
/// that were not overwritten, by ascending index.
pub proof fn overwritten_entries_are_gone(entries: Seq<LogEntryModel>)
    ensures
        ({
            let kept = standing(entries);
            &&& forall|a: int, b: int|
                0 <= a < b < kept.len() ==> (#[trigger] kept[a]).index < (#[trigger] kept[b]).index
            &&& forall|i: int| 0 <= i < entries.len() && !overwritten(entries, i) ==> kept.contains(#[trigger] entries[i])
            &&& forall|a: int|
                0 <= a < kept.len() ==> exists|i: int|
                    0 <= i < entries.len() && !overwritten(entries, i) && entries[i] == (#[trigger] kept[a])
        }),
    decreases entries.len(),
{
    if entries.len() > 0 {
        let rest = entries.drop_last();
        let last = entries.last();
        let n = entries.len() - 1;
        overwritten_entries_are_gone(rest);
        let before = standing(rest);
        let kept = standing(entries);
        cut_back_keeps_the_lower(before, last.index);
        let cut = cut_back(before, last.index);
        assert(entries[n] == last);
        assert(forall|i: int| 0 <= i < rest.len() ==> #[trigger] rest[i] == entries[i]);
        assert(forall|a: int| 0 <= a < cut.len() ==> #[trigger] kept[a] == before[a]);
        assert(kept[cut.len() as int] == last);
        assert forall|a: int, b: int| 0 <= a < b < kept.len() implies (#[trigger] kept[a]).index < (
        #[trigger] kept[b]).index by {
            if b < cut.len() {
                assert(before[a].index < before[b].index);
            } else {
                assert(before[a].index < last.index);
            }
        }
        assert forall|i: int| 0 <= i < entries.len() && !overwritten(entries, i) implies kept.contains(
            #[trigger] entries[i],
        ) by {
            if i == n {
                assert(kept[cut.len() as int] == entries[i]);
            } else {
                assert(entries[n].index > entries[i].index);
                assert(!overwritten(rest, i)) by {
                    if overwritten(rest, i) {
                        let j = choose|j: int| i < j < rest.len() && (#[trigger] rest[j]).index <= rest[i].index;
                        assert(entries[j].index <= entries[i].index);
                    }
                }
                assert(before.contains(rest[i]));
                let a = choose|a: int| 0 <= a < before.len() && before[a] == rest[i];
                assert(a < cut.len()) by {
                    if a >= cut.len() {
                        assert(before[a].index >= last.index);
                    }
                }
                assert(kept[a] == entries[i]);
            }
        }
        assert forall|a: int| 0 <= a < kept.len() implies exists|i: int|
            0 <= i < entries.len() && !overwritten(entries, i) && entries[i] == (#[trigger] kept[a]) by {
            if a == cut.len() {
                assert(!overwritten(entries, n));
                assert(entries[n] == kept[a]);
            } else {
                assert(kept[a] == before[a]);
                let i = choose|i: int| 0 <= i < rest.len() && !overwritten(rest, i) && rest[i] == before[a];
                assert(before[a].index < last.index);
                assert(!overwritten(entries, i)) by {
                    if overwritten(entries, i) {
                        let j = choose|j: int|
                            i < j < entries.len() && (#[trigger] entries[j]).index <= entries[i].index;
                        if j < n {
                            assert(rest[j].index <= rest[i].index);
                        }
                    }
                }
                assert(entries[i] == kept[a]);
            }
        }
    }
}

/// The size of a log file that is written anew is the bytes of its entries, all
/// together, up to the largest number there is.
pub proof fn files_are_as_long_as_their_entries(entries: Seq<LogEntryModel>)
    ensures
        ({
            let bytes = entries.fold_left(0int, |n: int, e: LogEntryModel| n + frame(e).len());
            &&& bytes >= 0
            &&& wal_size(entries) == if bytes <= u64::MAX {
                bytes
            } else {
                u64::MAX as int
            }
        }),
    decreases entries.len(),
{
    if entries.len() > 0 {
        files_are_as_long_as_their_entries(entries.drop_last());
    }
}

/// A file that is written anew is as long as the entries that it keeps.
pub proof fn rewritten_files_are_measured_anew(storage: StorageModel, index: u64)
    requires
        storage.fault matches Some(f) ==> f.appends_left > 0,
    ensures
        storage.rewrite(index).wal_bytes == wal_size(storage.wal.filter(|e: LogEntryModel| e.index > index)),
{
    later_entries_are_filtered(storage.wal, index);
}

/// Entries that stand whole at the beginning of a file are read, whatever follows
/// them, and what follows is read on its own.
pub proof fn whole_entries_are_read_before_a_torn_one(entries: Seq<LogEntryModel>, tail: Seq<u8>)
    requires
        crate::raft::proto::loggable(entries),
        wal_file(entries).len() <= u64::MAX,
    ensures
        wal_entries(wal_file(entries) + tail) == entries + wal_entries(tail),
    decreases entries.len(),
{
    if entries.len() == 0 {
        assert(wal_file(entries) + tail =~= tail);
        assert(entries + wal_entries(tail) =~= wal_entries(tail));
    } else {
        let rest = entries.drop_first();
        let first = entries[0];
        assert(crate::raft::proto::loggable(rest)) by {
            assert forall|i: int| 0 <= i < rest.len() implies !((#[trigger] rest[i]).command is AddNode || rest[i].command is RemoveNode
                || rest[i].command is AbortTx) by {
                assert(rest[i] == entries[i + 1]);
            }
        }
        whole_entries_are_read_before_a_torn_one(rest, tail);
        first_entry_round_trip(first, wal_file(rest) + tail);
        assert(wal_file(entries) + tail =~= frame(first) + (wal_file(rest) + tail));
        assert(entries + wal_entries(tail) =~= seq![first] + (rest + wal_entries(tail)));
    }
}

} // verus!
