//! The persisted data model: table entries and log operations.

use vstd::prelude::*;

pub mod aof;
pub mod rdb;
pub mod recovery;
pub mod storage;

verus! {

/// A stored value with its optional deadline.
///
/// `expires_at` is an absolute time in milliseconds since the Unix epoch.
/// Deadlines are 128 bits wide, so that a clock reading plus any 64-bit
/// time-to-live is always representable.
#[derive(Debug, PartialEq, Eq)]
pub struct ValueEntry {
    pub value: String,
    pub expires_at: Option<u128>,
}

/// The mathematical model of a [`ValueEntry`].
pub struct EntryView {
    pub value: Seq<char>,
    pub expires_at: Option<u128>,
}

impl View for ValueEntry {
    type V = EntryView;

    open spec fn view(&self) -> EntryView {
        EntryView { value: self.value@, expires_at: self.expires_at }
    }
}

impl Clone for ValueEntry {
    fn clone(&self) -> (entry: ValueEntry)
        ensures
            entry@ == self@,
    {
        ValueEntry { value: self.value.clone(), expires_at: self.expires_at }
    }
}

/// Whether a deadline has passed at `now`: it is set, and at or before `now`.
pub open spec fn expired(deadline: Option<u128>, now: u64) -> bool {
    deadline matches Some(t) && t <= now
}

impl ValueEntry {
    /// Whether the entry's deadline has passed at `now`.
    pub fn is_expired(&self, now: u64) -> (gone: bool)
        ensures
            gone == expired(self.expires_at, now),
    {
        match self.expires_at {
            Some(t) => t <= now as u128,
            None => false,
        }
    }

    /// Whether the entry's deadline has not passed at `now`.
    pub fn is_live(&self, now: u64) -> (alive: bool)
        ensures
            alive == !expired(self.expires_at, now),
    {
        !self.is_expired(now)
    }
}

/// A mutation of the table, as the durability log records it.
#[derive(Debug, PartialEq, Eq)]
pub enum Operation {
    SetValue { key: String, value: String, expires_at: Option<u128> },
    Delete { key: String },
}

/// The mathematical model of an [`Operation`].
pub enum OperationView {
    SetValue { key: Seq<char>, value: Seq<char>, expires_at: Option<u128> },
    Delete { key: Seq<char> },
}

impl View for Operation {
    type V = OperationView;

    open spec fn view(&self) -> OperationView {
        match self {
            Operation::SetValue { key, value, expires_at } => OperationView::SetValue {
                key: key@,
                value: value@,
                expires_at: *expires_at,
            },
            Operation::Delete { key } => OperationView::Delete { key: key@ },
        }
    }
}

impl Clone for Operation {
    fn clone(&self) -> (op: Operation)
        ensures
            op@ == self@,
    {
        match self {
            Operation::SetValue { key, value, expires_at } => Operation::SetValue {
                key: key.clone(),
                value: value.clone(),
                expires_at: *expires_at,
            },
            Operation::Delete { key } => Operation::Delete { key: key.clone() },
        }
    }
}

/// The models of `operations`, in order.
pub open spec fn operation_views(operations: Seq<Operation>) -> Seq<OperationView> {
    Seq::new(operations.len(), |i: int| operations[i]@)
}

/// The models of a sequence of `(key, entry)` pairs, in order.
pub open spec fn entry_views(entries: Seq<(String, ValueEntry)>) -> Seq<(Seq<char>, EntryView)> {
    Seq::new(entries.len(), |i: int| (entries[i].0@, entries[i].1@))
}

/// The operation that writes one `(key, entry)` pair.
pub open spec fn entry_operation(entry: (Seq<char>, EntryView)) -> OperationView {
    OperationView::SetValue { key: entry.0, value: entry.1.value, expires_at: entry.1.expires_at }
}

/// One write per pair of `entries`, in order.
pub open spec fn entry_operations(entries: Seq<(Seq<char>, EntryView)>) -> Seq<OperationView> {
    Seq::new(entries.len(), |i: int| entry_operation(entries[i]))
}

} // verus!
