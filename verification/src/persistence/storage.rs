//! The table: a map from key to entry with lazy expiry, and its
//! reconstruction from a snapshot and a log of operations.

use vstd::prelude::*;
use dashmap::DashMap;
use crate::clock::now_millis;
use crate::error::{Error, ErrorView};
use crate::persistence::{
    entry_operation, entry_operations, entry_views, expired, operation_views, EntryView, Operation,
    OperationView, ValueEntry,
};

verus! {

/// The mathematical model of a table: keys and entries by their views.
pub type TableView = Map<Seq<char>, EntryView>;

/// What a reader sees under `key` at `now`: the value of the entry, unless
/// there is none or its deadline has passed.
pub open spec fn visible(table: TableView, key: Seq<char>, now: u64) -> Option<Seq<char>> {
    if table.contains_key(key) && !expired(table[key].expires_at, now) {
        Some(table[key].value)
    } else {
        None
    }
}

/// The table after a read of `key` at `now`: an entry whose deadline has
/// passed is removed by the read that finds it.
pub open spec fn after_read(table: TableView, key: Seq<char>, now: u64) -> TableView {
    if table.contains_key(key) && expired(table[key].expires_at, now) {
        table.remove(key)
    } else {
        table
    }
}

/// The entries of `table` whose deadline has not passed at `now`.
pub open spec fn live(table: TableView, now: u64) -> TableView {
    Map::new(
        |key: Seq<char>| table.contains_key(key) && !expired(table[key].expires_at, now),
        |key: Seq<char>| table[key],
    )
}

/// The table after `op` on a running store: a write overwrites whatever
/// the key held, a delete removes the key.
pub open spec fn applied(table: TableView, op: OperationView) -> TableView {
    match op {
        OperationView::SetValue { key, value, expires_at } => table.insert(
            key,
            EntryView { value, expires_at },
        ),
        OperationView::Delete { key } => table.remove(key),
    }
}

/// The table after `ops` on a running store, in order.
pub open spec fn applied_all(table: TableView, ops: Seq<OperationView>) -> TableView
    decreases ops.len(),
{
    if ops.len() == 0 {
        table
    } else {
        applied(applied_all(table, ops.drop_last()), ops.last())
    }
}

/// The table after replaying `op` at `now`. A write whose deadline has
/// passed by then leaves no entry, and none of an earlier write to the
/// same key either: the later record overrides the earlier one.
pub open spec fn replayed_op(table: TableView, op: OperationView, now: u64) -> TableView {
    match op {
        OperationView::SetValue { key, value, expires_at } => if expired(expires_at, now) {
            table.remove(key)
        } else {
            table.insert(key, EntryView { value, expires_at })
        },
        OperationView::Delete { key } => table.remove(key),
    }
}

/// The table after replaying `ops` at `now`, in order.
pub open spec fn replayed(table: TableView, ops: Seq<OperationView>, now: u64) -> TableView
    decreases ops.len(),
{
    if ops.len() == 0 {
        table
    } else {
        replayed_op(replayed(table, ops.drop_last(), now), ops.last(), now)
    }
}

/// The table after loading `snapshot` and then replaying `ops`, both at `now`.
pub open spec fn restored(
    table: TableView,
    snapshot: Seq<(Seq<char>, EntryView)>,
    ops: Seq<OperationView>,
    now: u64,
) -> TableView {
    replayed(replayed(table, entry_operations(snapshot), now), ops, now)
}

/// Whether `entries` lists `table`: every pair is an entry of the table,
/// no key comes twice, and no key of the table is missing. The order is
/// left open.
pub open spec fn is_listing(entries: Seq<(Seq<char>, EntryView)>, table: TableView) -> bool {
    &&& forall|i: int|
        0 <= i < entries.len() ==> table.contains_key((#[trigger] entries[i]).0) && table[entries[i].0]
            == entries[i].1
    &&& forall|i: int, j: int|
        0 <= i < j < entries.len() ==> (#[trigger] entries[i]).0 != (#[trigger] entries[j]).0
    &&& forall|key: Seq<char>| #[trigger]
        table.contains_key(key) ==> exists|i: int| 0 <= i < entries.len() && (#[trigger] entries[i]).0 == key
}

/// The model of what a read returns.
pub open spec fn read_view(r: Result<Option<String>, Error>) -> Result<Option<Seq<char>>, ErrorView> {
    match r {
        Ok(Some(value)) => Ok(Some(value@)),
        Ok(None) => Ok(None),
        Err(e) => Err(e@),
    }
}

/// The model of a read that succeeded with `value`.
pub open spec fn read_ok(value: Option<Seq<char>>) -> Result<Option<Seq<char>>, ErrorView> {
    Ok(value)
}

/// `dashmap::DashMap`, declared so that a map can stand in a field and in
/// signatures. Nothing inside a map is visible to the verifier: what a
/// map holds goes by [`map_contents`].
#[verifier::external_type_specification]
#[verifier::external_body]
#[verifier::reject_recursive_types(K)]
#[verifier::reject_recursive_types(V)]
#[verifier::reject_recursive_types(S)]
pub struct ExDashMap<K, V, S>(DashMap<K, V, S>);

/// What a map holds: each key's text mapped to the model of its entry.
/// Keys are strings, which are equal, and hash alike, exactly when their
/// texts are equal.
pub uninterp spec fn map_contents(data: DashMap<String, ValueEntry>) -> TableView;

/// `DashMap::new`: the new map is empty.
#[verifier::external_body]
fn map_new() -> (data: DashMap<String, ValueEntry>)
    ensures
        map_contents(data) == TableView::empty(),
{
    DashMap::new()
}

/// `DashMap::insert`: the key holds the new entry, whatever it held
/// before; every other key is untouched.
#[verifier::external_body]
fn map_insert(data: &mut DashMap<String, ValueEntry>, key: String, entry: ValueEntry)
    ensures
        map_contents(*final(data)) == map_contents(*old(data)).insert(key@, entry@),
{
    data.insert(key, entry);
}

/// `DashMap::get`: a copy of the entry under the key, if there is one.
#[verifier::external_body]
fn map_get(data: &DashMap<String, ValueEntry>, key: &str) -> (entry: Option<ValueEntry>)
    ensures
        entry is Some <==> map_contents(*data).contains_key(key@),
        entry matches Some(e) ==> e@ == map_contents(*data)[key@],
{
    data.get(key).map(|found| found.value().clone())
}

/// `DashMap::remove`: the key holds nothing afterwards; every other key is untouched.
#[verifier::external_body]
fn map_remove(data: &mut DashMap<String, ValueEntry>, key: &str)
    ensures
        map_contents(*final(data)) == map_contents(*old(data)).remove(key@),
{
    data.remove(key);
}

/// `DashMap::retain`, keeping the entries that are not expired at `now`:
/// exactly those stay, unchanged.
#[verifier::external_body]
fn map_retain_live(data: &mut DashMap<String, ValueEntry>, now: u64)
    ensures
        map_contents(*final(data)) == live(map_contents(*old(data)), now),
{
    data.retain(|_, entry| entry.is_live(now));
}

/// `DashMap::iter`: a copy of every pair of the map, each once, in the
/// order in which the map is walked, which is not fixed.
#[verifier::external_body]
fn map_entries(data: &DashMap<String, ValueEntry>) -> (entries: Vec<(String, ValueEntry)>)
    ensures
        is_listing(entry_views(entries@), map_contents(*data)),
{
    data.iter().map(|item| (item.key().clone(), item.value().clone())).collect()
}

/// The table of the store.
///
/// The entries live in a concurrent map. Every method that changes the
/// table takes it exclusively, so each call is one step of the table's
/// history and its contract says what that step is; whoever shares a
/// table among threads decides in which order their calls take it.
pub struct Storage {
    data: DashMap<String, ValueEntry>,
}

impl View for Storage {
    type V = TableView;

    closed spec fn view(&self) -> TableView {
        map_contents(self.data)
    }
}

impl Storage {
    /// An empty table.
    pub fn new() -> (storage: Storage)
        ensures
            storage@ == TableView::empty(),
    {
        Storage { data: map_new() }
    }

    /// Writes `value` under `key`, with the deadline `expires_at` if there is one.
    ///
    /// `logged` is what became of appending the write to the durability
    /// log. The table takes the write only if it was logged: a failure is
    /// handed back and the table stays as it was. A write that is taken
    /// overwrites whatever the key held.
    pub fn set(
        &mut self,
        key: String,
        value: String,
        expires_at: Option<u128>,
        logged: Result<(), Error>,
    ) -> (r: Result<(), Error>)
        ensures
            r == logged,
            logged is Ok ==> final(self)@ == old(self)@.insert(key@, (EntryView { value: value@, expires_at })),
            logged is Err ==> final(self)@ == old(self)@,
    {
        if logged.is_ok() {
            map_insert(&mut self.data, key, ValueEntry { value, expires_at });
        }
        logged
    }

    /// Reads `key` at the time `now`.
    ///
    /// The value is returned unless the key has no entry or the entry's
    /// deadline is at or before `now`; in that last case the entry is
    /// removed. A read never fails.
    pub fn get_at(&mut self, key: &str, now: u64) -> (r: Result<Option<String>, Error>)
        ensures
            read_view(r) == read_ok(visible(old(self)@, key@, now)),
            final(self)@ == after_read(old(self)@, key@, now),
    {
        match map_get(&self.data, key) {
            Some(entry) => {
                if entry.is_expired(now) {
                    map_remove(&mut self.data, key);
                    Ok(None)
                } else {
                    Ok(Some(entry.value))
                }
            },
            None => Ok(None),
        }
    }

    /// Reads `key` now. The clock is read once; see [`Storage::get_at`].
    pub fn get(&mut self, key: &str) -> (r: Result<Option<String>, Error>)
        ensures
            exists|now: u64|
                read_view(r) == read_ok(#[trigger] visible(old(self)@, key@, now)) && final(self)@
                    == after_read(old(self)@, key@, now),
    {
        let now = now_millis();
        self.get_at(key, now)
    }

    /// Whether the table holds an entry under `key`, expired or not.
    pub fn contains_key(&self, key: &str) -> (found: bool)
        ensures
            found == self@.contains_key(key@),
    {
        map_get(&self.data, key).is_some()
    }

    /// A copy of every entry of the table, in no particular order.
    pub fn entries(&self) -> (entries: Vec<(String, ValueEntry)>)
        ensures
            is_listing(entry_views(entries@), self@),
    {
        map_entries(&self.data)
    }

    /// Removes every entry whose deadline is at or before `now`.
    pub fn cleanup_expired_keys_at(&mut self, now: u64)
        ensures
            final(self)@ == live(old(self)@, now),
    {
        map_retain_live(&mut self.data, now);
    }

    /// Removes every entry whose deadline has passed. The clock is read once.
    pub fn cleanup_expired_keys(&mut self)
        ensures
            exists|now: u64| final(self)@ == #[trigger] live(old(self)@, now),
    {
        let now = now_millis();
        self.cleanup_expired_keys_at(now);
    }

    /// Replays one logged operation at the time `now`.
    pub fn replay(&mut self, op: &Operation, now: u64)
        ensures
            final(self)@ == replayed_op(old(self)@, op@, now),
    {
        match op {
            Operation::SetValue { key, value, expires_at } => {
                let entry = ValueEntry { value: value.clone(), expires_at: *expires_at };
                if entry.is_expired(now) {
                    map_remove(&mut self.data, key.as_str());
                } else {
                    map_insert(&mut self.data, key.clone(), entry);
                }
            },
            Operation::Delete { key } => {
                map_remove(&mut self.data, key.as_str());
            },
        }
    }

    /// Loads the entries of a snapshot and then replays the operations
    /// logged after it, in order, all at the time `now`.
    pub fn load_persistent_data_at(
        &mut self,
        snapshot: &[(String, ValueEntry)],
        operations: &[Operation],
        now: u64,
    )
        ensures
            final(self)@ == restored(
                old(self)@,
                entry_views(snapshot@),
                operation_views(operations@),
                now,
            ),
    {
        let ghost writes = entry_operations(entry_views(snapshot@));
        let mut i: usize = 0;
        while i < snapshot.len()
            invariant
                0 <= i <= snapshot.len(),
                writes == entry_operations(entry_views(snapshot@)),
                self@ == replayed(old(self)@, writes.take(i as int), now),
            decreases snapshot.len() - i,
        {
            let entry = ValueEntry {
                value: snapshot[i].1.value.clone(),
                expires_at: snapshot[i].1.expires_at,
            };
            proof {
                assert(writes.take(i + 1).drop_last() =~= writes.take(i as int));
                assert(writes.take(i + 1).last() == entry_operation((snapshot[i as int].0@, entry@)));
            }
            if entry.is_expired(now) {
                map_remove(&mut self.data, snapshot[i].0.as_str());
            } else {
                map_insert(&mut self.data, snapshot[i].0.clone(), entry);
            }
            i = i + 1;
        }
        assert(writes.take(i as int) =~= writes);
        let ghost loaded = self@;
        let ghost ops = operation_views(operations@);
        let mut j: usize = 0;
        while j < operations.len()
            invariant
                0 <= j <= operations.len(),
                ops == operation_views(operations@),
                self@ == replayed(loaded, ops.take(j as int), now),
            decreases operations.len() - j,
        {
            proof {
                assert(ops.take(j + 1).drop_last() =~= ops.take(j as int));
                assert(ops.take(j + 1).last() == operations[j as int]@);
            }
            self.replay(&operations[j], now);
            j = j + 1;
        }
        assert(ops.take(j as int) =~= ops);
    }

    /// Loads a snapshot and replays a log as of now. The clock is read once.
    pub fn load_persistent_data(&mut self, snapshot: &[(String, ValueEntry)], operations: &[Operation])
        ensures
            exists|now: u64|
                final(self)@ == #[trigger] restored(
                    old(self)@,
                    entry_views(snapshot@),
                    operation_views(operations@),
                    now,
                ),
    {
        let now = now_millis();
        self.load_persistent_data_at(snapshot, operations, now);
    }
}

/// The key that `op` writes or deletes.
pub open spec fn operation_key(op: OperationView) -> Seq<char> {
    match op {
        OperationView::SetValue { key, .. } => key,
        OperationView::Delete { key } => key,
    }
}

/// Whether none of `ops` touches `key`.
pub open spec fn leave_alone(ops: Seq<OperationView>, key: Seq<char>) -> bool {
    forall|i: int| 0 <= i < ops.len() ==> operation_key(#[trigger] ops[i]) != key
}

/// Operations on other keys change nothing under `key`.
pub proof fn lemma_other_keys_do_not_interfere(table: TableView, ops: Seq<OperationView>, key: Seq<char>)
    requires
        leave_alone(ops, key),
    ensures
        applied_all(table, ops).contains_key(key) == table.contains_key(key),
        table.contains_key(key) ==> applied_all(table, ops)[key] == table[key],
    decreases ops.len(),
{
    if ops.len() > 0 {
        let init = ops.drop_last();
        assert forall|i: int| 0 <= i < init.len() implies operation_key(#[trigger] init[i]) != key by {
            assert(init[i] == ops[i]);
        }
        lemma_other_keys_do_not_interfere(table, init, key);
        assert(operation_key(ops.last()) != key);
    }
}

/// The last write wins. After two writes to one key, a read of the key
/// sees the second value and never the first, whatever is written to or
/// removed from other keys between the two and after them. Only the
/// second write's own deadline can hide its value.
pub proof fn lemma_last_write_wins(
    table: TableView,
    key: Seq<char>,
    first: EntryView,
    between: Seq<OperationView>,
    second: EntryView,
    after: Seq<OperationView>,
    now: u64,
)
    requires
        leave_alone(between, key),
        leave_alone(after, key),
    ensures
        visible(
            applied_all(applied_all(table.insert(key, first), between).insert(key, second), after),
            key,
            now,
        ) == if expired(second.expires_at, now) {
            None
        } else {
            Some(second.value)
        },
{
    let rewritten = applied_all(table.insert(key, first), between).insert(key, second);
    lemma_other_keys_do_not_interfere(rewritten, after, key);
}

/// A value with a deadline is there until the deadline and gone from then
/// on. Before the deadline a read returns the value and leaves the table
/// as it is; at the deadline and after it a read returns nothing, and the
/// table no longer holds the key afterwards.
pub proof fn lemma_expiry(table: TableView, key: Seq<char>, value: Seq<char>, deadline: u128, now: u64)
    ensures
        ({
            let written = table.insert(key, EntryView { value, expires_at: Some(deadline) });
            &&& now < deadline ==> visible(written, key, now) == Some(value) && after_read(
                written,
                key,
                now,
            ) == written
            &&& now >= deadline ==> visible(written, key, now) is None && !after_read(
                written,
                key,
                now,
            ).contains_key(key)
        }),
{
}

/// What is gone stays gone: without a new write, a key that a reader does
/// not see at one time is not seen at any later time either, whether or
/// not the read has removed an expired entry in between.
pub proof fn lemma_expired_stays_expired(table: TableView, key: Seq<char>, now: u64, later: u64)
    requires
        now <= later,
        visible(table, key, now) is None,
    ensures
        visible(table, key, later) is None,
        visible(after_read(table, key, now), key, later) is None,
{
}

} // verus!
