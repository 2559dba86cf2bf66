//! Why a restart loses nothing: the table that is restored from a snapshot
//! and a log shows every reader what the running table showed.

use vstd::prelude::*;
use crate::persistence::storage::{
    after_read, applied, is_listing, live, replayed, replayed_op, restored, visible, TableView,
};
use crate::persistence::{entry_operation, entry_operations, expired, EntryView, OperationView};

verus! {

/// One step in the life of a running table.
pub enum Step {
    /// A mutation, which is appended to the durability log before it is applied.
    Write(OperationView),
    /// A read of a key at a time, which removes the entry if it finds it expired.
    Read(Seq<char>, u64),
    /// A sweep at a time, which removes every entry that is expired by then.
    Sweep(u64),
}

/// The table after one step.
pub open spec fn stepped(table: TableView, step: Step) -> TableView {
    match step {
        Step::Write(op) => applied(table, op),
        Step::Read(key, at) => after_read(table, key, at),
        Step::Sweep(at) => live(table, at),
    }
}

/// The table after `steps`, in order.
pub open spec fn run(table: TableView, steps: Seq<Step>) -> TableView
    decreases steps.len(),
{
    if steps.len() == 0 {
        table
    } else {
        stepped(run(table, steps.drop_last()), steps.last())
    }
}

/// What `steps` leave in the durability log: their mutations, in order.
pub open spec fn logged(steps: Seq<Step>) -> Seq<OperationView>
    decreases steps.len(),
{
    if steps.len() == 0 {
        Seq::empty()
    } else {
        match steps.last() {
            Step::Write(op) => logged(steps.drop_last()).push(op),
            _ => logged(steps.drop_last()),
        }
    }
}

/// Whether every read and sweep of `steps` happened at or before `now`.
pub open spec fn not_after(steps: Seq<Step>, now: u64) -> bool {
    forall|i: int|
        0 <= i < steps.len() ==> match #[trigger] steps[i] {
            Step::Write(_) => true,
            Step::Read(_, at) => at <= now,
            Step::Sweep(at) => at <= now,
        }
}

/// The entries of `table` under the keys of the first `n` pairs of `entries`.
spec fn listed(table: TableView, entries: Seq<(Seq<char>, EntryView)>, n: int) -> TableView {
    Map::new(
        |key: Seq<char>| exists|j: int| 0 <= j < n && (#[trigger] entries[j]).0 == key,
        |key: Seq<char>| table[key],
    )
}

/// Replaying is done piece by piece: a log in two parts is replayed by
/// replaying the first part and then the second.
pub proof fn lemma_replay_in_parts(table: TableView, first: Seq<OperationView>, second: Seq<OperationView>, now: u64)
    ensures
        replayed(table, first + second, now) == replayed(replayed(table, first, now), second, now),
    decreases second.len(),
{
    if second.len() == 0 {
        assert(first + second =~= first);
    } else {
        lemma_replay_in_parts(table, first, second.drop_last(), now);
        assert((first + second).drop_last() =~= first + second.drop_last());
        assert((first + second).last() == second.last());
    }
}

/// Writing out a listing and replaying it restores the table: every entry
/// that has not expired by then, and nothing else.
pub proof fn lemma_listing_restores_table(table: TableView, entries: Seq<(Seq<char>, EntryView)>, now: u64)
    requires
        is_listing(entries, table),
    ensures
        replayed(Map::empty(), entry_operations(entries), now) == live(table, now),
{
    let writes = entry_operations(entries);
    lemma_listing_prefix(table, entries, now, entries.len() as int);
    assert(writes.take(entries.len() as int) =~= writes);
    assert(listed(table, entries, entries.len() as int) =~= table) by {
        assert forall|key: Seq<char>| table.contains_key(key) implies listed(
            table,
            entries,
            entries.len() as int,
        ).contains_key(key) by {
            let i = choose|i: int| 0 <= i < entries.len() && (#[trigger] entries[i]).0 == key;
            assert(entries[i].0 == key);
        }
    }
}

proof fn lemma_listing_prefix(table: TableView, entries: Seq<(Seq<char>, EntryView)>, now: u64, n: int)
    requires
        is_listing(entries, table),
        0 <= n <= entries.len(),
    ensures
        replayed(Map::empty(), entry_operations(entries).take(n), now) == live(
            listed(table, entries, n),
            now,
        ),
    decreases n,
{
    let writes = entry_operations(entries);
    if n == 0 {
        assert(live(listed(table, entries, 0), now) =~= Map::<Seq<char>, EntryView>::empty());
    } else {
        lemma_listing_prefix(table, entries, now, n - 1);
        assert(writes.take(n).drop_last() =~= writes.take(n - 1));
        assert(writes.take(n).last() == entry_operation(entries[n - 1]));
        let key = entries[n - 1].0;
        let entry = entries[n - 1].1;
        let before = listed(table, entries, n - 1);
        let after = listed(table, entries, n);
        assert(!before.contains_key(key)) by {
            if before.contains_key(key) {
                let j = choose|j: int| 0 <= j < n - 1 && (#[trigger] entries[j]).0 == key;
                assert(entries[j].0 != entries[n - 1].0);
            }
        }
        assert(after =~= before.insert(key, entry)) by {
            assert forall|k: Seq<char>| after.contains_key(k) <==> before.insert(
                key,
                entry,
            ).contains_key(k) by {
                if after.contains_key(k) {
                    let j = choose|j: int| 0 <= j < n && (#[trigger] entries[j]).0 == k;
                    if j < n - 1 {
                        assert(before.contains_key(k));
                    }
                }
                if before.contains_key(k) {
                    let j = choose|j: int| 0 <= j < n - 1 && (#[trigger] entries[j]).0 == k;
                    assert(0 <= j < n && entries[j].0 == k);
                }
                if k == key {
                    assert(0 <= n - 1 < n && entries[n - 1].0 == k);
                }
            }
            assert(table[entries[n - 1].0] == entries[n - 1].1);
        }
        assert(replayed_op(live(before, now), entry_operation(entries[n - 1]), now) =~= live(
            after,
            now,
        ));
    }
}

/// A running table and its log stay in step: replaying what the steps
/// logged, on the entries that are live in the table they started from,
/// gives the entries that are live in the table they ended in.
pub proof fn lemma_log_follows_table(table: TableView, steps: Seq<Step>, now: u64)
    requires
        not_after(steps, now),
    ensures
        replayed(live(table, now), logged(steps), now) == live(run(table, steps), now),
    decreases steps.len(),
{
    if steps.len() > 0 {
        let init = steps.drop_last();
        assert forall|i: int| 0 <= i < init.len() implies match #[trigger] init[i] {
            Step::Write(_) => true,
            Step::Read(_, at) => at <= now,
            Step::Sweep(at) => at <= now,
        } by {
            assert(init[i] == steps[i]);
        }
        lemma_log_follows_table(table, init, now);
        let before = run(table, init);
        match steps.last() {
            Step::Write(op) => {
                assert(logged(steps).drop_last() =~= logged(init));
                assert(replayed_op(live(before, now), op, now) =~= live(applied(before, op), now));
            },
            Step::Read(key, at) => {
                assert(live(after_read(before, key, at), now) =~= live(before, now));
            },
            Step::Sweep(at) => {
                assert(live(live(before, at), now) =~= live(before, now));
            },
        }
    }
}

/// The entries that are live at one time show every later reader what
/// the whole table shows.
pub proof fn lemma_live_entries_read_alike(table: TableView, now: u64, key: Seq<char>, later: u64)
    requires
        now <= later,
    ensures
        visible(live(table, now), key, later) == visible(table, key, later),
{
}

/// A restart loses nothing. Take a listing of the table as the snapshot,
/// let the table run on through any writes, reads and sweeps, and restore
/// from the snapshot and the log of those writes at a time that is not
/// before any of those reads and sweeps. The restored table holds exactly
/// the entries of the running table that have not expired by then: the
/// same keys, the same values and the same deadlines.
pub proof fn lemma_restore_matches_running_table(
    table: TableView,
    snapshot: Seq<(Seq<char>, EntryView)>,
    steps: Seq<Step>,
    now: u64,
)
    requires
        is_listing(snapshot, table),
        not_after(steps, now),
    ensures
        restored(Map::empty(), snapshot, logged(steps), now) == live(run(table, steps), now),
{
    lemma_listing_restores_table(table, snapshot, now);
    lemma_log_follows_table(table, steps, now);
}

/// A compaction loses nothing. The log that a compaction writes from a
/// listing of the table, with whatever the steps after the listing append
/// to it, restores exactly the entries of the running table that have not
/// expired: no write that was in the table when it was listed, and none
/// that came later, is lost.
pub proof fn lemma_compaction_keeps_every_write(
    table: TableView,
    entries: Seq<(Seq<char>, EntryView)>,
    steps: Seq<Step>,
    now: u64,
)
    requires
        is_listing(entries, table),
        not_after(steps, now),
    ensures
        replayed(Map::empty(), entry_operations(entries) + logged(steps), now) == live(
            run(table, steps),
            now,
        ),
{
    lemma_replay_in_parts(Map::empty(), entry_operations(entries), logged(steps), now);
    lemma_listing_restores_table(table, entries, now);
    lemma_log_follows_table(table, steps, now);
}

} // verus!
