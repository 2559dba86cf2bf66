//! The durability log: the framing of its records, the policy of its
//! syncs, and what a compaction writes.
//!
//! The log is a sequence of records, each a length of four bytes, least
//! significant first, followed by that many bytes of payload: one
//! serialized operation. The file itself belongs to the embedding program;
//! this module says which bytes go into it and what the bytes that come
//! out of it mean.

use vstd::prelude::*;
use vstd::bytes::{
    lemma_auto_spec_u32_to_from_le_bytes, spec_u32_from_le_bytes, spec_u32_to_le_bytes,
    u32_from_le_bytes, u32_to_le_bytes,
};
use vstd::slice::{slice_subrange, slice_to_vec};
use std::path::PathBuf;
use crate::error::{Error, ErrorView};
use crate::persistence::{
    entry_operation, entry_operations, entry_views, operation_views, Operation, ValueEntry,
};
use crate::text::push_all;

verus! {

/// After this many appends the log is flushed and synced without waiting for the timer.
pub const SYNC_EVERY: usize = 1000;

/// The record that holds `payload`: its length in four bytes, least
/// significant first, then the payload itself.
pub open spec fn frame(payload: Seq<u8>) -> Seq<u8> {
    spec_u32_to_le_bytes(payload.len() as u32) + payload
}

/// The records of `payloads`, one after the other.
pub open spec fn frames(payloads: Seq<Seq<u8>>) -> Seq<u8>
    decreases payloads.len(),
{
    if payloads.len() == 0 {
        Seq::empty()
    } else {
        frames(payloads.drop_last()) + frame(payloads.last())
    }
}

/// The payloads of the complete records at the front of `bytes`, in order.
///
/// Reading stops at the end, or where fewer bytes are left than a length
/// takes or than the length announces: a record cut short is the mark of
/// a crash in the middle of an append, and ends the log without fault.
pub open spec fn records(bytes: Seq<u8>) -> Seq<Seq<u8>>
    decreases bytes.len(),
{
    if bytes.len() < 4 {
        Seq::empty()
    } else {
        let length = spec_u32_from_le_bytes(bytes.take(4)) as int;
        if bytes.len() < 4 + length {
            Seq::empty()
        } else {
            seq![bytes.subrange(4, 4 + length)] + records(bytes.skip(4 + length))
        }
    }
}

/// The contents of `payloads`, in order.
pub open spec fn payload_views(payloads: Seq<Vec<u8>>) -> Seq<Seq<u8>> {
    Seq::new(payloads.len(), |i: int| payloads[i]@)
}

/// What one append asks of the file: the bytes of the record, to be
/// written as one unit, and whether to flush and sync right after.
#[derive(Debug, PartialEq, Eq)]
pub struct LogWrite {
    pub bytes: Vec<u8>,
    pub sync: bool,
}

/// The writer's side of the durability log.
pub struct AofManager {
    path: PathBuf,
    sync_counter: usize,
}

impl AofManager {
    /// The path of the log file.
    pub closed spec fn location(&self) -> PathBuf {
        self.path
    }

    /// The number of appends since the last sync that an append asked for.
    pub closed spec fn pending(&self) -> nat {
        self.sync_counter as nat
    }

    #[verifier::type_invariant]
    spec fn counts_below_threshold(&self) -> bool {
        self.sync_counter < SYNC_EVERY
    }

    /// A manager of the log at `path`, with no append pending.
    pub fn new(path: PathBuf) -> (manager: AofManager)
        ensures
            manager.location() == path,
            manager.pending() == 0,
    {
        AofManager { path, sync_counter: 0 }
    }

    /// The path of the log file.
    pub fn path(&self) -> (path: &PathBuf)
        ensures
            *path == self.location(),
    {
        &self.path
    }

    /// The record that holds one serialized operation. A payload that is
    /// too long for a four-byte length is refused.
    pub fn frame_record(payload: &[u8]) -> (r: Result<Vec<u8>, Error>)
        ensures
            match r {
                Ok(bytes) => payload@.len() <= u32::MAX && bytes@ == frame(payload@),
                Err(e) => payload@.len() > u32::MAX && e@ == ErrorView::Io("Log record too large"@),
            },
    {
        if payload.len() as u64 > u32::MAX as u64 {
            return Err(Error::Io("Log record too large".to_owned()));
        }
        let mut bytes = u32_to_le_bytes(payload.len() as u32);
        push_all(&mut bytes, payload);
        Ok(bytes)
    }

    /// Frames one serialized operation for the log and counts the append.
    ///
    /// Every append of the thousand since the last one that asked for it
    /// asks for a sync. A payload that is too long for a four-byte length
    /// is refused, and the count stays.
    pub fn append_operation(&mut self, payload: &[u8]) -> (r: Result<LogWrite, Error>)
        ensures
            final(self).location() == old(self).location(),
            final(self).pending() < SYNC_EVERY,
            match r {
                Ok(write) => {
                    &&& payload@.len() <= u32::MAX
                    &&& write.bytes@ == frame(payload@)
                    &&& write.sync == (old(self).pending() + 1 == SYNC_EVERY)
                    &&& final(self).pending() == if write.sync {
                        0
                    } else {
                        old(self).pending() + 1
                    }
                },
                Err(e) => {
                    &&& payload@.len() > u32::MAX
                    &&& e@ == ErrorView::Io("Log record too large"@)
                    &&& final(self).pending() == old(self).pending()
                },
            },
    {
        proof {
            use_type_invariant(&*self);
        }
        let bytes = match AofManager::frame_record(payload) {
            Ok(bytes) => bytes,
            Err(e) => {
                return Err(e);
            },
        };
        let sync = self.sync_counter + 1 >= SYNC_EVERY;
        if sync {
            self.sync_counter = 0;
        } else {
            self.sync_counter = self.sync_counter + 1;
        }
        Ok(LogWrite { bytes, sync })
    }

    /// The operations that a compaction writes in place of the log: one
    /// write for each entry of the table's listing, in its order, and no
    /// delete.
    pub fn compact(entries: &[(String, ValueEntry)]) -> (operations: Vec<Operation>)
        ensures
            operation_views(operations@) == entry_operations(entry_views(entries@)),
    {
        let mut operations: Vec<Operation> = Vec::new();
        let mut i: usize = 0;
        while i < entries.len()
            invariant
                0 <= i <= entries.len(),
                operations.len() == i,
                forall|k: int|
                    0 <= k < i ==> (#[trigger] operations[k])@ == entry_operation(
                        (entries[k].0@, entries[k].1@),
                    ),
            decreases entries.len() - i,
        {
            operations.push(
                Operation::SetValue {
                    key: entries[i].0.clone(),
                    value: entries[i].1.value.clone(),
                    expires_at: entries[i].1.expires_at,
                },
            );
            i = i + 1;
        }
        assert(operation_views(operations@) =~= entry_operations(entry_views(entries@)));
        operations
    }

    /// The payloads of the complete records of a log file's contents, in order.
    pub fn load_operations(contents: &[u8]) -> (payloads: Vec<Vec<u8>>)
        ensures
            payload_views(payloads@) == records(contents@),
    {
        let mut payloads: Vec<Vec<u8>> = Vec::new();
        let mut at: usize = 0;
        assert(contents@.skip(0) =~= contents@);
        assert(payload_views(payloads@) + records(contents@) =~= records(contents@));
        loop
            invariant
                0 <= at <= contents.len(),
                records(contents@) == payload_views(payloads@) + records(contents@.skip(at as int)),
            ensures
                payload_views(payloads@) == records(contents@),
            decreases contents.len() - at,
        {
            let ghost rest = contents@.skip(at as int);
            if contents.len() - at < 4 {
                assert(payload_views(payloads@) + Seq::<Seq<u8>>::empty() =~= payload_views(payloads@));
                break;
            }
            let length = u32_from_le_bytes(slice_subrange(contents, at, at + 4)) as usize;
            assert(contents@.subrange(at as int, at + 4) =~= rest.take(4));
            if contents.len() - at - 4 < length {
                assert(payload_views(payloads@) + Seq::<Seq<u8>>::empty() =~= payload_views(payloads@));
                break;
            }
            let payload = slice_to_vec(slice_subrange(contents, at + 4, at + 4 + length));
            proof {
                assert(payload@ =~= rest.subrange(4, 4 + length));
                assert(rest.skip(4 + length) =~= contents@.skip(at + 4 + length));
                assert(payload_views(payloads@.push(payload)) =~= payload_views(payloads@) + seq![
                    payload@,
                ]);
            }
            payloads.push(payload);
            at = at + 4 + length;
        }
        payloads
    }
}

/// A record in front of other bytes is read back as its payload, and
/// reading goes on behind it.
pub proof fn lemma_records_after_frame(payload: Seq<u8>, rest: Seq<u8>)
    requires
        payload.len() <= u32::MAX,
    ensures
        records(frame(payload) + rest) == seq![payload] + records(rest),
{
    lemma_auto_spec_u32_to_from_le_bytes();
    let length = payload.len() as u32;
    let bytes = frame(payload) + rest;
    assert(spec_u32_to_le_bytes(length).len() == 4);
    assert(bytes.take(4) =~= spec_u32_to_le_bytes(length));
    assert(bytes.subrange(4, 4 + length) =~= payload);
    assert(bytes.skip(4 + length) =~= rest);
}

/// Records in front of other bytes are read back as their payloads, and
/// reading goes on behind them.
pub proof fn lemma_records_after_frames(payloads: Seq<Seq<u8>>, rest: Seq<u8>)
    requires
        forall|i: int| 0 <= i < payloads.len() ==> (#[trigger] payloads[i]).len() <= u32::MAX,
    ensures
        records(frames(payloads) + rest) == payloads + records(rest),
    decreases payloads.len(),
{
    if payloads.len() == 0 {
        assert(frames(payloads) + rest =~= rest);
        assert(payloads + records(rest) =~= records(rest));
    } else {
        let init = payloads.drop_last();
        let last = payloads.last();
        lemma_records_after_frame(last, rest);
        lemma_records_after_frames(init, frame(last) + rest);
        assert(frames(payloads) + rest =~= frames(init) + (frame(last) + rest));
        assert(init + (seq![last] + records(rest)) =~= payloads + records(rest));
    }
}

/// What was appended is what is read back: the records of any payloads,
/// each short enough for its length to fit, hold exactly those payloads.
pub proof fn lemma_log_round_trip(payloads: Seq<Seq<u8>>)
    requires
        forall|i: int| 0 <= i < payloads.len() ==> (#[trigger] payloads[i]).len() <= u32::MAX,
    ensures
        records(frames(payloads)) == payloads,
{
    lemma_records_after_frames(payloads, Seq::empty());
    assert(frames(payloads) + Seq::<u8>::empty() =~= frames(payloads));
    assert(payloads + records(Seq::<u8>::empty()) =~= payloads);
}

/// A record cut short at the end of the log is passed over: the log reads
/// as if the append that a crash interrupted had never begun.
pub proof fn lemma_torn_tail_is_ignored(payloads: Seq<Seq<u8>>, last: Seq<u8>, written: int)
    requires
        forall|i: int| 0 <= i < payloads.len() ==> (#[trigger] payloads[i]).len() <= u32::MAX,
        last.len() <= u32::MAX,
        0 <= written < frame(last).len(),
    ensures
        records(frames(payloads) + frame(last).take(written)) == payloads,
{
    lemma_auto_spec_u32_to_from_le_bytes();
    let tail = frame(last).take(written);
    assert(spec_u32_to_le_bytes(last.len() as u32).len() == 4);
    if written >= 4 {
        assert(tail.take(4) =~= spec_u32_to_le_bytes(last.len() as u32));
    }
    assert(records(tail) =~= Seq::<Seq<u8>>::empty());
    lemma_records_after_frames(payloads, tail);
    assert(payloads + records(tail) =~= payloads);
}

} // verus!
