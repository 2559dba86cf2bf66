//! The maintenance schedule: which background job is due when.
//!
//! The scheduler owns no timer and runs no job. It is told the time and
//! answers with the jobs that are due; whoever drives it performs them.
//! What becomes of a job, success or failure, is no input to the schedule:
//! every job stays on its own fixed interval, counted from the start.

use vstd::prelude::*;

verus! {

/// A periodic background job of the storage engine.
#[derive(Debug, Clone, Copy, PartialEq, Eq)]
pub enum Job {
    /// Save a point-in-time copy of the table as the snapshot.
    Snapshot,
    /// Flush the durability log and sync it to stable storage.
    LogSync,
    /// Rewrite the durability log from the current table.
    Compaction,
    /// Remove the expired entries that nobody reads.
    Sweep,
}

/// Milliseconds between two snapshots: five minutes.
pub const SNAPSHOT_PERIOD: u64 = 300_000;

/// Milliseconds between two syncs of the log: one second.
pub const LOG_SYNC_PERIOD: u64 = 1_000;

/// Milliseconds between two compactions of the log: one hour.
pub const COMPACTION_PERIOD: u64 = 3_600_000;

/// Milliseconds between two sweeps for expired entries: one second.
pub const SWEEP_PERIOD: u64 = 1_000;

/// One job's timer: its interval and the time at which it is next due.
struct Timer {
    period: u64,
    due: u128,
}

impl Timer {
    /// Whether the timer has run out at `now`; if so, it is wound up by one period.
    fn fire(&mut self, now: u64) -> (fired: bool)
        ensures
            fired == (old(self).due <= now),
            final(self).period == old(self).period,
            final(self).due == if fired {
                (old(self).due + old(self).period) as u128
            } else {
                old(self).due
            },
    {
        if self.due <= now as u128 {
            self.due = self.due + self.period as u128;
            true
        } else {
            false
        }
    }
}

/// The schedule of the four maintenance jobs.
pub struct Scheduler {
    running: bool,
    snapshot: Timer,
    log_sync: Timer,
    compaction: Timer,
    sweep: Timer,
}

impl Scheduler {
    /// Whether the schedule is running. A stopped schedule has no job due, ever.
    pub closed spec fn running(self) -> bool {
        self.running
    }

    /// The interval of `job`, in milliseconds.
    pub closed spec fn period(self, job: Job) -> u64 {
        match job {
            Job::Snapshot => self.snapshot.period,
            Job::LogSync => self.log_sync.period,
            Job::Compaction => self.compaction.period,
            Job::Sweep => self.sweep.period,
        }
    }

    /// The time at which `job` is next due, in milliseconds since the Unix epoch.
    pub closed spec fn due_at(self, job: Job) -> u128 {
        match job {
            Job::Snapshot => self.snapshot.due,
            Job::LogSync => self.log_sync.due,
            Job::Compaction => self.compaction.due,
            Job::Sweep => self.sweep.due,
        }
    }

    /// Whether `job` is due at `now`.
    pub open spec fn is_due(self, job: Job, now: u64) -> bool {
        self.running() && self.due_at(job) <= now
    }

    /// `job` alone if it is due at `now`, else nothing.
    pub open spec fn due_job(self, job: Job, now: u64) -> Seq<Job> {
        if self.is_due(job, now) {
            seq![job]
        } else {
            Seq::empty()
        }
    }

    /// The jobs that are due at `now`, in the order in which they are handed out.
    pub open spec fn due_jobs(self, now: u64) -> Seq<Job> {
        self.due_job(Job::Snapshot, now) + self.due_job(Job::LogSync, now) + self.due_job(
            Job::Compaction,
            now,
        ) + self.due_job(Job::Sweep, now)
    }

    /// A running schedule with the given intervals, every job due at once.
    pub fn with_periods(now: u64, snapshot: u64, log_sync: u64, compaction: u64, sweep: u64) -> (s:
        Scheduler)
        ensures
            s.running(),
            s.period(Job::Snapshot) == snapshot,
            s.period(Job::LogSync) == log_sync,
            s.period(Job::Compaction) == compaction,
            s.period(Job::Sweep) == sweep,
            forall|job: Job| s.due_at(job) == now,
    {
        Scheduler {
            running: true,
            snapshot: Timer { period: snapshot, due: now as u128 },
            log_sync: Timer { period: log_sync, due: now as u128 },
            compaction: Timer { period: compaction, due: now as u128 },
            sweep: Timer { period: sweep, due: now as u128 },
        }
    }

    /// A running schedule with the usual intervals, every job due at once.
    pub fn new(now: u64) -> (s: Scheduler)
        ensures
            s.running(),
            s.period(Job::Snapshot) == SNAPSHOT_PERIOD,
            s.period(Job::LogSync) == LOG_SYNC_PERIOD,
            s.period(Job::Compaction) == COMPACTION_PERIOD,
            s.period(Job::Sweep) == SWEEP_PERIOD,
            forall|job: Job| s.due_at(job) == now,
    {
        Scheduler::with_periods(now, SNAPSHOT_PERIOD, LOG_SYNC_PERIOD, COMPACTION_PERIOD, SWEEP_PERIOD)
    }

    /// A stopped schedule: no job is ever due. It carries the usual
    /// intervals, and every job's time stands at the epoch.
    pub fn disabled() -> (s: Scheduler)
        ensures
            !s.running(),
            s.period(Job::Snapshot) == SNAPSHOT_PERIOD,
            s.period(Job::LogSync) == LOG_SYNC_PERIOD,
            s.period(Job::Compaction) == COMPACTION_PERIOD,
            s.period(Job::Sweep) == SWEEP_PERIOD,
            forall|job: Job| s.due_at(job) == 0,
            forall|now: u64| s.due_jobs(now) == Seq::<Job>::empty(),
    {
        Scheduler {
            running: false,
            snapshot: Timer { period: SNAPSHOT_PERIOD, due: 0 },
            log_sync: Timer { period: LOG_SYNC_PERIOD, due: 0 },
            compaction: Timer { period: COMPACTION_PERIOD, due: 0 },
            sweep: Timer { period: SWEEP_PERIOD, due: 0 },
        }
    }

    /// Stops the schedule: from now on no job is due.
    pub fn stop(&mut self)
        ensures
            !final(self).running(),
            forall|job: Job| final(self).period(job) == old(self).period(job),
            forall|job: Job| final(self).due_at(job) == old(self).due_at(job),
    {
        self.running = false;
    }

    /// Whether the schedule is running.
    pub fn is_running(&self) -> (running: bool)
        ensures
            running == self.running(),
    {
        self.running
    }

    /// The jobs that are due at `now`. Each of them is next due one of its
    /// intervals after the time at which it was due, so a job that is late
    /// by more than an interval is due again at once, until it has caught
    /// up; the others keep their time.
    pub fn poll(&mut self, now: u64) -> (jobs: Vec<Job>)
        ensures
            jobs@ == old(self).due_jobs(now),
            final(self).running() == old(self).running(),
            forall|job: Job| final(self).period(job) == old(self).period(job),
            forall|job: Job|
                final(self).due_at(job) == if old(self).is_due(job, now) {
                    (old(self).due_at(job) + old(self).period(job)) as u128
                } else {
                    old(self).due_at(job)
                },
    {
        let mut jobs: Vec<Job> = Vec::new();
        if self.running {
            if self.snapshot.fire(now) {
                jobs.push(Job::Snapshot);
            }
            if self.log_sync.fire(now) {
                jobs.push(Job::LogSync);
            }
            if self.compaction.fire(now) {
                jobs.push(Job::Compaction);
            }
            if self.sweep.fire(now) {
                jobs.push(Job::Sweep);
            }
        }
        assert(jobs@ =~= old(self).due_jobs(now));
        jobs
    }

    /// The earliest time at which a job is due, or nothing for a stopped schedule.
    pub fn next_due(&self) -> (next: Option<u128>)
        ensures
            self.running() ==> next is Some && (forall|job: Job| next->Some_0 <= self.due_at(job))
                && (exists|job: Job| next->Some_0 == self.due_at(job)),
            !self.running() ==> next is None,
    {
        if !self.running {
            return None;
        }
        let mut next: u128 = self.snapshot.due;
        if self.log_sync.due < next {
            next = self.log_sync.due;
        }
        if self.compaction.due < next {
            next = self.compaction.due;
        }
        if self.sweep.due < next {
            next = self.sweep.due;
        }
        assert(next == self.due_at(Job::Snapshot) || next == self.due_at(Job::LogSync) || next
            == self.due_at(Job::Compaction) || next == self.due_at(Job::Sweep));
        Some(next)
    }
}

} // verus!
