use resp_kv::scheduler::{
    Job, Scheduler, COMPACTION_PERIOD, LOG_SYNC_PERIOD, SNAPSHOT_PERIOD, SWEEP_PERIOD,
};

#[test]
fn usual_periods() {
    assert_eq!(SNAPSHOT_PERIOD, 5 * 60 * 1000);
    assert_eq!(LOG_SYNC_PERIOD, 1000);
    assert_eq!(COMPACTION_PERIOD, 60 * 60 * 1000);
    assert_eq!(SWEEP_PERIOD, 1000);
}

#[test]
fn every_job_is_due_at_the_start() {
    let mut scheduler = Scheduler::new(10_000);
    assert!(scheduler.is_running());
    assert_eq!(scheduler.next_due(), Some(10_000));
    assert_eq!(scheduler.poll(10_000), vec![Job::Snapshot, Job::LogSync, Job::Compaction, Job::Sweep]);
}

#[test]
fn nothing_is_due_before_the_start() {
    let mut scheduler = Scheduler::new(10_000);
    assert_eq!(scheduler.poll(9_999), Vec::<Job>::new());
    assert_eq!(scheduler.next_due(), Some(10_000));
}

#[test]
fn each_job_keeps_its_own_period() {
    let mut scheduler = Scheduler::with_periods(0, 30, 10, 60, 10);
    assert_eq!(scheduler.poll(0).len(), 4);
    assert_eq!(scheduler.poll(0), Vec::<Job>::new());
    assert_eq!(scheduler.next_due(), Some(10));
    assert_eq!(scheduler.poll(9), Vec::<Job>::new());
    assert_eq!(scheduler.poll(10), vec![Job::LogSync, Job::Sweep]);
    assert_eq!(scheduler.poll(19), Vec::<Job>::new());
    assert_eq!(scheduler.poll(20), vec![Job::LogSync, Job::Sweep]);
    assert_eq!(scheduler.poll(30), vec![Job::Snapshot, Job::LogSync, Job::Sweep]);
    assert_eq!(scheduler.poll(40), vec![Job::LogSync, Job::Sweep]);
    assert_eq!(scheduler.poll(50), vec![Job::LogSync, Job::Sweep]);
    assert_eq!(scheduler.poll(60), vec![Job::Snapshot, Job::LogSync, Job::Compaction, Job::Sweep]);
    assert_eq!(scheduler.next_due(), Some(70));
}

#[test]
fn usual_schedule_syncs_and_sweeps_every_second() {
    let mut scheduler = Scheduler::new(0);
    assert_eq!(scheduler.poll(0).len(), 4);
    assert_eq!(scheduler.next_due(), Some(1_000));
    assert_eq!(scheduler.poll(999), Vec::<Job>::new());
    assert_eq!(scheduler.poll(1_000), vec![Job::LogSync, Job::Sweep]);
    assert_eq!(scheduler.next_due(), Some(2_000));
}

#[test]
fn a_late_job_catches_up() {
    let mut scheduler = Scheduler::with_periods(0, 100, 10, 1_000, 7);
    assert_eq!(scheduler.poll(0).len(), 4);
    assert_eq!(scheduler.poll(25), vec![Job::LogSync, Job::Sweep]);
    assert_eq!(scheduler.next_due(), Some(14));
    assert_eq!(scheduler.poll(25), vec![Job::LogSync, Job::Sweep]);
    assert_eq!(scheduler.poll(25), vec![Job::Sweep]);
    assert_eq!(scheduler.poll(25), Vec::<Job>::new());
    assert_eq!(scheduler.next_due(), Some(28));
    assert_eq!(scheduler.poll(29), vec![Job::Sweep]);
    assert_eq!(scheduler.poll(30), vec![Job::LogSync]);
    assert_eq!(scheduler.next_due(), Some(35));
}

#[test]
fn jobs_stay_on_the_grid_of_their_start() {
    let mut scheduler = Scheduler::with_periods(1_000, 100, 10, 1_000, 7);
    assert_eq!(scheduler.poll(1_003).len(), 4);
    assert_eq!(scheduler.next_due(), Some(1_007));
    assert_eq!(scheduler.poll(1_007), vec![Job::Sweep]);
    assert_eq!(scheduler.next_due(), Some(1_010));
    assert_eq!(scheduler.poll(1_010), vec![Job::LogSync]);
    assert_eq!(scheduler.next_due(), Some(1_014));
}

#[test]
fn zero_period_is_due_at_every_poll() {
    let mut scheduler = Scheduler::with_periods(5, 0, 1_000, 1_000, 1_000);
    assert_eq!(scheduler.poll(5).len(), 4);
    assert_eq!(scheduler.poll(5), vec![Job::Snapshot]);
    assert_eq!(scheduler.poll(6), vec![Job::Snapshot]);
}

#[test]
fn due_times_never_overflow() {
    let mut scheduler = Scheduler::with_periods(u64::MAX, u64::MAX, u64::MAX, u64::MAX, u64::MAX);
    assert_eq!(scheduler.poll(u64::MAX).len(), 4);
    assert_eq!(scheduler.next_due(), Some(2 * (u64::MAX as u128)));
    assert_eq!(scheduler.poll(u64::MAX), Vec::<Job>::new());
}

#[test]
fn disabled_schedule_never_fires() {
    let mut scheduler = Scheduler::disabled();
    assert!(!scheduler.is_running());
    assert_eq!(scheduler.next_due(), None);
    assert_eq!(scheduler.poll(0), Vec::<Job>::new());
    assert_eq!(scheduler.poll(u64::MAX), Vec::<Job>::new());
}

#[test]
fn stopped_schedule_never_fires() {
    let mut scheduler = Scheduler::new(0);
    scheduler.stop();
    assert!(!scheduler.is_running());
    assert_eq!(scheduler.next_due(), None);
    assert_eq!(scheduler.poll(1_000_000), Vec::<Job>::new());
}
