use ls_server::build_scheduler::{BuildScheduler, BuildStep, DEFAULT_DEBOUNCE};

/// Runs the worker until it has nothing to do, from a time on, and returns the time.
fn drain(scheduler: &mut BuildScheduler, mut now: u64) -> u64 {
    loop {
        match scheduler.step(now) {
            BuildStep::Exit | BuildStep::Idle => return now,
            BuildStep::Sleep(nanos) => now += nanos + 1,
            BuildStep::Run => scheduler.run_completed(),
        }
    }
}

#[test]
fn a_single_schedule_drains_exactly_one_run() {
    let mut scheduler = BuildScheduler::with_debounce(0);
    scheduler.schedule_reindex(0);
    let now = drain(&mut scheduler, 0);
    assert_eq!(scheduler.runs_completed, 1);
    drain(&mut scheduler, now + 5_000_000_000);
    assert_eq!(scheduler.runs_completed, 1);
}

#[test]
fn rapid_schedules_collapse_into_one_run() {
    let mut scheduler = BuildScheduler::with_debounce(80_000_000);
    for i in 0..50 {
        scheduler.schedule_reindex(i);
    }
    assert_eq!(scheduler.step(60), BuildStep::Sleep(80_000_000 - 60));
    let now = drain(&mut scheduler, 60);
    assert_eq!(scheduler.runs_completed, 1);
    drain(&mut scheduler, now + 5_000_000_000);
    assert_eq!(scheduler.runs_completed, 1);
}

#[test]
fn a_schedule_after_a_run_arms_one_follow_up() {
    let mut scheduler = BuildScheduler::with_debounce(0);
    scheduler.schedule_reindex(0);
    let now = drain(&mut scheduler, 0);
    assert_eq!(scheduler.runs_completed, 1);
    scheduler.schedule_reindex(now);
    drain(&mut scheduler, now);
    assert_eq!(scheduler.runs_completed, 2);
}

#[test]
fn a_schedule_during_a_run_arms_one_follow_up() {
    let mut scheduler = BuildScheduler::with_debounce(0);
    scheduler.schedule_reindex(0);
    assert_eq!(scheduler.step(1), BuildStep::Run);
    scheduler.schedule_reindex(2);
    scheduler.schedule_reindex(3);
    scheduler.run_completed();
    drain(&mut scheduler, 4);
    assert_eq!(scheduler.runs_completed, 2);
}

#[test]
fn drop_joins_the_worker_without_waiting_out_the_debounce() {
    let mut scheduler = BuildScheduler::with_debounce(3600 * 1_000_000_000);
    scheduler.schedule_reindex(0);
    scheduler.shut_down();
    assert_eq!(scheduler.step(1), BuildStep::Exit);
    scheduler.schedule_reindex(2);
    assert_eq!(scheduler.step(u64::MAX), BuildStep::Exit);
    assert_eq!(scheduler.runs_completed, 0);
}

#[test]
fn a_fresh_scheduler_is_idle() {
    let mut scheduler = BuildScheduler::new();
    assert_eq!(scheduler.step(7), BuildStep::Idle);
    scheduler.schedule_reindex(7);
    assert_eq!(scheduler.step(7), BuildStep::Sleep(DEFAULT_DEBOUNCE));
}
