use crondy::calendar::time_fields_of_minute;
use crondy::calendar::TimeFields;
use crondy::crontab::Crontab;
use crondy::db::Db;
use crondy::jobqueue::DispatchRejection;
use crondy::jobqueue::JobQueue;
use crondy::jobqueue::SubmitOutcome;
use crondy::scheduler::Dispatch;
use crondy::scheduler::Scheduler;

#[test]
fn epoch_is_a_thursday_midnight() {
    assert_eq!(
        time_fields_of_minute(0),
        TimeFields { minute: 0, hour: 0, day_of_month: 1, month: 1, day_of_week: 4 }
    );
}

#[test]
fn leap_day_afternoon() {
    // 2020-02-29 13:45, a Saturday
    assert_eq!(
        time_fields_of_minute(26383065),
        TimeFields { minute: 45, hour: 13, day_of_month: 29, month: 2, day_of_week: 6 }
    );
}

#[test]
fn last_minute_of_a_year() {
    // 2024-12-31 23:59, a Tuesday
    assert_eq!(
        time_fields_of_minute(28928159),
        TimeFields { minute: 59, hour: 23, day_of_month: 31, month: 12, day_of_week: 2 }
    );
}

#[test]
fn century_year_is_no_leap_year() {
    // 2100-03-01 12:30, a Monday: 2100 has no February 29
    assert_eq!(
        time_fields_of_minute(68459790),
        TimeFields { minute: 30, hour: 12, day_of_month: 1, month: 3, day_of_week: 1 }
    );
}

// 2025-10-12 09:30 was a Sunday.
const SUNDAY_0930: u64 = 29337690;

#[test]
fn common_tick_dispatches_matching_entries_once() {
    let tab = Crontab::parse("* * * * * every\n30 9 * * * at_nine_thirty\n0 0 1 1 * new_year\n")
        .unwrap();
    let t = SUNDAY_0930;
    let mut s = Scheduler::new(t - 1);
    let ds = s.wake(t, &tab);
    assert_eq!(s.virtual_time, t);
    assert_eq!(s.time_running, t);
    assert_eq!(
        ds,
        vec![Dispatch { entry: 0, minute: t }, Dispatch { entry: 1, minute: t }]
    );
}

#[test]
fn catch_up_covers_each_missed_minute() {
    let tab = Crontab::parse("* * * * * every\n").unwrap();
    let t = SUNDAY_0930;
    let mut s = Scheduler::new(t - 3);
    let ds = s.wake(t, &tab);
    assert_eq!(s.virtual_time, t);
    assert_eq!(
        ds,
        vec![
            Dispatch { entry: 0, minute: t - 2 },
            Dispatch { entry: 0, minute: t - 1 },
            Dispatch { entry: 0, minute: t },
        ]
    );
}

#[test]
fn large_forward_jump_runs_wildcards_once() {
    // one wildcard-eligible entry, one fixed-time entry (both day
    // fields restricted) that matches the twelfth of the month
    let tab = Crontab::parse("* * * * * wild\n30 9 12 * 0 fixed\n").unwrap();
    let t = SUNDAY_0930;
    let jump: u64 = 10;
    let mut s = Scheduler::new(t - jump);
    let ds = s.wake(t, &tab);
    assert_eq!(s.virtual_time, t);
    // the wildcard entry runs once, for now; the fixed entry is caught
    // up minute-by-minute and fires for its one matching minute
    assert_eq!(
        ds,
        vec![Dispatch { entry: 0, minute: t }, Dispatch { entry: 1, minute: t }]
    );
}

#[test]
fn small_backward_jump_runs_only_wildcards_and_keeps_virtual_time() {
    let tab = Crontab::parse("* * * * * wild\n28 9 12 10 0 fixed\n").unwrap();
    let t = SUNDAY_0930;
    let mut s = Scheduler::new(t);
    let ds = s.wake(t - 2, &tab);
    assert_eq!(s.virtual_time, t);
    assert_eq!(s.time_running, t - 2);
    // the fixed entry matches minute t - 2 but already ran before the
    // clock went backward, so only the wildcard entry is dispatched
    assert_eq!(ds, vec![Dispatch { entry: 0, minute: t - 2 }]);
}

#[test]
fn drastic_backward_jump_resets_virtual_time() {
    let tab = Crontab::parse("* * * * * wild\n").unwrap();
    let t = SUNDAY_0930;
    let mut s = Scheduler::new(t);
    let ds = s.wake(t - 1000, &tab);
    assert_eq!(s.virtual_time, t - 1000);
    assert_eq!(ds, vec![Dispatch { entry: 0, minute: t - 1000 }]);
}

#[test]
fn reboot_entries_fire_at_startup_and_never_on_ticks() {
    let tab = Crontab::parse("@reboot once\n* * * * * every\n").unwrap();
    let t = SUNDAY_0930;
    let boot = tab.run_reboot_jobs(t);
    assert_eq!(boot, vec![Dispatch { entry: 0, minute: t }]);
    let mut s = Scheduler::new(t);
    let d1 = s.wake(t + 1, &tab);
    let d2 = s.wake(t + 2, &tab);
    assert_eq!(d1, vec![Dispatch { entry: 1, minute: t + 1 }]);
    assert_eq!(d2, vec![Dispatch { entry: 1, minute: t + 2 }]);
}

#[test]
fn dow_seven_matches_sunday() {
    let tab = Crontab::parse("* * * * 7 sunday_only\n* * * * 1 monday_only\n").unwrap();
    let t = SUNDAY_0930;
    let mut s = Scheduler::new(t - 1);
    let ds = s.wake(t, &tab);
    assert_eq!(ds, vec![Dispatch { entry: 0, minute: t }]);
}

#[test]
fn day_fields_combine_by_or_when_both_restricted() {
    // 2025-10-12 is the 12th and a Sunday: dom matches, dow does not
    let tab = Crontab::parse("30 9 12 * 3 dom_or_dow\n").unwrap();
    let t = SUNDAY_0930;
    let mut s = Scheduler::new(t - 1);
    let ds = s.wake(t, &tab);
    assert_eq!(ds, vec![Dispatch { entry: 0, minute: t }]);
}

#[test]
fn restricted_day_of_week_constrains_alone_when_dom_is_star() {
    // dom is the unrestricted wildcard, so only dow constrains: Wednesday
    // does not match a Sunday
    let tab = Crontab::parse("30 9 * * 3 wednesdays\n").unwrap();
    let t = SUNDAY_0930;
    let mut s = Scheduler::new(t - 1);
    let ds = s.wake(t, &tab);
    assert_eq!(ds, Vec::<Dispatch>::new());
}

#[test]
fn queue_rejects_second_instance_until_drained() {
    let mut q = JobQueue::new(3);
    assert_eq!(q.submit(1), SubmitOutcome::Accepted);
    assert_eq!(
        q.submit(1),
        SubmitOutcome::Rejected(DispatchRejection::AlreadyRunning)
    );
    assert_eq!(q.submit(2), SubmitOutcome::Accepted);
    assert!(q.is_running(1));
    assert!(!q.is_running(0));
    q.drain(&vec![1]);
    assert!(!q.is_running(1));
    assert!(q.is_running(2));
    assert_eq!(q.submit(1), SubmitOutcome::Accepted);
}

#[test]
fn db_installs_whole_snapshots() {
    let mut db = Db::new();
    assert_eq!(db.entries.len(), 0);
    let tab = Crontab::parse("* * * * * cmd\n").unwrap();
    db.install(tab);
    assert_eq!(db.entries.len(), 1);
    let replacement = Crontab::parse("@reboot a\n@reboot b\n").unwrap();
    db.install(replacement);
    assert_eq!(db.entries.len(), 2);
}

#[test]
fn step_fields_stride_from_the_domain_start() {
    // */15: minutes 0, 15, 30, 45
    let tab = Crontab::parse("*/15 * * * * quarterly\n").unwrap();
    let t = SUNDAY_0930;
    let mut s = Scheduler::new(t - 1);
    let ds = s.wake(t, &tab);
    assert_eq!(ds, vec![Dispatch { entry: 0, minute: t }]);
    let mut s2 = Scheduler::new(t);
    let ds2 = s2.wake(t + 1, &tab);
    assert_eq!(ds2, Vec::<Dispatch>::new());
}
