use chrono::{DateTime, Local, NaiveDate, TimeZone};
use yuru_auto_backup_gdrive::clock::{LocalDateTime, ScheduleTime};
use yuru_auto_backup_gdrive::config::Config;
use yuru_auto_backup_gdrive::scheduler::{
    action_after_load_failure, action_after_wait, needs_catch_up, next_run_after, next_run_plan,
    parse_schedule, pending_after, schedule_deadline, should_catch_up, wait_for, wait_plan,
    JobReporter, LoopAction, NoopReporter,
    ScheduleError, SchedulerCommand, Wake,
};
use yuru_auto_backup_gdrive::backup::JobSummary;

fn to_lib(d: DateTime<Local>) -> LocalDateTime {
    LocalDateTime::new(
        d.timestamp(),
        d.timestamp_subsec_nanos(),
        d.offset().local_minus_utc(),
    )
    .unwrap()
}

fn dt(y: i32, mo: u32, d: u32, h: u32, mi: u32) -> LocalDateTime {
    to_lib(
        Local
            .from_local_datetime(
                &NaiveDate::from_ymd_opt(y, mo, d)
                    .unwrap()
                    .and_hms_opt(h, mi, 0)
                    .unwrap(),
            )
            .single()
            .unwrap(),
    )
}

fn time(h: u32, m: u32) -> ScheduleTime {
    ScheduleTime::from_hm_opt(h, m).unwrap()
}

#[test]
fn parses_valid_hh_mm() {
    assert_eq!(parse_schedule("09:00").unwrap(), time(9, 0));
    assert_eq!(parse_schedule("23:59").unwrap(), time(23, 59));
    assert_eq!(parse_schedule("00:00").unwrap(), time(0, 0));
}

#[test]
fn trims_whitespace() {
    assert_eq!(parse_schedule("  09:00  ").unwrap(), time(9, 0));
}

#[test]
fn rejects_invalid_formats() {
    assert!(parse_schedule("9:00").is_err());
    assert!(parse_schedule("25:00").is_err());
    assert!(parse_schedule("09:60").is_err());
    assert!(parse_schedule("").is_err());
    assert!(parse_schedule("nine").is_err());
}

#[test]
fn rejection_carries_the_text_as_given() {
    assert_eq!(
        parse_schedule(" 24:00 "),
        Err(ScheduleError::InvalidFormat(" 24:00 ".to_string()))
    );
    assert!(parse_schedule("０９:００").is_err());
    assert_eq!(parse_schedule("\t12:34\n").unwrap(), time(12, 34));
}

#[test]
fn schedules_for_today_when_before_scheduled_time() {
    let now = dt(2026, 4, 24, 7, 0);
    let next = next_run_after(now, time(9, 0));
    assert_eq!(next, dt(2026, 4, 24, 9, 0));
}

#[test]
fn schedules_for_tomorrow_when_after_scheduled_time() {
    let now = dt(2026, 4, 24, 10, 0);
    let next = next_run_after(now, time(9, 0));
    assert_eq!(next, dt(2026, 4, 25, 9, 0));
}

#[test]
fn schedules_for_tomorrow_when_exactly_at_scheduled_time() {
    let now = dt(2026, 4, 24, 9, 0);
    let next = next_run_after(now, time(9, 0));
    assert_eq!(next, dt(2026, 4, 25, 9, 0));
}

#[test]
fn returns_false_when_before_scheduled_time() {
    let now = dt(2026, 4, 24, 7, 0);
    assert!(!should_catch_up(now, time(9, 0), None));
}

#[test]
fn returns_true_when_past_scheduled_time_and_never_ran() {
    let now = dt(2026, 4, 24, 10, 0);
    assert!(should_catch_up(now, time(9, 0), None));
}

#[test]
fn returns_true_when_past_scheduled_time_and_last_run_was_yesterday() {
    let now = dt(2026, 4, 24, 10, 0);
    let last = dt(2026, 4, 23, 9, 0);
    assert!(should_catch_up(now, time(9, 0), Some(last)));
}

#[test]
fn returns_false_when_past_scheduled_time_but_already_ran_today() {
    let now = dt(2026, 4, 24, 15, 0);
    let last = dt(2026, 4, 24, 9, 0);
    assert!(!should_catch_up(now, time(9, 0), Some(last)));
}

#[test]
fn catch_up_happens_only_once_a_day() {
    let now = dt(2026, 4, 24, 10, 0);
    let cfg = Config::default();
    assert!(needs_catch_up(&cfg, now));
    let summary = yuru_auto_backup_gdrive::backup::JobSummary { copied: 1, errors: 0 };
    let ran = cfg.with_run_recorded(now, summary);
    assert!(!needs_catch_up(&ran, dt(2026, 4, 24, 23, 59)));
    assert!(needs_catch_up(&ran, dt(2026, 4, 25, 9, 0)));
}

#[test]
fn next_run_plan_adds_a_day_only_when_today_has_passed() {
    let now = LocalDateTime::new(1_000_000, 5, 0).unwrap();
    let later = LocalDateTime::new(1_000_100, 0, 0).unwrap();
    let earlier = LocalDateTime::new(999_000, 0, 0).unwrap();
    assert_eq!(next_run_plan(now, Some(later)), (later, false));
    assert_eq!(next_run_plan(now, Some(earlier)), (earlier, true));
    assert_eq!(next_run_plan(now, None), (now, true));
    assert_eq!(next_run_plan(now, Some(now)), (now, true));
}

#[test]
fn wait_plan_counts_down_to_the_next_run() {
    let now = dt(2026, 4, 24, 7, 0);
    let cfg = Config::default();
    let w = wait_plan(&cfg, now).unwrap();
    let next = dt(2026, 4, 24, 9, 0);
    assert_eq!(w.secs as i64, next.utc_secs - now.utc_secs);
    assert_eq!(w.nanos, 0);
    let bad = Config { schedule_time: "7 o'clock".to_string(), ..Config::default() };
    assert_eq!(
        wait_plan(&bad, now),
        Err(ScheduleError::InvalidFormat("7 o'clock".to_string()))
    );
}

#[test]
fn loop_actions_follow_the_wake_reason() {
    assert_eq!(action_after_wait(Wake::Command(SchedulerCommand::RunNow)), LoopAction::RunManual);
    assert_eq!(
        action_after_wait(Wake::Command(SchedulerCommand::ReloadConfig)),
        LoopAction::Reload
    );
    assert_eq!(action_after_wait(Wake::Command(SchedulerCommand::Shutdown)), LoopAction::Stop);
    assert_eq!(action_after_wait(Wake::TimedOut), LoopAction::RunScheduled);
    assert_eq!(action_after_wait(Wake::Disconnected), LoopAction::Stop);
    assert_eq!(action_after_load_failure(Wake::Command(SchedulerCommand::RunNow)), LoopAction::Reload);
    assert_eq!(action_after_load_failure(Wake::TimedOut), LoopAction::Reload);
    assert_eq!(action_after_load_failure(Wake::Disconnected), LoopAction::Stop);
}

#[test]
fn sender_reports_undelivered_commands() {
    let (tx, rx) = std::sync::mpsc::channel();
    let sender = yuru_auto_backup_gdrive::scheduler::SchedulerSender::new(tx);
    assert!(sender.run_now().0.is_ok());
    assert_eq!(rx.recv().unwrap(), SchedulerCommand::RunNow);
    assert!(sender.shutdown().0.is_ok());
    assert_eq!(rx.recv().unwrap(), SchedulerCommand::Shutdown);
    drop(rx);
    let err = sender.reload().0.unwrap_err();
    assert_eq!(err.0, SchedulerCommand::ReloadConfig);
}

#[test]
fn noop_reporter_accepts_every_event() {
    let reporter: Box<dyn JobReporter> = Box::new(NoopReporter);
    reporter.job_started();
    reporter.job_finished(JobSummary { copied: 3, errors: 1 });
    reporter.job_errored("Source or destination not configured".to_string());
    reporter.status_changed();
}

#[test]
fn manual_run_keeps_the_pending_scheduled_run() {
    let due = LocalDateTime::new(2_000_000, 0, 0).unwrap();
    let before = LocalDateTime::new(1_999_000, 0, 0).unwrap();
    let after = LocalDateTime::new(2_000_010, 0, 0).unwrap();
    // A manual run that ends before the scheduled moment leaves it pending.
    assert_eq!(pending_after(LoopAction::RunManual, Some(due), before), (Some(due), false));
    // One that ends after it came due: the scheduled run is skipped, not started again.
    assert_eq!(pending_after(LoopAction::RunManual, Some(due), after), (None, true));
    assert_eq!(pending_after(LoopAction::RunManual, Some(due), due), (None, true));
    // A scheduled run or a reload computes the next one afresh.
    assert_eq!(pending_after(LoopAction::RunScheduled, Some(due), before), (None, false));
    assert_eq!(pending_after(LoopAction::Reload, Some(due), before), (None, false));
    assert_eq!(pending_after(LoopAction::RunManual, None, before), (None, false));
}

#[test]
fn deadline_and_wait_for_it() {
    let now = dt(2026, 4, 24, 10, 30);
    let cfg = Config::default();
    let next = schedule_deadline(&cfg, now).unwrap();
    assert_eq!(next, dt(2026, 4, 25, 9, 0));
    let w = wait_for(now, next);
    assert_eq!(w.secs as i64, next.utc_secs - now.utc_secs);
    assert_eq!(w.nanos, 0);
    let late = LocalDateTime::new(now.utc_secs, 500, now.offset_secs).unwrap();
    let w = wait_for(late, now);
    assert_eq!((w.secs, w.nanos), (1, 0));
}
