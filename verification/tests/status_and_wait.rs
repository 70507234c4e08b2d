use yuru_auto_backup_gdrive::backup::JobSummary;
use yuru_auto_backup_gdrive::clock::LocalDateTime;
use yuru_auto_backup_gdrive::config::Config;
use yuru_auto_backup_gdrive::drive_waiter::{wait_step, DriveWaitError, WaitStep};
use yuru_auto_backup_gdrive::status::build_status;

#[test]
fn status_copies_the_settings_and_schedules_the_next_run() {
    let now = LocalDateTime::new(1_777_000_000, 0, 0).unwrap();
    let cfg = Config {
        source: Some("/src".into()),
        last_summary: Some(JobSummary { copied: 3, errors: 1 }),
        ..Config::default()
    };
    let st = build_status(cfg.clone(), true, now);
    assert!(st.running);
    assert_eq!(st.source, cfg.source);
    assert_eq!(st.last_summary, cfg.last_summary);
    assert_eq!(st.schedule_time, "09:00");
    let next = st.next_run_at.unwrap();
    assert!(next.utc_secs > now.utc_secs);
    assert!(next.utc_secs <= now.utc_secs + 86_400);

    let broken = Config { schedule_time: "soon".into(), ..Config::default() };
    assert_eq!(build_status(broken, false, now).next_run_at, None);
}

#[test]
fn waiting_stops_when_ready_or_out_of_time() {
    assert_eq!(wait_step("/g", true, 999_000_000_000, 1), WaitStep::Ready);
    assert_eq!(wait_step("/g", false, 5, 10), WaitStep::Sleep);
    assert_eq!(
        wait_step("/g", false, 10, 10),
        WaitStep::GiveUp(DriveWaitError::Timeout("/g".to_string()))
    );
}
