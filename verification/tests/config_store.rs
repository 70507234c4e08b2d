use std::path::Path;

use yuru_auto_backup_gdrive::backup::JobSummary;
use yuru_auto_backup_gdrive::config::{autostart_change, AutostartChange, Config, ConfigError, ConfigStore};

fn store() -> ConfigStore {
    ConfigStore::new(Path::new("/data").join("config.json").to_str().unwrap().to_string())
}

fn parse_failed() -> ConfigError {
    ConfigError::ParseFailed { path: "config.json".into(), message: "expected value".into() }
}

#[test]
fn load_returns_default_when_file_missing() {
    let cfg = store().resolve_load(false, Err(ConfigError::LockPoisoned), None).unwrap();
    assert_eq!(cfg, Config::default());
    assert_eq!(cfg.schedule_time, "09:00");
    assert!(cfg.auto_start);
}

#[test]
fn load_falls_back_to_backup_when_primary_is_broken() {
    let cfg = Config { schedule_time: "11:30".into(), ..Config::default() };
    let loaded = store().resolve_load(true, Err(parse_failed()), Some(Ok(cfg))).unwrap();
    assert_eq!(loaded.schedule_time, "11:30");
}

#[test]
fn load_returns_default_when_primary_is_broken_and_no_backup_works() {
    let loaded = store().resolve_load(true, Err(parse_failed()), None).unwrap();
    assert_eq!(loaded, Config::default());
    let loaded = store().resolve_load(true, Err(parse_failed()), Some(Err(parse_failed()))).unwrap();
    assert_eq!(loaded, Config::default());
}

#[test]
fn load_reports_unreadable_primary_without_backup() {
    let err = ConfigError::ReadFailed { path: "config.json".into(), message: "denied".into() };
    assert_eq!(store().resolve_load(true, Err(err.clone()), None), Err(err));
}

#[test]
fn load_prefers_a_readable_primary() {
    let primary = Config { schedule_time: "14:30".into(), ..Config::default() };
    let backup = Config { schedule_time: "08:00".into(), ..Config::default() };
    let loaded = store().resolve_load(true, Ok(primary.clone()), Some(Ok(backup))).unwrap();
    assert_eq!(loaded, primary);
}

#[test]
fn backup_and_tmp_paths_replace_the_extension() {
    let st = store();
    let dir = Path::new("/data");
    assert_eq!(st.backup_path(), dir.join("config.json.bak").to_str().unwrap());
    assert_eq!(st.tmp_path(), dir.join("config.json.tmp").to_str().unwrap());
    let plan = st.save_plan();
    assert_eq!(plan.parent.as_deref(), Some("/data"));
    assert_eq!(plan.target, st.path());
    let bare = ConfigStore::new("settings".to_string());
    assert_eq!(bare.backup_path(), "settings.json.bak");
    assert_eq!(bare.save_plan().parent.as_deref(), Some(""));
}

#[test]
fn update_keeps_the_run_record() {
    let existing = Config {
        last_summary: Some(JobSummary { copied: 2, errors: 0 }),
        ..Config::default()
    };
    let incoming = Config { schedule_time: "17:45".into(), auto_start: false, ..Config::default() };
    let merged = incoming.with_run_state_of(&existing);
    assert_eq!(merged.schedule_time, "17:45");
    assert!(!merged.auto_start);
    assert_eq!(merged.last_summary, Some(JobSummary { copied: 2, errors: 0 }));
}

#[test]
fn autostart_is_changed_only_when_it_differs() {
    assert_eq!(autostart_change(true, false), AutostartChange::Enable);
    assert_eq!(autostart_change(false, true), AutostartChange::Disable);
    assert_eq!(autostart_change(true, true), AutostartChange::Keep);
    assert_eq!(autostart_change(false, false), AutostartChange::Keep);
}
