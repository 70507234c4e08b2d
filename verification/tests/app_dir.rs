use tempfile::tempdir;
use yuru_auto_backup_gdrive::app_dir::{AppDir, AppDirError};

fn s(p: &std::path::Path) -> String {
    p.to_str().unwrap().to_string()
}

#[test]
fn at_sets_root_and_derives_paths() {
    let tmp = tempdir().unwrap();
    let dir = AppDir::at(s(tmp.path()));
    assert_eq!(dir.root(), s(tmp.path()));
    assert_eq!(dir.config_path(), s(&tmp.path().join("config.json")));
    assert_eq!(dir.log_dir(), s(&tmp.path().join("logs")));
    assert_eq!(dir.log_file(), s(&tmp.path().join("logs").join("backup.log")));
}

#[test]
fn resolve_prefers_the_portable_folder() {
    let dir = AppDir::resolve(Some("/opt/app/data".into()), Some("/home/u".into()), None).unwrap();
    assert_eq!(dir.root(), "/opt/app/data");
}

#[test]
fn resolve_falls_back_to_the_home_folder() {
    let dir = AppDir::resolve(None, None, Some("/home/u".into())).unwrap();
    assert_eq!(dir.root(), s(&std::path::Path::new("/home/u").join("yuru-auto-backup-gdrive")));
    let dir = AppDir::resolve(None, Some("/profile/".into()), Some("/home/u".into())).unwrap();
    assert_eq!(dir.root(), "/profile/yuru-auto-backup-gdrive");
    assert_eq!(AppDir::resolve(None, None, None).err(), Some(AppDirError::HomeNotFound));
}

#[test]
fn required_dirs_are_root_then_logs() {
    let dir = AppDir::at("/x/data".to_string());
    assert_eq!(dir.required_dirs(), vec![dir.root().to_string(), dir.log_dir()]);
}
