use tempfile::{tempdir, Builder};
use yuru_auto_backup_gdrive::drive_detector::{
    dedup_existing, drive_letter_probes, from_conventional_paths_in, from_drive_letters,
    google_drive_path, registry_candidate, DetectionSource, DriveCandidate,
};
use yuru_auto_backup_gdrive::paths::PathStyle;

fn s(p: &std::path::Path) -> String {
    p.to_str().unwrap().to_string()
}

fn conventional(home: &std::path::Path) -> Vec<DriveCandidate> {
    let gd = google_drive_path(&s(home), PathStyle::native());
    from_conventional_paths_in(&s(home), std::path::Path::new(&gd).is_dir())
}

#[test]
fn conventional_returns_empty_when_no_google_drive_folder() {
    let tmp = tempdir().unwrap();
    let result = conventional(tmp.path());
    assert!(result.is_empty());
}

#[test]
fn conventional_returns_candidate_when_google_drive_folder_exists() {
    let tmp = tempdir().unwrap();
    let gd = tmp.path().join("Google Drive");
    let _made = Builder::new().prefix("Google Drive").rand_bytes(0).tempdir_in(tmp.path()).unwrap();

    let result = conventional(tmp.path());
    assert_eq!(result.len(), 1);
    assert_eq!(result[0].path, s(&gd));
    assert_eq!(result[0].source, DetectionSource::Conventional);
}

fn dirs(items: &[DriveCandidate]) -> Vec<bool> {
    items.iter().map(|c| std::path::Path::new(&c.path).is_dir()).collect()
}

#[test]
fn dedup_filters_out_nonexistent_paths() {
    let tmp = tempdir().unwrap();
    let existing = tmp.path().join("keep");
    let _made = Builder::new().prefix("keep").rand_bytes(0).tempdir_in(tmp.path()).unwrap();
    let missing = tmp.path().join("gone");

    let input = vec![
        DriveCandidate { path: s(&existing), label: "a".into(), source: DetectionSource::Conventional },
        DriveCandidate { path: s(&missing), label: "b".into(), source: DetectionSource::Conventional },
    ];
    let flags = dirs(&input);
    let out = dedup_existing(input, &flags);
    assert_eq!(out.len(), 1);
    assert_eq!(out[0].path, s(&existing));
}

#[test]
fn dedup_removes_duplicate_paths_preserving_first() {
    let tmp = tempdir().unwrap();
    let p = tmp.path().join("dup");
    let _made = Builder::new().prefix("dup").rand_bytes(0).tempdir_in(tmp.path()).unwrap();

    let input = vec![
        DriveCandidate { path: s(&p), label: "first".into(), source: DetectionSource::Registry },
        DriveCandidate { path: s(&p), label: "second".into(), source: DetectionSource::Conventional },
    ];
    let flags = dirs(&input);
    let out = dedup_existing(input, &flags);
    assert_eq!(out.len(), 1);
    assert_eq!(out[0].label, "first");
    assert_eq!(out[0].source, DetectionSource::Registry);
}

#[test]
fn dedup_treats_a_trailing_separator_as_the_same_path() {
    let input = vec![
        DriveCandidate { path: "/g/My Drive".into(), label: "a".into(), source: DetectionSource::Registry },
        DriveCandidate { path: "/g/My Drive/".into(), label: "b".into(), source: DetectionSource::DriveLetter },
        DriveCandidate { path: "/g/Other".into(), label: "c".into(), source: DetectionSource::DriveLetter },
    ];
    let out = dedup_existing(input, &[true, true, true]);
    assert_eq!(out.iter().map(|c| c.label.as_str()).collect::<Vec<_>>(), vec!["a", "c"]);
}

#[test]
fn drive_letters_are_probed_in_order() {
    let probes = drive_letter_probes(PathStyle { separator: '\\' });
    assert_eq!(probes.len(), 104);
    assert_eq!(probes[0].root, "A:\\");
    assert_eq!(probes[0].path, "A:\\マイドライブ");
    assert_eq!(probes[7].path, "B:\\Shared drives");
    assert_eq!(probes[103].label, "Shared drives");
    let mut roots = vec![false; 104];
    let mut paths = vec![false; 104];
    roots[25] = true;
    paths[25] = true;
    paths[26] = true;
    let found = from_drive_letters(&probes, &roots, &paths);
    assert_eq!(found.len(), 1);
    assert_eq!(found[0].path, "G:\\My Drive");
    assert_eq!(found[0].source, DetectionSource::DriveLetter);
}

#[test]
fn registry_values_become_candidates_only_for_folders() {
    let c = registry_candidate("MountPoint".into(), "G:\\".into(), true).unwrap();
    assert_eq!(c.label, "MountPoint");
    assert_eq!(c.source, DetectionSource::Registry);
    assert!(registry_candidate("x".into(), "nowhere".into(), false).is_none());
}

#[test]
fn dedup_compares_paths_as_pathbuf_does() {
    let c = |p: &str, label: &str| DriveCandidate {
        path: p.to_string(),
        label: label.to_string(),
        source: DetectionSource::Conventional,
    };
    let items = vec![c("./x", "a"), c("x", "b"), c("x/", "c"), c("./x", "d"), c("x/./", "e")];
    let all_exist = vec![true; items.len()];
    // A leading `.` is a component of its own; a trailing separator or a later `.` is not.
    let kept = dedup_existing(items.clone(), &all_exist);
    assert_eq!(kept, vec![items[0].clone(), items[1].clone()]);
    assert_eq!(
        std::path::PathBuf::from("./x") == std::path::PathBuf::from("x"),
        false
    );
    assert_eq!(std::path::PathBuf::from("x/./") == std::path::PathBuf::from("x"), true);
}
