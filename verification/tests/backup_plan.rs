use yuru_auto_backup_gdrive::backup::{
    part_path, BackupError, BackupJob, EntryFacts, JobOutcome, JobSummary, PlannedCopy,
};

fn file(p: &str) -> EntryFacts {
    EntryFacts::new(p.to_string(), true, vec![])
}

#[test]
fn roots_are_checked_source_first() {
    let job = BackupJob::new("/src".into(), "/dest".into());
    assert_eq!(job.check_roots(false, false), Err(BackupError::SourceMissing("/src".into())));
    assert_eq!(job.check_roots(true, false), Err(BackupError::DestinationMissing("/dest".into())));
    assert_eq!(job.check_roots(true, true), Ok(()));
}

#[test]
fn plan_copies_matching_files_flat_with_latest_suffix() {
    let job = BackupJob::new("/src".into(), "/dest".into());
    let entries = vec![
        file("/src/250304(1)_a/deep/one.prproj"),
        file("/src/250304(2)_b/two.prproj"),
        file("/src/250304(1)_ok/Adobe Premiere Pro Auto-Save/skip.prproj"),
        file("/src/250304(1)_ok/readme.txt"),
        file("/src/plain_folder/skip.prproj"),
    ];
    let plan = job.plan(&entries, &[]);
    assert_eq!(
        plan,
        vec![
            PlannedCopy {
                source: "/src/250304(1)_a/deep/one.prproj".into(),
                destination: "/dest/one_Latest.prproj".into(),
            },
            PlannedCopy {
                source: "/src/250304(2)_b/two.prproj".into(),
                destination: "/dest/two_Latest.prproj".into(),
            },
        ]
    );
}

#[test]
fn plan_skips_the_destination_inside_the_source() {
    let job = BackupJob::new("/src".into(), "/src/250304(1)_a/backup".into());
    let entries = vec![
        file("/src/250304(1)_a/main.prproj"),
        file("/src/250304(1)_a/backup/old_Latest.prproj"),
    ];
    let plan = job.plan(&entries, &[]);
    assert_eq!(plan.len(), 1);
    assert_eq!(plan[0].destination, "/src/250304(1)_a/backup/main_Latest.prproj");
}

#[test]
fn plan_respects_excluded_folders_and_names() {
    let job = BackupJob::new("/src".into(), "/dest".into())
        .with_excluded_folders(vec!["/src/250304(1)_a/Proxy".into()])
        .with_excluded_folder_names(vec!["  ".into(), "Cache".into()]);
    assert_eq!(job.lowered_excluded_names(), vec!["cache".to_string()]);
    assert_eq!(
        job.effective_excluded_folders(),
        vec!["/src/250304(1)_a/Proxy".to_string(), "/dest".to_string()]
    );
    let entries = vec![
        file("/src/250304(1)_a/keep.prproj"),
        file("/src/250304(1)_a/Proxy/skip.prproj"),
        file("/src/250304(1)_a/CACHE/a.prproj"),
    ];
    let plan = job.plan(&entries, &[]);
    assert_eq!(plan.len(), 1);
    assert_eq!(plan[0].destination, "/dest/keep_Latest.prproj");
}

#[test]
fn outcome_counts_match_the_recorded_files() {
    let mut outcome = JobOutcome::new();
    outcome.record("a".into(), Ok(()));
    outcome.record("b".into(), Err("denied".into()));
    outcome.record("c".into(), Ok(()));
    assert_eq!(outcome.summary, JobSummary { copied: 2, errors: 1 });
    assert_eq!(outcome.copied_files, vec!["a".to_string(), "c".to_string()]);
    assert_eq!(outcome.errored_files, vec![("b".to_string(), "denied".to_string())]);
}

#[test]
fn part_file_sits_beside_the_destination() {
    assert_eq!(part_path("/dest/p_Latest.prproj"), "/dest/p_Latest.prproj.part");
    let job = BackupJob::new("/s".into(), "/d".into());
    assert_eq!(job.destination_for("/s/x/.hidden"), Some("/d/.hidden_Latest.prproj".into()));
    assert_eq!(job.destination_for("/s/x/a.b.prproj"), Some("/d/a.b_Latest.prproj".into()));
    assert_eq!(job.destination_for("/s/.."), None);
}

#[test]
fn run_outcome_reports_each_copy_once_in_order() {
    let copy = |s: &str| yuru_auto_backup_gdrive::backup::PlannedCopy {
        source: s.to_string(),
        destination: format!("/dest/{s}"),
    };
    let plan = vec![copy("a"), copy("b"), copy("c")];
    let results = vec![Ok(()), Err("disk full".to_string()), Ok(())];
    let o = yuru_auto_backup_gdrive::backup::run_outcome(&plan, &results);
    assert_eq!(o.copied_files, vec!["a".to_string(), "c".to_string()]);
    assert_eq!(o.errored_files, vec![("b".to_string(), "disk full".to_string())]);
    assert_eq!((o.summary.copied, o.summary.errors), (2, 1));
    let empty = yuru_auto_backup_gdrive::backup::run_outcome(&[], &[]);
    assert_eq!((empty.summary.copied, empty.summary.errors), (0, 0));
}
