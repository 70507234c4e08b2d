use std::path::{Path, PathBuf};

use tempfile::{tempdir, Builder, NamedTempFile, TempDir};
use yuru_auto_backup_gdrive::backup::{
    folder_name_matches, path_ancestors, should_backup, EntryFacts, FolderRef,
};
use yuru_auto_backup_gdrive::paths::PathStyle;

/// Files and folders made for one test; they are removed when it ends.
#[derive(Default)]
struct Made {
    dirs: Vec<TempDir>,
    files: Vec<NamedTempFile>,
}

fn mkdir_all(made: &mut Made, path: &Path) {
    if path.is_dir() {
        return;
    }
    let parent = path.parent().unwrap();
    mkdir_all(made, parent);
    let name = path.file_name().unwrap().to_str().unwrap();
    let d = Builder::new().prefix(name).rand_bytes(0).tempdir_in(parent).unwrap();
    made.dirs.push(d);
}

fn touch_in(made: &mut Made, path: &Path) {
    let parent = path.parent().unwrap();
    mkdir_all(made, parent);
    let name = path.file_name().unwrap().to_str().unwrap();
    let f = Builder::new().prefix(name).rand_bytes(0).tempfile_in(parent).unwrap();
    made.files.push(f);
}

fn canonical(p: &str) -> Option<String> {
    Path::new(p).canonicalize().ok().map(|c| c.to_string_lossy().into_owned())
}

fn entry(p: &Path) -> EntryFacts {
    let s = p.to_str().unwrap().to_string();
    let canon = path_ancestors(&s, PathStyle::native())
        .iter()
        .map(|a| canonical(a))
        .collect();
    EntryFacts::new(s, p.is_file(), canon)
}

fn folders(v: &[PathBuf]) -> Vec<FolderRef> {
    v.iter()
        .map(|p| {
            let s = p.to_str().unwrap().to_string();
            FolderRef { canonical: canonical(&s), path: s }
        })
        .collect()
}

#[test]
fn includes_prproj_under_six_digit_folder() {
    let tmp = tempdir().unwrap();
    let mut made = Made::default();
    let p = tmp.path().join("250304(3)_クイズ").join("project.prproj");
    touch_in(&mut made, &p);
    assert!(should_backup(&entry(&p), &[], &[]));
}

#[test]
fn includes_prproj_extension_case_insensitive() {
    let tmp = tempdir().unwrap();
    let mut made = Made::default();
    let p = tmp.path().join("250304(3)_クイズ").join("PROJECT.PRPROJ");
    touch_in(&mut made, &p);
    assert!(should_backup(&entry(&p), &[], &[]));
}

#[test]
fn excludes_prproj_under_plain_folder() {
    let tmp = tempdir().unwrap();
    let mut made = Made::default();
    let p = tmp.path().join("MyProject").join("project.prproj");
    touch_in(&mut made, &p);
    assert!(!should_backup(&entry(&p), &[], &[]));
}

#[test]
fn excludes_non_prproj_under_six_digit_folder() {
    let tmp = tempdir().unwrap();
    let mut made = Made::default();
    let p = tmp.path().join("250304(1)_foo").join("notes.txt");
    touch_in(&mut made, &p);
    assert!(!should_backup(&entry(&p), &[], &[]));
}

#[test]
fn excludes_prproj_under_auto_save() {
    let tmp = tempdir().unwrap();
    let mut made = Made::default();
    let p = tmp
        .path()
        .join("250304(2)_foo")
        .join("Adobe Premiere Pro Auto-Save")
        .join("project.prproj");
    touch_in(&mut made, &p);
    assert!(!should_backup(&entry(&p), &[], &[]));
}

#[test]
fn excludes_auto_save_case_insensitive() {
    let tmp = tempdir().unwrap();
    let mut made = Made::default();
    let p = tmp
        .path()
        .join("250304(2)_foo")
        .join("adobe premiere pro auto-save")
        .join("project.prproj");
    touch_in(&mut made, &p);
    assert!(!should_backup(&entry(&p), &[], &[]));
}

#[test]
fn includes_nested_prproj_when_any_ancestor_matches() {
    let tmp = tempdir().unwrap();
    let mut made = Made::default();
    let p = tmp
        .path()
        .join("250304(1)_outer")
        .join("sub")
        .join("deeper")
        .join("file.prproj");
    touch_in(&mut made, &p);
    assert!(should_backup(&entry(&p), &[], &[]));
}

#[test]
fn excludes_when_digits_are_not_six() {
    let tmp = tempdir().unwrap();
    let mut made = Made::default();
    let p = tmp.path().join("12345(X)_five").join("project.prproj");
    touch_in(&mut made, &p);
    assert!(!should_backup(&entry(&p), &[], &[]));
}

#[test]
fn requires_opening_paren_after_six_digits() {
    let tmp = tempdir().unwrap();
    let mut made = Made::default();
    let p = tmp.path().join("250304_nosep").join("project.prproj");
    touch_in(&mut made, &p);
    assert!(!should_backup(&entry(&p), &[], &[]));
}

#[test]
fn excludes_when_under_excluded_folder_path() {
    let tmp = tempdir().unwrap();
    let mut made = Made::default();
    let proxy = tmp.path().join("250304(3)_クイズ").join("Proxy");
    let p = proxy.join("sub").join("clip.prproj");
    touch_in(&mut made, &p);
    let excluded = vec![proxy];
    assert!(!should_backup(&entry(&p), &folders(&excluded), &[]));
}

#[test]
fn excluded_folder_path_does_not_affect_siblings() {
    let tmp = tempdir().unwrap();
    let mut made = Made::default();
    let project = tmp.path().join("250304(3)_クイズ");
    let proxy = project.join("Proxy");
    touch_in(&mut made, &proxy.join("p.prproj"));
    let kept = project.join("main.prproj");
    touch_in(&mut made, &kept);
    let excluded = vec![proxy];
    assert!(should_backup(&entry(&kept), &folders(&excluded), &[]));
}

#[test]
fn excludes_when_ancestor_name_matches_case_insensitive() {
    let tmp = tempdir().unwrap();
    let mut made = Made::default();
    let p = tmp
        .path()
        .join("250304(3)_クイズ")
        .join("CACHE")
        .join("c.prproj");
    touch_in(&mut made, &p);
    let names = vec!["cache".to_string()];
    assert!(!should_backup(&entry(&p), &[], &names));
}

#[test]
fn name_exclusion_does_not_partial_match() {
    let tmp = tempdir().unwrap();
    let mut made = Made::default();
    let p = tmp
        .path()
        .join("250304(3)_クイズ")
        .join("MyCache_v2")
        .join("c.prproj");
    touch_in(&mut made, &p);
    let names = vec!["cache".to_string()];
    assert!(should_backup(&entry(&p), &[], &names));
}

#[test]
fn empty_exclusions_are_no_op() {
    let tmp = tempdir().unwrap();
    let mut made = Made::default();
    let p = tmp.path().join("250304(3)_クイズ").join("project.prproj");
    touch_in(&mut made, &p);
    assert!(should_backup(&entry(&p), &[], &[]));
}

#[test]
fn directory_named_like_a_project_file_is_not_backed_up() {
    let tmp = tempdir().unwrap();
    let mut made = Made::default();
    let p = tmp.path().join("250304(3)_x").join("folder.prproj");
    mkdir_all(&mut made, &p);
    assert!(!should_backup(&entry(&p), &[], &[]));
}

#[test]
fn full_width_digits_count_as_digits() {
    let tmp = tempdir().unwrap();
    let mut made = Made::default();
    let p = tmp.path().join("２５０３０４(1)_全角").join("a.prproj");
    touch_in(&mut made, &p);
    assert!(should_backup(&entry(&p), &[], &[]));
}

#[test]
fn excluded_folder_matching_by_canonical_form_is_excluded() {
    let path = "/data/250304(3)_sym/Proxy/clip.prproj".to_string();
    let ancestors = path_ancestors(&path, PathStyle::native());
    assert_eq!(ancestors.len(), 5);
    let mut canon: Vec<Option<String>> = vec![None; ancestors.len()];
    canon[1] = Some("/real/proxy".to_string());
    let entry = EntryFacts::new(path, true, canon);
    let alias = FolderRef {
        path: "/elsewhere/link".to_string(),
        canonical: Some("/real/proxy/".to_string()),
    };
    assert!(!should_backup(&entry, &[alias.clone()], &[]));
    let unresolved = FolderRef { path: "/elsewhere/link".to_string(), canonical: None };
    assert!(should_backup(&entry, &[unresolved], &[]));
}

/// Paths as Windows writes them, compared as Windows compares them, whatever the host.
#[test]
fn excludes_when_under_excluded_folder_path_with_different_case_on_windows() {
    let windows = PathStyle { separator: '\\' };
    let proxy = "C:\\Work\\250304(3)_クイズ\\Proxy".to_string();
    let p = format!("{proxy}\\sub\\clip.prproj");
    let n = path_ancestors(&p, windows).len();
    let facts = EntryFacts { path: p, is_file: true, ancestor_canonical: vec![None; n], style: windows };
    let excluded = vec![FolderRef { path: proxy.to_ascii_lowercase(), canonical: None }];
    assert!(!should_backup(&facts, &excluded, &[]));
    // The same exclusion, with the case kept, leaves a sibling folder alone.
    let sibling = "C:\\Work\\250304(3)_クイズ\\main.prproj".to_string();
    let m = path_ancestors(&sibling, windows).len();
    let kept = EntryFacts { path: sibling, is_file: true, ancestor_canonical: vec![None; m], style: windows };
    assert!(should_backup(&kept, &excluded, &[]));
}

#[test]
fn file_name_alone_does_not_count_as_project_folder() {
    let tmp = tempdir().unwrap();
    let mut made = Made::default();
    let p = tmp.path().join("MyProject").join("250304(3)_クイズ.prproj");
    touch_in(&mut made, &p);
    assert!(!should_backup(&entry(&p), &[], &[]));
}

#[test]
fn excluded_name_does_not_match_a_windows_drive() {
    let windows = PathStyle { separator: '\\' };
    let p = "C:\\250304(3)_クイズ\\clip.prproj".to_string();
    let n = path_ancestors(&p, windows).len();
    let facts = EntryFacts { path: p, is_file: true, ancestor_canonical: vec![None; n], style: windows };
    // `C:\` has no file name, so the name "c:" excludes nothing.
    assert!(should_backup(&facts, &[], &["c:".to_string()]));
    assert!(!should_backup(&facts, &[], &["250304(3)_クイズ".to_string()]));
}

#[test]
fn windows_prefixes_are_kept_apart() {
    let windows = PathStyle { separator: '\\' };
    assert_eq!(
        path_ancestors("C:\\a\\b.prproj", windows),
        vec!["C:\\a\\b.prproj".to_string(), "C:\\a".to_string(), "C:\\".to_string()]
    );
    assert_eq!(path_ancestors("C:x", windows), vec!["C:x".to_string(), "C:".to_string()]);
    assert_eq!(
        path_ancestors("\\\\srv\\share\\x", windows),
        vec!["\\\\srv\\share\\x".to_string(), "\\\\srv\\share\\".to_string()]
    );
    let p = "\\\\srv\\share\\proj\\250304(3)_a\\f.prproj".to_string();
    let n = path_ancestors(&p, windows).len();
    let facts = EntryFacts { path: p, is_file: true, ancestor_canonical: vec![None; n], style: windows };
    let unc = vec![FolderRef { path: "\\\\srv\\share\\proj".to_string(), canonical: None }];
    let rooted = vec![FolderRef { path: "\\srv\\share\\proj".to_string(), canonical: None }];
    assert!(!should_backup(&facts, &unc, &[]));
    assert!(should_backup(&facts, &rooted, &[]));
    let d = "C:x\\250304(3)_a\\f.prproj".to_string();
    let m = path_ancestors(&d, windows).len();
    let relative = EntryFacts { path: d, is_file: true, ancestor_canonical: vec![None; m], style: windows };
    let rooted_drive = vec![FolderRef { path: "C:\\x".to_string(), canonical: None }];
    let same_drive_dir = vec![FolderRef { path: "C:x".to_string(), canonical: None }];
    assert!(should_backup(&relative, &rooted_drive, &[]));
    assert!(!should_backup(&relative, &same_drive_dir, &[]));
}

#[test]
fn folder_pattern_needs_six_digits_then_paren() {
    assert!(folder_name_matches("250304(3)_クイズ"));
    assert!(folder_name_matches("123456("));
    assert!(!folder_name_matches("12345(6)"));
    assert!(!folder_name_matches("250304_(3)"));
    assert!(!folder_name_matches("x250304("));
}
