use drydock::config::{Config, StatusConfig};
use drydock::model::ChangeKind;
use drydock::porcelain::{changed_path, probe_work, stat_changed_files, status_args};

fn cfg(max_files: usize) -> StatusConfig {
    let mut cfg = Config::default().status;
    cfg.max_files = max_files;
    cfg
}

const RAW: &str = "1 M. N... 100644 100644 100644 a b src/main.rs\n\
                   1 .M N... 100644 100644 100644 a b some dir/a file.txt\n\
                   1 MM N... 100644 100644 100644 a b both.rs\n\
                   2 R. N... 100644 100644 100644 a b R100 new.rs\told.rs\n\
                   u UU N... 1 2 3 4 a b c conflicted.rs\n\
                   ? new dir/\n\
                   # branch.head main\n\
                   noise\n";

#[test]
fn records_are_counted_by_their_codes() {
    let work = probe_work(RAW, &cfg(100));
    assert_eq!(
        (work.staged, work.unstaged, work.untracked, work.conflicts),
        (3, 2, 1, 1)
    );
    assert!(!work.truncated);
    let seen: Vec<(&str, &str, ChangeKind)> = work
        .files
        .iter()
        .map(|f| (f.path.as_str(), f.code.as_str(), f.kind))
        .collect();
    assert_eq!(
        seen,
        vec![
            ("src/main.rs", "M.", ChangeKind::Staged),
            ("some dir/a file.txt", ".M", ChangeKind::Unstaged),
            ("both.rs", "MM", ChangeKind::Unstaged),
            ("new.rs", "R.", ChangeKind::Staged),
            ("conflicted.rs", "UU", ChangeKind::Conflicted),
            ("new dir/", "??", ChangeKind::Untracked),
        ]
    );
}

#[test]
fn files_past_the_limit_are_counted_but_not_kept() {
    let work = probe_work(RAW, &cfg(2));
    assert_eq!(work.files.len(), 2);
    assert!(work.truncated);
    assert_eq!(work.staged, 3);
    assert!(probe_work("", &cfg(0)).files.is_empty());
    assert!(!probe_work("", &cfg(0)).truncated);
}

#[test]
fn the_newest_file_dates_the_working_tree() {
    let work = probe_work("? a\n? b\n? c\n", &cfg(10));
    let work = stat_changed_files(work, &vec![Some(5), None, Some(3)]);
    assert_eq!(work.newest_mtime, Some(5));
    assert_eq!(work.files[0].mtime, Some(5));
    assert_eq!(work.files[1].mtime, None);
    let none = stat_changed_files(probe_work("? a\n", &cfg(10)), &vec![None]);
    assert_eq!(none.newest_mtime, None);
}

#[test]
fn a_changed_directory_is_found_without_its_slash() {
    let work = probe_work("? new dir/\n", &cfg(10));
    assert_eq!(changed_path("/repo", &work.files[0]), "/repo/new dir");
}

#[test]
fn the_scan_leaves_branches_alone() {
    let args = status_args(&Config::default().status);
    assert_eq!(args[0], "status");
    assert_eq!(args[1], "--porcelain=v2");
    assert_eq!(args[3], "--ignore-submodules=dirty");
    assert_eq!(args.len(), 4);
}
