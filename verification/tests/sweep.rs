use drydock::changes::{Changes, FileChange, FileStatus};
use drydock::config::{load_or_default, Config, OrgConfig, OrgProvider};
use drydock::discover::Discovered;
use drydock::duration::Duration;
use drydock::filter::MatchMode;
use drydock::git::{changelog_paths, work_key};
use drydock::model::{
    Head, RefsInfo, RepoStatus, Visibility, VisibilityInfo, VisibilityStatus, WorkInfo,
};
use drydock::org::{plan, scan_root_for};
use drydock::pathname::{dirs_above, parent_of};
use drydock::probe::{
    fetch_all, fetch_roots, fill_refs, fill_work, sweep_repos, take_scan, take_visibility,
    tally_work, warm_order, work_head_sha, Fetch, Tier, WorkOutcome,
};
use drydock::provider::OrgRepo;
use drydock::report::list_table;
use drydock::sync::clone_dir;

fn refs() -> RefsInfo {
    RefsInfo {
        head: Head::Branch("main".into()),
        branches: Vec::new(),
        last_commit: None,
        stashes: 0,
        operation: None,
        newest_tag: None,
        described_tag: None,
        commits_since_tag: None,
        since_tag_subjects: Vec::new(),
        tags_orphaned: false,
        index_mtime: None,
        fetched_at: None,
        remote_url: None,
        changelog: None,
        is_bare: false,
        is_shallow: false,
    }
}

fn work(untracked: u32, newest: Option<i64>) -> WorkInfo {
    WorkInfo {
        staged: 0,
        unstaged: 0,
        untracked,
        conflicts: 0,
        newest_mtime: newest,
        files: Vec::new(),
        truncated: false,
    }
}

fn repo(root: &str) -> RepoStatus {
    RepoStatus::new(root.into(), "g".into(), "r".into())
}

fn found(root: &str, group: &str) -> Discovered {
    Discovered {
        root: root.into(),
        group: group.into(),
        name: "r".into(),
    }
}

#[test]
fn a_failed_probe_carries_the_last_row_forward() {
    let mut known = repo("/r");
    known.refs = Some(refs());
    known.work = Some(work(3, None));
    known.work_probed_at = 40;

    let mut status = repo("/r");
    assert!(!fill_refs(&mut status, Err("git failed".into()), Some(&known), 50));
    assert_eq!(status.error.as_deref(), Some("git failed"));
    assert_eq!(status.refs_probed_at, 50);
    assert_eq!(status.dirty_total(), 3);
    assert_eq!(status.work_probed_at, 40);

    let mut status = repo("/r");
    assert!(fill_refs(&mut status, Ok(refs()), Some(&known), 60));
    assert!(status.error.is_none());
    assert!(status.refs.is_some());
    assert!(status.work.is_none());
}

#[test]
fn unmoved_work_is_used_again_and_stale_work_is_not() {
    let cfg = Config::default();
    let key = work_key(None, (Some(1), Some(2)));
    let mut known = repo("/r");
    known.work = Some(work(3, None));
    known.work_key = Some(key.clone());
    known.work_probed_at = 1_000;

    let mut status = repo("/r");
    status.refs = Some(refs());
    let reused = fill_work(&mut status, &cfg, Some(&known), Tier::Full, false, &key, 1_010);
    assert_eq!(reused, Some(WorkOutcome::Cached));
    assert_eq!(status.dirty_total(), 3);

    let moved = work_key(None, (Some(9), Some(2)));
    let mut status = repo("/r");
    status.refs = Some(refs());
    let scan = fill_work(&mut status, &cfg, Some(&known), Tier::Full, false, &moved, 1_010);
    assert_eq!(scan, None, "a scan is needed");
    let done = take_scan(&mut status, Ok(work(1, None)), moved, 1_020);
    assert_eq!(done, WorkOutcome::Scanned);
    assert_eq!((status.dirty_total(), status.work_probed_at), (1, 1_020));

    let mut status = repo("/r");
    status.refs = Some(refs());
    let scan = fill_work(&mut status, &cfg, Some(&known), Tier::Full, true, &key, 1_010);
    assert_eq!(scan, None, "a forced scan is one");
    let done = take_scan(&mut status, Err("no tree".into()), key, 1_020);
    assert_eq!(done, WorkOutcome::Skipped);
    assert_eq!(status.error.as_deref(), Some("no tree"));
    assert_eq!(work_head_sha(&status), None);
}

#[test]
fn a_visibility_answer_is_taken_and_a_failure_is_not() {
    let mut status = repo("/r");
    take_visibility(&mut status, Ok(Visibility::Public), None, 7);
    assert_eq!(status.visibility_label(), "public");
    assert_eq!(status.visibility.as_ref().unwrap().checked_at, 7);

    let mut known = repo("/r");
    known.visibility = Some(VisibilityInfo {
        status: VisibilityStatus::Known(Visibility::Private),
        checked_at: 3,
    });
    let mut status = repo("/r");
    take_visibility(&mut status, Err("denied\nmore".into()), Some(&known), 9);
    assert_eq!(status.visibility_label(), "private");
    let mut status = repo("/r");
    take_visibility(&mut status, Err("denied\nmore".into()), None, 9);
    assert_eq!(
        status.visibility.unwrap().status,
        VisibilityStatus::CheckFailed("denied".into())
    );
}

#[test]
fn fetches_are_scoped_and_counted() {
    let repos = vec![found("/a", "x"), found("/b", "y")];
    assert_eq!(fetch_roots(&Fetch::All, &repos), vec!["/a", "/b"]);
    assert_eq!(fetch_roots(&Fetch::Group("y".into()), &repos), vec!["/b"]);
    assert!(fetch_roots(&Fetch::Skip, &repos).is_empty());
    let report = fetch_all(&vec![true, false, true]);
    assert_eq!((report.attempted, report.failed), (3, 1));
}

#[test]
fn the_most_recently_active_repos_go_first() {
    let mut warm = repo("/b");
    warm.work = Some(work(1, Some(500)));
    let mut cool = repo("/c");
    cool.work = Some(work(1, Some(100)));
    let repos = vec![found("/a", "g"), found("/c", "g"), found("/b", "g")];
    let order: Vec<String> = warm_order(repos, &vec![warm, cool])
        .into_iter()
        .map(|d| d.root)
        .collect();
    assert_eq!(order, vec!["/b", "/c", "/a"]);
}

#[test]
fn a_sweep_ends_sorted_and_tallied() {
    let sorted: Vec<String> = sweep_repos(vec![repo("/b"), repo("/a/z"), repo("/a-b")])
        .into_iter()
        .map(|r| r.root)
        .collect();
    // By components, so `/a/z` comes in front of `/a-b`.
    assert_eq!(sorted, vec!["/a/z", "/a-b", "/b"]);
    let outcomes = vec![
        WorkOutcome::Scanned,
        WorkOutcome::Cached,
        WorkOutcome::Skipped,
        WorkOutcome::Cached,
    ];
    assert_eq!(tally_work(&outcomes), (1, 2));
}

#[test]
fn settings_fall_back_to_their_defaults() {
    let cfg = Config::default();
    assert_eq!(cfg.refresh_interval(), Duration::from_secs(300));
    assert_eq!(cfg.debounce(), Duration::from_secs(1));
    assert_eq!(cfg.remote_interval(), Duration::from_secs(3_600));
    assert_eq!(cfg.remote_timeout(), Duration::from_secs(20));
    assert_eq!(cfg.visibility_interval(), Duration::from_secs(86_400));
    assert_eq!(cfg.visibility_timeout(), Duration::from_secs(10));
    assert_eq!(cfg.work_max_age(), Some(Duration::from_secs(3_600)));
    let mut broken = Config::default();
    broken.remote.timeout = "soon".into();
    assert_eq!(broken.remote_timeout(), Duration::from_secs(20));
    let (cfg, warning) = load_or_default(Err("bad key".into()));
    assert_eq!(warning.as_deref(), Some("bad key"));
    assert_eq!(cfg.roots, vec!["~/Projects"]);
    assert_eq!(OrgProvider::Gitea.as_str(), "gitea");
    assert_eq!(MatchMode::Any.toggled(), MatchMode::All);
    assert_eq!(
        changelog_paths("/r", &cfg.release),
        vec!["/r/CHANGELOG.md", "/r/CHANGELOG", "/r/changelog.md"]
    );
}

#[test]
fn a_clone_is_found_again() {
    let api = OrgRepo {
        name: "api".into(),
        ssh_url: "".into(),
        https_url: "".into(),
        archived: false,
        fork: false,
    };
    let at = clone_dir("/fleet/acme/", &api);
    assert_eq!(at, "/fleet/acme/api");
    let next = plan(&vec![api], &vec![at.clone()], &OrgConfig::default());
    assert!(next.to_clone.is_empty());
    assert_eq!(next.to_update, vec![at]);
}

#[test]
fn directories_above_are_parents() {
    for path in ["/a//b/./c", "a/b", "/", "x", "../y/z"] {
        let mut at = path.to_string();
        for dir in dirs_above(path) {
            assert_eq!(parent_of(&at), Some(dir.clone()));
            at = dir;
        }
        assert_eq!(parent_of(&at), None);
    }
}

#[test]
fn a_root_is_added_once() {
    let roots = vec!["/fleet".to_string()];
    assert_eq!(scan_root_for("/fleet/acme", &roots), None);
    assert_eq!(
        scan_root_for("/work/acme", &roots),
        Some("/work".to_string())
    );
    let more = vec!["/fleet".to_string(), "/work".to_string()];
    assert_eq!(scan_root_for("/work/acme", &more), None);
}

#[test]
fn lines_are_summed_over_files() {
    let file = |lines| FileChange {
        path: "f".into(),
        from: None,
        status: FileStatus::Modified,
        lines,
    };
    let changes = Changes {
        header: None,
        files: vec![file(Some((3, 1))), file(None), file(Some((2, 5)))],
        patch: Vec::new(),
        truncated: false,
    };
    assert_eq!(changes.totals(), (5, 6));
    assert_eq!(FileStatus::TypeChanged.letter(), "T");
}

#[test]
fn a_table_of_the_default_columns_has_a_row_each() {
    let cfg = Config::default();
    let a = repo("/a");
    let out = list_table(&[&a], 0, false, &cfg.columns());
    assert_eq!(out.lines().count(), 2);
    assert!(out.starts_with("GROUP"));
}
