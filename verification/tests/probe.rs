use drydock::config::Config;
use drydock::discover::Discovered;
use drydock::git::work_key;
use drydock::model::{RepoStatus, VisibilityInfo};
use drydock::probe::{
    fill_visibility, fill_work, take_scan, visibility_fallback, visibility_still_trusted,
    work_expired, Fetch, Tier, WorkOutcome,
};

// `--group acme --fetch` should be that group's remotes, not the whole
// tree's: the other rows aren't going to be printed.
#[test]
fn a_group_scoped_fetch_only_wants_that_group() {
    let repo = |group: &str| Discovered {
        root: format!("/p/{group}/r"),
        group: group.to_string(),
        name: "r".into(),
    };
    let acme = repo("acme");
    let other = repo("other");

    let scoped = Fetch::Group("acme".into());
    assert!(scoped.wanted(&acme));
    assert!(!scoped.wanted(&other));

    assert!(Fetch::All.wanted(&other));
    assert!(!Fetch::Skip.wanted(&acme));
}

fn bare_status(is_bare: bool) -> RepoStatus {
    let mut status = RepoStatus::new("/nonexistent".to_string(), "g".into(), "r".into());
    status.refs = Some(drydock::model::RefsInfo {
        head: drydock::model::Head::Branch("main".into()),
        branches: Vec::new(),
        last_commit: None,
        stashes: 0,
        operation: None,
        newest_tag: None,
        described_tag: None,
        commits_since_tag: None,
        since_tag_subjects: Vec::new(),
        tags_orphaned: false,
        index_mtime: None,
        fetched_at: None,
        remote_url: None,
        changelog: None,
        is_bare,
        is_shallow: false,
    });
    status
}

// `git status` in a bare repo can only ever fail ("this operation must be run in
// a work tree"), so the scan is skipped outright.
#[test]
fn a_bare_repo_is_never_scanned_for_a_working_tree() {
    let cfg = Config::default();
    let mut status = bare_status(true);
    let key = work_key(None, (None, None));
    let outcome = fill_work(&mut status, &cfg, None, Tier::Full, true, &key, 0);
    assert_eq!(outcome, Some(WorkOutcome::Skipped));
    assert!(status.work.is_none());
    assert_eq!(status.error, None, "a bare repo is not an error");
    assert_eq!(status.state_label(), "bare");
}

// That skip is guarded on `is_bare` alone, so a non-bare repo still has to
// reach the scan. Here it fails, because the root does not exist -- and
// that failure is exactly what should still be recorded.
#[test]
fn a_normal_repo_still_reaches_the_working_tree_scan() {
    let cfg = Config::default();
    let mut status = bare_status(false);
    let key = work_key(None, (None, None));
    let outcome = fill_work(&mut status, &cfg, None, Tier::Full, true, &key, 0);
    assert_eq!(outcome, None, "a scan is asked for");
    take_scan(&mut status, Err("no such directory".into()), key, 0);
    assert!(status.error.is_some(), "the failed scan should be recorded");
}

fn probed_at(when: i64) -> RepoStatus {
    let mut status = RepoStatus::new("/tmp/repo".to_string(), "group".into(), "repo".into());
    status.work_probed_at = when;
    status
}

fn with_max_age(max_age: &str) -> Config {
    let mut cfg = Config::default();
    cfg.status.max_age = max_age.into();
    cfg
}

#[test]
fn cached_work_expires_once_it_outlives_max_age() {
    let cfg = with_max_age("1h");
    let prev = probed_at(1_000_000);
    assert!(!work_expired(&prev, &cfg, 1_000_000 + 3_599));
    assert!(work_expired(&prev, &cfg, 1_000_000 + 3_600));
}

#[test]
fn an_empty_max_age_trusts_the_key_indefinitely() {
    assert!(!work_expired(&probed_at(0), &with_max_age(""), i64::MAX));
}

#[test]
fn a_zero_max_age_rescans_every_sweep() {
    let cfg = with_max_age("0");
    assert!(work_expired(&probed_at(1_000_000), &cfg, 1_000_000));
}

fn visibility_info(status: drydock::model::VisibilityStatus, checked_at: i64) -> VisibilityInfo {
    VisibilityInfo { status, checked_at }
}

#[test]
fn a_known_value_within_the_interval_is_trusted() {
    let cfg = Config::default(); // 24h interval
    let info = visibility_info(
        drydock::model::VisibilityStatus::Known(drydock::model::Visibility::Public),
        1_000_000,
    );
    assert!(visibility_still_trusted(&info, &cfg, 1_000_000 + 3_600));
}

#[test]
fn a_known_value_past_the_interval_is_not_trusted() {
    let cfg = Config::default(); // 24h interval
    let info = visibility_info(
        drydock::model::VisibilityStatus::Known(drydock::model::Visibility::Public),
        1_000_000,
    );
    assert!(!visibility_still_trusted(&info, &cfg, 1_000_000 + 86_400));
}

// The bug this guards against: a repo probed while checking was off (or
// mid-failure) gets a cache entry that is *not itself an answer*. Without
// this, turning checking back on -- or a transient failure clearing up --
// wouldn't actually trigger a fresh check until the interval ran out,
// because the interval logic alone can't tell "we know this" from "we
// don't, yet" apart.
#[test]
fn checking_disabled_is_never_trusted_no_matter_how_fresh() {
    let cfg = Config::default();
    let info = visibility_info(drydock::model::VisibilityStatus::CheckingDisabled, 1_000_000);
    assert!(!visibility_still_trusted(&info, &cfg, 1_000_000));
}

#[test]
fn a_check_failure_is_never_trusted_no_matter_how_fresh() {
    let cfg = Config::default();
    let info = visibility_info(
        drydock::model::VisibilityStatus::CheckFailed("timed out".into()),
        1_000_000,
    );
    assert!(!visibility_still_trusted(&info, &cfg, 1_000_000));
}

#[test]
fn a_failed_check_falls_back_to_a_real_previous_value() {
    let known = visibility_info(
        drydock::model::VisibilityStatus::Known(drydock::model::Visibility::Private),
        1_000,
    );
    let out = visibility_fallback(Some(&known), "rate limited", 2_000);
    assert_eq!(out.status, known.status);
    // The fallback is a value worth trusting again, not the moment of
    // this failure -- so its timestamp is untouched, not bumped to now.
    assert_eq!(out.checked_at, 1_000);
}

#[test]
fn a_failed_check_does_not_fall_back_to_a_placeholder() {
    for placeholder in [
        drydock::model::VisibilityStatus::CheckingDisabled,
        drydock::model::VisibilityStatus::CheckFailed("previous failure".into()),
    ] {
        let cached = visibility_info(placeholder, 1_000);
        let out = visibility_fallback(Some(&cached), "rate limited", 2_000);
        assert_eq!(
            out.status,
            drydock::model::VisibilityStatus::CheckFailed("rate limited".into())
        );
        assert_eq!(out.checked_at, 2_000);
    }
}

#[test]
fn a_failed_check_with_nothing_cached_reports_itself() {
    let out = visibility_fallback(None, "gh: not authenticated\nrun gh auth login", 2_000);
    assert_eq!(
        out.status,
        drydock::model::VisibilityStatus::CheckFailed("gh: not authenticated".into())
    );
    assert_eq!(out.checked_at, 2_000);
}

fn status_with_remote(remote_url: Option<&str>) -> RepoStatus {
    let mut status = RepoStatus::new("/tmp/repo".to_string(), "group".into(), "repo".into());
    status.refs = Some(drydock::model::RefsInfo {
        head: drydock::model::Head::Branch("main".into()),
        branches: Vec::new(),
        last_commit: None,
        stashes: 0,
        operation: None,
        newest_tag: None,
        described_tag: None,
        commits_since_tag: None,
        since_tag_subjects: Vec::new(),
        tags_orphaned: false,
        index_mtime: None,
        fetched_at: None,
        remote_url: remote_url.map(String::from),
        changelog: None,
        is_bare: false,
        is_shallow: false,
    });
    status
}

fn enabled_visibility_cfg(enabled: bool) -> Config {
    let mut cfg = Config::default();
    cfg.visibility.enabled = enabled;
    cfg
}

// These two are free -- determined from the remote URL alone, no `gh`
// call involved -- so they're expected to hold regardless of
// `visibility.enabled`, unlike everything else `fill_visibility` does.

#[test]
fn no_remote_is_known_for_free_either_way() {
    for enabled in [false, true] {
        let cfg = enabled_visibility_cfg(enabled);
        let mut status = status_with_remote(None);
            fill_visibility(&mut status, &cfg, None, 1_000);
        assert_eq!(
            status.visibility.map(|v| v.status),
            Some(drydock::model::VisibilityStatus::NoRemote)
        );
    }
}

// A repo whose refs probe failed with nothing cached has established
// nothing -- least of all that it has no remote. Reporting "no remote
// configured" there is a claim nothing checked, which is exactly what
// this column exists not to do.
#[test]
fn a_repo_that_could_not_be_read_is_unknown_rather_than_remoteless() {
    for enabled in [false, true] {
        let cfg = enabled_visibility_cfg(enabled);
        let mut status =
            RepoStatus::new("/tmp/repo".to_string(), "group".into(), "repo".into());
        status.error = Some("could not read the repo".into());
        assert!(status.refs.is_none());
            fill_visibility(&mut status, &cfg, None, 1_000);
        assert_eq!(
            status.visibility.map(|v| v.status),
            Some(drydock::model::VisibilityStatus::Unknown)
        );
    }
}

// The other half of that distinction: a repo that *was* read and genuinely
// has no remote still says so.
#[test]
fn a_readable_repo_with_no_remote_still_says_no_remote() {
    let cfg = enabled_visibility_cfg(true);
    let mut status = status_with_remote(None);
    fill_visibility(&mut status, &cfg, None, 1_000);
    assert_eq!(
        status.visibility.map(|v| v.status),
        Some(drydock::model::VisibilityStatus::NoRemote)
    );
}

#[test]
fn an_unrecognised_host_is_known_for_free_either_way() {
    for enabled in [false, true] {
        let cfg = enabled_visibility_cfg(enabled);
        let mut status = status_with_remote(Some("git@gitlab.com:owner/repo.git"));
            fill_visibility(&mut status, &cfg, None, 1_000);
        assert_eq!(
            status.visibility.map(|v| v.status),
            Some(drydock::model::VisibilityStatus::Unsupported)
        );
    }
}

#[test]
fn a_checkable_remote_says_so_plainly_when_checking_is_off() {
    let cfg = enabled_visibility_cfg(false);
    let mut status = status_with_remote(Some("git@github.com:owner/repo.git"));
    fill_visibility(&mut status, &cfg, None, 1_000);
    assert_eq!(
        status.visibility.map(|v| v.status),
        Some(drydock::model::VisibilityStatus::CheckingDisabled)
    );
}

#[test]
fn turning_checking_off_does_not_erase_a_previously_known_value() {
    let cfg = enabled_visibility_cfg(false);
    let mut status = status_with_remote(Some("git@github.com:owner/repo.git"));
    let mut cached = status_with_remote(Some("git@github.com:owner/repo.git"));
    cached.visibility = Some(drydock::model::VisibilityInfo {
        status: drydock::model::VisibilityStatus::Known(drydock::model::Visibility::Public),
        checked_at: 1_000,
    });
    fill_visibility(&mut status, &cfg, Some(&cached), 1_000);
    assert_eq!(
        status.visibility.map(|v| v.status),
        Some(drydock::model::VisibilityStatus::Known(
            drydock::model::Visibility::Public
        ))
    );
}
