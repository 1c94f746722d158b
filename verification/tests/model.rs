use drydock::hold::Hold;
use drydock::model::{
    ActivitySource, BranchInfo, ChangeKind, ChangedFile, ChangelogInfo, CommitInfo, Flags, Head,
    Operation, RefsInfo, ReleaseState, RepoStatus, TagInfo, Visibility, VisibilityInfo,
    VisibilityStatus, WorkInfo,
};

fn branch(name: &str, ahead: u32, behind: u32, sha: &str) -> BranchInfo {
    BranchInfo {
        name: name.into(),
        upstream: Some(format!("origin/{name}")),
        ahead,
        behind,
        gone: false,
        committed_at: 100,
        sha: sha.into(),
        subject: "subject".into(),
    }
}

fn refs() -> RefsInfo {
    RefsInfo {
        head: Head::Branch("main".into()),
        branches: vec![branch("main", 0, 0, "aaaaaaa"), branch("other", 2, 3, "bbbbbbb")],
        last_commit: Some(CommitInfo {
            sha: "aaaaaaa".into(),
            at: 100,
            subject: "subject".into(),
            author: "".into(),
        }),
        stashes: 0,
        operation: None,
        newest_tag: Some(TagInfo {
            name: "1.0.0".into(),
            at: 50,
        }),
        described_tag: Some(TagInfo {
            name: "1.0.0".into(),
            at: 50,
        }),
        commits_since_tag: Some(0),
        since_tag_subjects: Vec::new(),
        tags_orphaned: false,
        index_mtime: Some(90),
        fetched_at: Some(80),
        remote_url: Some("git@github.com:o/r.git".into()),
        changelog: None,
        is_bare: false,
        is_shallow: false,
    }
}

fn work(staged: u32, untracked: u32) -> WorkInfo {
    WorkInfo {
        staged,
        unstaged: 0,
        untracked,
        conflicts: 0,
        newest_mtime: None,
        files: Vec::new(),
        truncated: false,
    }
}

fn repo() -> RepoStatus {
    let mut r = RepoStatus::new("/p/g/r".into(), "g".into(), "r".into());
    r.refs = Some(refs());
    r.work = Some(work(0, 0));
    r
}

#[test]
fn a_clean_tagged_repo_is_released() {
    let r = repo();
    assert_eq!(r.release_state(), ReleaseState::Released);
    assert_eq!(r.state_label(), "unpushed");
    assert_eq!(r.slug(), "g/r");
    assert_eq!(r.branch_label(), "main");
    assert_eq!(r.tag_label(), "1.0.0");
}

#[test]
fn a_dirty_tree_is_never_released() {
    let mut r = repo();
    r.work = Some(work(1, 0));
    assert!(r.flags().dirty);
    assert_ne!(r.release_state(), ReleaseState::Released);
    assert_eq!(r.dirty_total(), 1);
}

#[test]
fn orphaned_tags_are_no_release() {
    let mut r = repo();
    if let Some(refs) = &mut r.refs {
        refs.tags_orphaned = true;
    }
    assert_eq!(r.release_state(), ReleaseState::Unreleased);
}

#[test]
fn commits_past_a_tag_need_a_release() {
    let mut r = repo();
    if let Some(refs) = &mut r.refs {
        refs.commits_since_tag = Some(3);
    }
    assert_eq!(r.release_state(), ReleaseState::NeedsRelease);
    assert_eq!(r.commits_since_tag(), 3);
}

#[test]
fn a_hold_lifts_when_head_moves() {
    let mut r = repo();
    if let Some(refs) = &mut r.refs {
        refs.commits_since_tag = Some(3);
    }
    r.hold = Some(Hold {
        sha: "aaaaaaa".into(),
        branch: None,
        tag: None,
        at: 1,
        note: None,
    });
    assert_eq!(r.release_state(), ReleaseState::Held);
    assert_eq!(r.release_state_raw(), ReleaseState::NeedsRelease);
    if let Some(refs) = &mut r.refs {
        refs.branches[0].sha = "ccccccc".into();
        refs.last_commit = Some(CommitInfo {
            sha: "ccccccc".into(),
            at: 101,
            subject: "".into(),
            author: "".into(),
        });
    }
    assert_eq!(r.release_state(), ReleaseState::NeedsRelease);
}

#[test]
fn counts_tell_the_branch_from_the_repo() {
    let r = repo();
    assert_eq!((r.unpushed_total(), r.behind_total()), (2, 3));
    assert_eq!((r.branch_unpushed(), r.branch_behind()), (0, 0));
    assert!(r.other_branches_unpushed());
    assert!(r.other_branches_behind());
    assert_eq!(r.fetched_at(), Some(80));
    assert!(!r.never_fetched());
    assert_eq!(r.stash_count(), Some(0));
    let unread = RepoStatus::new("/p".into(), "".into(), "p".into());
    assert_eq!(unread.stash_count(), None);
    assert_eq!(unread.slug(), "p");
}

#[test]
fn the_newest_edit_or_commit_dates_a_repo() {
    let mut r = repo();
    assert_eq!(r.activity(), (100, ActivitySource::Commit));
    let mut w = work(0, 1);
    w.newest_mtime = Some(500);
    w.files = vec![ChangedFile {
        path: "a".into(),
        code: "??".into(),
        kind: ChangeKind::Untracked,
        mtime: Some(500),
    }];
    r.work = Some(w);
    assert_eq!(r.activity(), (500, ActivitySource::WorkingTree));
    let unread = RepoStatus::new("/p".into(), "".into(), "p".into());
    assert_eq!(unread.activity(), (0, ActivitySource::Unknown));
}

#[test]
fn flags_follow_the_probe() {
    let mut r = repo();
    if let Some(refs) = &mut r.refs {
        refs.head = Head::Detached { sha: "abc".into() };
        refs.stashes = 2;
        refs.operation = Some(Operation::Rebase);
        refs.remote_url = None;
    }
    r.error = Some("broken".into());
    assert_eq!(
        r.flags(),
        Flags {
            dirty: false,
            unpushed: true,
            conflicted: false,
            in_progress: true,
            detached: true,
            no_remote: true,
            no_upstream: false,
            stashed: true,
            error: true,
        }
    );
    assert!(!r.flags().clean());
    assert_eq!(r.branch_label(), "@abc");
}

#[test]
fn labels_are_spelled() {
    assert_eq!(Operation::CherryPick.label(), "cherry-picking");
    assert_eq!(ReleaseState::NeedsRelease.label(), "needs release");
    assert_eq!(ReleaseState::NeedsRelease.key(), "needs-release");
    assert_eq!(ActivitySource::WorkingTree.label(), "file edit");
    assert_eq!(Visibility::Internal.label(), "internal");
    assert_eq!(Head::Unborn.label(), "(unborn)");
    assert_eq!(Head::Branch("b".into()).branch(), Some("b"));
}

#[test]
fn visibilities_parse_in_any_case() {
    assert_eq!(Visibility::parse(" public\n"), Ok(Visibility::Public));
    assert_eq!(Visibility::parse("Private"), Ok(Visibility::Private));
    assert_eq!(Visibility::parse("INTERNAL"), Ok(Visibility::Internal));
    assert_eq!(Visibility::parse("secret"), Err(()));
}

#[test]
fn an_unchecked_visibility_is_a_dash() {
    let mut r = repo();
    assert_eq!(r.visibility_label(), "-");
    r.visibility = Some(VisibilityInfo {
        status: VisibilityStatus::Known(Visibility::Public),
        checked_at: 1,
    });
    assert_eq!(r.visibility_label(), "public");
    assert_eq!(r.visibility_marker(), "●");
    r.visibility = Some(VisibilityInfo {
        status: VisibilityStatus::CheckFailed("why".into()),
        checked_at: 1,
    });
    assert_eq!(r.visibility_label(), "check failed");
}

#[test]
fn sums_of_counts_wrap_like_machine_words() {
    let w = WorkInfo {
        staged: u32::MAX,
        unstaged: 1,
        untracked: 2,
        conflicts: 0,
        newest_mtime: None,
        files: Vec::new(),
        truncated: false,
    };
    assert_eq!(w.total(), 2);
    assert!(w.is_dirty());
}

#[test]
fn a_clone_of_a_status_is_that_status() {
    let mut r = repo();
    if let Some(refs) = &mut r.refs {
        refs.changelog = Some(ChangelogInfo {
            version: "1.1.0".into(),
            tagged: false,
            unreleased_blocks: 2,
        });
    }
    let copy = r.clone();
    assert_eq!(format!("{copy:?}"), format!("{r:?}"));
}

#[test]
fn a_refreshed_index_is_no_activity() {
    let before = repo();
    let mut after = repo();
    if let Some(refs) = &mut after.refs {
        refs.index_mtime = Some(1_000_000);
    }
    assert_eq!(after.activity(), before.activity());
}

#[test]
fn parentheses_mean_unreachable() {
    let mut r = repo();
    if let Some(refs) = &mut r.refs {
        refs.described_tag = None;
    }
    assert_eq!(r.tag_label(), "(1.0.0)");
    assert!(r.refs.as_ref().unwrap().tag_off_branch());
    if let Some(refs) = &mut r.refs {
        refs.tags_orphaned = true;
    }
    assert_eq!(r.tag_label(), "-");
    assert!(!r.refs.as_ref().unwrap().tag_off_branch());
}

#[test]
fn a_hosts_answer_is_read() {
    assert_eq!(" public\n".parse::<Visibility>(), Ok(Visibility::Public));
    assert_eq!("PRIVATE".parse::<Visibility>(), Ok(Visibility::Private));
    assert_eq!("Internal".parse::<Visibility>(), Ok(Visibility::Internal));
    assert_eq!("secret".parse::<Visibility>(), Err(()));
}
