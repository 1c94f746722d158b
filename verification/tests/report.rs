use drydock::model::RepoStatus;
use drydock::report::{table, view, Align};

#[test]
fn table_aligns_columns() {
    let rows = vec![
        vec!["a".into(), "1".into()],
        vec!["longer".into(), "22".into()],
    ];
    let out = table(&["NAME", "N"], &[Align::Left, Align::Right], &rows);
    let lines: Vec<&str> = out.lines().collect();
    // The right-aligned column widens to fit "22", so single digits and
    // the header both get a leading space.
    assert_eq!(lines[0], "NAME     N");
    assert_eq!(lines[1], "a        1");
    assert_eq!(lines[2], "longer  22");
    // Every line ends at the same column.
    assert!(lines.iter().all(|l| l.chars().count() == 10));
}

// `ahead` and `behind` are repo-wide sums, whatever branch is checked out; the
// per-branch pair has names of its own.
#[test]
fn json_keeps_ahead_and_behind_repo_wide_and_adds_the_branch_pair() {
    let mut repo = RepoStatus::new("/tmp/x".into(), "g".into(), "r".into());
    repo.refs = Some(drydock::model::RefsInfo {
        head: drydock::model::Head::Branch("master".into()),
        branches: vec![
            branch("master", 0, 0),
            // An abandoned topic branch, still tracking master.
            branch("topic", 2, 128),
        ],
        last_commit: None,
        stashes: 0,
        operation: None,
        newest_tag: None,
        described_tag: None,
        commits_since_tag: None,
        since_tag_subjects: Vec::new(),
        tags_orphaned: false,
        index_mtime: None,
        fetched_at: Some(1_000),
        remote_url: Some("git@github.com:owner/repo.git".into()),
        changelog: None,
        is_bare: false,
        is_shallow: false,
    });

    let v = view(&repo, 1_000);
    assert_eq!(v.branch, "master");
    assert_eq!((v.ahead, v.behind), (2, 128));
    // What the table shows, and what reads correctly against `branch`.
    assert_eq!((v.branch_ahead, v.branch_behind), (0, 0));
}

fn branch(name: &str, ahead: u32, behind: u32) -> drydock::model::BranchInfo {
    drydock::model::BranchInfo {
        name: name.into(),
        upstream: Some("origin/master".into()),
        ahead,
        behind,
        gone: false,
        committed_at: 1_000,
        sha: "abc1234".into(),
        subject: "s".into(),
    }
}
