use drydock::column::{sanitise, Column, Width};
use drydock::model::RepoStatus;
use drydock::table::Align;

#[test]
fn keys_round_trip_through_parsing() {
    for column in Column::all() {
        assert_eq!(column.key().parse::<Column>().as_ref(), Ok(column));
    }
}

#[test]
fn the_header_spelling_of_since_tag_parses_too() {
    assert_eq!("+tag".parse::<Column>(), Ok(Column::SinceTag));
    assert_eq!("since-tag".parse::<Column>(), Ok(Column::SinceTag));
}

#[test]
fn an_unknown_column_is_rejected_by_name() {
    assert!("nonsense"
        .parse::<Column>()
        .unwrap_err()
        .contains("nonsense"));
}

// With checking off, every VISIBILITY cell
// would read "checking off" while costing fifteen characters of every row.
#[test]
fn visibility_is_absent_from_the_defaults_until_it_is_enabled() {
    assert!(!Column::defaults(false).contains(&Column::Visibility));
    assert!(Column::defaults(true).contains(&Column::Visibility));
}

#[test]
fn every_other_column_shows_by_default_either_way() {
    for enabled in [false, true] {
        let shown = Column::defaults(enabled);
        for column in Column::all() {
            // Both visibility forms are conditional: the long one on the
            // flag, the short one on being asked for. FETCHED is opt-in
            // for the same reason as the short form — BEHIND's `?` is
            // what you have to know, and this is the detail behind it.
            // STASH is opt-in because most repos have none.
            if matches!(
                column,
                Column::Visibility
                    | Column::VisibilityShort
                    | Column::Fetched
                    | Column::Stashes
            ) {
                continue;
            }
            assert!(shown.contains(column), "{} missing", column.key());
        }
    }
}

// The distinction the column exists to draw: a zero that was checked
// against a remote reads as `·`, and a zero that never was reads as `?`.
#[test]
fn behind_says_unknown_until_something_has_fetched() {
    let mut repo = RepoStatus::new("/tmp/x".into(), "g".into(), "r".into());
    repo.refs = Some(drydock::model::RefsInfo {
        head: drydock::model::Head::Branch("main".into()),
        branches: Vec::new(),
        last_commit: None,
        stashes: 0,
        operation: None,
        newest_tag: None,
        described_tag: None,
        commits_since_tag: None,
        since_tag_subjects: Vec::new(),
        tags_orphaned: false,
        index_mtime: None,
        fetched_at: None,
        remote_url: Some("git@github.com:owner/repo.git".into()),
        changelog: None,
        is_bare: false,
        is_shallow: false,
    });
    assert_eq!(Column::Behind.cell(&repo, 0, false), "?");
    assert_eq!(Column::Fetched.cell(&repo, 0, false), "never");

    // Fetched, and genuinely in sync.
    let refs = repo.refs.as_mut().unwrap();
    refs.fetched_at = Some(1_000);
    assert_eq!(Column::Behind.cell(&repo, 1_000, false), "·");

    // No remote at all: nothing to be behind, and nothing to fetch, so
    // neither column claims otherwise.
    repo.refs.as_mut().unwrap().remote_url = None;
    repo.refs.as_mut().unwrap().fetched_at = None;
    assert_eq!(Column::Behind.cell(&repo, 0, false), "·");
    assert_eq!(Column::Fetched.cell(&repo, 0, false), "·");
}

// BRANCH names the checked-out branch, so AHEAD and BEHIND speak of it too: a
// stale side branch must not make an up-to-date checkout read as behind.
#[test]
fn ahead_and_behind_report_the_checked_out_branch() {
    let mut repo = RepoStatus::new("/tmp/x".into(), "g".into(), "r".into());
    repo.refs = Some(drydock::model::RefsInfo {
        head: drydock::model::Head::Branch("master".into()),
        branches: vec![
            branch("master", 0, 0),
            // A month-old topic branch, left tracking origin/master.
            branch("topic", 2, 128),
        ],
        last_commit: None,
        stashes: 0,
        operation: None,
        newest_tag: None,
        described_tag: None,
        commits_since_tag: None,
        since_tag_subjects: Vec::new(),
        tags_orphaned: false,
        index_mtime: None,
        fetched_at: Some(1_000),
        remote_url: Some("git@github.com:owner/repo.git".into()),
        changelog: None,
        is_bare: false,
        is_shallow: false,
    });

    // master is in sync, and says so -- with `*` so the topic branch
    // isn't silently dropped from the table.
    assert_eq!(Column::Behind.cell(&repo, 1_000, false), "·*");
    assert_eq!(Column::Ahead.cell(&repo, 1_000, false), "·*");
    // The repo-wide sums are still there for the filters and sorts.
    assert_eq!(repo.behind_total(), 128);
    assert_eq!(repo.unpushed_total(), 2);

    // Check out the topic branch and the same numbers surface, unmarked:
    // there is no *other* branch with anything of its own now.
    repo.refs.as_mut().unwrap().head = drydock::model::Head::Branch("topic".into());
    assert_eq!(Column::Behind.cell(&repo, 1_000, false), "128");
    assert_eq!(Column::Ahead.cell(&repo, 1_000, false), "2");

    // Detached HEAD has no branch to be ahead or behind, but the marker
    // still points at the branches that do.
    repo.refs.as_mut().unwrap().head = drydock::model::Head::Detached {
        sha: "abc1234".into(),
    };
    assert_eq!(Column::Behind.cell(&repo, 1_000, false), "·*");
    assert_eq!(Column::Ahead.cell(&repo, 1_000, false), "·*");
}

fn branch(name: &str, ahead: u32, behind: u32) -> drydock::model::BranchInfo {
    drydock::model::BranchInfo {
        name: name.into(),
        upstream: Some("origin/master".into()),
        ahead,
        behind,
        gone: false,
        committed_at: 1_000,
        sha: "abc1234".into(),
        subject: "s".into(),
    }
}

// Six characters off every repo name to tell most fleets, on most rows,
// that nothing is stashed.
#[test]
fn stash_is_never_a_default_either_way() {
    for enabled in [false, true] {
        assert!(!Column::defaults(enabled).contains(&Column::Stashes));
    }
    assert!(Column::all().contains(&Column::Stashes));
}

// The same distinction CHANGES draws: a zero somebody checked reads `·`,
// and a repo nobody has looked at yet reads `?`. A bare repo is checked
// like any other -- its stash reflog just isn't there -- so it gets the
// real zero rather than the shrug.
#[test]
fn stash_says_unknown_only_until_something_has_probed() {
    let mut repo = RepoStatus::new("/tmp/x".into(), "g".into(), "r".into());
    assert_eq!(Column::Stashes.cell(&repo, 0, false), "?");
    assert_eq!(repo.stash_count(), None);

    repo.refs = Some(drydock::model::RefsInfo {
        head: drydock::model::Head::Branch("main".into()),
        branches: Vec::new(),
        last_commit: None,
        stashes: 0,
        operation: None,
        newest_tag: None,
        described_tag: None,
        commits_since_tag: None,
        since_tag_subjects: Vec::new(),
        tags_orphaned: false,
        index_mtime: None,
        fetched_at: None,
        remote_url: None,
        changelog: None,
        is_bare: true,
        is_shallow: false,
    });
    assert_eq!(Column::Stashes.cell(&repo, 0, false), "·");

    repo.refs.as_mut().unwrap().stashes = 3;
    assert_eq!(Column::Stashes.cell(&repo, 0, false), "3");
}

// Right-aligned like every other count, and no wider than its own header
// plus a gutter.
#[test]
fn stash_is_a_narrow_right_aligned_count() {
    assert_eq!(Column::Stashes.header(false), "STASH");
    assert_eq!(Column::Stashes.width(), Width::Fixed(6));
    assert!(matches!(Column::Stashes.align(), Align::Right));
    assert_eq!("stashes".parse::<Column>(), Ok(Column::Stashes));
}

// The short form is a column of bare glyphs -- worth having, but only
// once you've chosen it.
#[test]
fn the_short_visibility_form_is_never_a_default() {
    for enabled in [false, true] {
        assert!(!Column::defaults(enabled).contains(&Column::VisibilityShort));
    }
}

// They're the same value twice; showing both would render it beside
// itself. Whichever was asked for first wins.
#[test]
fn the_two_visibility_forms_collapse_to_one() {
    let cleaned = sanitise(vec![
        Column::Repo,
        Column::Visibility,
        Column::VisibilityShort,
    ]);
    assert_eq!(cleaned, vec![Column::Repo, Column::Visibility]);
    let cleaned = sanitise(vec![
        Column::Repo,
        Column::VisibilityShort,
        Column::Visibility,
    ]);
    assert_eq!(cleaned, vec![Column::Repo, Column::VisibilityShort]);
}

#[test]
fn the_short_form_is_narrower_than_its_own_header_allows_for() {
    assert_eq!(Column::VisibilityShort.header(false), "VIS");
    assert_eq!(Column::VisibilityShort.width(), Width::Fixed(4));
    assert_eq!(Column::Visibility.width(), Width::Fixed(15));
}

#[test]
fn duplicates_are_dropped_and_order_is_kept() {
    let cleaned = sanitise(vec![Column::Age, Column::Repo, Column::Age, Column::State]);
    assert_eq!(cleaned, vec![Column::Age, Column::Repo, Column::State]);
}

// A table of rows you can't tell apart isn't worth rendering, so REPO
// comes back even if the config leaves it out.
#[test]
fn repo_is_restored_when_a_configured_list_omits_it() {
    let cleaned = sanitise(vec![Column::Group, Column::Branch, Column::Age]);
    assert_eq!(
        cleaned,
        vec![Column::Group, Column::Repo, Column::Branch, Column::Age]
    );
    assert!(!Column::Repo.toggleable());
}

#[test]
fn any_spelling_of_a_key_will_do() {
    for c in Column::all() {
        let key = c.key();
        for text in [
            key.to_string(),
            key.to_uppercase(),
            key.replace('_', "-"),
            key.replace('_', " "),
            format!(" \t{key}\n"),
        ] {
            assert_eq!(text.parse::<Column>(), Ok(*c), "{text:?}");
        }
    }
    assert_eq!(" +TAG ".parse::<Column>(), Ok(Column::SinceTag));
    assert_eq!(
        "no\"pe".parse::<Column>(),
        Err("unknown column \"no\\\"pe\"".to_string())
    );
}
