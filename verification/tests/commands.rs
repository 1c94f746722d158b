use drydock::cli::{build_query, list_fetch, ListArgs};
use drydock::commands::{
    announce_fetch, commits_note, count_holds, fetch_note, find_repo_root, held_note,
    hold_step, hold_step_from, holds_footer, holds_table_from, list_footer, no_repo_note, prune_holds,
    releasable, releasable_footer, releasable_table, repo_candidates, select, split_for_display,
    split_for_display_at, unfetched_note, unhold_note_from, HeldRepo, HoldStep,
};
use drydock::config::Config;
use drydock::discover::split_slug;
use drydock::filter::{Filter, MatchMode, Query, Sort};
use drydock::fmt::Elapsed;
use drydock::hold::{Hold, Holds};
use drydock::model::{
    BranchInfo, CommitInfo, Head, RefsInfo, RepoStatus, TagInfo, WorkInfo,
};
use drydock::probe::{Fetch, Timings};
use drydock::view::view;

fn repo(name: &str, since: u32, sha: &str) -> RepoStatus {
    let mut r = RepoStatus::new(format!("/p/g/{name}"), "g".into(), name.into());
    r.refs = Some(RefsInfo {
        head: Head::Branch("main".into()),
        branches: vec![BranchInfo {
            name: "main".into(),
            upstream: Some("origin/main".into()),
            ahead: 0,
            behind: 0,
            gone: false,
            committed_at: 100,
            sha: sha.into(),
            subject: "s".into(),
        }],
        last_commit: Some(CommitInfo {
            sha: sha.into(),
            at: 100,
            subject: "s".into(),
            author: "".into(),
        }),
        stashes: 0,
        operation: None,
        newest_tag: Some(TagInfo {
            name: "1.0.0".into(),
            at: 50,
        }),
        described_tag: Some(TagInfo {
            name: "1.0.0".into(),
            at: 50,
        }),
        commits_since_tag: Some(since),
        since_tag_subjects: Vec::new(),
        tags_orphaned: false,
        index_mtime: None,
        fetched_at: None,
        remote_url: Some("git@github.com:o/r.git".into()),
        changelog: None,
        is_bare: false,
        is_shallow: false,
    });
    r.work = Some(WorkInfo {
        staged: 0,
        unstaged: 0,
        untracked: 0,
        conflicts: 0,
        newest_mtime: None,
        files: Vec::new(),
        truncated: false,
    });
    r
}

fn hold(sha: &str) -> Hold {
    Hold {
        sha: sha.into(),
        branch: Some("main".into()),
        tag: Some("1.0.0".into()),
        at: 10,
        note: None,
    }
}

fn args() -> ListArgs {
    ListArgs {
        dirty: false,
        unpushed: false,
        unreleased: false,
        needs_release: false,
        released: false,
        held: false,
        behind: false,
        conflicted: false,
        in_progress: false,
        detached: false,
        no_remote: false,
        no_upstream: false,
        stashed: false,
        clean: false,
        errored: false,
        public: false,
        private: false,
        filters: Vec::new(),
        match_mode: "any".into(),
        since: None,
        group: None,
        search: None,
        sort: "activity".into(),
        reverse: false,
        limit: None,
        json: false,
        fast: false,
        no_cache: false,
        cached: false,
        fetch: false,
        paths: false,
    }
}

#[test]
fn the_query_is_what_the_flags_say() {
    let mut a = args();
    a.dirty = true;
    a.filters = vec!["held".into(), "dirty".into()];
    a.match_mode = "ALL".into();
    a.sort = "name".into();
    a.since = Some("2d".into());
    a.search = Some("x".into());
    a.reverse = true;
    let q = build_query(&a).unwrap();
    assert_eq!(q.filters, vec![Filter::Dirty, Filter::Held, Filter::Dirty]);
    assert_eq!(q.match_mode, MatchMode::All);
    assert_eq!(q.sort, Sort::Name);
    assert_eq!(q.since.unwrap().as_secs(), 172_800);
    assert_eq!(q.search, "x");
    assert!(q.reverse);
}

#[test]
fn a_query_that_makes_no_sense_says_why() {
    let mut a = args();
    a.match_mode = "some".into();
    a.sort = "wrong".into();
    assert_eq!(build_query(&a).unwrap_err(), "unknown match mode: some");
    a.match_mode = "any".into();
    assert_eq!(build_query(&a).unwrap_err(), "unknown sort key: wrong");
    a.sort = "name".into();
    a.filters = vec!["bogus".into()];
    assert_eq!(build_query(&a).unwrap_err(), "unknown filter: bogus");
    a.filters = Vec::new();
    a.since = Some("soon\"".into());
    assert_eq!(
        build_query(&a).unwrap_err(),
        "could not read a duration from \"soon\\\"\""
    );
}

#[test]
fn a_list_fetches_the_group_it_shows() {
    let mut a = args();
    assert_eq!(list_fetch(&a), Fetch::Skip);
    a.fetch = true;
    assert_eq!(list_fetch(&a), Fetch::All);
    a.group = Some("acme".into());
    assert_eq!(list_fetch(&a), Fetch::Group("acme".into()));
}

#[test]
fn a_selection_is_filtered_and_cut() {
    let repos = vec![repo("a", 0, "1"), repo("b", 2, "2"), repo("c", 5, "3")];
    let q = Query {
        filters: vec![Filter::NeedsRelease],
        sort: Sort::SinceTag,
        ..Query::default()
    };
    let names = |limit| -> Vec<String> {
        select(&q, &repos, 1_000, limit)
            .iter()
            .map(|r| r.name.clone())
            .collect()
    };
    assert_eq!(names(None), vec!["c", "b"]);
    assert_eq!(names(Some(1)), vec!["c"]);
    assert_eq!(names(Some(9)), vec!["c", "b"]);
    assert_eq!(list_footer(1, 3).unwrap(), "Showing 1 of 3.");
    assert_eq!(list_footer(3, 3), None);
}

#[test]
fn releases_waiting_are_listed_by_their_commits() {
    let repos = vec![repo("a", 1, "1"), repo("b", 2, "2"), repo("c", 0, "3")];
    let waiting = releasable(&repos, 1, false);
    let names: Vec<&str> = waiting.iter().map(|r| r.name.as_str()).collect();
    assert_eq!(names, vec!["b", "a"]);
    assert_eq!(releasable(&repos, 2, false).len(), 1);
    let table = releasable_table(&waiting, 200);
    assert!(table.lines().next().unwrap().contains("LAST TAG"));
    assert_eq!(table.lines().count(), 3);
    assert!(releasable_footer(1).ends_with('.'));
}

#[test]
fn a_hold_needs_something_to_hold() {
    let waiting = repo("a", 2, "1234567");
    match hold_step_from(&waiting, Some("why".into()), 77, None) {
        HoldStep::Place(h) => {
            assert_eq!(h.sha, "1234567");
            assert_eq!(h.branch.as_deref(), Some("main"));
            assert_eq!(h.tag.as_deref(), Some("1.0.0"));
            assert_eq!(h.at, 77);
            assert_eq!(h.note.as_deref(), Some("why"));
        }
        other => panic!("{other:?}"),
    }
    match hold_step_from(&repo("a", 0, "1"), None, 77, Some("/p")) {
        HoldStep::NothingToHold(note) => {
            assert!(note.ends_with("Nothing to hold."), "{note}")
        }
        other => panic!("{other:?}"),
    }
    let empty = RepoStatus::new("/p/g/x".into(), "g".into(), "x".into());
    match hold_step_from(&empty, None, 77, Some("/p")) {
        HoldStep::NoCommits(note) => assert_eq!(note, "~/g/x has no commits to hold"),
        other => panic!("{other:?}"),
    }
}

#[test]
fn a_placed_hold_is_active() {
    let status = repo("a", 2, "1234567");
    let held = HeldRepo {
        root: "/p/g/a".into(),
        hold: hold("1234567"),
        status: Some(status),
    };
    assert!(held.active());
    assert_eq!(held.state(), "holding");
    let moved = HeldRepo {
        root: "/p/g/a".into(),
        hold: hold("7654321"),
        status: Some(repo("a", 2, "1234567")),
    };
    assert_eq!(moved.state(), "lifted, HEAD moved");
    let gone = HeldRepo {
        root: "/p/g/b".into(),
        hold: hold("1"),
        status: None,
    };
    assert_eq!(gone.state(), "repo is gone");
    assert_eq!(count_holds(&vec![held, moved, gone]), (1, 2));
}

#[test]
fn pruning_forgets_the_lifted_holds() {
    let mut holds = Holds::default();
    holds.set("/p/g/a", Some("/p/g/a"), hold("1"));
    holds.set("/p/g/b", Some("/p/g/b"), hold("2"));
    let held = vec![
        HeldRepo {
            root: "/p/g/a".into(),
            hold: hold("1"),
            status: Some(repo("a", 2, "1")),
        },
        HeldRepo {
            root: "/p/g/b".into(),
            hold: hold("2"),
            status: None,
        },
    ];
    let table = holds_table_from(&held, 100, Some("/p"));
    assert_eq!(table.lines().count(), 3);
    assert!(table.contains("g/a"));
    assert!(table.contains("~/g/b"), "a repo that is gone shows its path");
    prune_holds(&mut holds, &held);
    assert_eq!(holds.iter().len(), 1);
    assert!(holds.get("/p/g/a", None).is_some());
    assert!(holds.get("/p/g/b", None).is_none());
}

#[test]
fn notes_about_holds_are_spelled() {
    assert_eq!(commits_note(1), "1 commit");
    assert_eq!(commits_note(2), "2 commits");
    assert_eq!(
        unhold_note_from("/p/x", None, Some("/p")),
        "Nothing is holding ~/x."
    );
    assert!(unhold_note_from("/p/x", Some(&hold("1234567")), None)
        .starts_with("Lifted the hold on /p/x (placed at "));
    assert_eq!(holds_footer(1, 0, false), "1 holding, 0 lifted.");
    assert_eq!(
        holds_footer(1, 2, false),
        "1 holding, 2 lifted — `drydock holds --prune` forgets the lifted ones."
    );
    assert_eq!(holds_footer(1, 2, true), "1 holding, 2 lifted.");
    let status = repo("a", 2, "1");
    assert!(held_note(&status, "1", None).starts_with("Held "));
    assert!(held_note(&status, "1", Some(&hold("1"))).starts_with("Still holding "));
    assert!(held_note(&status, "1", Some(&hold("2")))
        .starts_with("Re-held at the current commit: "));
}

#[test]
fn fetches_are_announced() {
    assert_eq!(announce_fetch(&Fetch::Skip), None);
    assert_eq!(
        announce_fetch(&Fetch::All).unwrap(),
        "drydock: fetching every repo with a remote..."
    );
    assert_eq!(
        announce_fetch(&Fetch::Group("acme".into())).unwrap(),
        "drydock: fetching the acme group..."
    );
    let mut timings = Timings::default();
    assert_eq!(fetch_note(&timings), None);
    timings.fetched = 4;
    timings.fetch = Elapsed {
        millis: 2_500,
        seconds: "2.5".into(),
    };
    assert_eq!(
        fetch_note(&timings).unwrap(),
        "drydock: fetched 4 repos in 2.5s"
    );
    timings.fetch_failed = 1;
    assert_eq!(
        fetch_note(&timings).unwrap(),
        "drydock: fetched 4 repos in 2.5s, 1 could not be reached and still show their last known counts"
    );
    assert!(unfetched_note(&[repo("a", 0, "1")])
        .unwrap()
        .starts_with("1 repos have never fetched"));
    assert_eq!(unfetched_note(&[]), None);
}

#[test]
fn the_nearest_git_directory_is_the_repo() {
    let dirs = repo_candidates("/a/b/c", true);
    assert_eq!(dirs, vec!["/a/b/c", "/a/b", "/a", "/"]);
    assert_eq!(repo_candidates("/a/b/c", false)[0], "/a/b");
    assert_eq!(
        find_repo_root(&dirs, &vec![false, true, true, false]),
        Some("/a/b".to_string())
    );
    assert_eq!(find_repo_root(&dirs, &vec![false; 4]), None);
    assert!(no_repo_note("/nowhere/near/home").starts_with("No git repo at or above /nowhere"));
}

#[test]
fn display_matches_the_sweep() {
    let roots = vec!["/fleet".to_string()];
    for path in ["/fleet/acme/api", "/fleet/solo", "/fleet/a/b/c"] {
        assert_eq!(
            split_for_display_at(&roots, path),
            split_slug("/fleet", path)
        );
    }
    let cfg = Config {
        roots: roots.clone(),
        ..Config::default()
    };
    assert_eq!(
        split_for_display(&cfg, "/fleet/acme/api"),
        ("acme".to_string(), "api".to_string())
    );
    assert_eq!(
        split_for_display_at(&roots, "/elsewhere/x"),
        ("".to_string(), "x".to_string())
    );
}

#[test]
fn a_view_carries_the_whole_row() {
    let r = repo("a", 3, "1");
    let v = view(&r, 160);
    assert_eq!((v.path, v.group, v.name), ("/p/g/a", "g", "a"));
    assert_eq!(v.slug, "g/a");
    assert_eq!(v.release_state, "needs-release");
    assert_eq!(v.commits_since_tag, 3);
    assert_eq!(v.last_tag.as_deref(), Some("1.0.0"));
    assert_eq!(v.upstream.as_deref(), Some("origin/main"));
    assert_eq!(v.activity_at, 100);
    assert!(v.work_scanned);
    assert!(v.never_fetched);
    assert_eq!(v.error, None);
    assert_eq!(v.visibility, None);
    assert_eq!(v.age, "1m");
}

#[test]
fn a_hold_that_comes_to_nothing_says_why() {
    let released = repo("a", 0, "1");
    match hold_step(&released, None, 77) {
        HoldStep::NothingToHold(note) => assert_eq!(
            note,
            format!(
                "{} is released, with nothing past {}. Nothing to hold.",
                released.slug(),
                released.tag_label()
            )
        ),
        other => panic!("{other:?}"),
    }
    let empty = RepoStatus::new("/nowhere/x".into(), "".into(), "x".into());
    match hold_step(&empty, None, 77) {
        HoldStep::NoCommits(note) => assert!(note.ends_with("x has no commits to hold"), "{note}"),
        other => panic!("{other:?}"),
    }
}
