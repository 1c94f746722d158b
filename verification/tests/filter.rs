use drydock::filter::{score, sort_repos, Filter, MatchMode, Query, Sort};
use drydock::model::{
    BranchInfo, Head, RefsInfo, RepoStatus, Visibility, VisibilityInfo, VisibilityStatus, WorkInfo,
};
use std::str::FromStr;

fn repo(group: &str, name: &str, ahead: u32, dirty: u32, since_tag: u32) -> RepoStatus {
    let mut r = RepoStatus::new(
        format!("/p/{group}/{name}"),
        group.into(),
        name.into(),
    );
    r.refs = Some(RefsInfo {
        head: Head::Branch("main".into()),
        branches: vec![BranchInfo {
            name: "main".into(),
            upstream: Some("origin/main".into()),
            ahead,
            behind: 0,
            gone: false,
            committed_at: 1_000,
            sha: "abc1234".into(),
            subject: "work".into(),
        }],
        last_commit: None,
        tags_orphaned: false,
        stashes: 0,
        operation: None,
        newest_tag: None,
        described_tag: None,
        commits_since_tag: Some(since_tag),
        since_tag_subjects: Vec::new(),
        index_mtime: None,
        fetched_at: None,
        remote_url: Some("git@github.com:x/y.git".into()),
        changelog: None,
        is_bare: false,
        is_shallow: false,
    });
    r.work = Some(WorkInfo {
        staged: 0,
        unstaged: dirty,
        untracked: 0,
        conflicts: 0,
        newest_mtime: Some(2_000),
        files: Vec::new(),
        truncated: false,
    });
    r
}

#[test]
fn any_mode_widens_all_mode_narrows() {
    let repos = vec![
        repo("grav", "a", 3, 0, 0), // unpushed only
        repo("grav", "b", 0, 2, 0), // dirty only
        repo("grav", "c", 1, 1, 0), // both
    ];
    let mut q = Query {
        filters: vec![Filter::Dirty, Filter::Unpushed],
        ..Query::default()
    };

    q.match_mode = MatchMode::Any;
    assert_eq!(q.apply(&repos, 10_000).len(), 3);

    q.match_mode = MatchMode::All;
    let all = q.apply(&repos, 10_000);
    assert_eq!(all.len(), 1);
    assert_eq!(all[0].name, "c");
}

#[test]
fn since_uses_activity() {
    let repos = vec![repo("grav", "a", 0, 0, 0)];
    let mut q = Query::default();
    // Activity for this fixture is the working-tree mtime, 2000.
    q.set_since("1h").unwrap();
    assert_eq!(q.apply(&repos, 2_100).len(), 1);
    assert_eq!(q.apply(&repos, 100_000).len(), 0);
}

#[test]
fn search_finds_by_subsequence() {
    let r = repo("grav", "grav-plugin-api", 0, 0, 0);
    assert!(score("api", &r).is_some());
    assert!(score("gpapi", &r).is_some());
    assert!(score("zzz", &r).is_none());
}

#[test]
fn sort_since_tag_is_descending() {
    let repos = vec![
        repo("a", "low", 0, 0, 1),
        repo("b", "high", 0, 0, 20),
        repo("c", "mid", 0, 0, 5),
    ];
    let q = Query {
        sort: Sort::SinceTag,
        ..Query::default()
    };
    let out = q.apply(&repos, 10_000);
    assert_eq!(
        out.iter().map(|r| r.name.as_str()).collect::<Vec<_>>(),
        vec!["high", "mid", "low"]
    );
}

// Biggest pile of stashes first, and a repo nothing has probed sinks in
// with the empty ones rather than floating up as an unknown.
#[test]
fn sort_stashes_is_descending_and_unprobed_sinks() {
    let mut repos = vec![
        repo("a", "one", 0, 0, 0),
        repo("b", "many", 0, 0, 0),
        repo("c", "none", 0, 0, 0),
        repo("d", "unprobed", 0, 0, 0),
    ];
    repos[0].refs.as_mut().unwrap().stashes = 1;
    repos[1].refs.as_mut().unwrap().stashes = 7;
    repos[3].refs = None;

    let q = Query {
        sort: Sort::Stashes,
        ..Query::default()
    };
    let out = q.apply(&repos, 10_000);
    let names: Vec<&str> = out.iter().map(|r| r.name.as_str()).collect();
    assert_eq!(&names[..2], &["many", "one"]);
    // The two zeroes tie on the key and fall back to activity, so only
    // their being last is the claim here.
    assert!(names[2..].contains(&"none") && names[2..].contains(&"unprobed"));
}

#[test]
fn sort_visibility_puts_failed_first_then_private_then_public() {
    // Internal doesn't get a tier of its own -- only CheckFailed,
    // Private and Public do. A failed check leads because it's the only
    // non-answer worth acting on; private outranks public because this
    // sort exists to collect the closed work in one place, and public
    // repos are already readable from anywhere. Distinct
    // activity on the two untiered repos (internal, never-probed) proves
    // they're genuinely tied on visibility_rank and only separated by
    // the usual activity fallback, not by some hidden ordering.
    // `activity_at()` is the max of the newest commit and the working
    // tree's newest mtime, and `repo()` fixes the latter at 2_000 --
    // higher than any committed_at worth setting here -- so it's the
    // mtime that has to move for these to actually differ.
    let mut failed_repo = repo("a", "flaky-repo", 0, 0, 0);
    failed_repo.visibility = Some(VisibilityInfo {
        status: VisibilityStatus::CheckFailed("rate limited".into()),
        checked_at: 0,
    });

    let mut public_repo = repo("b", "public-repo", 0, 0, 0);
    public_repo.visibility = Some(VisibilityInfo {
        status: VisibilityStatus::Known(Visibility::Public),
        checked_at: 0,
    });

    let mut private_repo = repo("c", "private-repo", 0, 0, 0);
    private_repo.visibility = Some(VisibilityInfo {
        status: VisibilityStatus::Known(Visibility::Private),
        checked_at: 0,
    });

    let mut internal_repo = repo("d", "internal-repo", 0, 0, 0);
    internal_repo.visibility = Some(VisibilityInfo {
        status: VisibilityStatus::Known(Visibility::Internal),
        checked_at: 0,
    });
    internal_repo.work.as_mut().unwrap().newest_mtime = Some(3_000);

    let mut never_probed = repo("e", "never-probed", 0, 0, 0);
    never_probed.work.as_mut().unwrap().newest_mtime = Some(1_500);

    let repos = vec![
        failed_repo,
        public_repo,
        private_repo,
        internal_repo,
        never_probed,
    ];
    let q = Query {
        sort: Sort::Visibility,
        ..Query::default()
    };
    let out = q.apply(&repos, 10_000);
    assert_eq!(
        out.iter().map(|r| r.name.as_str()).collect::<Vec<_>>(),
        vec![
            "flaky-repo",
            "private-repo",
            "public-repo",
            "internal-repo",
            "never-probed",
        ],
        "failed, private and public each keep their own tier; internal \
         and a never-probed repo fall back to the activity tie-break, \
         which is 3000/1500 -- descending -- for those two"
    );
}

#[test]
fn sort_visibility_orders_duplicates_within_a_tier_by_activity() {
    // Two repos in the same visibility state don't tie arbitrarily --
    // the usual activity fallback still applies inside a tier, same as
    // it does between tiers. This doubles every state from
    // sort_visibility_puts_failed_first_then_private_then_public:
    // two CheckFailed, two Public, two Private, and two pairs from the
    // untiered bottom group (Internal and NoRemote), all with distinct
    // activity so the exact order is provable rather than assumed. The
    // public pair deliberately carries more activity than the private
    // pair, so the tiers landing private-first proves the rank beats
    // the fallback rather than happening to agree with it.
    let make = |name: &str, status: VisibilityStatus, mtime: i64| {
        let mut r = repo("a", name, 0, 0, 0);
        r.visibility = Some(VisibilityInfo {
            status,
            checked_at: 0,
        });
        r.work.as_mut().unwrap().newest_mtime = Some(mtime);
        r
    };

    let repos = vec![
        make(
            "failed-newer",
            VisibilityStatus::CheckFailed("timeout".into()),
            8_000,
        ),
        make(
            "failed-older",
            VisibilityStatus::CheckFailed("timeout".into()),
            7_000,
        ),
        make(
            "public-newer",
            VisibilityStatus::Known(Visibility::Public),
            6_000,
        ),
        make(
            "public-older",
            VisibilityStatus::Known(Visibility::Public),
            5_000,
        ),
        make(
            "private-newer",
            VisibilityStatus::Known(Visibility::Private),
            4_000,
        ),
        make(
            "private-older",
            VisibilityStatus::Known(Visibility::Private),
            3_000,
        ),
        // These four are all rank 0 -- two different untiered states,
        // interleaved by activity alone, to show the bottom tier really
        // is one bucket and not secretly four.
        make(
            "internal-newest",
            VisibilityStatus::Known(Visibility::Internal),
            2_800,
        ),
        make("no-remote-newer", VisibilityStatus::NoRemote, 2_600),
        make(
            "internal-older",
            VisibilityStatus::Known(Visibility::Internal),
            2_400,
        ),
        make("no-remote-oldest", VisibilityStatus::NoRemote, 2_200),
    ];

    let q = Query {
        sort: Sort::Visibility,
        ..Query::default()
    };
    let out = q.apply(&repos, 10_000);
    assert_eq!(
        out.iter().map(|r| r.name.as_str()).collect::<Vec<_>>(),
        vec![
            "failed-newer",
            "failed-older",
            "private-newer",
            "private-older",
            "public-newer",
            "public-older",
            "internal-newest",
            "no-remote-newer",
            "internal-older",
            "no-remote-oldest",
        ],
        "each ranked tier stays intact and ordered newest-first \
         internally; the two untiered states interleave by activity \
         alone since they share the same rank"
    );
}

#[test]
fn sort_visibility_is_a_no_op_without_a_checked_answer() {
    // None of these five ever resulted from an actual check succeeding --
    // no remote, an unsupported host, a repo that couldn't be read,
    // checking turned off, and never having been probed at all. Every
    // one of them is real, distinct data the tool already tracks, but
    // none of it should earn a repo a different spot in this sort: with
    // no CheckFailed, Public or Private answer anywhere in the list (an
    // Internal repo would tie here too, for the same reason -- only
    // those three carry their own tier), `visibility` must order exactly
    // like `activity` does, so a repo can't get reshuffled by this sort
    // key before anyone has ever turned visibility checking on.
    let mut no_remote = repo("a", "no-remote-repo", 0, 0, 0);
    no_remote.visibility = Some(VisibilityInfo {
        status: VisibilityStatus::NoRemote,
        checked_at: 0,
    });

    let mut unsupported = repo("b", "gitlab-repo", 0, 0, 0);
    unsupported.visibility = Some(VisibilityInfo {
        status: VisibilityStatus::Unsupported,
        checked_at: 0,
    });

    let mut unreadable = repo("c", "unreadable-repo", 0, 0, 0);
    unreadable.visibility = Some(VisibilityInfo {
        status: VisibilityStatus::Unknown,
        checked_at: 0,
    });

    let mut disabled = repo("d", "checking-off-repo", 0, 0, 0);
    disabled.visibility = Some(VisibilityInfo {
        status: VisibilityStatus::CheckingDisabled,
        checked_at: 0,
    });

    let never_probed = repo("e", "never-probed-repo", 0, 0, 0);

    // Distinct activity so a genuine no-op has something to prove: any
    // reordering here would mean a tier leaked in that shouldn't have.
    // It's the mtime that has to move, not the commit date --
    // `activity_at()` is the max of the two and `repo()` pins the mtime
    // at 2_000, so nudging `committed_at` up from 1_000 would leave all
    // five tied at 2_000 and hand the ordering to the `root` path
    // tie-break instead of to activity.
    let mut repos = vec![no_remote, unsupported, unreadable, disabled, never_probed];
    for (i, r) in repos.iter_mut().enumerate() {
        r.work.as_mut().unwrap().newest_mtime = Some(3_000 + i as i64);
    }

    let by_activity = Query {
        sort: Sort::Activity,
        ..Query::default()
    }
    .apply(&repos, 10_000)
    .iter()
    .map(|r| r.name.clone())
    .collect::<Vec<_>>();

    let by_visibility = Query {
        sort: Sort::Visibility,
        ..Query::default()
    }
    .apply(&repos, 10_000)
    .iter()
    .map(|r| r.name.clone())
    .collect::<Vec<_>>();

    assert_eq!(by_visibility, by_activity);
}

#[test]
fn next_skips_visibility_when_checking_is_off() {
    // Cycling wraps all the way around back to Activity without ever
    // landing on Visibility -- the `s` key shouldn't gain an extra stop
    // for someone who has never turned checking on.
    let expected = [
        Sort::Name,
        Sort::Group,
        Sort::Dirty,
        Sort::Stashes,
        Sort::Ahead,
        Sort::Behind,
        Sort::SinceTag,
        Sort::State,
        Sort::Activity,
        Sort::Name,
    ];
    let mut s = Sort::Activity;
    for want in expected {
        s = s.next(false);
        assert_eq!(s, want);
    }
}

#[test]
fn next_visits_visibility_when_checking_is_on() {
    let expected = [
        Sort::Name,
        Sort::Group,
        Sort::Dirty,
        Sort::Stashes,
        Sort::Ahead,
        Sort::Behind,
        Sort::SinceTag,
        Sort::State,
        Sort::Visibility,
        Sort::Activity,
    ];
    let mut s = Sort::Activity;
    for want in expected {
        s = s.next(true);
        assert_eq!(s, want);
    }
}

#[test]
fn filter_names_round_trip() {
    for f in Filter::all() {
        assert_eq!(Filter::from_str(f.label()).unwrap(), *f);
    }
    for s in Sort::all() {
        assert_eq!(Sort::from_str(s.label()).unwrap(), *s);
    }
}

#[test]
fn a_subsequence_is_always_found() {
    let r = repo("grav", "grav-plugin-api", 0, 0, 0);
    assert_eq!(score("gpapi", &r), Some(1_000));
    // Characters out of order are no subsequence.
    assert_eq!(score("ipag", &r), None);
}

#[test]
fn words_that_mean_nothing_are_named() {
    assert_eq!("No_Remote".parse::<Filter>(), Ok(Filter::NoRemote));
    assert_eq!(
        "nope".parse::<Filter>(),
        Err("unknown filter: nope".to_string())
    );
    assert_eq!(" OR ".parse::<MatchMode>(), Ok(MatchMode::Any));
    assert_eq!("and".parse::<MatchMode>(), Ok(MatchMode::All));
    assert_eq!(
        " Nope ".parse::<MatchMode>(),
        Err("unknown match mode: nope".to_string())
    );
    assert_eq!("Since_Tag".parse::<Sort>(), Ok(Sort::SinceTag));
    assert_eq!(
        "nope".parse::<Sort>(),
        Err("unknown sort key: nope".to_string())
    );
}

#[test]
fn the_order_given_does_not_matter_and_reversing_turns_it_round() {
    let mut repos = Vec::new();
    for name in ["b", "c", "a"] {
        repos.push(RepoStatus::new(
            format!("/p/{name}"),
            "g".into(),
            "same".into(),
        ));
    }
    let roots = |list: &Vec<&RepoStatus>| -> Vec<String> {
        list.iter().map(|r| r.root.clone()).collect()
    };
    for sort in Sort::all() {
        let mut there: Vec<&RepoStatus> = repos.iter().collect();
        let mut back: Vec<&RepoStatus> = repos.iter().rev().collect();
        sort_repos(&mut there, *sort, false);
        sort_repos(&mut back, *sort, false);
        assert_eq!(roots(&there), roots(&back));
        sort_repos(&mut back, *sort, true);
        back.reverse();
        assert_eq!(roots(&there), roots(&back));
    }
}
