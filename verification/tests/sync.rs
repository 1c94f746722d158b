use drydock::config::{CloneProtocol, OrgConfig};
use drydock::org::{disk_repos, plan, SyncPlan};
use drydock::provider::OrgRepo;
use drydock::sync::{
    clone_url, execute, finish_sync, last_line, record_state, sync_plan, work_list, Action, Answer,
    SyncEvent, SyncRun,
};

fn repo(name: &str) -> OrgRepo {
    OrgRepo {
        name: name.to_string(),
        ssh_url: format!("git@host:acme/{name}.git"),
        https_url: format!("https://host/acme/{name}.git"),
        archived: false,
        fork: false,
    }
}

fn org() -> OrgConfig {
    OrgConfig {
        host: "github.com".into(),
        owner: "acme".into(),
        ..OrgConfig::default()
    }
}

fn done(text: &str) -> Answer {
    Answer::Done(text.into())
}

#[test]
fn actions_have_labels() {
    assert_eq!(Action::Cloned.label(), "cloned");
    assert_eq!(Action::Updated.label(), "updated");
    assert_eq!(Action::Current.label(), "current");
    assert_eq!(Action::Skipped.label(), "skipped");
    assert_eq!(Action::Orphaned.label(), "orphaned");
    assert_eq!(Action::Error.label(), "error");
}

#[test]
fn execute_clones_then_reports_current_on_the_second_run() {
    let remote = vec![repo("alpha")];
    let first = plan(&remote, &Vec::new(), &org());
    let run = execute(&org(), &first, None, &vec![done("")]);
    assert_eq!(run.outcomes.len(), 1);
    assert_eq!(run.outcomes[0].action, Action::Cloned);
    assert_eq!(
        run.outcomes[0].detail,
        "cloned from git@host:acme/alpha.git"
    );

    let second = plan(&remote, &vec!["/fleet/alpha".into()], &org());
    let run = execute(&org(), &second, None, &vec![done("Already up to date.\n")]);
    assert_eq!(run.outcomes[0].action, Action::Current);
}

#[test]
fn a_clone_that_is_behind_comes_back_updated() {
    let second = plan(&vec![repo("alpha")], &vec!["/fleet/alpha".into()], &org());
    let run = execute(
        &org(),
        &second,
        None,
        &vec![done("Updating 1..2\nFast-forward\n f.txt | 2 +-\n\n")],
    );
    assert_eq!(run.outcomes[0].action, Action::Updated);
    assert_eq!(run.outcomes[0].detail, "f.txt | 2 +-");
}

#[test]
fn a_diverged_clone_is_skipped_and_untouched() {
    let second = plan(&vec![repo("alpha")], &vec!["/fleet/alpha".into()], &org());
    let failed = Answer::Failed("fatal: Not possible to fast-forward\nhint: rebase".into());
    let run = execute(&org(), &second, None, &vec![failed]);
    assert_eq!(run.outcomes[0].action, Action::Skipped);
    assert_eq!(
        run.outcomes[0].detail,
        "fatal: Not possible to fast-forward"
    );
}

#[test]
fn orphans_are_reported_and_never_touched() {
    let second = plan(&vec![repo("other")], &vec!["/work/stray".into()], &org());
    assert_eq!(work_list(&second).len(), 1, "only the clone is work");
    let run = execute(&org(), &second, None, &vec![done("")]);
    let orphan = run
        .outcomes
        .iter()
        .find(|o| o.action == Action::Orphaned)
        .expect("the stray checkout should be reported");
    assert_eq!(orphan.name, "stray");
    assert_eq!(orphan.detail, "on disk, not in acme's repo list");
}

#[test]
fn a_failed_clone_leaves_no_directory_and_reports_an_error() {
    let first = plan(&vec![repo("doomed")], &Vec::new(), &org());
    let run = execute(
        &org(),
        &first,
        None,
        &vec![Answer::Failed("fatal: repository not found".into())],
    );
    assert_eq!(run.outcomes[0].action, Action::Error);
    assert_eq!(run.outcomes[0].name, "doomed");
    assert_eq!(run.outcomes[0].detail, "fatal: repository not found");
}

/// A strictly serial execution produces events that never interleave:
/// each Progress tick is immediately followed by its own repo's outcome,
/// and `done` climbs one at a time from zero.
#[test]
fn progress_events_arrive_strictly_one_at_a_time() {
    let remote = vec![repo("gamma"), repo("alpha"), repo("beta")];
    let plan = plan(&remote, &Vec::new(), &org());
    let run = execute(&org(), &plan, None, &vec![done(""), done(""), done("")]);

    assert_eq!(run.outcomes.len(), 3);
    // 3 × (Progress + Repo), in exactly that alternating shape.
    assert_eq!(run.events.len(), 6);
    for (i, pair) in run.events.chunks(2).enumerate() {
        match (&pair[0], &pair[1]) {
            (SyncEvent::Progress { done, total, label }, SyncEvent::Repo(outcome)) => {
                assert_eq!(*done, i, "progress must climb one at a time");
                assert_eq!(*total, 3);
                assert_eq!(*label, format!("cloning {}", outcome.name));
            }
            other => panic!("events must alternate Progress/Repo, got {other:?}"),
        }
    }
    let names: Vec<&str> = run.outcomes.iter().map(|o| o.name.as_str()).collect();
    assert_eq!(names, vec!["alpha", "beta", "gamma"]);
}

#[test]
fn the_total_counts_every_row() {
    let mut forked = repo("forky");
    forked.fork = true;
    let remote = vec![repo("alpha"), forked];
    let plan = plan(&remote, &vec!["/work/stray".into()], &org());
    let mut run = SyncRun::begin(&org(), &plan, None);
    assert_eq!(run.total, 3);
    assert_eq!(run.next().unwrap().name, "alpha");
    run.tick();
    run.answer(&org(), &done(""));
    assert!(run.next().is_none());
    run.finish(&org(), &plan);
    let actions: Vec<Action> = run.outcomes.iter().map(|o| o.action).collect();
    assert_eq!(
        actions,
        vec![Action::Cloned, Action::Orphaned, Action::Skipped]
    );
    assert_eq!(run.outcomes[2].detail, "fork");
}

#[test]
fn a_failed_listing_degrades_to_update_only_with_one_error_row() {
    // The listing failed: the sync must NOT conclude the org is empty
    // and report the checkout as an orphan.
    let disk = vec!["/work/acme/alpha".to_string()];
    let (lead, plan) = sync_plan(&org(), &Err("gh failed: boom\nmore".into()), &disk);
    assert_eq!(plan.to_update, disk);
    let run = execute(&org(), &plan, None, &vec![done("Already up to date.")]);
    let outcomes = finish_sync(&org(), None, lead, run);

    assert_eq!(outcomes[0].action, Action::Error);
    assert_eq!(outcomes[0].detail, "listing failed: gh failed: boom");
    assert!(!outcomes.iter().any(|o| o.action == Action::Orphaned));
    assert!(outcomes.iter().any(|o| o.action == Action::Current));
}

#[test]
fn an_empty_but_successful_listing_is_trusted() {
    let disk = vec!["/work/acme/alpha".to_string()];
    let (lead, plan) = sync_plan(&org(), &Ok(Vec::new()), &disk);
    let run = execute(&org(), &plan, None, &Vec::new());
    let outcomes = finish_sync(&org(), None, lead, run);
    assert_eq!(outcomes.len(), 1);
    assert_eq!(outcomes[0].action, Action::Orphaned);
}

#[test]
fn a_failed_path_resolution_reports_one_error_and_no_work() {
    let plan = plan(&vec![repo("alpha")], &Vec::new(), &org());
    let run = execute(&org(), &plan, Some("no path\nsecond line"), &Vec::new());
    assert_eq!(run.outcomes.len(), 1);
    assert_eq!(run.outcomes[0].action, Action::Error);
    assert_eq!(run.outcomes[0].name, "acme");
    assert_eq!(
        run.outcomes[0].detail,
        "org path could not be resolved: no path"
    );
}

#[test]
fn the_protocol_picks_the_url() {
    let mut org = org();
    assert_eq!(clone_url(&org, &repo("a")), "git@host:acme/a.git");
    org.protocol = CloneProtocol::Https;
    assert_eq!(clone_url(&org, &repo("a")), "https://host/acme/a.git");
}

#[test]
fn the_last_line_skips_blank_ones() {
    assert_eq!(last_line("one\n two \n\n  \n"), "two");
    assert_eq!(last_line(""), "");
}

#[test]
fn a_sync_is_recorded_by_its_buckets() {
    let plan = SyncPlan {
        to_clone: vec![repo("new"), repo("bad")],
        to_update: vec!["/f/cur".into(), "/f/upd".into(), "/f/skip".into()],
        orphans: vec!["/f/stray".into()],
        skipped: Vec::new(),
    };
    let answers = vec![
        Answer::Failed("broken".into()),
        done("Already up to date."),
        done(""),
        Answer::Failed("dirty".into()),
        done("Fast-forward"),
    ];
    let names: Vec<String> = work_list(&plan).iter().map(|w| w.name.clone()).collect();
    assert_eq!(names, vec!["bad", "cur", "new", "skip", "upd"]);
    let run = execute(&org(), &plan, None, &answers);
    let state = record_state(&org(), &run.outcomes, 99);
    assert_eq!(state.provider, "github");
    assert_eq!(state.owner, "acme");
    assert_eq!(state.last_sync_at, 99);
    assert_eq!(
        (
            state.cloned,
            state.updated,
            state.current,
            state.skipped,
            state.orphans,
            state.errors
        ),
        (1, 1, 1, 1, 1, 1)
    );
    assert_eq!(state.last_error.as_deref(), Some("broken"));
}

#[test]
fn disk_repos_finds_checkouts_and_skips_plain_dirs() {
    let children = vec![
        ("/r/worktree".to_string(), true),
        ("/r/plain".to_string(), false),
        ("/r/real".to_string(), true),
    ];
    assert_eq!(disk_repos(&children), vec!["/r/real", "/r/worktree"]);
}

#[test]
fn a_missing_disk_dir_is_an_empty_answer_not_an_error() {
    assert!(disk_repos(&Vec::new()).is_empty());
}

#[test]
fn the_first_checkout_of_a_name_is_the_one_updated() {
    let disk = vec!["/b/alpha".to_string(), "/a/alpha".to_string()];
    let plan = plan(&vec![repo("alpha")], &disk, &org());
    assert_eq!(plan.to_update, vec!["/b/alpha"]);
    assert!(plan.orphans.is_empty(), "both carry a listed name");
}

#[test]
fn a_filtered_repo_still_on_disk_is_an_orphan() {
    let mut archived = repo("old");
    archived.archived = true;
    let plan = plan(&vec![archived], &vec!["/r/old".into()], &org());
    assert_eq!(plan.orphans, vec!["/r/old"]);
    assert_eq!(plan.skipped[0].reason, "archived");
}

#[test]
fn rows_without_work_come_without_a_tick() {
    let mut forked = repo("forky");
    forked.fork = true;
    let remote = vec![repo("alpha"), forked];
    let plan = plan(&remote, &vec!["/work/stray".into()], &org());
    let run = execute(&org(), &plan, None, &vec![done("")]);
    assert_eq!(run.events.len(), 4);
    for (event, action) in run.events[2..]
        .iter()
        .zip([Action::Orphaned, Action::Skipped])
    {
        match event {
            SyncEvent::Repo(row) => assert_eq!(row.action, action),
            other => panic!("{other:?}"),
        }
    }
}
