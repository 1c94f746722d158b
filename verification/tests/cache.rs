use drydock::cache::{
    accept, cached, load, load_org_states, org_key, save, save_org_states, Cache, OrgSyncState,
    CACHE_VERSION,
};
use drydock::model::RepoStatus;

fn state(provider: &str, host: &str, owner: &str) -> OrgSyncState {
    OrgSyncState {
        provider: provider.into(),
        host: host.into(),
        owner: owner.into(),
        last_sync_at: 42,
        cloned: 1,
        updated: 2,
        current: 3,
        skipped: 4,
        orphans: 5,
        errors: 6,
        last_error: None,
    }
}

fn find<'a>(
    states: &'a [OrgSyncState],
    provider: &str,
    host: &str,
    owner: &str,
) -> Option<&'a OrgSyncState> {
    states
        .iter()
        .find(|s| org_key(s) == (provider.into(), host.into(), owner.into()))
}

#[test]
fn org_states_round_trip_through_the_cache_file() {
    let written = save_org_states(None, vec![state("github", "github.com", "acme")], 7);
    let loaded = load_org_states(Some(written));
    assert_eq!(loaded.len(), 1);
    let got = find(&loaded, "github", "github.com", "acme").unwrap();
    assert_eq!(got.owner, "acme");
    assert_eq!(got.updated, 2);
    assert_eq!(got.last_sync_at, 42);
}

// The two writers share one file; neither may drop the other's half.
#[test]
fn saving_org_states_preserves_repos_written_earlier() {
    let repo = RepoStatus::new("/tmp/r".into(), "g".into(), "r1".into());
    let first = save(None, vec![repo], 1);
    let cache = save_org_states(Some(first), vec![state("gitea", "g.example.com", "otter")], 2);

    assert_eq!(cache.repos.len(), 1, "repos must survive the org write");
    assert_eq!(cache.repos[0].name, "r1");
    assert_eq!(cache.orgs.len(), 1);
    assert_eq!(cache.orgs[0].owner, "otter");
}

#[test]
fn saving_repos_preserves_org_states_written_earlier() {
    let first = save_org_states(None, vec![state("gitea", "g.example.com", "otter")], 1);
    let repo = RepoStatus::new("/tmp/r".into(), "g".into(), "r1".into());
    let cache = save(Some(first), vec![repo], 2);
    assert_eq!(cache.orgs.len(), 1, "org states must survive the sweep");
    assert_eq!(cache.orgs[0].owner, "otter");
    assert_eq!(cache.saved_at, 2);
    assert_eq!(cache.version, CACHE_VERSION);
}

#[test]
fn an_upsert_replaces_its_own_key_and_leaves_the_rest() {
    let first = save_org_states(
        None,
        vec![
            state("github", "github.com", "acme"),
            state("gitlab", "gitlab.com", "acme"),
        ],
        1,
    );

    let mut replacement = state("github", "github.com", "acme");
    replacement.cloned = 99;
    replacement.last_error = Some("listing failed: boom".into());
    let second = save_org_states(Some(first), vec![replacement], 2);

    let loaded = load_org_states(Some(second));
    assert_eq!(loaded.len(), 2, "upsert must not displace other orgs");
    assert_eq!(
        find(&loaded, "github", "github.com", "acme").unwrap().cloned,
        99
    );
    assert_eq!(
        find(&loaded, "gitlab", "gitlab.com", "acme").unwrap().cloned,
        1
    );
}

#[test]
fn a_cache_file_without_org_states_still_loads() {
    let cache = Cache {
        version: CACHE_VERSION,
        saved_at: 7,
        repos: vec![RepoStatus::new("/tmp/r".into(), "g".into(), "r1".into())],
        orgs: Vec::new(),
    };
    let cache = accept(Some(cache)).unwrap();
    assert_eq!(cache.repos.len(), 1);
    assert_eq!(cache.saved_at, 7);
    assert!(load_org_states(Some(cache)).is_empty());
}

#[test]
fn a_missing_cache_file_is_an_empty_answer() {
    assert!(load_org_states(None).is_empty());
    assert!(load(None).is_empty());
}

#[test]
fn a_cache_of_another_version_is_ignored() {
    let foreign = Cache {
        version: CACHE_VERSION + 1,
        saved_at: 7,
        repos: vec![RepoStatus::new("/tmp/r".into(), "g".into(), "r1".into())],
        orgs: vec![state("github", "github.com", "acme")],
    };
    assert!(accept(Some(foreign)).is_none());
}

#[test]
fn the_later_of_two_repos_with_one_root_counts() {
    let cache = Cache {
        version: CACHE_VERSION,
        saved_at: 0,
        repos: vec![
            RepoStatus::new("/tmp/r".into(), "g".into(), "first".into()),
            RepoStatus::new("/tmp/other".into(), "g".into(), "other".into()),
            RepoStatus::new("/tmp/r/".into(), "g".into(), "second".into()),
        ],
        orgs: Vec::new(),
    };
    let repos = load(Some(cache));
    assert_eq!(repos.len(), 2);
    assert_eq!(cached(&repos, "/tmp/r").unwrap().name, "second");
    assert_eq!(cached(&repos, "/tmp/other").unwrap().name, "other");
    assert!(cached(&repos, "/tmp/none").is_none());
}

#[test]
fn what_a_sweep_saved_is_found_again() {
    let repos = vec![
        RepoStatus::new("/a".into(), "g".into(), "a".into()),
        RepoStatus::new("/b".into(), "g".into(), "b".into()),
    ];
    let old = save(None, vec![RepoStatus::new("/c".into(), "g".into(), "c".into())], 1);
    let loaded = load(Some(save(Some(old), repos, 2)));
    assert_eq!(cached(&loaded, "/a").unwrap().name, "a");
    assert_eq!(cached(&loaded, "/b").unwrap().name, "b");
    assert!(cached(&loaded, "/c").is_none());
}
