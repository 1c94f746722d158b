use drydock::config::{Config, OrgConfig};
use drydock::org::{effective_path, ensure_scan_root, ensure_scan_root_from, plan};
use drydock::paths::expand;
use drydock::provider::OrgRepo;

fn repo(name: &str) -> OrgRepo {
    OrgRepo {
        name: name.to_string(),
        ssh_url: String::new(),
        https_url: String::new(),
        archived: false,
        fork: false,
    }
}

fn org() -> OrgConfig {
    OrgConfig {
        host: "github.com".into(),
        owner: "acme".into(),
        ..OrgConfig::default()
    }
}

fn cfg_with_root(dir: &str) -> Config {
    Config {
        roots: vec![dir.to_string()],
        ..Default::default()
    }
}

// ------------------------------------------------------------------
// Planner
// ------------------------------------------------------------------

#[test]
fn plan_buckets_by_presence_on_disk() {
    let remote = vec![repo("alpha"), repo("beta"), repo("gamma")];
    let disk = vec![String::from("/r/beta"), String::from("/r/delta")];
    let plan = plan(&remote, &disk, &org());

    assert_eq!(
        plan.to_clone
            .iter()
            .map(|r| r.name.as_str())
            .collect::<Vec<_>>(),
        vec!["alpha", "gamma"]
    );
    assert_eq!(plan.to_update, vec![String::from("/r/beta")]);
    assert_eq!(plan.orphans, vec![String::from("/r/delta")]);
    assert!(plan.skipped.is_empty());
}

#[test]
fn forks_archives_and_globs_are_skipped_with_reasons() {
    let mut forked = repo("forky");
    forked.fork = true;
    let mut archived = repo("old-thing");
    archived.archived = true;

    let mut cfg = org();
    // "[bad" is unparseable; the sync must tolerate it rather than fail.
    cfg.exclude = vec!["sandbox-*".into(), "[bad".into()];

    let remote = vec![repo("kept"), forked, archived, repo("sandbox-x")];
    let plan = plan(&remote, &Vec::new(), &cfg);

    assert_eq!(plan.to_clone.len(), 1);
    assert_eq!(plan.to_clone[0].name, "kept");
    let skipped: Vec<(&str, &str)> = plan
        .skipped
        .iter()
        .map(|s| (s.name.as_str(), s.reason.as_str()))
        .collect();
    assert_eq!(
        skipped,
        vec![
            ("forky", "fork"),
            ("old-thing", "archived"),
            ("sandbox-x", "excluded by pattern"),
        ]
    );
}

#[test]
fn include_flags_keep_would_be_skips() {
    let mut forked = repo("forky");
    forked.fork = true;
    let mut cfg = org();
    cfg.include_forks = true;
    let plan = plan(&vec![forked], &Vec::new(), &cfg);
    assert!(plan.skipped.is_empty());
    assert_eq!(plan.to_clone.len(), 1);
}

#[test]
fn buckets_come_out_sorted_by_name() {
    let remote = vec![repo("zulu"), repo("alpha"), repo("mike")];
    let disk = vec![
        String::from("/r/zulu"),
        String::from("/r/beta"),
        String::from("/r/yank"),
    ];
    let plan = plan(&remote, &disk, &org());

    assert_eq!(
        plan.to_clone
            .iter()
            .map(|r| r.name.as_str())
            .collect::<Vec<_>>(),
        vec!["alpha", "mike"]
    );
    assert_eq!(plan.to_update, vec![String::from("/r/zulu")]);
    assert_eq!(
        plan.orphans,
        vec![String::from("/r/beta"), String::from("/r/yank")]
    );
}

// ------------------------------------------------------------------
// Path resolution
// ------------------------------------------------------------------

#[test]
fn effective_path_prefers_the_org_path_over_the_first_root() {
    let cfg = cfg_with_root("/somewhere");
    let mut org = org();
    org.path = Some("~/custom/spot".into());
    assert_eq!(
        effective_path(&cfg, &org).unwrap(),
        expand("~/custom/spot")
    );
}

#[test]
fn effective_path_falls_back_to_the_first_root_plus_owner() {
    let cfg = cfg_with_root("/somewhere");
    assert_eq!(
        effective_path(&cfg, &org()).unwrap(),
        String::from("/somewhere/acme")
    );
}

#[test]
fn effective_path_without_any_root_is_an_error() {
    let cfg = Config {
        roots: Vec::new(),
        ..Config::default()
    };
    assert!(effective_path(&cfg, &org()).is_err());
}

// ------------------------------------------------------------------
// Scan-root wiring
// ------------------------------------------------------------------

#[test]
fn path_under_an_existing_root_is_a_noop() {
    let dir = "/tmp/drydock-roots";
    let mut cfg = cfg_with_root(dir);
    let org = OrgConfig {
        host: "github.com".into(),
        owner: "acme".into(),
        // The parent of this path is the root itself.
        path: Some(format!("{}/acme", dir)),
        ..OrgConfig::default()
    };

    assert_eq!(ensure_scan_root(&mut cfg, &org).unwrap(), false);
    assert_eq!(cfg.roots, vec![dir.to_string()]);
}

#[test]
fn path_outside_the_roots_adds_the_parent() {
    let mut cfg = Config {
        roots: vec!["~/elsewhere".into()],
        ..Config::default()
    };
    let org = OrgConfig {
        host: "github.com".into(),
        owner: "acme".into(),
        path: Some("~/org-checkouts/acme".into()),
        ..OrgConfig::default()
    };

    assert_eq!(ensure_scan_root(&mut cfg, &org).unwrap(), true);
    // Stored `~`-contracted, so a hand-edited config stays readable.
    assert_eq!(
        cfg.roots,
        vec!["~/elsewhere".to_string(), "~/org-checkouts".to_string()]
    );
}

#[test]
fn adding_the_same_parent_twice_is_idempotent() {
    let mut cfg = Config {
        roots: vec!["~/elsewhere".into()],
        ..Config::default()
    };
    let org = OrgConfig {
        host: "github.com".into(),
        owner: "acme".into(),
        path: Some("~/org-checkouts/acme".into()),
        ..OrgConfig::default()
    };

    assert_eq!(ensure_scan_root(&mut cfg, &org).unwrap(), true);
    assert_eq!(ensure_scan_root(&mut cfg, &org).unwrap(), false);
    assert_eq!(cfg.roots.len(), 2);
}

#[test]
fn a_second_org_under_a_newly_added_parent_is_a_noop() {
    let mut cfg = Config {
        roots: vec!["~/elsewhere".into()],
        ..Config::default()
    };
    let first = OrgConfig {
        host: "github.com".into(),
        owner: "acme".into(),
        path: Some("~/org-checkouts/acme".into()),
        ..OrgConfig::default()
    };
    let second = OrgConfig {
        host: "github.com".into(),
        owner: "other".into(),
        path: Some("~/org-checkouts/other".into()),
        ..OrgConfig::default()
    };

    assert_eq!(ensure_scan_root(&mut cfg, &first).unwrap(), true);
    assert_eq!(ensure_scan_root(&mut cfg, &second).unwrap(), false);
    assert_eq!(
        cfg.roots,
        vec!["~/elsewhere".to_string(), "~/org-checkouts".to_string()]
    );
}

#[test]
fn a_root_level_path_falls_back_to_the_path_itself() {
    let mut cfg = Config {
        roots: vec!["/elsewhere".into()],
        ..Config::default()
    };
    let org = OrgConfig {
        host: "github.com".into(),
        owner: "acme".into(),
        // Parent is `/`: the org path itself becomes the root, because
        // an ungrouped row still beats an invisible one. Only a
        // single-component absolute path has `/` for a parent.
        path: Some("/srv".into()),
        ..OrgConfig::default()
    };

    assert_eq!(ensure_scan_root(&mut cfg, &org).unwrap(), true);
    assert_eq!(
        cfg.roots,
        vec!["/elsewhere".to_string(), "/srv".to_string()]
    );
}

#[test]
fn no_roots_and_no_path_is_an_error() {
    let mut cfg = Config {
        roots: Vec::new(),
        ..Config::default()
    };
    let org = OrgConfig {
        host: "github.com".into(),
        owner: "acme".into(),
        ..OrgConfig::default()
    };

    assert!(ensure_scan_root(&mut cfg, &org).is_err());
    assert!(cfg.roots.is_empty());
}

#[test]
fn a_root_is_written_for_the_home_directory_it_was_found_under() {
    let mut cfg = Config {
        roots: vec!["/elsewhere".into()],
        ..Config::default()
    };
    let roots = vec!["/elsewhere".to_string()];
    assert!(ensure_scan_root_from(
        &mut cfg,
        "/home/me/org/acme",
        &roots,
        Some("/home/me")
    ));
    assert_eq!(cfg.roots, vec!["/elsewhere", "~/org"]);

    // As the roots read when `~` is expanded, nothing is missing any more, for this
    // org or for another next to it.
    let roots = vec!["/elsewhere".to_string(), "/home/me/org".to_string()];
    for path in ["/home/me/org/acme", "/home/me/org/other"] {
        assert!(!ensure_scan_root_from(
            &mut cfg,
            path,
            &roots,
            Some("/home/me")
        ));
    }
    assert_eq!(cfg.roots.len(), 2);

    let mut bare = Config::default();
    bare.roots = Vec::new();
    assert!(ensure_scan_root_from(&mut bare, "/acme", &Vec::new(), None));
    assert_eq!(bare.roots, vec!["/acme"]);
}
