use drydock::config::Config;
use drydock::discover::{
    build_excludes, discover, entry_fate, walk_rules, Entry, Fate, Walk, WalkRules,
};
use drydock::pathname::is_under;

fn dir(name: &str) -> Entry {
    Entry {
        name: name.into(),
        is_symlink: false,
        is_dir: true,
    }
}

/// What a made-up file system holds.
fn listing(path: &str) -> Vec<Entry> {
    match path {
        "/dev" => vec![dir("myrepo"), dir("group"), dir(".cache"), dir("node_modules")],
        "/dev/myrepo" => vec![dir(".git"), dir("trunk")],
        "/dev/myrepo/trunk" => vec![
            Entry {
                name: ".git".into(),
                is_symlink: false,
                is_dir: false,
            },
            dir("vendored"),
        ],
        "/dev/myrepo/trunk/vendored" => vec![dir(".git")],
        "/dev/group" => vec![dir("zeta"), dir("alpha"), dir("skipped")],
        "/dev/group/zeta" => vec![dir(".git")],
        "/dev/group/alpha" => vec![dir(".git")],
        "/dev/group/skipped" => vec![dir(".git")],
        _ => Vec::new(),
    }
}

fn walk(rules: &WalkRules) -> Vec<String> {
    let mut walk = Walk::new();
    walk.start_root("/dev");
    while let Some(dir) = walk.next_dir().map(|d| d.to_string()) {
        let entries = Some(listing(&dir));
        let bare = dir == "/dev/myrepo";
        walk.step(rules, &entries, &dir, bare);
    }
    let (found, stats) = discover(walk);
    assert_eq!(stats.repos_found, found.len());
    found
        .iter()
        .map(|d| {
            if d.group.is_empty() {
                d.name.clone()
            } else {
                format!("{}/{}", d.group, d.name)
            }
        })
        .collect()
}

fn rules(exclude: &[&str]) -> WalkRules {
    let cfg = Config {
        exclude: exclude.iter().map(|s| s.to_string()).collect(),
        ..Config::default()
    };
    match walk_rules(&cfg) {
        Ok(rules) => rules,
        Err(e) => panic!("{}: {}", e.context, e.cause),
    }
}

// The bare repo is what discovery finds first, and pruning at
// that point hides the worktrees -- which are the only things in the
// layout with a working tree to report on.
#[test]
fn a_bare_repos_worktrees_are_found_without_following_nested_repos() {
    let slugs = walk(&rules(&[]));
    assert!(slugs.contains(&"myrepo/trunk".to_string()), "{slugs:?}");
    assert!(slugs.contains(&"myrepo".to_string()), "{slugs:?}");
}

// The rule bare repos are an exception to still has to hold for everyone
// else: a checkout nested inside a normal working tree stays pruned.
#[test]
fn a_repo_nested_in_a_working_tree_is_still_pruned() {
    let slugs = walk(&rules(&[]));
    assert!(!slugs.iter().any(|n| n.contains("vendored")), "{slugs:?}");
}

#[test]
fn repos_come_out_by_path() {
    assert_eq!(
        walk(&rules(&["group/skipped"])),
        vec!["group/alpha", "group/zeta", "myrepo", "myrepo/trunk"]
    );
}

#[test]
fn the_stats_count_what_was_met() {
    let rules = rules(&["group/skipped"]);
    let mut walk = Walk::new();
    walk.start_root("/dev");
    while let Some(dir) = walk.next_dir().map(|d| d.to_string()) {
        let entries = if dir == "/dev/group/zeta" {
            None
        } else {
            Some(listing(&dir))
        };
        walk.step(&rules, &entries, &dir, false);
    }
    let (found, stats) = discover(walk);
    assert_eq!(found.len(), 2);
    // /dev, myrepo, group, zeta, alpha.
    assert_eq!(stats.dirs_visited, 5);
    // node_modules by name, group/skipped by pattern.
    assert_eq!(stats.pruned, 2);
    assert_eq!(stats.unreadable, 1);
}

#[test]
fn a_repo_is_listed_under_one_path() {
    let rules = rules(&[]);
    let mut walk = Walk::new();
    walk.start_root("/dev/group");
    while let Some(dir) = walk.next_dir().map(|d| d.to_string()) {
        let entries = Some(listing(&dir));
        // Every repo resolves to the same place.
        walk.step(&rules, &entries, "/real/place", false);
    }
    let (found, _) = discover(walk);
    assert_eq!(found.len(), 1);
}

#[test]
fn the_root_itself_is_never_listed() {
    let rules = rules(&[]);
    let mut walk = Walk::new();
    walk.start_root("/dev/group/alpha");
    while let Some(dir) = walk.next_dir().map(|d| d.to_string()) {
        let entries = Some(listing(&dir));
        walk.step(&rules, &entries, &dir, false);
    }
    let (found, _) = discover(walk);
    assert!(found.is_empty());
}

#[test]
fn the_depth_is_bounded() {
    let cfg = Config {
        max_depth: 1,
        exclude: Vec::new(),
        ..Config::default()
    };
    let Ok(rules) = walk_rules(&cfg) else {
        panic!("the default patterns compile");
    };
    assert_eq!(walk(&rules), vec!["myrepo"]);
}

#[test]
fn entries_meet_their_fates() {
    let prune = vec!["vendor".to_string()];
    let link = Entry {
        name: "link".into(),
        is_symlink: true,
        is_dir: true,
    };
    let file = Entry {
        name: "file".into(),
        is_symlink: false,
        is_dir: false,
    };
    assert_eq!(entry_fate(&dir(".git"), false, &prune, true), Fate::Marker);
    assert_eq!(entry_fate(&link, false, &prune, false), Fate::Skipped);
    assert_eq!(entry_fate(&link, true, &prune, false), Fate::Child);
    assert_eq!(entry_fate(&file, true, &prune, false), Fate::Skipped);
    assert_eq!(entry_fate(&dir(".hidden"), true, &prune, false), Fate::Skipped);
    assert_eq!(entry_fate(&dir("vendor"), true, &prune, false), Fate::Pruned);
    assert_eq!(entry_fate(&dir("src"), true, &prune, true), Fate::Pruned);
    assert_eq!(entry_fate(&dir("src"), true, &prune, false), Fate::Child);
}

#[test]
fn a_bad_exclude_pattern_is_named() {
    assert!(build_excludes(&[]).unwrap().is_none());
    let e = build_excludes(&["fine".into(), "[bad/**".into()]).unwrap_err();
    assert_eq!(e.context, "Invalid exclude pattern: [bad/**");
    assert!(!e.cause.is_empty());
}

#[test]
fn no_repo_lies_inside_another_that_is_not_bare() {
    let mut walk = Walk::new();
    walk.start_root("/dev");
    let rules = rules(&[]);
    while let Some(dir) = walk.next_dir().map(|d| d.to_string()) {
        let entries = Some(listing(&dir));
        walk.step(&rules, &entries, &dir, dir == "/dev/myrepo");
        assert_eq!(walk.stats.repos_found, 0);
    }
    let (found, stats) = discover(walk);
    assert_eq!(stats.repos_found, found.len());
    for a in &found {
        for b in &found {
            if a.root != b.root && is_under(&a.root, &b.root) {
                assert_eq!(b.root, "/dev/myrepo");
            }
        }
        for segment in a.root["/dev/".len()..].split('/') {
            assert!(!segment.starts_with('.'), "{}", a.root);
            assert!(!rules.prune.iter().any(|p| p == segment), "{}", a.root);
        }
    }

    let cfg = Config {
        follow_nested_repos: true,
        ..Config::default()
    };
    let Ok(nested) = walk_rules(&cfg) else {
        panic!("the default patterns compile");
    };
    assert!(self::walk(&nested).contains(&"myrepo/trunk/vendored".to_string()));
}
