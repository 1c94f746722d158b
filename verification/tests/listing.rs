use drydock::column::{sanitise, Column};
use drydock::config::{default_concurrency, Config};
use drydock::duration::{parse_duration, Duration};
use drydock::filter::{Filter, Query, Sort};
use drydock::fmt::{count, duration, marked, truncate, Elapsed};
use drydock::model::RepoStatus;
use drydock::probe::Timings;
use drydock::report::{count_repos, detail_from, groups_table, list_table_from, summary, Trait};
use drydock::table::{table, Align};

fn repo(group: &str, name: &str) -> RepoStatus {
    RepoStatus::new(format!("/home/me/p/{group}/{name}"), group.into(), name.into())
}

#[test]
fn every_row_is_as_wide_as_its_columns() {
    let rows = vec![
        vec!["a".to_string(), "10".to_string()],
        vec!["longer".to_string(), "2".to_string()],
    ];
    let out = table(&["NAME", "N"], &[Align::Left, Align::Right], &rows);
    assert_eq!(out, "NAME     N\na       10\nlonger   2\n");
}

#[test]
fn paths_are_shown_from_home() {
    let r = repo("g", "r");
    let out = list_table_from(&[&r], 0, true, &[Column::Repo], Some("/home/me"));
    assert!(out.lines().nth(1).unwrap().starts_with("~/p/g/r"), "{out}");
    let out = list_table_from(&[&r], 0, false, &[Column::Repo], Some("/home/me"));
    assert!(out.lines().nth(1).unwrap().starts_with("r"), "{out}");
    assert!(detail_from(&r, 0, Some("/home/me")).contains("~/p/g/r"));
}

#[test]
fn every_group_has_a_line() {
    let repos = vec![repo("b", "x"), repo("a", "y"), repo("b", "z")];
    let out = groups_table(&repos);
    let firsts: Vec<&str> = out
        .lines()
        .map(|l| l.split_whitespace().next().unwrap())
        .collect();
    assert_eq!(firsts, vec!["GROUP", "a", "b"]);
}

#[test]
fn a_count_never_exceeds_the_fleet() {
    let mut broken = repo("a", "x");
    broken.error = Some("boom".into());
    let repos = vec![broken, repo("a", "y")];
    assert_eq!(count_repos(&repos, Trait::Any), 2);
    assert_eq!(count_repos(&repos, Trait::Errored), 1);
    assert_eq!(count_repos(&repos, Trait::Dirty), 0);
    let text = summary(&repos, None);
    assert!(text.starts_with("2 repos"), "{text}");
    assert!(text.contains("1 errored"), "{text}");
    let mut timings = Timings::default();
    timings.total = Elapsed {
        millis: 40,
        seconds: "0.0".into(),
    };
    assert_ne!(summary(&repos, Some(&timings)), text);
}

#[test]
fn columns_are_sanitised_once() {
    let once = sanitise(vec![Column::Age, Column::Age, Column::VisibilityShort]);
    assert_eq!(once, vec![Column::Repo, Column::Age, Column::VisibilityShort]);
    assert_eq!(sanitise(once.clone()), once);
}

#[test]
fn keys_come_back_from_parsing() {
    for c in Column::all() {
        assert_eq!(Column::parse(c.key()), Ok(*c));
    }
    for f in Filter::all() {
        assert_eq!(Filter::parse(f.label()), Ok(*f));
    }
    for s in Sort::all() {
        assert_eq!(Sort::parse(s.label()), Ok(*s));
    }
}

#[test]
fn cycling_a_sort_comes_back_around() {
    let mut s = Sort::Activity;
    let mut steps = 0;
    loop {
        s = s.next(true);
        steps += 1;
        if s == Sort::Activity {
            break;
        }
    }
    assert_eq!(steps, Sort::all().len());
}

#[test]
fn toggling_a_filter_twice_changes_nothing() {
    let mut q = Query::default();
    q.toggle(Filter::Dirty);
    assert!(q.has(Filter::Dirty));
    q.toggle(Filter::Held);
    q.toggle(Filter::Dirty);
    assert!(!q.has(Filter::Dirty));
    assert_eq!(q.filters, vec![Filter::Held]);
}

#[test]
fn a_bad_since_leaves_the_query_alone() {
    let mut q = Query::default();
    q.set_since("3h").unwrap();
    assert!(q.set_since("never").is_err());
    assert_eq!(q.since, Some(Duration::from_secs(10_800)));
}

#[test]
fn indices_point_at_the_answer() {
    let repos = vec![repo("b", "x"), repo("a", "y")];
    let q = Query {
        sort: Sort::Group,
        ..Query::default()
    };
    assert_eq!(q.apply_indices(&repos, 0), vec![1, 0]);
    let names: Vec<&str> = q.apply(&repos, 0).iter().map(|r| r.name.as_str()).collect();
    assert_eq!(names, vec!["y", "x"]);
}

#[test]
fn durations_carry_their_unit() {
    assert_eq!(parse_duration("1500ms"), Some(Duration::from_millis(1_500)));
    assert_eq!(parse_duration("2w"), Some(Duration::from_secs(1_209_600)));
    assert_eq!(parse_duration("x"), None);
    assert_eq!(
        duration(&Elapsed {
            millis: 999,
            seconds: "1.0".into()
        }),
        "999ms"
    );
    assert_eq!(
        duration(&Elapsed {
            millis: 1_000,
            seconds: "1.0".into()
        }),
        "1.0s"
    );
}

#[test]
fn cells_are_cut_and_marked() {
    assert_eq!(truncate("abcdef", 4), "abc…");
    assert_eq!(truncate("abc", 4), "abc");
    assert_eq!(count(0), "·");
    assert_eq!(count(7), "7");
    assert_eq!(marked("7".into(), true), "7*");
    assert_eq!(marked("7".into(), false), "7");
}

#[test]
fn workers_are_never_fewer_than_asked() {
    let mut cfg = Config::default();
    // Whatever the machine has, the default stays within its bounds.
    let work = cfg.work_concurrency();
    assert!((2..=12).contains(&work), "{work}");
    let refs = cfg.refs_concurrency();
    assert!((4..=24).contains(&refs), "{refs}");
    cfg.status.concurrency = Some(5);
    assert_eq!(cfg.work_concurrency(), 5);
    assert_eq!(default_concurrency(3), 3);
    assert_eq!(default_concurrency(64), 12);
    assert_eq!(default_concurrency(1), 2);
}

#[test]
fn the_groups_add_up() {
    let repos = vec![repo("b", "x"), repo("a", "y"), repo("b", "z"), repo("", "w")];
    let out = groups_table(&repos);
    let counts: Vec<usize> = out
        .lines()
        .skip(1)
        .map(|l| l.split_whitespace().nth(1).unwrap().parse().unwrap())
        .collect();
    assert_eq!(counts.len(), 3);
    assert_eq!(counts.iter().sum::<usize>(), repos.len());
}
