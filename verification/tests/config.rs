use drydock::config::{parse_duration, Config, OrgConfig, OrgProvider};
use drydock::duration::Duration;

#[test]
fn durations_parse() {
    assert_eq!(parse_duration("250ms"), Some(Duration::from_millis(250)));
    assert_eq!(parse_duration("30s"), Some(Duration::from_secs(30)));
    assert_eq!(parse_duration("5m"), Some(Duration::from_secs(300)));
    assert_eq!(parse_duration("2h"), Some(Duration::from_secs(7200)));
    assert_eq!(parse_duration("7d"), Some(Duration::from_secs(604_800)));
    assert_eq!(parse_duration("1w"), Some(Duration::from_secs(604_800)));
    assert_eq!(parse_duration("90"), Some(Duration::from_secs(90)));
    assert_eq!(parse_duration(""), None);
    assert_eq!(parse_duration("nope"), None);
}

#[test]
fn default_config_has_no_orgs() {
    assert!(Config::default().orgs.is_empty());
}

#[test]
fn from_host_knows_the_hosted_instances() {
    assert_eq!(
        OrgProvider::from_host("github.com"),
        Some(OrgProvider::GitHub)
    );
    assert_eq!(
        OrgProvider::from_host("GitHub.Com"),
        Some(OrgProvider::GitHub)
    );
    assert_eq!(
        OrgProvider::from_host(" gitlab.com "),
        Some(OrgProvider::GitLab)
    );
    assert_eq!(
        OrgProvider::from_host("gitea.com"),
        Some(OrgProvider::Gitea)
    );
    assert_eq!(OrgProvider::from_host("git.example.com"), None);
    assert_eq!(OrgProvider::from_host(""), None);
}

fn org(host: &str, owner: &str) -> OrgConfig {
    OrgConfig {
        host: host.into(),
        owner: owner.into(),
        ..OrgConfig::default()
    }
}

#[test]
fn org_problems_flags_duplicates_and_nested_paths() {
    let cfg = Config {
        orgs: vec![
            org("github.com", "acme"),
            org("github.com", "acme"),
            OrgConfig {
                path: Some("~/dev/github.com".into()),
                ..org("github.com", "other")
            },
            OrgConfig {
                path: Some("~/dev/github.com/nested".into()),
                ..org("github.com", "nested")
            },
        ],
        ..Config::default()
    };

    let problems = cfg.org_problems();
    assert!(
        problems.iter().any(|p| p.contains("duplicate")),
        "{problems:?}"
    );
    assert!(
        problems.iter().any(|p| p.contains("overlaps")),
        "{problems:?}"
    );
}

#[test]
fn org_problems_accepts_a_valid_config() {
    let cfg = Config {
        roots: vec!["~/Projects".into()],
        orgs: vec![
            org("github.com", "acme"),
            OrgConfig {
                provider: Some(OrgProvider::GitLab),
                path: Some("~/dev/gitlab/platform".into()),
                ..org("git.example.com", "platform")
            },
            OrgConfig {
                provider: Some(OrgProvider::Gitea),
                path: Some("~/dev/gitea/otter".into()),
                ..org("git.example.com", "otter")
            },
        ],
        ..Config::default()
    };

    assert_eq!(cfg.org_problems(), Vec::<String>::new());
}

#[test]
fn a_single_org_is_checked_too() {
    let alone = |org: OrgConfig| Config {
        roots: vec!["/fleet".into()],
        orgs: vec![org],
        ..Config::default()
    };
    assert!(alone(org("github.com", "acme")).org_problems().is_empty());
    assert_eq!(alone(org("github.com", " ")).org_problems().len(), 1);
    assert_eq!(alone(org("git.example.com", "acme")).org_problems().len(), 1);
    assert!(!alone(org("", "acme")).org_problems().is_empty());
}
