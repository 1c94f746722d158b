use drydock::config::OrgProvider;
use drydock::model::Visibility;
use drydock::paging::{Listing, PAGE_SIZE};
use drydock::provider::{authenticated_hosts, detect, list_owners, OrgRepo, Provider, TeaLogin};
use drydock::tool::{tool_failure, tool_running, tool_timeout};
use drydock::{gh, gitea, gitlab};

fn repos(n: usize) -> Vec<OrgRepo> {
    (0..n)
        .map(|i| OrgRepo {
            name: format!("r{i}"),
            ssh_url: "".into(),
            https_url: "".into(),
            archived: false,
            fork: false,
        })
        .collect()
}

#[test]
fn a_short_page_ends_the_listing() {
    let listing = Listing::new();
    assert_eq!(listing.page, 1);
    assert!(!listing.done);
    let listing = listing.take_page(repos(PAGE_SIZE as usize));
    assert_eq!((listing.page, listing.done), (2, false));
    let listing = listing.take_page(repos(3));
    assert!(listing.done);
    assert_eq!(listing.repos.len(), PAGE_SIZE as usize + 3);
    assert!(Listing::new().take_page(Vec::new()).done);
}

#[test]
fn gitlab_groups_and_users_are_asked_differently() {
    assert_eq!(gitlab::namespace_args("acme"), vec!["api", "namespaces/acme"]);
    assert_eq!(
        gitlab::list_args("acme", "group", true, 2),
        vec![
            "repo", "list", "--group", "acme", "--include-subgroups", "--output", "json",
            "--per-page", "100", "--page", "2"
        ]
    );
    assert_eq!(
        gitlab::list_args("me", "user", true, 1),
        vec![
            "repo", "list", "--user", "me", "--output", "json", "--per-page", "100", "--page", "1"
        ]
    );
    assert_eq!(
        gitlab::namespace_kind(Some("group".into())),
        Ok("group".to_string())
    );
    assert_eq!(
        gitlab::namespace_kind(None),
        Err("namespace response carries no \"kind\"".to_string())
    );
}

#[test]
fn gitea_names_its_login_only_when_it_has_one() {
    let args = gitea::list_args("otter", "", 3);
    assert_eq!(
        args,
        vec!["repos", "list", "--owner", "otter", "--output", "json", "--limit", "100", "--page", "3"]
    );
    let args = gitea::list_args("otter", "work", 3);
    assert_eq!(args[args.len() - 2..], ["-l".to_string(), "work".to_string()]);
}

// The output is quoted the way Rust would show it.
#[test]
fn unreadable_listings_quote_what_came_back() {
    assert_eq!(
        gitlab::bad_namespace("not \"json\"\n"),
        "parsing glab namespace output: \"not \\\"json\\\"\\n\""
    );
    assert_eq!(
        gitlab::bad_listing("x"),
        "parsing glab repo list output: \"x\""
    );
    assert_eq!(
        gitea::bad_listing("x"),
        "parsing tea repos list output: \"x\""
    );
    assert_eq!(
        gh::bad_listing("\n first line \nsecond"),
        "parsing gh repo list output: first line "
    );
    assert_eq!(gh::preview(&"x".repeat(200)).len(), 120);
}

#[test]
fn a_visibility_answer_is_read_or_quoted() {
    assert_eq!(gh::visibility("PRIVATE\n"), Ok(Visibility::Private));
    let e = gh::visibility("strange\n").unwrap_err();
    assert!(e.contains("\"strange\""), "{e}");
    assert_eq!(gh::visibility_args("o/r")[2], "o/r");
}

#[test]
fn tools_fail_with_their_invocation() {
    let args = vec!["repo".to_string(), "list".to_string()];
    assert_eq!(
        tool_failure("gh", &args, " denied\n"),
        "gh repo list failed: denied"
    );
    assert_eq!(
        tool_failure("gh", &args, ""),
        "gh repo list failed: no output"
    );
    assert_eq!(
        tool_timeout("glab", &args, 30),
        "glab repo list timed out after 30s"
    );
    assert_eq!(tool_running("tea", &args), "running tea repo list");
}

#[test]
fn hosts_come_in_the_order_of_their_tools() {
    let github = vec![("github.com".to_string(), "me".to_string())];
    let lab = vec![("gitlab.com".to_string(), "me2".to_string())];
    let tea = vec![TeaLogin {
        host: "git.example.com".into(),
        user: None,
        name: "work".into(),
    }];
    let hosts = authenticated_hosts(&github, &lab, &tea);
    let kinds: Vec<OrgProvider> = hosts.iter().map(|h| h.provider).collect();
    assert_eq!(
        kinds,
        vec![OrgProvider::GitHub, OrgProvider::GitLab, OrgProvider::Gitea]
    );
    assert_eq!(hosts[0].login.as_deref(), Some("me"));
    assert_eq!(hosts[0].name, None);
    assert_eq!(hosts[2].login, None);
    assert_eq!(hosts[2].name.as_deref(), Some("work"));
}

#[test]
fn owners_are_listed_once() {
    let orgs = vec!["acme".to_string(), "me".to_string(), "acme".to_string()];
    assert_eq!(list_owners("me", &orgs), vec!["me", "acme"]);
}

#[test]
fn a_detected_slug_has_two_segments() {
    assert_eq!(
        detect("ssh://git@github.com/o/r.git"),
        Some((Provider::GitHub, "o/r".to_string()))
    );
    assert_eq!(detect("https://github.com/o/r/tree"), None);
    assert!(gh::is_github_host("WWW.GitHub.com"));
    assert!(!gh::is_github_host("notgithub.com"));
}

#[test]
fn reads_namespace_kinds() {
    assert_eq!(gitlab::namespace_kind(Some("group".into())).unwrap(), "group");
    assert_eq!(gitlab::namespace_kind(Some("user".into())).unwrap(), "user");
}

#[test]
fn rejects_namespace_without_kind() {
    assert!(gitlab::namespace_kind(None).is_err());
}
