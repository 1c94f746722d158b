use drydock::gh::github_slug;

#[test]
fn parses_common_github_remote_shapes() {
    assert_eq!(
        github_slug("git@github.com:owner/repo.git").as_deref(),
        Some("owner/repo")
    );
    assert_eq!(
        github_slug("ssh://git@github.com/owner/repo.git").as_deref(),
        Some("owner/repo")
    );
    assert_eq!(
        github_slug("https://github.com/owner/repo.git").as_deref(),
        Some("owner/repo")
    );
    assert_eq!(
        github_slug("https://github.com/owner/repo").as_deref(),
        Some("owner/repo")
    );
}

// Every one of these is a normal remote somebody has configured.
#[test]
fn parses_the_awkward_but_real_remote_shapes() {
    for url in [
        // The port-443 endpoint, for networks that block 22.
        "ssh://git@ssh.github.com:443/owner/repo.git",
        // An explicit port on the normal host.
        "ssh://git@github.com:22/owner/repo.git",
        // The read-only git protocol.
        "git://github.com/owner/repo.git",
        // Credentials embedded in an https remote.
        "https://someone@github.com/owner/repo.git",
        // A trailing slash.
        "https://github.com/owner/repo/",
        "https://github.com/owner/repo.git/",
        // No user at all on an ssh URL.
        "ssh://github.com/owner/repo.git",
        "  https://github.com/owner/repo.git  ",
    ] {
        assert_eq!(
            github_slug(url).as_deref(),
            Some("owner/repo"),
            "failed on {url}"
        );
    }
}

// A web URL is not a clone URL, and picking two of its segments to call
// owner and repo would be a guess. Saying nothing is the honest answer.
#[test]
fn rejects_paths_deeper_than_owner_slash_repo() {
    assert_eq!(github_slug("https://github.com/owner/repo/tree/main"), None);
}

// A lookalike host is not GitHub, and asking `gh` about it would return
// someone else's repo of the same name.
#[test]
fn rejects_hosts_that_merely_end_in_github_com() {
    for url in [
        "https://notgithub.com/owner/repo.git",
        "https://github.com.evil.example/owner/repo.git",
        "git@github.example.com:owner/repo.git",
    ] {
        assert_eq!(github_slug(url), None, "accepted {url}");
    }
}

#[test]
fn rejects_non_github_and_malformed_remotes() {
    assert_eq!(github_slug("git@gitlab.com:owner/repo.git"), None);
    assert_eq!(github_slug("git@github.com:owner-only.git"), None);
    assert_eq!(github_slug("not a url"), None);
}

#[test]
fn wiki_remotes_resolve_to_their_parent_repo() {
    assert_eq!(
        github_slug("git@github.com:owner/repo.wiki.git").as_deref(),
        Some("owner/repo")
    );
}
