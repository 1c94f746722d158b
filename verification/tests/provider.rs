use drydock::provider::{detect, Provider};

#[test]
fn detects_github_remotes() {
    assert_eq!(
        detect("git@github.com:owner/repo.git"),
        Some((Provider::GitHub, "owner/repo".into()))
    );
}

#[test]
fn other_hosts_are_unrecognised() {
    assert_eq!(detect("git@gitlab.com:owner/repo.git"), None);
    assert_eq!(detect("git@bitbucket.org:owner/repo.git"), None);
    assert_eq!(detect("https://git.example.com/owner/repo.git"), None);
}
