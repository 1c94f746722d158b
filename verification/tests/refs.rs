use drydock::config::Config;
use drydock::git::{
    count_args, count_stashes, describe_args, describe_since_tag, detect_operation, fetch_args,
    fetch_failure, fetch_timeout, git_args, git_failure, git_timeout, head_commit, head_readable,
    holder_args, index_path, parse_described, parse_ref_list, parse_since_count, probe_refs,
    read_head, ref_args, resolve_git_dir, subjects_args, wants_head_commit, work_key, DotGit,
    RefsAnswers, OPERATION_MARKERS,
};
use drydock::gitconfig::scan_git_config;
use drydock::model::{Head, Operation, TagInfo};

const LISTING: &str = "refs/heads/develop\torigin/develop\t[ahead 3, behind 1]\t100\t100\tabc1234\twork on\tit\n\
                       refs/heads/lost\torigin/lost\t[gone]\tx\t\tdef5678\tgone\n\
                       refs/tags/1.0.0\t\t\t50\t60\t1111111\tRelease\n\
                       refs/tags/latest\t\t\t50\t99\t2222222\tMarker\n\
                       refs/stash\t\t\t1\t1\t3\tWIP\n\
                       too short\n";

fn answers() -> RefsAnswers {
    RefsAnswers {
        refs: LISTING.into(),
        head: "ref: refs/heads/develop\n".into(),
        head_log: None,
        described: Some("1.0.0\n".into()),
        since_count: Some("4\n".into()),
        since_subjects: Some("one\ntwo\n".into()),
        tag_holders: Some("refs/heads/develop\n".into()),
        stash_log: Some("a\n\nb\n".into()),
        markers: [false, false, true, false, false, false, true],
        index_mtime: Some(7),
        fetched_at: Some(8),
        config: Some("[remote \"origin\"]\n\turl = git@github.com:o/r.git\n".into()),
        changelog: Some("# 1.1.0\n# 1.0.0\n".into()),
        is_shallow: true,
    }
}

#[test]
fn the_listing_tells_branches_from_tags() {
    let (branches, tags) = parse_ref_list(LISTING);
    assert_eq!(branches.len(), 2);
    assert_eq!(branches[0].name, "develop");
    assert_eq!(branches[0].upstream.as_deref(), Some("origin/develop"));
    assert_eq!((branches[0].ahead, branches[0].behind), (3, 1));
    assert_eq!(branches[0].committed_at, 100);
    assert_eq!(branches[0].subject, "work on\tit");
    assert!(branches[1].gone);
    assert_eq!(branches[1].committed_at, 0);
    assert_eq!(tags.len(), 2);
    assert_eq!((tags[0].name.as_str(), tags[0].at), ("1.0.0", 60));
}

#[test]
fn a_probe_puts_the_answers_together() {
    let cfg = Config::default().release;
    let refs = probe_refs(&answers(), &cfg);
    assert_eq!(refs.head, Head::Branch("develop".into()));
    let commit = refs.last_commit.unwrap();
    assert_eq!(commit.sha, "abc1234");
    assert_eq!(commit.author, "");
    assert_eq!(refs.stashes, 2);
    assert_eq!(refs.operation, Some(Operation::Merge));
    assert_eq!(refs.newest_tag.unwrap().name, "1.0.0");
    let described = refs.described_tag.unwrap();
    assert_eq!((described.name.as_str(), described.at), ("1.0.0", 60));
    assert_eq!(refs.commits_since_tag, Some(4));
    assert_eq!(refs.since_tag_subjects, vec!["one", "two"]);
    assert!(!refs.tags_orphaned);
    assert_eq!(refs.index_mtime, Some(7));
    assert_eq!(refs.fetched_at, Some(8));
    assert_eq!(refs.remote_url.as_deref(), Some("git@github.com:o/r.git"));
    assert!(!refs.is_bare);
    assert!(refs.is_shallow);
    let changelog = refs.changelog.unwrap();
    assert_eq!(changelog.version, "1.1.0");
    assert_eq!(changelog.unreleased_blocks, 1);
}

#[test]
fn a_repo_without_commits_has_no_history() {
    let cfg = Config::default().release;
    let mut said = answers();
    said.head = "ref: refs/heads/main\n".into();
    let refs = probe_refs(&said, &cfg);
    assert_eq!(refs.head, Head::Unborn);
    assert!(refs.last_commit.is_none());
    assert!(refs.described_tag.is_none());
    assert_eq!(refs.commits_since_tag, None);
    assert!(refs.since_tag_subjects.is_empty());
}

#[test]
fn tags_nobody_can_reach_are_orphaned() {
    let mut cfg = Config::default().release;
    cfg.read_changelog = false;
    let mut said = answers();
    said.tag_holders = Some("\n".into());
    let refs = probe_refs(&said, &cfg);
    assert!(refs.tags_orphaned);
    assert!(refs.changelog.is_none());
    said.tag_holders = None;
    assert!(!probe_refs(&said, &cfg).tags_orphaned);
}

#[test]
fn head_is_read_without_asking_git() {
    let (branches, _) = parse_ref_list(LISTING);
    assert_eq!(
        read_head("0123456789abcdef\n", &branches),
        Head::Detached {
            sha: "0123456".into()
        }
    );
    assert_eq!(read_head("short", &branches), Head::Unborn);
    assert_eq!(
        read_head("ref: refs/heads/develop", &branches),
        Head::Branch("develop".into())
    );
    assert_eq!(read_head("ref: nowhere", &branches), Head::Unborn);
    assert!(head_readable("0123456789"));
    assert!(head_readable("ref: refs/heads/ünïcödé"));
    // The seventh byte falls inside a character.
    assert!(!head_readable("abcdefü"));
}

#[test]
fn a_detached_head_needs_the_log() {
    let (branches, _) = parse_ref_list(LISTING);
    let detached = Head::Detached { sha: "abc".into() };
    assert!(wants_head_commit(&detached, &branches));
    assert!(!wants_head_commit(&Head::Unborn, &branches));
    assert!(!wants_head_commit(&Head::Branch("develop".into()), &branches));
    assert!(wants_head_commit(&Head::Branch("other".into()), &branches));
    let commit = head_commit("abc1234\t99\tAndy\tfix: a\tb\n").unwrap();
    assert_eq!(
        (commit.sha.as_str(), commit.at, commit.author.as_str()),
        ("abc1234", 99, "Andy")
    );
    assert_eq!(commit.subject, "fix: a\tb");
    assert!(head_commit("").is_none());
    assert!(head_commit("a\tb\tc").is_none());
}

#[test]
fn the_nearest_release_is_described() {
    let tags = vec![TagInfo {
        name: "1.0".into(),
        at: 5,
    }];
    let (tag, count, subjects) = describe_since_tag(&tags, Some(" 1.0 \n"), Some("2"), Some("a\nb"), 5);
    assert_eq!(tag.unwrap().at, 5);
    assert_eq!(count, Some(2));
    assert_eq!(subjects, vec!["a", "b"]);
    let (tag, count, _) = describe_since_tag(&tags, Some("2.0"), None, None, 5);
    assert_eq!(tag.unwrap().at, 0);
    assert_eq!(count, None);
    let (_, _, subjects) = describe_since_tag(&tags, Some("1.0"), Some("2"), Some("a"), 0);
    assert!(subjects.is_empty());
    let (tag, _, _) = describe_since_tag(&tags, Some("\n"), Some("2"), Some("a"), 5);
    assert!(tag.is_none());
    assert_eq!(parse_described(None), None);
    assert_eq!(parse_since_count(Some("nope")), None);
}

#[test]
fn stashes_are_the_lines_of_their_log() {
    assert_eq!(count_stashes(None), 0);
    assert_eq!(count_stashes(Some("")), 0);
    assert_eq!(count_stashes(Some("a\n  \nb")), 2);
}

#[test]
fn the_first_marker_names_the_operation() {
    let none = [false; 7];
    assert_eq!(detect_operation(&none), None);
    let expected = [
        Operation::Rebase,
        Operation::Rebase,
        Operation::Merge,
        Operation::CherryPick,
        Operation::Revert,
        Operation::Bisect,
        Operation::Bisect,
    ];
    assert_eq!(OPERATION_MARKERS[3], "CHERRY_PICK_HEAD");
    for i in 0..7 {
        let mut present = none;
        present[i] = true;
        assert_eq!(detect_operation(&present), Some(expected[i]));
    }
}

#[test]
fn the_git_directory_follows_its_pointer() {
    assert_eq!(
        resolve_git_dir("/r", &DotGit::Directory).unwrap(),
        "/r/.git"
    );
    assert_eq!(
        resolve_git_dir("/r", &DotGit::File("gitdir: ../main/.git/worktrees/r\n".into())).unwrap(),
        "/r/../main/.git/worktrees/r"
    );
    assert_eq!(
        resolve_git_dir("/r", &DotGit::File("noise\ngitdir: /abs\n".into())).unwrap(),
        "/abs"
    );
    assert_eq!(
        resolve_git_dir("/r", &DotGit::File("".into())).unwrap_err(),
        "/r/.git has no gitdir pointer"
    );
    assert_eq!(
        resolve_git_dir("/r", &DotGit::Missing).unwrap_err(),
        "No .git at /r"
    );
    assert_eq!(
        resolve_git_dir("/r", &DotGit::Unreadable).unwrap_err(),
        "Reading /r/.git"
    );
}

#[test]
fn the_work_key_reads_the_index() {
    assert_eq!(index_path("/r", Some("/g")), "/g/index");
    assert_eq!(index_path("/r", None), "/r/.git/index");
    let key = work_key(Some("abc".into()), (Some(1), Some(2)));
    assert!(key.matches(&work_key(Some("abc".into()), (Some(1), Some(2)))));
    assert!(!key.matches(&work_key(Some("abd".into()), (Some(1), Some(2)))));
    assert!(!key.matches(&work_key(Some("abc".into()), (None, Some(2)))));
    assert!(!key.matches(&work_key(Some("abc".into()), (Some(1), Some(3)))));
}

#[test]
fn every_invocation_has_its_rails() {
    let args = vec!["status".to_string()];
    let full = git_args("/r", &args);
    assert_eq!(full[0], "--no-optional-locks");
    assert_eq!(full[full.len() - 2], "/r");
    assert_eq!(full[full.len() - 1], "status");
    assert_eq!(git_failure(&args, " boom \n"), "git status failed: boom");
    assert_eq!(git_failure(&args, "  "), "git status failed: no output");
    assert_eq!(git_timeout(&args), "git status timed out");
    assert_eq!(fetch_failure("a\nb"), "fetch failed: a");
    assert_eq!(fetch_failure(""), "fetch failed: no output");
    assert_eq!(fetch_timeout(20), "fetch timed out after 20s");
    assert!(fetch_args("/r").contains(&"--prune".to_string()));
}

#[test]
fn questions_about_releases_are_spelled_out() {
    assert_eq!(
        describe_args("v*"),
        vec!["describe", "--tags", "--abbrev=0", "--match=v*", "HEAD"]
    );
    assert_eq!(
        describe_args("*"),
        vec!["describe", "--tags", "--abbrev=0", "HEAD"]
    );
    assert_eq!(describe_args("").len(), 4);
    assert_eq!(
        count_args("1.0"),
        vec!["rev-list", "--count", "--no-merges", "1.0..HEAD"]
    );
    assert_eq!(subjects_args("1.0", 20)[1], "--max-count=20");
    assert_eq!(holder_args("1.0")[2], "--contains=1.0");
    assert!(ref_args()[1].starts_with("--format=%(refname)\t"));
}

#[test]
fn origin_wins_over_other_remotes() {
    let body = "[core]\n\tbare = TRUE\n[remote \"upstream\"]\n\turl = first\n\
                [remote \"origin\"]\n\turl = second\n[remote \"third\"]\n\turl = third\n";
    let scan = scan_git_config(Some(body));
    assert_eq!(scan.remote_url.as_deref(), Some("second"));
    assert!(scan.bare);
    let scan = scan_git_config(Some("[remote \"a\"]\nurl=x\n[remote \"b\"]\nurl=y\n"));
    assert_eq!(scan.remote_url.as_deref(), Some("x"));
    assert!(!scan.bare);
    assert!(scan_git_config(None).remote_url.is_none());
    assert!(scan_git_config(Some("[]\nurl = x\n")).remote_url.is_none());
}

/// A git-flow back-merge must not read as something to release: merges are left out
/// of the count, and a count of nought is one.
#[test]
fn back_merge_is_not_unreleased_work() {
    assert!(count_args("1.0.0").contains(&"--no-merges".to_string()));
    let mut said = answers();
    said.since_count = Some("0\n".into());
    said.since_subjects = None;
    let refs = probe_refs(&said, &Config::default().release);
    assert_eq!(refs.described_tag.map(|t| t.name), Some("1.0.0".into()));
    assert_eq!(refs.commits_since_tag, Some(0));
    assert!(refs.since_tag_subjects.is_empty());
}

/// Real work after the tag still counts, back-merge or not.
#[test]
fn commits_after_the_back_merge_still_count() {
    let mut said = answers();
    said.since_count = Some("1\n".into());
    said.since_subjects = Some("a genuine fix after the release\n".into());
    let refs = probe_refs(&said, &Config::default().release);
    assert_eq!(refs.commits_since_tag, Some(1));
    assert_eq!(
        refs.since_tag_subjects,
        vec!["a genuine fix after the release".to_string()]
    );
}
