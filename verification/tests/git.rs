use drydock::git::{
    clone_args, field_tail, parse_changelog_version, parse_track, pull_args, tag_eq_version,
};

#[test]
fn track_parsing() {
    assert_eq!(parse_track(""), (0, 0, false));
    assert_eq!(parse_track("[ahead 3]"), (3, 0, false));
    assert_eq!(parse_track("[behind 2]"), (0, 2, false));
    assert_eq!(parse_track("[ahead 3, behind 1]"), (3, 1, false));
    assert_eq!(parse_track("[gone]"), (0, 0, true));
}

#[test]
fn changelog_headings() {
    assert_eq!(parse_changelog_version("# 1.2.3"), Some("1.2.3".into()));
    assert_eq!(parse_changelog_version("## [2.0.0]"), Some("2.0.0".into()));
    assert_eq!(
        parse_changelog_version("# v1.7.48 - 2026-01-01"),
        Some("1.7.48".into())
    );
    assert_eq!(
        parse_changelog_version("# 2.0.0-rc.3"),
        Some("2.0.0-rc.3".into())
    );
    assert_eq!(parse_changelog_version("## Unreleased"), None);
    assert_eq!(parse_changelog_version("Some prose line."), None);
    assert_eq!(parse_changelog_version("# 1"), None);
}

#[test]
fn porcelain_paths() {
    // Ordinary change: 8 fields precede the path.
    let rest = "M. N... 100644 100644 100644 abc123 abc123 src/main.rs";
    assert_eq!(field_tail(rest, 8), "src/main.rs");
    // Path containing spaces.
    let rest = "?? some dir/a file.txt";
    assert_eq!(field_tail(rest, 1), "?? some dir/a file.txt");
    // Rename: 9 fields precede, and the original path follows a tab.
    let rest = "R. N... 100644 100644 100644 abc abc R100 new/name.rs\told/name.rs";
    assert_eq!(field_tail(rest, 9), "new/name.rs");
    // Unmerged: 10 fields precede the path.
    let rest = "UU N... 100644 100644 100644 100644 h1 h2 h3 conflicted.rs";
    assert_eq!(field_tail(rest, 10), "conflicted.rs");
}

#[test]
fn tag_version_comparison() {
    assert!(tag_eq_version("1.2.3", "1.2.3"));
    assert!(tag_eq_version("v1.2.3", "1.2.3"));
    assert!(!tag_eq_version("1.2.4", "1.2.3"));
}

#[test]
fn clones_and_pulls_take_no_optional_locks() {
    assert_eq!(
        clone_args("https://h/o/r", "/p/r"),
        vec!["--no-optional-locks", "clone", "--quiet", "https://h/o/r", "/p/r"]
    );
    let pull = pull_args("/p/r");
    assert_eq!(pull[0], "--no-optional-locks");
    assert_eq!(pull[5..], ["-C", "/p/r", "pull", "--ff-only"]);
}
