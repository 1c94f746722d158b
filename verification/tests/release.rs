use drydock::model::TagInfo;
use drydock::release::{read_changelog, release_tags, release_tags_from, TAG_LIMIT};

fn tag(name: &str, at: i64) -> TagInfo {
    TagInfo {
        name: name.into(),
        at,
    }
}

fn names(tags: &[TagInfo]) -> Vec<&str> {
    tags.iter().map(|t| t.name.as_str()).collect()
}

#[test]
fn only_tags_matching_the_pattern_are_releases() {
    let tags = vec![
        tag("1.0.0", 10),
        tag("latest", 99),
        tag("v1.1.0", 30),
        tag("polar-live", 50),
        tag("1.0.1", 20),
    ];
    let found = release_tags(&tags, "*[0-9]*");
    assert_eq!(names(&found), vec!["v1.1.0", "1.0.1", "1.0.0"]);
}

#[test]
fn a_pattern_that_says_nothing_keeps_every_tag() {
    let tags = vec![tag("a", 1), tag("b", 2)];
    for pattern in ["", "*", "[bad"] {
        assert_eq!(names(&release_tags(&tags, pattern)), vec!["b", "a"]);
    }
}

#[test]
fn tags_of_one_date_keep_their_order() {
    let tags = vec![tag("x", 5), tag("y", 5), tag("z", 9)];
    assert_eq!(names(&release_tags_from(&tags, &None)), vec!["z", "x", "y"]);
}

#[test]
fn the_tags_are_capped() {
    let tags: Vec<TagInfo> = (0..TAG_LIMIT as i64 + 5)
        .map(|i| tag(&format!("t{i}"), i))
        .collect();
    let found = release_tags_from(&tags, &None);
    assert_eq!(found.len(), TAG_LIMIT);
    assert_eq!(found[0].name, "t404");
}

#[test]
fn verdicts_decide_which_tags_count() {
    let tags = vec![tag("x", 1), tag("y", 2), tag("z", 3)];
    let found = release_tags_from(&tags, &Some(vec![true, false, true]));
    assert_eq!(names(&found), vec!["z", "x"]);
}

#[test]
fn a_changelog_above_its_newest_tag_is_in_flight() {
    let body = "# Changelog\n\n## [1.3.0]\n- a\n\n## 1.2.0\n- b\n\n## v1.1.0\n";
    let info = read_changelog(body, Some("v1.1.0"), None).unwrap();
    assert_eq!(info.version, "1.3.0");
    assert!(!info.tagged);
    assert_eq!(info.unreleased_blocks, 2);

    let info = read_changelog(body, Some("9.9.9"), Some("1.3.0")).unwrap();
    assert!(info.tagged);
    assert_eq!(info.unreleased_blocks, 0);

    // Without any tag nothing is tagged.
    let info = read_changelog(body, None, Some("1.3.0")).unwrap();
    assert!(!info.tagged);
    assert_eq!(info.unreleased_blocks, 3);
}

#[test]
fn a_changelog_without_versions_says_nothing() {
    assert!(read_changelog("# Changelog\n\n## Unreleased\n", Some("1.0.0"), None).is_none());
}

#[test]
fn only_the_top_of_a_changelog_is_read() {
    let mut body = String::new();
    for i in 0..20 {
        body.push_str(&format!("# 1.{i}.0\n"));
    }
    let info = read_changelog(&body, Some("0.1"), None).unwrap();
    assert_eq!(info.unreleased_blocks, 12);
    let late = format!("{}# 1.0.0\n", "text\n".repeat(400));
    assert!(read_changelog(&late, None, None).is_none());
}
