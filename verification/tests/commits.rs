use drydock::commits::{
    parse_header, parse_log, parse_patch, parse_refs, parse_stat, FileStatus, LineKind, LogRow,
    RefKind, RefLabel, FS, LOG_LIMIT, START,
};

#[test]
fn the_log_keeps_graph_lines_between_commits() {
    let raw = format!(
        "* {START}aaa{FS}a{FS}Andy{FS}100{FS}bbb ccc{FS}HEAD -> refs/heads/main, tag: refs/tags/1.0{FS}Merge x\n\
         |\\  \n\
         | * {START}ccc{FS}c{FS}Andy{FS}90{FS}bbb{FS}{FS}Side\n\
         |/  \n\
         * {START}bbb{FS}b{FS}Andy{FS}80{FS}{FS}{FS}Root\n"
    );
    let log = parse_log(&raw);
    assert_eq!(log.commits.len(), 3);
    assert_eq!(log.rows.len(), 5);
    assert!(log.commits[0].merge);
    assert!(!log.commits[1].merge);
    assert!(matches!(&log.rows[1], LogRow::Graph(g) if g == "|\\"));
    assert!(matches!(&log.rows[2], LogRow::Commit { graph, index: 1 } if graph == "| * "));
    assert_eq!(
        log.commits[0].refs,
        vec![
            RefLabel {
                name: "HEAD".into(),
                kind: RefKind::Head
            },
            RefLabel {
                name: "main".into(),
                kind: RefKind::Local
            },
            RefLabel {
                name: "1.0".into(),
                kind: RefKind::Tag
            },
        ]
    );
}

// A subject line can hold anything a person types, separators included
// up to the last field -- splitn keeps the rest of the line whole.
#[test]
fn a_subject_keeps_everything_after_the_last_field() {
    let raw = format!("* {START}aaa{FS}a{FS}Andy{FS}100{FS}{FS}{FS}fix: a, b {FS} c\n");
    let log = parse_log(&raw);
    assert_eq!(log.commits[0].subject, format!("fix: a, b {FS} c"));
}

#[test]
fn remote_head_pointers_are_left_out_and_remotes_are_told_apart() {
    let refs = parse_refs(
        "refs/remotes/origin/HEAD, refs/remotes/origin/develop, refs/heads/origin/x",
    );
    assert_eq!(
        refs,
        vec![
            RefLabel {
                name: "origin/develop".into(),
                kind: RefKind::Remote
            },
            RefLabel {
                name: "origin/x".into(),
                kind: RefKind::Local
            },
        ]
    );
    // A detached HEAD decorates as plain `HEAD`.
    assert_eq!(parse_refs("HEAD")[0].kind, RefKind::Head);
}

#[test]
fn a_log_past_the_limit_says_so() {
    let mut raw = String::new();
    for i in 0..=LOG_LIMIT {
        raw.push_str(&format!("* {START}{i}{FS}{i}{FS}A{FS}1{FS}{FS}{FS}s\n|\n"));
    }
    let log = parse_log(&raw);
    assert_eq!(log.commits.len(), LOG_LIMIT);
    assert!(log.truncated);
    assert!(
        matches!(log.rows.last(), Some(LogRow::Commit { .. })),
        "no graph dangling past the last commit"
    );
}

#[test]
fn the_stat_pairs_status_letters_with_line_counts() {
    let raw = ":100644 100644 aaa bbb M\0src/a.rs\0\
               :000000 100644 000 ccc A\0new.txt\0\
               :100644 100644 ddd eee R087\0old name.rs\0new name.rs\0\
               :100644 100644 fff 000 M\0logo.png\0\
               3\t1\tsrc/a.rs\0\
               10\t0\tnew.txt\0\
               2\t2\t\0old name.rs\0new name.rs\0\
               -\t-\tlogo.png\0";
    let files = parse_stat(raw);
    assert_eq!(files.len(), 4);
    assert_eq!(files[0].lines, Some((3, 1)));
    assert_eq!(files[1].status, FileStatus::Added);
    assert_eq!(files[2].status, FileStatus::Renamed);
    assert_eq!(files[2].path, "new name.rs");
    assert_eq!(files[2].from.as_deref(), Some("old name.rs"));
    assert_eq!(files[2].lines, Some((2, 2)));
    assert_eq!(files[3].lines, None, "binary has no line counts");
}

#[test]
fn the_patch_numbers_lines_in_both_files() {
    let raw = "diff --git a/a.txt b/a.txt\n\
               index 111..222 100644\n\
               --- a/a.txt\n\
               +++ b/a.txt\n\
               @@ -10,3 +10,3 @@ fn main\n \
               same\n\
               -old\n\
               +new\n \
               tail\n\
               diff --git a/gone.txt b/gone.txt\n\
               deleted file mode 100644\n\
               --- a/gone.txt\n\
               +++ /dev/null\n\
               @@ -1 +0,0 @@\n\
               -bye\n\
               \\ No newline at end of file\n";
    let lines = parse_patch(raw);
    let kinds: Vec<LineKind> = lines.iter().map(|l| l.kind).collect();
    assert_eq!(
        kinds,
        vec![
            LineKind::File,
            LineKind::Hunk,
            LineKind::Context,
            LineKind::Removed,
            LineKind::Added,
            LineKind::Context,
            LineKind::File,
            LineKind::Hunk,
            LineKind::Removed,
            LineKind::Note,
        ]
    );
    assert_eq!(lines[0].text, "a.txt");
    assert_eq!((lines[2].old, lines[2].new), (Some(10), Some(10)));
    assert_eq!((lines[3].old, lines[3].new), (Some(11), None));
    assert_eq!((lines[4].old, lines[4].new), (None, Some(11)));
    assert_eq!((lines[5].old, lines[5].new), (Some(12), Some(12)));
    assert_eq!(lines[6].text, "gone.txt", "a deletion keeps its old path");
}

// Inside a hunk, a removed line that happens to start `-- ` is content,
// not a file header.
#[test]
fn a_removed_line_that_looks_like_a_header_stays_content() {
    let raw =
        "diff --git a/x b/x\n--- a/x\n+++ b/x\n@@ -1,2 +1,1 @@\n--- not a header\n keep\n";
    let lines = parse_patch(raw);
    assert_eq!(lines[2].kind, LineKind::Removed);
    assert_eq!(lines[2].text, "-- not a header");
}

#[test]
fn a_binary_file_gets_a_note_instead_of_lines() {
    let raw = "diff --git a/logo.png b/logo.png\nindex 1..2 100644\nBinary files a/logo.png and b/logo.png differ\n";
    let lines = parse_patch(raw);
    assert_eq!(lines.len(), 2);
    assert_eq!(lines[0].text, "logo.png");
    assert_eq!(lines[1].kind, LineKind::Note);
}

#[test]
fn the_header_splits_on_its_separators() {
    let raw = format!(
        "\nabc{FS}p1 p2{FS}Andy{FS}a@x{FS}2026-09-23 14:10{FS}100{FS}Bot{FS}b@x{FS}2026-09-23 15:00{FS}HEAD -> refs/heads/main{FS}Subject\n\nBody\n"
    );
    let h = parse_header(&raw).unwrap();
    assert_eq!(h.sha, "abc");
    assert_eq!(h.parents, vec!["p1", "p2"]);
    assert_eq!(h.committer, "Bot");
    assert_eq!(h.message, "Subject\n\nBody");
}
