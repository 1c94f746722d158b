use drydock::names::{rank_names, sort_names};
use drydock::number::{
    add32, add_size, as_signed, clamped_sub, read_i64, read_u32, sub64, to_decimal,
};
use drydock::order::{arrange, sort_indices, Rank};
use drydock::patch::{parse_patch, LineKind};
use drydock::pathname::{file_name_of, is_under, join_path, parent_of, paths_equal, relative_to};
use drydock::paths::{
    cache_file, cache_namespace, config_file, contract, contract_from, expand, expansion,
    holds_file, log_file, resolve_dir, short_hash,
};
use drydock::text::{
    first_bytes, from_chars, split_lines, split_words, to_chars, trimmed, whitespace,
};

fn chars(s: &str) -> Vec<char> {
    s.chars().collect()
}

#[test]
fn names_are_sorted_once_each() {
    let a = vec!["b".to_string(), "a".to_string(), "b".to_string()];
    let b = vec!["a".to_string(), "b".to_string()];
    assert_eq!(sort_names(&a), vec!["a", "b"]);
    assert_eq!(sort_names(&a), sort_names(&b));
    assert!(rank_names("a", "ab") == Rank::Before);
    assert!(rank_names("é", "z") == Rank::After);
}

#[test]
fn equal_keys_keep_their_order() {
    let keys = vec![vec![vec![2]], vec![vec![1]], vec![vec![2]], vec![vec![1]]];
    let order = sort_indices(&keys, false);
    assert_eq!(order, vec![1, 3, 0, 2]);
    assert_eq!(sort_indices(&keys, true), vec![0, 2, 1, 3]);
    assert_eq!(arrange(vec!['a', 'b', 'c', 'd'], &order), vec!['b', 'd', 'a', 'c']);
}

#[test]
fn numbers_are_read_and_written() {
    assert_eq!(to_decimal(0), "0");
    assert_eq!(to_decimal(u64::MAX), "18446744073709551615");
    assert_eq!(read_u32(&chars("4294967295")), Some(u32::MAX));
    assert_eq!(read_u32(&chars("4294967296")), None);
    assert_eq!(read_u32(&chars("+7")), Some(7));
    assert_eq!(read_u32(&chars("")), None);
    assert_eq!(read_i64(&chars("-9223372036854775808")), Some(i64::MIN));
    assert_eq!(read_i64(&chars("-")), None);
}

#[test]
fn arithmetic_wraps_or_stops_at_the_ends() {
    assert_eq!(add32(u32::MAX, 2), 1);
    assert_eq!(add_size(usize::MAX, 2), 1);
    assert_eq!(sub64(i64::MIN, 1), i64::MAX);
    assert_eq!(clamped_sub(i64::MIN, 1), i64::MIN);
    assert_eq!(as_signed(u64::MAX), -1);
}

#[test]
fn paths_compare_by_their_pieces() {
    assert!(paths_equal("/a//b/./c/", "/a/b/c"));
    assert!(!paths_equal("a/b", "/a/b"));
    assert!(is_under("/a/b", "/a"));
    assert!(!is_under("/ab", "/a"));
    assert_eq!(relative_to("/a/b/c", "/a").as_deref(), Some("b/c"));
    assert_eq!(relative_to("/x", "/a"), None);
    assert_eq!(parent_of("/a/b").as_deref(), Some("/a"));
    assert_eq!(parent_of("/"), None);
    assert_eq!(file_name_of("/a/b/").as_deref(), Some("b"));
    assert_eq!(file_name_of("/a/.."), None);
    assert_eq!(join_path("/a", "b"), "/a/b");
    assert_eq!(join_path("/a/", "b"), "/a/b");
    assert_eq!(join_path("/a", "/b"), "/b");
}

#[test]
fn a_tilde_is_expanded() {
    // Where there is a home, a tilde leads there.
    let home = expand("~");
    let inside = expand("~/x");
    assert_eq!(inside, format!("{home}/x"));
    if home != "~" {
        assert_eq!(contract(&inside), "~/x");
    }
    assert_eq!(expand("/plain/path"), "/plain/path");
    assert_eq!(expansion(None, "t".into()), "t");
    assert_eq!(expansion(Some("f".into()), "t".into()), "f");
}

#[test]
fn home_is_shown_as_a_tilde() {
    assert_eq!(contract_from("/home/me/p/x", Some("/home/me")), "~/p/x");
    assert_eq!(contract_from("/other/x", Some("/home/me")), "/other/x");
    assert_eq!(contract_from("/other/x", None), "/other/x");
}

#[test]
fn files_stand_in_their_directories() {
    assert_eq!(cache_file("/c", None), "/c/state.json");
    assert_eq!(cache_file("/c", Some("abc")), "/c/state-abc.json");
    assert_eq!(config_file("/c"), "/c/config.toml");
    assert_eq!(holds_file("/c"), "/c/holds.toml");
    assert_eq!(log_file("/c"), "/c/drydock.log");
    assert_eq!(
        resolve_dir(Some("/x".into()), None, ".config", false, None).as_deref(),
        Some("/x/drydock")
    );
}

#[test]
fn a_namespace_ignores_the_order_of_roots() {
    let ab = cache_namespace(&vec!["/a".into(), "/b".into()]);
    let ba = cache_namespace(&vec!["/b".into(), "/a".into(), "/a".into()]);
    assert_eq!(ab, ba);
    assert!(ab.is_some());
    assert_eq!(cache_namespace(&Vec::new()), None);
    assert_ne!(short_hash("a"), short_hash("b"));
    assert_eq!(short_hash("").len(), 16);
}

#[test]
fn lines_and_words_split_like_std() {
    for s in ["", "a", "a\n", "a\r\nb", "\n\na", "a\rb", "  x  y\u{3000}z "] {
        let lines: Vec<String> = split_lines(&chars(s)).iter().map(|l| from_chars(l)).collect();
        assert_eq!(lines, s.lines().map(|l| l.to_string()).collect::<Vec<_>>());
        let words: Vec<String> = split_words(&chars(s)).iter().map(|l| from_chars(l)).collect();
        assert_eq!(
            words,
            s.split_whitespace().map(|l| l.to_string()).collect::<Vec<_>>()
        );
        assert_eq!(from_chars(trimmed(&chars(s))), s.trim());
        assert_eq!(to_chars(s), chars(s));
    }
}

#[test]
fn whitespace_is_what_std_says() {
    for n in 0..0x11_0000u32 {
        if let Some(c) = char::from_u32(n) {
            assert_eq!(whitespace(c), c.is_whitespace(), "{n:x}");
        }
    }
}

#[test]
fn bytes_never_split_a_character() {
    assert_eq!(first_bytes(&chars("aé"), 2), None);
    assert_eq!(first_bytes(&chars("aé"), 3), Some(&chars("aé")[..]));
    assert_eq!(first_bytes(&chars("abc"), 2), Some(&chars("ab")[..]));
    assert_eq!(first_bytes(&chars("a"), 2), None);
}

#[test]
fn a_line_in_a_hunk_is_content() {
    let raw = "diff --git a/f b/f\n--- a/f\n+++ b/f\n@@ -1,2 +1,2 @@\n--- gone\n+++ new\n same\n";
    let lines = parse_patch(raw);
    let kinds: Vec<LineKind> = lines.iter().map(|l| l.kind).collect();
    assert_eq!(
        kinds,
        vec![
            LineKind::File,
            LineKind::Hunk,
            LineKind::Removed,
            LineKind::Added,
            LineKind::Context
        ]
    );
    assert_eq!(lines[2].text, "-- gone");
    assert_eq!(lines[4].old, Some(2));
    assert_eq!(lines[4].new, Some(2));
}
