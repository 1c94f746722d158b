use drydock::pathname::paths_equal;
use drydock::paths::{cache_file_name, contract, contract_from, expand, resolve_dir, short_hash};

fn platform_default() -> Option<String> {
    Some("/platform/default".to_string())
}

#[test]
fn a_relative_or_empty_xdg_var_is_ignored() {
    for var in ["", "relative/path"] {
        assert_eq!(
            resolve_dir(
                Some(var.to_string()),
                None,
                ".config",
                false,
                platform_default()
            ),
            Some("/platform/default/drydock".to_string()),
            "{var:?} should not have been honoured"
        );
    }
}

#[test]
fn nothing_at_all_is_reported_rather_than_guessed_at() {
    assert_eq!(resolve_dir(None, None, ".config", false, None), None);
}

// Someone who never passes `--root` keeps the file they already have.
#[test]
fn the_default_cache_file_is_unsuffixed() {
    assert_eq!(cache_file_name(None), "state.json");
    assert_eq!(cache_file_name(Some("abc")), "state-abc.json");
}

// The same roots have to name the same file every time, or a repeated
// `--root` run would cold-start and leave a new file behind each time.
#[test]
fn the_cache_name_is_stable_and_order_independent() {
    assert_eq!(short_hash("~/a\u{0}~/b"), short_hash("~/a\u{0}~/b"));
    assert_ne!(short_hash("~/a"), short_hash("~/b"));
}

#[test]
fn an_absolute_xdg_var_wins_over_everything() {
    // Even with the `~/.config` directory sitting right there.
    assert_eq!(
        resolve_dir(
            Some("/somewhere/else".to_string()),
            Some("/home/someone"),
            ".config",
            true,
            platform_default(),
        ),
        Some("/somewhere/else/drydock".to_string())
    );
}

#[test]
fn an_existing_dot_config_dir_wins_over_the_platform_default() {
    assert_eq!(
        resolve_dir(None, Some("/home/someone"), ".config", true, platform_default()),
        Some("/home/someone/.config/drydock".to_string())
    );
}

// The whole point of only ever *checking* for `~/.config/drydock`: someone
// who has never asked for this keeps the platform default, and nothing
// they own moves.
#[test]
fn a_missing_dot_config_dir_leaves_the_platform_default_alone() {
    assert_eq!(
        resolve_dir(None, Some("/home/someone"), ".config", false, platform_default()),
        Some("/platform/default/drydock".to_string())
    );
}

// An unset variable leaves the text as written, which shows up in the
// "not a directory" warning instead of silently scanning `/github.com`.
#[test]
fn an_undefined_var_is_left_alone() {
    assert_eq!(
        expand("$DRYDOCK_TEST_MISSING/github.com"),
        "$DRYDOCK_TEST_MISSING/github.com"
    );
}

// A `~/.config/drydock` that is somehow a *file* is not a config
// directory, and picking it would fail later with a much worse message.
#[test]
fn a_file_where_the_dot_config_dir_would_be_is_not_mistaken_for_one() {
    assert_eq!(
        resolve_dir(
            None,
            Some("/home/me"),
            ".config",
            false,
            platform_default()
        ),
        Some("/platform/default/drydock".to_string())
    );
}

// What a variable holds is the environment's business; what follows it stays.
#[test]
fn env_vars_expand_in_paths() {
    let expanded = expand("$HOME/x");
    assert!(expanded.ends_with("/x"), "{expanded}");
}

#[test]
fn what_stands_around_a_variable_stays() {
    for var in ["$DRYDOCK_TEST_MISSING", "$HOME", "${HOME}", "${DRYDOCK_TEST_MISSING:-x}"] {
        let text = format!("a/b{var}/c");
        let expanded = expand(&text);
        assert!(expanded.starts_with("a/b"), "{text}: {expanded}");
        assert!(expanded.ends_with("/c"), "{text}: {expanded}");
    }
    let tilde = expand("~/dev/$DRYDOCK_TEST_MISSING");
    assert_eq!(tilde, format!("{}/dev/$DRYDOCK_TEST_MISSING", expand("~")));
    assert_eq!(expand("~other/$DRYDOCK_TEST_MISSING"), "~other/$DRYDOCK_TEST_MISSING");
}

#[test]
fn a_contracted_path_expands_back() {
    assert_eq!(contract_from("/home/me//dev/./x/", Some("/home/me/")), "~/dev/./x");
    assert_eq!(contract_from("/home/me", Some("/home/me")), "~/");
    assert_eq!(contract_from("/home/meat", Some("/home/me")), "/home/meat");
    let home = expand("~");
    for path in ["/etc", "relative/x", &home, &format!("{home}/a/./b//c")] {
        assert!(paths_equal(&expand(&contract(path)), path), "{path}");
    }
}
