use drydock::discover::{build_excludes, split_slug};

#[test]
fn slug_splitting() {
    let root = "/p";
    assert_eq!(
        split_slug(root, "/p/grav/grav-plugin-api"),
        ("grav".to_string(), "grav-plugin-api".to_string())
    );
    assert_eq!(
        split_slug(root, "/p/loose-repo"),
        (String::new(), "loose-repo".to_string())
    );
    assert_eq!(
        split_slug(root, "/p/a/b/c"),
        ("a".to_string(), "b/c".to_string())
    );
}

#[test]
fn excludes_match_relative_paths() {
    let set = build_excludes(&["riffle-testbed/**".into()])
        .unwrap()
        .unwrap();
    assert!(set.is_match("riffle-testbed/work"));
    assert!(set.is_match("riffle-testbed"));
    assert!(!set.is_match("grav/grav"));
}
