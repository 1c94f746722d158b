use drydock::hold::{parse, FiledHold, Hold, Holds};

fn hold(sha: &str) -> Hold {
    Hold {
        sha: sha.into(),
        branch: Some("develop".into()),
        tag: Some("1.0.3".into()),
        at: 1_700_000_000,
        note: None,
    }
}

// The pin is the feature: a hold covers the commit it was placed at and
// nothing else, so the next commit lifts it without anyone remembering.
#[test]
fn a_hold_covers_only_the_commit_it_was_placed_at() {
    let held = hold("a1b2c3d");
    assert!(held.covers(Some("a1b2c3d")));
    assert!(!held.covers(Some("9999999")));
    assert!(!held.covers(None));
}

#[test]
fn holds_round_trip_through_the_file_format() {
    let mut holds = Holds::default();
    let root = "/tmp/drydock-test/repo";
    holds.set(root, None, hold("a1b2c3d"));
    holds.set(
        "/tmp/drydock-test/other",
        None,
        Hold {
            note: Some("changelog only".into()),
            ..hold("beefbee")
        },
    );

    let file: Vec<FiledHold> = holds
        .iter()
        .into_iter()
        .map(|(path, h)| FiledHold {
            root: path.clone(),
            resolved: None,
            hold: h.clone(),
        })
        .collect();
    let back = parse(&file);

    assert_eq!(back.iter().len(), 2);
    assert_eq!(
        back.get(root, None).map(|h| h.sha.as_str()),
        Some("a1b2c3d")
    );
    assert_eq!(
        back.get("/tmp/drydock-test/other", None)
            .and_then(|h| h.note.as_deref()),
        Some("changelog only")
    );
}

// A repo nothing has held is the overwhelmingly common case, and it has to
// stay a plain map miss rather than turning into a filesystem call each.
#[test]
fn an_empty_set_holds_nothing() {
    let holds = Holds::default();
    assert!(holds.is_empty());
    assert!(holds.get("/tmp/whatever", None).is_none());
}

#[test]
fn removing_a_hold_by_the_path_it_was_set_with_works() {
    let mut holds = Holds::default();
    let root = "/tmp/drydock-test/repo";
    holds.set(root, None, hold("a1b2c3d"));
    assert!(holds.remove(root, None).is_some());
    assert!(holds.is_empty());
}
