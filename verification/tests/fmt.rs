use drydock::fmt::{age, changes, truncate};

#[test]
fn ages_are_compact() {
    let now = 1_000_000_000;
    assert_eq!(age(now - 30, now), "now");
    assert_eq!(age(now - 240, now), "4m");
    assert_eq!(age(now - 7_200, now), "2h");
    assert_eq!(age(now - 259_200, now), "3d");
    assert_eq!(age(now - 1_209_600, now), "2w");
    assert_eq!(age(0, now), "-");
}

#[test]
fn change_summaries() {
    assert_eq!(changes(0, 0, 0, 0), "·");
    assert_eq!(changes(2, 5, 1, 0), "+2 ~5 ?1");
    assert_eq!(changes(0, 0, 0, 3), "!3");
}

#[test]
fn truncation_keeps_width() {
    assert_eq!(truncate("hello", 10), "hello");
    assert_eq!(truncate("hello", 4), "hel…");
    assert_eq!(truncate("hello", 1), "…");
    assert_eq!(truncate("hello", 0), "");
}

#[test]
fn weeks_run_to_five() {
    assert_eq!(age(996_976_000, 1_000_000_000), "5w");
    let now = 1_000_000_000;
    assert_eq!(age(now - 604_799, now), "6d");
    assert_eq!(age(now - 2_592_000, now), "4w");
    assert_eq!(age(now - 3_628_799, now), "5w");
    assert_eq!(age(now - 3_628_800, now), "1mo");
    assert_eq!(age(now - 5_184_000, now), "2mo");
    assert_eq!(age(now - 31_535_999, now), "12mo");
    assert_eq!(age(now - 63_072_000, now), "2y");
}
