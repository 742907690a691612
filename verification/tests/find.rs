use markview::find::{FindState, Match};

#[test]
fn finds_all_occurrences() {
    let mut f = FindState {
        query: "ab".into(),
        case_sensitive: true,
        dirty: true,
        ..Default::default()
    };
    f.rebuild("abab ab");
    assert_eq!(f.matches.len(), 3);
}

#[test]
fn case_insensitive_matches() {
    let mut f = FindState {
        query: "RUST".into(),
        dirty: true,
        ..Default::default()
    };
    f.rebuild("I love rust and Rust");
    assert_eq!(f.matches.len(), 2);
}

#[test]
fn step_wraps_around() {
    let mut f = FindState {
        query: "x".into(),
        dirty: true,
        ..Default::default()
    };
    f.rebuild("x x x");
    assert_eq!(f.current, 0);
    f.step(1);
    assert_eq!(f.current, 1);
    f.step(-1);
    assert_eq!(f.current, 0);
    f.step(-1);
    assert_eq!(f.current, 2);
}

#[test]
fn empty_query_yields_nothing() {
    let mut f = FindState {
        dirty: true,
        ..Default::default()
    };
    f.rebuild("anything");
    assert!(f.matches.is_empty());
    assert!(f.current_match().is_none());
}

#[test]
fn matches_are_byte_ranges_without_overlap() {
    let mut f = FindState {
        query: "aa".into(),
        case_sensitive: true,
        dirty: true,
        ..Default::default()
    };
    f.rebuild("aaaa中aa");
    assert_eq!(
        f.matches,
        vec![
            Match { start: 0, end: 2 },
            Match { start: 2, end: 4 },
            Match { start: 7, end: 9 },
        ]
    );
    assert_eq!(f.current_match(), Some(Match { start: 0, end: 2 }));
}

#[test]
fn rebuild_only_when_dirty() {
    let mut f = FindState {
        query: "a".into(),
        case_sensitive: true,
        dirty: true,
        ..Default::default()
    };
    f.rebuild("a a");
    assert_eq!(f.matches.len(), 2);
    f.rebuild("a a a");
    assert_eq!(f.matches.len(), 2);
    f.mark_dirty();
    f.rebuild("a a a");
    assert_eq!(f.matches.len(), 3);
}

#[test]
fn open_and_close() {
    let mut f = FindState::default();
    f.open();
    assert!(f.open && f.dirty && f.just_opened);
    f.close();
    assert!(!f.open);
}

#[test]
fn step_on_no_matches_does_nothing() {
    let mut f = FindState::default();
    f.step(5);
    assert_eq!(f.current, 0);
}

#[test]
fn step_by_more_than_the_count() {
    let mut f = FindState {
        query: "x".into(),
        dirty: true,
        ..Default::default()
    };
    f.rebuild("x x x");
    f.step(7);
    assert_eq!(f.current, 1);
    f.step(-8);
    assert_eq!(f.current, 2);
}

#[test]
fn stepping_there_and_back_returns() {
    let mut f = FindState {
        query: "a".into(),
        case_sensitive: true,
        dirty: true,
        ..Default::default()
    };
    f.rebuild("a a a a a");
    f.step(1);
    let start = f.current;
    f.step(13);
    f.step(-13);
    assert_eq!(f.current, start);
}

#[test]
fn every_match_is_the_query() {
    let text = "one two one three one";
    let mut f = FindState {
        query: "one".into(),
        case_sensitive: true,
        dirty: true,
        ..Default::default()
    };
    f.rebuild(text);
    assert_eq!(f.matches.len(), 3);
    for m in &f.matches {
        assert_eq!(&text[m.start..m.end], "one");
    }
    for pair in f.matches.windows(2) {
        assert!(pair[0].end <= pair[1].start);
    }
}

#[test]
fn step_takes_the_current_index_as_a_signed_number() {
    let mut empty = FindState { current: usize::MAX, ..Default::default() };
    empty.step(1);
    assert_eq!(empty.current, usize::MAX);
    let mut f = FindState {
        query: "x".into(),
        dirty: true,
        ..Default::default()
    };
    f.rebuild("x x x");
    f.current = usize::MAX;
    f.step(1);
    assert_eq!(f.current, 0);
}
