use markview::prefs::{prune_recent, touch_recent, AppTheme, ViewMode, MAX_RECENT};

#[test]
fn view_mode_labels() {
    assert_eq!(ViewMode::ALL, [ViewMode::Split, ViewMode::Editor, ViewMode::Preview]);
    assert_eq!(ViewMode::Split.label(), "分栏");
    assert_eq!(ViewMode::Editor.label(), "编辑");
    assert_eq!(ViewMode::Preview.label(), "预览");
}

#[test]
fn theme_cycles_through_three() {
    assert_eq!(AppTheme::System.next(), AppTheme::Light);
    assert_eq!(AppTheme::Light.next(), AppTheme::Dark);
    assert_eq!(AppTheme::Dark.next(), AppTheme::System);
    assert_eq!(AppTheme::Dark.next().next().next(), AppTheme::Dark);
    assert_eq!(AppTheme::System.label(), "跟随系统");
    assert_eq!(AppTheme::Light.label(), "浅色");
    assert_eq!(AppTheme::Dark.label(), "深色");
}

#[test]
fn touch_moves_to_front_without_duplicates() {
    let mut recent = vec!["/a/1.md".to_owned(), "/a/2.md".to_owned(), "/b/3.md".to_owned()];
    let mut last = None;
    touch_recent(&mut recent, &mut last, "/b/3.md");
    assert_eq!(recent, vec!["/b/3.md", "/a/1.md", "/a/2.md"]);
    assert_eq!(last.as_deref(), Some("/b"));
    touch_recent(&mut recent, &mut last, "new.md");
    assert_eq!(recent[0], "new.md");
    assert_eq!(recent.len(), 4);
    // A bare file name has the empty parent, which is not remembered.
    assert_eq!(last.as_deref(), Some("/b"));
}

#[test]
fn touch_keeps_at_most_twelve() {
    let mut recent: Vec<String> = (0..20).map(|i| format!("/f/{i}.md")).collect();
    let mut last = Some("/old".to_owned());
    touch_recent(&mut recent, &mut last, "/g/x.md");
    assert_eq!(recent.len(), MAX_RECENT);
    assert_eq!(recent[0], "/g/x.md");
    assert_eq!(recent[1], "/f/0.md");
    assert_eq!(recent[11], "/f/10.md");
    assert_eq!(last.as_deref(), Some("/g"));
}

#[test]
fn prune_drops_missing_files_and_empty_dir() {
    let mut recent = vec!["a".to_owned(), "b".to_owned(), "c".to_owned()];
    let mut last = Some(String::new());
    prune_recent(&mut recent, &[true, false, true], &mut last);
    assert_eq!(recent, vec!["a", "c"]);
    assert_eq!(last, None);
    let mut keep = Some("/d".to_owned());
    prune_recent(&mut recent, &[false, false], &mut keep);
    assert!(recent.is_empty());
    assert_eq!(keep.as_deref(), Some("/d"));
}

#[test]
fn touch_compares_paths_not_strings() {
    let mut recent: Vec<String> = ["/tmp//a.md", "/tmp/b.md", "/tmp/./a.md", "/x/../tmp/a.md"]
        .iter()
        .map(|p| p.to_string())
        .collect();
    let mut last = None;
    touch_recent(&mut recent, &mut last, "/tmp/a.md");
    // `/tmp//a.md` and `/tmp/./a.md` are the same path; `..` is not resolved.
    assert_eq!(recent, vec!["/tmp/a.md", "/tmp/b.md", "/x/../tmp/a.md"]);
}
