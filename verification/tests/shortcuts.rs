use markview::i18n::Language;
use markview::shortcuts::{action_of, fill_keys, Command, PLACEHOLDERS};
use markview::state::Action;

/// Every template that names a key (both languages).
fn templates(language: Language) -> Vec<&'static str> {
    let s = language.strings();
    let mut out = vec![
        s.hint_zoom_in,
        s.hint_zoom_out,
        s.hint_view_editor,
        s.hint_view_split,
        s.hint_view_preview,
        s.hint_cycle_theme,
        s.find_footer,
        s.outline_hide_hint,
    ];
    out.extend(s.shortcuts.iter().map(|(keys, _)| *keys));
    out
}

/// Labels as a Windows toolkit would give them, one per placeholder.
fn windows_table() -> Vec<(&'static str, String)> {
    PLACEHOLDERS
        .iter()
        .map(|(name, _)| (*name, format!("Ctrl+{}", name.to_uppercase())))
        .collect()
}

#[test]
fn no_unused_placeholder_names() {
    let all = Language::ALL
        .iter()
        .flat_map(|language| templates(*language))
        .collect::<Vec<_>>()
        .join("\n");

    for (name, _) in PLACEHOLDERS {
        assert!(
            all.contains(&format!("{{{name}}}")),
            "no template uses the placeholder {name}"
        );
    }
}

#[test]
fn placeholder_names_are_unique() {
    let mut names: Vec<&str> = PLACEHOLDERS.iter().map(|(name, _)| *name).collect();
    let count = names.len();
    names.sort_unstable();
    names.dedup();
    assert_eq!(names.len(), count, "a placeholder name occurs twice");
}

#[test]
fn unknown_placeholders_are_left_alone() {
    let table = [("zoom_in", "Ctrl+Plus")];
    assert_eq!(fill_keys("Zoom in ({zoom_in})", &table), "Zoom in (Ctrl+Plus)");
    assert_eq!(fill_keys("{nope}", &table), "{nope}");
    assert_eq!(fill_keys("no placeholders", &table), "no placeholders");
}

#[test]
fn tables_fill_every_placeholder() {
    let owned = windows_table();
    let table: Vec<(&str, &str)> = owned.iter().map(|(n, l)| (*n, l.as_str())).collect();
    for language in Language::ALL {
        for template in templates(language) {
            let filled = fill_keys(template, &table);
            assert!(
                !filled.contains('{'),
                "{language:?}: `{template}` keeps a placeholder: {filled}"
            );
        }
    }
}

#[test]
fn unclosed_brace_keeps_the_rest() {
    let table = [("save", "Ctrl+S")];
    assert_eq!(fill_keys("{save} then {save", &table), "Ctrl+S then {save");
    assert_eq!(fill_keys("{{save}", &table), "{{save}");
    assert_eq!(fill_keys("a}{save}b", &table), "a}Ctrl+Sb");
}

#[test]
fn first_table_entry_wins() {
    let table = [("save", "A"), ("save", "B")];
    assert_eq!(fill_keys("{save}", &table), "A");
}

#[test]
fn empty_table_changes_nothing() {
    let table: [(&str, &str); 0] = [];
    assert_eq!(fill_keys("{save} / {open}", &table), "{save} / {open}");
}

#[test]
fn shortcut_actions() {
    assert!(matches!(action_of(Command::Save), Some(Action::Save)));
    assert!(matches!(action_of(Command::ZoomInEquals), Some(Action::ZoomIn)));
    assert!(matches!(action_of(Command::FindPrev), Some(Action::FindStep(-1))));
    assert!(matches!(action_of(Command::Link), Some(Action::WrapSelection("[", "](url)"))));
    assert!(matches!(action_of(Command::Heading3), Some(Action::SetHeading(3))));
    assert!(action_of(Command::Undo).is_none());
    assert!(action_of(Command::Redo).is_none());
}
