use markview::document::Document;
use markview::find::Match;
use markview::i18n::Language;
use markview::prefs::{AppTheme, ViewMode};
use markview::state::{
    after_save, dispatch, guard, on_choice, on_close_request, reveal_match, Action,
    AfterDiscard, Choice, Dialog, Effect, Toast, ToastKind, UiFlags,
};

fn flags() -> UiFlags {
    UiFlags {
        view_mode: ViewMode::Split,
        language: Language::En,
        theme: AppTheme::System,
        show_outline: true,
        show_line_numbers: true,
        editor_wrap: true,
        focus_editor: false,
        bypass_guard: false,
        dialog: Dialog::Hidden,
    }
}

#[test]
fn guard_asks_only_with_unsaved_edits() {
    let mut d = Dialog::Hidden;
    assert!(guard(&mut d, false, false, AfterDiscard::NewFile));
    assert_eq!(d, Dialog::Hidden);
    assert!(!guard(&mut d, true, false, AfterDiscard::Quit));
    assert_eq!(d, Dialog::Discard { then: AfterDiscard::Quit });
    let mut e = Dialog::About;
    assert!(guard(&mut e, true, true, AfterDiscard::OpenDialog));
    assert_eq!(e, Dialog::About);
}

#[test]
fn dirty_document_holds_new_file_back() {
    let mut f = flags();
    assert_eq!(dispatch(&mut f, true, Action::New), Effect::Nothing);
    assert_eq!(f.dialog, Dialog::Discard { then: AfterDiscard::NewFile });
    let then = AfterDiscard::NewFile;
    let (close, next) = on_choice(Choice::Discard, &then);
    assert!(close);
    let next = next.expect("an action");
    let mut g = flags();
    assert_eq!(dispatch(&mut g, true, next), Effect::NewDocument);
}

#[test]
fn clean_document_goes_ahead() {
    let mut f = flags();
    assert_eq!(
        dispatch(&mut f, false, Action::OpenPath("/a.md".to_owned())),
        Effect::LoadPath("/a.md".to_owned())
    );
    assert_eq!(f, flags());
    assert_eq!(dispatch(&mut f, false, Action::Quit), Effect::CloseWindow);
    assert!(f.bypass_guard);
    // Once quitting was chosen, edits no longer hold anything back.
    assert_eq!(dispatch(&mut f, true, Action::Open), Effect::ShowOpenDialog);
}

#[test]
fn switches_flip() {
    let mut f = flags();
    dispatch(&mut f, false, Action::ToggleOutline);
    dispatch(&mut f, false, Action::ToggleWrap);
    dispatch(&mut f, false, Action::ToggleLineNumbers);
    dispatch(&mut f, false, Action::CycleTheme);
    assert!(!f.show_outline && !f.editor_wrap && !f.show_line_numbers);
    assert_eq!(f.theme, AppTheme::Light);
    dispatch(&mut f, false, Action::SetView(ViewMode::Preview));
    assert_eq!(f.view_mode, ViewMode::Preview);
    assert!(!f.focus_editor);
    dispatch(&mut f, false, Action::SetView(ViewMode::Editor));
    assert!(f.focus_editor);
    dispatch(&mut f, false, Action::SetLanguage(Language::Zh));
    assert_eq!(f.language, Language::Zh);
    dispatch(&mut f, false, Action::About);
    assert_eq!(f.dialog, Dialog::About);
    assert_eq!(dispatch(&mut f, false, Action::FindStep(-1)), Effect::FindStep(-1));
    assert_eq!(dispatch(&mut f, false, Action::SetHeading(2)), Effect::SetHeading(2));
}

#[test]
fn close_request_and_save_and_proceed() {
    let mut d = Dialog::Hidden;
    assert!(!on_close_request(&mut d, false, false));
    assert!(on_close_request(&mut d, true, false));
    assert_eq!(d, Dialog::Discard { then: AfterDiscard::Quit });
    let then = AfterDiscard::OpenPath("/b.md".to_owned());
    assert!(after_save(&then, true).is_none());
    assert!(matches!(after_save(&then, false), Some(Action::ForceOpenPath(p)) if p == "/b.md"));
    let (close, next) = on_choice(Choice::SaveAndProceed, &then);
    assert!(!close);
    assert!(matches!(next, Some(Action::SaveAndProceed(AfterDiscard::OpenPath(_)))));
    assert_eq!(on_choice(Choice::Cancel, &then).0, true);
    assert!(on_choice(Choice::Pending, &then).1.is_none());
}

#[test]
fn force_actions() {
    assert!(matches!(AfterDiscard::NewFile.force_action(), Action::ForceNew));
    assert!(matches!(AfterDiscard::OpenDialog.force_action(), Action::ForceOpen));
    assert!(matches!(AfterDiscard::Quit.force_action(), Action::ForceQuit));
}

#[test]
fn reveal_counts_characters() {
    let r = reveal_match("中文abc", Match { start: 6, end: 9 });
    assert_eq!((r.char_start, r.char_end), (2, 5));
}

#[test]
fn toasts() {
    let t = Toast::info("saved".to_owned());
    assert_eq!(t.kind, ToastKind::Info);
    assert_eq!(t.text, "saved");
    assert_eq!(t.secs, 4);
    let custom = Toast::new(ToastKind::Info, "x".to_owned(), 17);
    assert_eq!(custom.secs, 17);
    let e = Toast::error("oops".to_owned());
    assert_eq!(e.kind, ToastKind::Error);
    assert_eq!(e.secs, 9);
    let _ = Language::En.strings();
    let _ = Document::untitled();
}
