use markview::document::Document;
use markview::i18n::Language;
use markview::panels::{
    base_uri, clip, describe, export_stem, gutter_digits, opened_message, premultiply, reading_time, window_title,
    MAX_TITLE_CHARS,
};
use markview::state::{AfterDiscard, ToastKind};

#[test]
fn clip_keeps_short_titles() {
    assert_eq!(clip("short", MAX_TITLE_CHARS), "short");
    assert_eq!(clip("中文标题", 2), "中文…");
    assert_eq!(clip("abc", 3), "abc");
    assert_eq!(clip("", 0), "");
}

#[test]
fn base_uri_ends_with_a_slash() {
    assert_eq!(base_uri(&Document::untitled()), "file://");
    let d = Document::from_bytes("/home/u/a.md".to_owned(), b"");
    assert_eq!(base_uri(&d), "file:///home/u/");
    let bare = Document::from_bytes("a.md".to_owned(), b"");
    assert_eq!(base_uri(&bare), "file:///");
}

#[test]
fn status_reading_time() {
    assert_eq!(reading_time(0), "约 0 分钟");
    assert_eq!(reading_time(1), "约 1 分钟");
    assert_eq!(reading_time(59), "约 1 分钟");
    assert_eq!(reading_time(89), "约 1 分钟");
    assert_eq!(reading_time(90), "约 2 分钟");
    assert_eq!(reading_time(600), "约 10 分钟");
}

#[test]
fn discard_descriptions() {
    let s = Language::En.strings();
    assert_eq!(describe(&AfterDiscard::NewFile, &s), s.discard_new_file);
    assert_eq!(describe(&AfterDiscard::OpenDialog, &s), s.discard_open_dialog);
    assert_eq!(describe(&AfterDiscard::OpenPath("x".to_owned()), &s), s.discard_open_path);
    assert_eq!(describe(&AfterDiscard::Quit, &s), s.discard_quit);
}

#[test]
fn export_stem_and_title() {
    let s = Language::En.strings();
    assert_eq!(export_stem(&Document::untitled(), &s), "Untitled");
    let mut d = Document::from_bytes("/n/notes.md".to_owned(), b"");
    assert_eq!(export_stem(&d, &s), "notes");
    assert_eq!(window_title(&d, &s), "notes.md · MarkView");
    d.dirty = true;
    assert_eq!(window_title(&d, &s), "● notes.md · MarkView");
}

#[test]
fn opening_messages() {
    let s = Language::En.strings();
    assert_eq!(opened_message(false, "/a.md", &s), (ToastKind::Info, "Opened /a.md".to_owned()));
    let (kind, text) = opened_message(true, "/b.md", &s);
    assert_eq!(kind, ToastKind::Error);
    assert_eq!(text, "/b.md is not valid UTF-8; opened with replacement characters");
}

#[test]
fn gutter_has_room_for_every_line_number() {
    assert_eq!(gutter_digits(""), 2);
    assert_eq!(gutter_digits(&"\n".repeat(98)), 2);
    assert_eq!(gutter_digits(&"\n".repeat(99)), 3);
    assert_eq!(gutter_digits(&"x\n".repeat(12345)), 5);
}

#[test]
fn icon_pixels_are_premultiplied() {
    let px = [255u8, 128, 0, 128, 10, 20, 30, 255, 200, 200, 200, 0];
    assert_eq!(premultiply(&px), vec![128, 64, 0, 128, 10, 20, 30, 255, 0, 0, 0, 0]);
    assert!(premultiply(&[]).is_empty());
}
