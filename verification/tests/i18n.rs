use markview::i18n::{fill, Language};

#[test]
fn fill_replaces_every_placeholder() {
    let out = fill("Opened {path} ({path})", &[("path", "a.md")]);
    assert_eq!(out, "Opened a.md (a.md)");
}

#[test]
fn fill_leaves_unknown_placeholders_alone() {
    assert_eq!(fill("{a} and {b}", &[("a", "1")]), "1 and {b}");
}

#[test]
fn english_picks_the_singular_form() {
    let s = Language::En.strings();
    assert_eq!(s.lines(1), "1 line");
    assert_eq!(s.lines(0), "0 lines");
    assert_eq!(s.lines(2), "2 lines");
    assert_eq!(s.words(1), "1 word");
    assert_eq!(s.chars(1), "1 character");
}

#[test]
fn chinese_does_not_inflect() {
    let s = Language::Zh.strings();
    assert_eq!(s.lines(1), "1 行");
    assert_eq!(s.lines(7), "7 行");
    assert_eq!(s.words(7), "7 词");
}

#[test]
fn reading_time_rounds_seconds_into_minutes() {
    let s = Language::En.strings();
    assert_eq!(s.reading_time(0), "0 min read");
    assert_eq!(s.reading_time(1), "1 min read");
    assert_eq!(s.reading_time(59), "1 min read");
    assert_eq!(s.reading_time(100), "2 min read");
}

#[test]
fn languages_stay_in_lockstep() {
    let en = Language::En.strings();
    let zh = Language::Zh.strings();
    assert_eq!(en.shortcuts.len(), zh.shortcuts.len());
    assert_eq!(en.about_stack.len(), zh.about_stack.len());
    assert_eq!(en.html_lang, "en");
    assert_eq!(zh.html_lang, "zh");
}

#[test]
fn fill_applies_arguments_in_order() {
    assert_eq!(fill("{a}{b}", &[("a", "{b}"), ("b", "x")]), "xx");
    assert_eq!(fill("no placeholders", &[("a", "1")]), "no placeholders");
}

#[test]
fn language_labels_name_themselves() {
    assert_eq!(Language::En.label(), "English");
    assert_eq!(Language::Zh.label(), "简体中文");
    assert_eq!(Language::ALL.len(), 2);
}

#[test]
fn chinese_reading_time() {
    let s = Language::Zh.strings();
    assert_eq!(s.chars(3), "3 字符");
    assert!(!s.reading_time(100).is_empty());
}
