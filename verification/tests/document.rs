use markview::document::{DocError, Document, LineEnding, MARKDOWN_EXTENSIONS};
use markview::i18n::Language;

#[test]
fn untitled_is_clean_and_empty() {
    let d = Document::untitled();
    assert!(d.path.is_none());
    assert_eq!(d.text, "");
    assert!(!d.dirty && !d.had_bom && !d.lossy);
    assert_eq!(d.line_ending, LineEnding::Lf);
    let e = Document::default();
    assert!(e.path.is_none() && e.text.is_empty());
}

#[test]
fn crlf_file_is_normalized_and_remembered() {
    let d = Document::from_bytes("/tmp/a.md".to_owned(), b"a\r\nb\r\n");
    assert_eq!(d.text, "a\nb\n");
    assert_eq!(d.line_ending, LineEnding::CrLf);
    assert_eq!(d.path.as_deref(), Some("/tmp/a.md"));
    assert!(!d.dirty && !d.had_bom && !d.lossy);
}

#[test]
fn bare_cr_becomes_lf() {
    let d = Document::from_bytes("x".to_owned(), b"a\rb");
    assert_eq!(d.text, "a\nb");
    assert_eq!(d.line_ending, LineEnding::Lf);
}

#[test]
fn bom_is_stripped_and_written_back() {
    let d = Document::from_bytes("x.md".to_owned(), "\u{FEFF}# Hi\r\n".as_bytes());
    assert!(d.had_bom);
    assert_eq!(d.text, "# Hi\n");
    assert_eq!(d.disk_contents(), "\u{FEFF}# Hi\r\n");
}

#[test]
fn invalid_utf8_is_read_lossily() {
    let d = Document::from_bytes("x".to_owned(), &[b'a', 0xFF, b'b']);
    assert!(d.lossy);
    assert_eq!(d.text, "a\u{FFFD}b");
}

#[test]
fn save_then_open_round_trip() {
    for (bytes, _) in [
        (&b"one\r\ntwo\r\n"[..], "crlf"),
        (&b"one\ntwo"[..], "lf"),
        ("\u{FEFF}x\ny\n".as_bytes(), "bom"),
    ] {
        let d = Document::from_bytes("p.md".to_owned(), bytes);
        let again = Document::from_bytes("p.md".to_owned(), d.disk_contents().as_bytes());
        assert_eq!(again.text, d.text);
        assert_eq!(again.line_ending, d.line_ending);
        assert_eq!(again.had_bom, d.had_bom);
        assert_eq!(d.disk_contents().as_bytes(), bytes);
    }
}

#[test]
fn save_needs_a_path() {
    let d = Document::untitled();
    assert!(matches!(d.save(), Err(DocError::NoPath)));
    let mut named = Document::from_bytes("/tmp/n.md".to_owned(), b"x\n");
    let req = named.save().ok().expect("a save request");
    assert_eq!(req.path, "/tmp/n.md");
    assert_eq!(req.contents, "x\n");
    named.text.push('y');
    named.dirty = true;
    let req = named.save_as("/tmp/m.md".to_owned());
    assert_eq!(req.path, "/tmp/m.md");
    assert_eq!(req.contents, "x\ny");
}

#[test]
fn finishing_a_save() {
    let mut d = Document::untitled();
    d.text = "t".to_owned();
    d.dirty = true;
    d.lossy = true;
    let failed = d.finish_save("/x/y.md".to_owned(), Err("disk full".to_owned()));
    match failed {
        Err(DocError::Write { path, source }) => {
            assert_eq!(path, "/x/y.md");
            assert_eq!(source, "disk full");
        }
        _ => panic!("expected a write error"),
    }
    assert!(d.dirty && d.path.is_none());
    assert!(d.finish_save("/x/y.md".to_owned(), Ok(())).is_ok());
    assert!(!d.dirty && !d.lossy);
    assert_eq!(d.path.as_deref(), Some("/x/y.md"));
}

#[test]
fn messages_in_both_languages() {
    let en = Language::En.strings();
    let zh = Language::Zh.strings();
    let e = DocError::Read { path: "a.md".to_owned(), source: "gone".to_owned() };
    assert_eq!(e.message(&en), "Could not read a.md: gone");
    let w = DocError::Write { path: "b.md".to_owned(), source: "full".to_owned() };
    assert_eq!(w.message(&en), "Could not write b.md: full");
    assert_eq!(DocError::NoPath.message(&en), en.error_no_path);
    assert!(e.message(&zh).contains("a.md"));
}

#[test]
fn names_and_paths() {
    let en = Language::En.strings();
    let d = Document::untitled();
    assert_eq!(d.display_name(&en), "Untitled.md");
    assert_eq!(d.full_path(&en), "(not saved yet)");
    assert_eq!(d.dir(), None);
    let n = Document::from_bytes("/home/u/notes/a.md".to_owned(), b"");
    assert_eq!(n.display_name(&en), "a.md");
    assert_eq!(n.full_path(&en), "/home/u/notes/a.md");
    assert_eq!(n.dir().as_deref(), Some("/home/u/notes"));
}

#[test]
fn labels_and_extensions() {
    assert_eq!(LineEnding::Lf.label(), "LF");
    assert_eq!(LineEnding::CrLf.label(), "CRLF");
    assert!(MARKDOWN_EXTENSIONS.contains(&"md"));
    assert_eq!(MARKDOWN_EXTENSIONS.len(), 4);
}

#[test]
fn mixed_line_endings_are_saved_as_crlf() {
    let d = Document::from_bytes("m.md".to_owned(), b"a\r\nb\nc\rd");
    assert_eq!(d.text, "a\nb\nc\nd");
    assert_eq!(d.line_ending, LineEnding::CrLf);
    assert_eq!(d.disk_contents(), "a\r\nb\r\nc\r\nd");
}
