//! The document model: how a file's bytes become the editor's text and back,
//! keeping its line endings and byte order mark, and the "dirty" flag.
//!
//! No sentence for the user is made here: failures come back as
//! [`DocError`] and are worded by the caller in the interface's language.
//! Reading and writing the disk is the caller's part; this module says what
//! is read from the bytes and which bytes are to be written.
use vstd::prelude::*;
use vstd::utf8::{decode_utf8, encode_utf8, valid_utf8};

use crate::i18n::{arg_views, fill, fill_spec, Strings};
use crate::text::{
    chars_of, contains_seq, extend_from, occurs_at, replace_all, replace_vec, starts_with,
    string_of,
};

verus! {

/// The file extensions that the open and save dialogs offer as Markdown,
/// kept in one place so that both dialogs agree.
pub const MARKDOWN_EXTENSIONS: [&'static str; 4] = ["md", "markdown", "mdx", "txt"];

/// Why reading or writing failed. `path` is the file's path and `source`
/// the operating system's description of the failure.
#[derive(Debug)]
pub enum DocError {
    /// The document has no path yet: it must be saved under a name first.
    NoPath,
    Read { path: String, source: String },
    Write { path: String, source: String },
}

impl DocError {
    /// The failure in the interface's language.
    pub fn message(&self, s: &Strings) -> (r: String)
        ensures
            r@ == match self {
                DocError::NoPath => s.error_no_path@,
                DocError::Read { path, source } => fill_spec(
                    s.error_read@,
                    seq![(seq!['p', 'a', 't', 'h'], path@), (seq!['e', 'r', 'r'], source@)],
                ),
                DocError::Write { path, source } => fill_spec(
                    s.error_write@,
                    seq![(seq!['p', 'a', 't', 'h'], path@), (seq!['e', 'r', 'r'], source@)],
                ),
            },
    {
        match self {
            DocError::NoPath => {
                let v = chars_of(s.error_no_path);
                string_of(&v)
            },
            DocError::Read { path, source } => {
                let key_path = "path";
                let key_err = "err";
                let p = path.as_str();
                let e = source.as_str();
                let args = [(key_path, p), (key_err, e)];
                proof {
                    reveal_strlit("path");
                    reveal_strlit("err");
                    assert(key_path@ =~= seq!['p', 'a', 't', 'h']);
                    assert(key_err@ =~= seq!['e', 'r', 'r']);
                    assert(args@[0] == (key_path, p));
                    assert(args@[1] == (key_err, e));
                    assert(arg_views(args@) =~= seq![
                        (seq!['p', 'a', 't', 'h'], path@),
                        (seq!['e', 'r', 'r'], source@),
                    ]);
                }
                fill(s.error_read, &args)
            },
            DocError::Write { path, source } => {
                let key_path = "path";
                let key_err = "err";
                let p = path.as_str();
                let e = source.as_str();
                let args = [(key_path, p), (key_err, e)];
                proof {
                    reveal_strlit("path");
                    reveal_strlit("err");
                    assert(key_path@ =~= seq!['p', 'a', 't', 'h']);
                    assert(key_err@ =~= seq!['e', 'r', 'r']);
                    assert(args@[0] == (key_path, p));
                    assert(args@[1] == (key_err, e));
                    assert(arg_views(args@) =~= seq![
                        (seq!['p', 'a', 't', 'h'], path@),
                        (seq!['e', 'r', 'r'], source@),
                    ]);
                }
                fill(s.error_write, &args)
            },
        }
    }
}

/// The line ending that a file used. The editor works with `\n` alone; the
/// file's own ending comes back when it is written.
#[derive(Debug, Clone, Copy, PartialEq, Eq, Structural)]
pub enum LineEnding {
    Lf,
    CrLf,
}

impl LineEnding {
    /// The name shown in the status bar.
    pub fn label(self) -> (r: &'static str)
        ensures
            r == match self {
                LineEnding::Lf => "LF",
                LineEnding::CrLf => "CRLF",
            },
    {
        match self {
            LineEnding::Lf => "LF",
            LineEnding::CrLf => "CRLF",
        }
    }
}

/// An open text file.
///
/// `dirty` is a flag kept at the two moments that change it (an edit, a
/// save) rather than a comparison of the text with what was loaded.
#[derive(Debug)]
pub struct Document {
    /// Where the file lives; `None` until it is first saved.
    pub path: Option<String>,
    /// The text, with `\n` as its only line break.
    pub text: String,
    pub dirty: bool,
    pub line_ending: LineEnding,
    /// The file began with a UTF-8 byte order mark, written back on save.
    pub had_bom: bool,
    /// The file was not valid UTF-8 and was read with replacement characters.
    pub lossy: bool,
}

/// The byte order mark, as UTF-8 bytes.
pub open spec fn bom_bytes() -> Seq<u8> {
    seq![0xEFu8, 0xBBu8, 0xBFu8]
}

/// The byte order mark, as a character.
pub open spec fn bom_char() -> char {
    '\u{FEFF}'
}

/// `\r\n`.
pub open spec fn crlf() -> Seq<char> {
    seq!['\r', '\n']
}

/// Whether the bytes begin with a byte order mark.
pub open spec fn has_bom(bytes: Seq<u8>) -> bool {
    bytes.len() >= 3 && bytes.take(3) == bom_bytes()
}

/// The bytes after the byte order mark, if any.
pub open spec fn body_of(bytes: Seq<u8>) -> Seq<u8> {
    if has_bom(bytes) {
        bytes.skip(3)
    } else {
        bytes
    }
}

/// The text that `String::from_utf8_lossy` gives for `bytes`.
pub uninterp spec fn lossy_utf8(bytes: Seq<u8>) -> Seq<char>;

/// The characters of a file's content: its UTF-8 decoding, or the lossy one
/// where it is not valid UTF-8.
pub open spec fn decoded(bytes: Seq<u8>) -> Seq<char> {
    let body = body_of(bytes);
    if valid_utf8(body) {
        decode_utf8(body)
    } else {
        lossy_utf8(body)
    }
}

/// The line ending of a text: CRLF as soon as one `\r\n` occurs.
pub open spec fn line_ending_of(raw: Seq<char>) -> LineEnding {
    if contains_seq(raw, crlf()) {
        LineEnding::CrLf
    } else {
        LineEnding::Lf
    }
}

/// The text with every `\r\n`, then every lone `\r`, made a `\n`.
pub open spec fn normalize_newlines(raw: Seq<char>) -> Seq<char> {
    replace_all(replace_all(raw, crlf(), seq!['\n']), seq!['\r'], seq!['\n'])
}

/// The characters written for a text with the given line ending and mark.
pub open spec fn disk_text(text: Seq<char>, ending: LineEnding, bom: bool) -> Seq<char> {
    (if bom {
        seq![bom_char()]
    } else {
        Seq::<char>::empty()
    }) + match ending {
        LineEnding::Lf => text,
        LineEnding::CrLf => replace_all(text, seq!['\n'], crlf()),
    }
}

/// The view of an optional string.
pub open spec fn opt_view(p: Option<String>) -> Option<Seq<char>> {
    match p {
        Some(s) => Some(s@),
        None => None,
    }
}

/// What a document is written as: where, and with which text. The bytes
/// are the UTF-8 encoding of `contents`.
pub struct SaveRequest {
    pub path: String,
    pub contents: String,
}

/// `std::str::from_utf8`, which succeeds exactly on valid UTF-8 and then
/// gives the decoded characters.
#[verifier::external_body]
fn utf8_decode(bytes: &[u8]) -> (r: Option<String>)
    ensures
        r is Some <==> valid_utf8(bytes@),
        r is Some ==> r->0@ == decode_utf8(bytes@),
{
    match std::str::from_utf8(bytes) {
        Ok(s) => Some(s.to_owned()),
        Err(_) => None,
    }
}

/// `String::from_utf8_lossy`: the text with every invalid sequence replaced
/// by U+FFFD. Its result is named; of it only the documented case of valid
/// UTF-8, which comes back unchanged, is stated.
#[verifier::external_body]
fn utf8_lossy(bytes: &[u8]) -> (r: String)
    ensures
        r@ == lossy_utf8(bytes@),
        valid_utf8(bytes@) ==> r@ == decode_utf8(bytes@),
{
    String::from_utf8_lossy(bytes).into_owned()
}

/// Whether the bytes begin with a byte order mark.
fn starts_with_bom(bytes: &[u8]) -> (r: bool)
    ensures
        r == has_bom(bytes@),
{
    let r = bytes.len() >= 3 && bytes[0] == 0xEF && bytes[1] == 0xBB && bytes[2] == 0xBF;
    proof {
        if bytes@.len() >= 3 {
            if r {
                assert(bytes@.take(3) =~= bom_bytes());
            } else {
                if bytes@.take(3) == bom_bytes() {
                    assert(bytes@.take(3)[0] == bytes@[0]);
                    assert(bytes@.take(3)[1] == bytes@[1]);
                    assert(bytes@.take(3)[2] == bytes@[2]);
                }
            }
        }
    }
    r
}

/// The bytes of `bytes` from `start` on.
fn bytes_from(bytes: &[u8], start: usize) -> (v: Vec<u8>)
    requires
        start <= bytes@.len(),
    ensures
        v@ == bytes@.skip(start as int),
{
    let mut v: Vec<u8> = Vec::new();
    let mut i = start;
    while i < bytes.len()
        invariant
            start <= i <= bytes@.len(),
            v@ == bytes@.subrange(start as int, i as int),
        decreases bytes@.len() - i,
    {
        v.push(bytes[i]);
        assert(bytes@.subrange(start as int, i + 1) =~= bytes@.subrange(start as int, i as int).push(
            bytes@[i as int],
        ));
        i += 1;
    }
    assert(bytes@.subrange(start as int, bytes@.len() as int) =~= bytes@.skip(start as int));
    v
}

/// Whether `p` occurs in `s`.
fn contains_vec(s: &Vec<char>, p: &Vec<char>) -> (r: bool)
    requires
        s@.len() <= isize::MAX,
    ensures
        r == contains_seq(s@, p@),
{
    let mut i: usize = 0;
    while i <= s.len()
        invariant
            s@.len() <= isize::MAX,
            i <= s@.len() + 1,
            forall|j: int| 0 <= j < i ==> !occurs_at(s@, p@, j),
        decreases s@.len() + 1 - i,
    {
        if seq_at_checked(s, i, p) {
            return true;
        }
        i += 1;
    }
    proof {
        if contains_seq(s@, p@) {
            let j = choose|j: int| occurs_at(s@, p@, j);
            assert(j <= s@.len());
        }
    }
    false
}

/// Whether `p` occurs in `s` at `i`.
fn seq_at_checked(s: &Vec<char>, i: usize, p: &Vec<char>) -> (r: bool)
    requires
        i <= s@.len(),
    ensures
        r == occurs_at(s@, p@, i as int),
{
    crate::text::seq_at(s, i, p)
}

/// The newline-normalized text of `raw`.
fn normalized(raw: &Vec<char>) -> (v: Vec<char>)
    ensures
        v@ == normalize_newlines(raw@),
{
    let mut pat: Vec<char> = Vec::new();
    pat.push('\r');
    pat.push('\n');
    let mut nl: Vec<char> = Vec::new();
    nl.push('\n');
    assert(pat@ =~= crlf());
    assert(nl@ =~= seq!['\n']);
    let once = replace_vec(raw, &pat, &nl);
    let mut cr: Vec<char> = Vec::new();
    cr.push('\r');
    assert(cr@ =~= seq!['\r']);
    replace_vec(&once, &cr, &nl)
}

impl Document {
    /// A new, empty, unnamed document.
    pub fn untitled() -> (d: Document)
        ensures
            d.path is None,
            d.text@ == Seq::<char>::empty(),
            !d.dirty,
            d.line_ending == LineEnding::Lf,
            !d.had_bom,
            !d.lossy,
    {
        Document {
            path: None,
            text: String::new(),
            dirty: false,
            line_ending: LineEnding::Lf,
            had_bom: false,
            lossy: false,
        }
    }

    /// The document read from `path`, whose content is `bytes`: a byte
    /// order mark is dropped, invalid UTF-8 is read with replacement
    /// characters, and every CRLF or lone CR becomes LF.
    pub fn from_bytes(path: String, bytes: &[u8]) -> (d: Document)
        ensures
            opt_view(d.path) == Some(path@),
            d.text@ == normalize_newlines(decoded(bytes@)),
            !d.text@.contains('\r'),
            !d.dirty,
            d.line_ending == line_ending_of(decoded(bytes@)),
            d.had_bom == has_bom(bytes@),
            d.lossy == !valid_utf8(body_of(bytes@)),
    {
        let had_bom = starts_with_bom(bytes);
        let body = if had_bom {
            bytes_from(bytes, 3)
        } else {
            bytes_from(bytes, 0)
        };
        assert(bytes@.skip(0) =~= bytes@);
        let (raw, lossy) = match utf8_decode(body.as_slice()) {
            Some(s) => (s, false),
            None => (utf8_lossy(body.as_slice()), true),
        };
        let chars = chars_of(raw.as_str());
        let mut pat: Vec<char> = Vec::new();
        pat.push('\r');
        pat.push('\n');
        assert(pat@ =~= crlf());
        let line_ending = if contains_vec(&chars, &pat) {
            LineEnding::CrLf
        } else {
            LineEnding::Lf
        };
        let text = normalized(&chars);
        proof {
            lemma_no_cr_after_replace(replace_all(chars@, crlf(), seq!['\n']));
        }
        Document {
            path: Some(path),
            text: string_of(&text),
            dirty: false,
            line_ending,
            had_bom,
            lossy,
        }
    }

    /// The text that is written to disk: the byte order mark if the file had
    /// one, then the text with the file's own line ending.
    pub fn disk_contents(&self) -> (r: String)
        ensures
            r@ == disk_text(self.text@, self.line_ending, self.had_bom),
    {
        let mut out: Vec<char> = Vec::new();
        if self.had_bom {
            out.push('\u{FEFF}');
        }
        let text = chars_of(self.text.as_str());
        match self.line_ending {
            LineEnding::Lf => {
                extend_from(&mut out, &text, 0, text.len());
                assert(text@.subrange(0, text@.len() as int) =~= text@);
            },
            LineEnding::CrLf => {
                let mut nl: Vec<char> = Vec::new();
                nl.push('\n');
                let mut rn: Vec<char> = Vec::new();
                rn.push('\r');
                rn.push('\n');
                assert(nl@ =~= seq!['\n']);
                assert(rn@ =~= crlf());
                let wide = replace_vec(&text, &nl, &rn);
                extend_from(&mut out, &wide, 0, wide.len());
                assert(wide@.subrange(0, wide@.len() as int) =~= wide@);
            },
        }
        proof {
            if self.had_bom {
                assert(seq![bom_char()] =~= Seq::<char>::empty().push('\u{FEFF}'));
            } else {
                assert(Seq::<char>::empty() + out@ =~= out@);
            }
        }
        assert(out@ =~= disk_text(self.text@, self.line_ending, self.had_bom));
        string_of(&out)
    }

    /// Where and what to write to save the document under its own path;
    /// [`DocError::NoPath`] when it has none, and then nothing is written.
    pub fn save(&self) -> (r: Result<SaveRequest, DocError>)
        ensures
            self.path is None ==> r matches Err(DocError::NoPath),
            self.path is Some ==> (r matches Ok(req) && req.path@ == self.path->0@
                && req.contents@ == disk_text(self.text@, self.line_ending, self.had_bom)),
    {
        match &self.path {
            None => Err(DocError::NoPath),
            Some(p) => Ok(self.save_as(p.clone())),
        }
    }

    /// Where and what to write to save the document under `path`.
    pub fn save_as(&self, path: String) -> (r: SaveRequest)
        ensures
            r.path@ == path@,
            r.contents@ == disk_text(self.text@, self.line_ending, self.had_bom),
    {
        SaveRequest { path, contents: self.disk_contents() }
    }

    /// Records how writing the document to `path` went. On success the
    /// document now lives at `path`, is clean, and is no longer lossy (it
    /// was written back as UTF-8); on failure it is left as it was and the
    /// failure is returned as [`DocError::Write`].
    pub fn finish_save(&mut self, path: String, outcome: Result<(), String>) -> (r: Result<
        (),
        DocError,
    >)
        ensures
            outcome is Ok ==> r is Ok && opt_view(final(self).path) == Some(path@)
                && !final(self).dirty && !final(self).lossy && final(self).text@ == old(
                self,
            ).text@ && final(self).line_ending == old(self).line_ending && final(self).had_bom
                == old(self).had_bom,
            outcome is Err ==> *final(self) == *old(self) && (r matches Err(
                DocError::Write { path: p, source: e },
            ) && p@ == path@ && e@ == outcome->Err_0@),
    {
        match outcome {
            Ok(()) => {
                self.path = Some(path);
                self.dirty = false;
                self.lossy = false;
                Ok(())
            },
            Err(e) => Err(DocError::Write { path, source: e }),
        }
    }

    /// The file's name; a placeholder for an unnamed document.
    pub fn display_name(&self, s: &Strings) -> (r: String)
        ensures
            r@ == display_name_spec(self.path, *s),
    {
        let name = match &self.path {
            Some(p) => file_name_of(p.as_str()),
            None => None,
        };
        match name {
            Some(n) => n,
            None => {
                let v = chars_of(s.untitled_file_name);
                string_of(&v)
            },
        }
    }

    /// The file's full path; a placeholder for an unnamed document.
    pub fn full_path(&self, s: &Strings) -> (r: String)
        ensures
            r@ == match self.path {
                Some(p) => p@,
                None => s.no_path_placeholder@,
            },
    {
        match &self.path {
            Some(p) => p.clone(),
            None => {
                let v = chars_of(s.no_path_placeholder);
                string_of(&v)
            },
        }
    }

    /// The directory that holds the file (relative image paths in the
    /// preview are resolved against it).
    pub fn dir(&self) -> (r: Option<String>)
        ensures
            opt_view(r) == match self.path {
                Some(p) => path_parent(p@),
                None => None,
            },
    {
        match &self.path {
            Some(p) => parent_of(p.as_str()),
            None => None,
        }
    }
}

impl Default for Document {
    fn default() -> (d: Document)
        ensures
            d.path is None,
            d.text@ == Seq::<char>::empty(),
            !d.dirty,
            d.line_ending == LineEnding::Lf,
            !d.had_bom,
            !d.lossy,
    {
        Document::untitled()
    }
}

/// The name shown for a document at `path`: the file's name, or the
/// placeholder for an unnamed document.
pub open spec fn display_name_spec(path: Option<String>, s: Strings) -> Seq<char> {
    match path {
        Some(p) => match path_file_name(p@) {
            Some(n) => n,
            None => s.untitled_file_name@,
        },
        None => s.untitled_file_name@,
    }
}

/// The file name without its extension, as `Path::file_stem` gives it.
pub uninterp spec fn path_file_stem(path: Seq<char>) -> Option<Seq<char>>;

/// `Path::file_stem`, converted to a string. Its result is named, not stated.
#[verifier::external_body]
pub(crate) fn file_stem_of(path: &str) -> (r: Option<String>)
    ensures
        opt_view(r) == path_file_stem(path@),
{
    std::path::Path::new(path).file_stem().map(|n| n.to_string_lossy().into_owned())
}

/// Whether two paths are equal as `Path`s (`Path::eq`): component by
/// component, so that `/tmp//a.md` and `/tmp/a.md` are the same path.
pub uninterp spec fn paths_equal(a: Seq<char>, b: Seq<char>) -> bool;

/// `Path::new(a) == Path::new(b)`. Its result is named, not stated.
#[verifier::external_body]
pub(crate) fn same_path(a: &str, b: &str) -> (r: bool)
    ensures
        r == paths_equal(a@, b@),
{
    std::path::Path::new(a) == std::path::Path::new(b)
}

/// The last component of a path, as `Path::file_name` gives it.
pub uninterp spec fn path_file_name(path: Seq<char>) -> Option<Seq<char>>;

/// The path without its last component, as `Path::parent` gives it.
pub uninterp spec fn path_parent(path: Seq<char>) -> Option<Seq<char>>;

/// `Path::file_name`, converted to a string. Its result is named, not stated.
#[verifier::external_body]
fn file_name_of(path: &str) -> (r: Option<String>)
    ensures
        opt_view(r) == path_file_name(path@),
{
    std::path::Path::new(path).file_name().map(|n| n.to_string_lossy().into_owned())
}

/// `Path::parent`, converted to a string. Its result is named; of it only
/// the documented case of the empty path, which has no parent, is stated.
#[verifier::external_body]
pub(crate) fn parent_of(path: &str) -> (r: Option<String>)
    ensures
        opt_view(r) == path_parent(path@),
        path@.len() == 0 ==> r is None,
{
    std::path::Path::new(path).parent().map(|p| p.to_string_lossy().into_owned())
}

/// No `\r` is left once every `\r` is replaced by `\n`.
pub proof fn lemma_no_cr_after_replace(s: Seq<char>)
    ensures
        !replace_all(s, seq!['\r'], seq!['\n']).contains('\r'),
    decreases s.len(),
{
    let r = replace_all(s, seq!['\r'], seq!['\n']);
    if s.len() > 0 {
        if starts_with(s, seq!['\r']) {
            lemma_no_cr_after_replace(s.skip(1));
            let tail = replace_all(s.skip(1), seq!['\r'], seq!['\n']);
            assert(r == seq!['\n'] + tail);
            assert forall|i: int| 0 <= i < r.len() implies r[i] != '\r' by {
                if i > 0 {
                    assert(r[i] == tail[i - 1]);
                }
            }
        } else {
            lemma_no_cr_after_replace(s.drop_first());
            let tail = replace_all(s.drop_first(), seq!['\r'], seq!['\n']);
            assert(r == seq![s[0]] + tail);
            assert(s[0] != '\r') by {
                if s[0] == '\r' {
                    assert(s.take(1) =~= seq!['\r']);
                }
            }
            assert forall|i: int| 0 <= i < r.len() implies r[i] != '\r' by {
                if i > 0 {
                    assert(r[i] == tail[i - 1]);
                }
            }
        }
    }
}

/// Every `\n` of the text made a `\r\n`.
pub open spec fn widen(s: Seq<char>) -> Seq<char> {
    replace_all(s, seq!['\n'], crlf())
}

/// A text that holds no character that begins the pattern is left alone.
proof fn lemma_replace_absent(s: Seq<char>, pat: Seq<char>, rep: Seq<char>)
    requires
        pat.len() > 0,
        !s.contains(pat[0]),
    ensures
        replace_all(s, pat, rep) == s,
    decreases s.len(),
{
    if s.len() > 0 {
        if starts_with(s, pat) {
            assert(s.take(pat.len() as int)[0] == s[0]);
            assert(s[0] == pat[0]);
        }
        assert forall|i: int| 0 <= i < s.drop_first().len() implies s.drop_first()[i] != pat[0] by {
            assert(s.drop_first()[i] == s[i + 1]);
        }
        lemma_replace_absent(s.drop_first(), pat, rep);
        assert(seq![s[0]] + s.drop_first() =~= s);
    }
}

/// The first character of a widened text.
proof fn lemma_widen_first(s: Seq<char>)
    requires
        s.len() > 0,
    ensures
        widen(s).len() > 0,
        widen(s)[0] == if s[0] == '\n' {
            '\r'
        } else {
            s[0]
        },
{
    if starts_with(s, seq!['\n']) {
        assert(s.take(1)[0] == s[0]);
    } else if s[0] == '\n' {
        assert(s.take(1) =~= seq!['\n']);
    }
}

/// Narrowing a widened text gives it back, as long as it held no `\r`.
proof fn lemma_narrow_widen(s: Seq<char>)
    requires
        !s.contains('\r'),
    ensures
        replace_all(widen(s), crlf(), seq!['\n']) == s,
    decreases s.len(),
{
    if s.len() > 0 {
        let w = widen(s);
        if s[0] == '\n' {
            assert(s.take(1) =~= seq!['\n']);
            let rest = s.skip(1);
            assert forall|i: int| 0 <= i < rest.len() implies rest[i] != '\r' by {
                assert(rest[i] == s[i + 1]);
            }
            lemma_narrow_widen(rest);
            assert(w == crlf() + widen(rest));
            assert(w.take(2) =~= crlf());
            assert(w.skip(2) =~= widen(rest));
            assert(seq!['\n'] + rest =~= s);
        } else {
            if starts_with(s, seq!['\n']) {
                assert(s.take(1)[0] == s[0]);
            }
            let rest = s.drop_first();
            assert forall|i: int| 0 <= i < rest.len() implies rest[i] != '\r' by {
                assert(rest[i] == s[i + 1]);
            }
            lemma_narrow_widen(rest);
            assert(w == seq![s[0]] + widen(rest));
            assert(s[0] != '\r');
            if starts_with(w, crlf()) {
                assert(w.take(2)[0] == w[0]);
            }
            assert(w.drop_first() =~= widen(rest));
            assert(seq![s[0]] + rest =~= s);
        }
    }
}

/// A widened text holds a `\r\n` exactly when the text held a `\n`.
proof fn lemma_widen_has_crlf(s: Seq<char>)
    requires
        !s.contains('\r'),
    ensures
        contains_seq(widen(s), crlf()) == s.contains('\n'),
    decreases s.len(),
{
    if !s.contains('\n') {
        lemma_replace_absent(s, seq!['\n'], crlf());
        if contains_seq(s, crlf()) {
            let j = choose|j: int| occurs_at(s, crlf(), j);
            assert(s.subrange(j, j + 2)[0] == s[j]);
        }
    } else {
        let w = widen(s);
        if s[0] == '\n' {
            assert(s.take(1) =~= seq!['\n']);
            assert(w == crlf() + widen(s.skip(1)));
            assert(w.subrange(0, 2) =~= crlf());
            assert(occurs_at(w, crlf(), 0));
        } else {
            if starts_with(s, seq!['\n']) {
                assert(s.take(1)[0] == s[0]);
            }
            let rest = s.drop_first();
            assert forall|i: int| 0 <= i < rest.len() implies rest[i] != '\r' by {
                assert(rest[i] == s[i + 1]);
            }
            let k = choose|k: int| 0 <= k < s.len() && s[k] == '\n';
            assert(rest[k - 1] == '\n');
            lemma_widen_has_crlf(rest);
            let wr = widen(rest);
            let j = choose|j: int| occurs_at(wr, crlf(), j);
            assert(w == seq![s[0]] + wr);
            assert(w.subrange(j + 1, j + 3) =~= wr.subrange(j, j + 2));
            assert(occurs_at(w, crlf(), j + 1));
        }
    }
}

/// A text without `\r` holds no `\r\n`.
proof fn lemma_no_crlf(s: Seq<char>)
    requires
        !s.contains('\r'),
    ensures
        !contains_seq(s, crlf()),
{
    if contains_seq(s, crlf()) {
        let j = choose|j: int| occurs_at(s, crlf(), j);
        assert(s.subrange(j, j + 2)[0] == s[j]);
    }
}

/// The encoding of a text that does not begin with U+FEFF does not begin
/// with the byte order mark.
proof fn lemma_no_bom_bytes(s: Seq<char>)
    requires
        s.len() > 0 ==> s[0] != bom_char(),
    ensures
        !has_bom(encode_utf8(s)),
{
    let bytes = encode_utf8(s);
    if s.len() > 0 && has_bom(bytes) {
        vstd::utf8::encode_utf8_first_scalar(s);
        assert(bytes[0] == 0xEFu8 && bytes[1] == 0xBBu8 && bytes[2] == 0xBFu8) by {
            assert(bytes.take(3)[0] == bytes[0]);
            assert(bytes.take(3)[1] == bytes[1]);
            assert(bytes.take(3)[2] == bytes[2]);
        }
        assert(vstd::utf8::is_leading_byte_width_3(0xEFu8)) by (bit_vector);
        assert(!vstd::utf8::is_leading_byte_width_1(0xEFu8)) by (bit_vector);
        assert(!vstd::utf8::is_leading_byte_width_2(0xEFu8)) by (bit_vector);
        assert(vstd::utf8::codepoint_width_3(0xEFu8, 0xBBu8, 0xBFu8) == 0xFEFFu32) by (bit_vector);
        assert(vstd::utf8::decode_first_scalar(bytes) == 0xFEFFu32);
        vstd::utf8::char_u32_cast(s[0], 0xFEFFu32);
    }
}

/// The byte order mark's encoding.
proof fn lemma_bom_encoding()
    ensures
        encode_utf8(seq![bom_char()]) == bom_bytes(),
{
    assert(seq![bom_char()].drop_first() =~= Seq::<char>::empty());
    assert(encode_utf8(Seq::<char>::empty()) =~= Seq::<u8>::empty());
    assert(vstd::utf8::leading_byte_width_3(0xFEFFu32) == 0xEFu8) by (bit_vector);
    assert(vstd::utf8::second_last_continuation_byte(0xFEFFu32) == 0xBBu8) by (bit_vector);
    assert(vstd::utf8::last_continuation_byte(0xFEFFu32) == 0xBFu8) by (bit_vector);
    assert(vstd::utf8::encode_scalar(0xFEFFu32) =~= bom_bytes());
    assert(encode_utf8(seq![bom_char()]) =~= bom_bytes());
}

/// Every `\r` of `s` starts a `\r\n`, and every `\n` ends one: the text's
/// line breaks are all CRLF.
pub open spec fn crlf_only(s: Seq<char>) -> bool {
    &&& forall|i: int|
        0 <= i < s.len() && #[trigger] s[i] == '\r' ==> i + 1 < s.len() && s[i + 1] == '\n'
    &&& forall|i: int| 0 <= i < s.len() && #[trigger] s[i] == '\n' ==> i > 0 && s[i - 1] == '\r'
}

/// Narrowing the CRLF line breaks of a CRLF text and widening them again
/// gives the text back, and the narrowed text holds no `\r`.
proof fn lemma_widen_narrow(s: Seq<char>)
    requires
        crlf_only(s),
    ensures
        widen(replace_all(s, crlf(), seq!['\n'])) == s,
        !replace_all(s, crlf(), seq!['\n']).contains('\r'),
    decreases s.len(),
{
    if s.len() > 0 {
        let r = replace_all(s, crlf(), seq!['\n']);
        if s[0] == '\r' {
            assert(s.take(2) =~= crlf());
            let rest = s.skip(2);
            assert forall|i: int| #![trigger rest[i]] 0 <= i < rest.len() && rest[i] == '\n' implies i > 0 && rest[i
                - 1] == '\r' by {
                assert(rest[i] == s[i + 2]);
                if i == 0 {
                    assert(s[1] == '\n');
                } else {
                    assert(rest[i - 1] == s[i + 1]);
                }
            }
            assert forall|i: int| #![trigger rest[i]] 0 <= i < rest.len() && rest[i] == '\r' implies i + 1 < rest.len()
                && rest[i + 1] == '\n' by {
                assert(rest[i] == s[i + 2]);
                assert(s[i + 3] == '\n');
                assert(rest[i + 1] == s[i + 3]);
            }
            lemma_widen_narrow(rest);
            let nr = replace_all(rest, crlf(), seq!['\n']);
            assert(r == seq!['\n'] + nr);
            let w = widen(r);
            assert(r.take(1) =~= seq!['\n']);
            assert(r.skip(1) =~= nr);
            assert(w == crlf() + widen(nr));
            assert(crlf() + rest =~= s);
            assert forall|i: int| 0 <= i < r.len() implies r[i] != '\r' by {
                if i > 0 {
                    assert(r[i] == nr[i - 1]);
                }
            }
        } else {
            assert(s[0] != '\n');
            if starts_with(s, crlf()) {
                assert(s.take(2)[0] == s[0]);
            }
            let rest = s.drop_first();
            assert forall|i: int| #![trigger rest[i]] 0 <= i < rest.len() && rest[i] == '\n' implies i > 0 && rest[i
                - 1] == '\r' by {
                assert(rest[i] == s[i + 1]);
                if i > 0 {
                    assert(rest[i - 1] == s[i]);
                }
            }
            assert forall|i: int| #![trigger rest[i]] 0 <= i < rest.len() && rest[i] == '\r' implies i + 1 < rest.len()
                && rest[i + 1] == '\n' by {
                assert(rest[i] == s[i + 1]);
                assert(rest[i + 1] == s[i + 2]);
            }
            lemma_widen_narrow(rest);
            let nr = replace_all(rest, crlf(), seq!['\n']);
            assert(r == seq![s[0]] + nr);
            if starts_with(r, seq!['\n']) {
                assert(r.take(1)[0] == r[0]);
            }
            assert(r.drop_first() =~= nr);
            assert(widen(r) == seq![s[0]] + widen(nr));
            assert(seq![s[0]] + rest =~= s);
            assert forall|i: int| 0 <= i < r.len() implies r[i] != '\r' by {
                if i > 0 {
                    assert(r[i] == nr[i - 1]);
                }
            }
        }
    }
}

/// Opening a file and saving it unedited writes back the very same bytes,
/// for a file that is valid UTF-8 (after its byte order mark, if any) and
/// whose line breaks are all LF or all CRLF.
pub proof fn lemma_open_then_save(bytes: Seq<u8>)
    requires
        valid_utf8(body_of(bytes)),
        !decoded(bytes).contains('\r') || crlf_only(decoded(bytes)),
    ensures
        encode_utf8(
            disk_text(
                normalize_newlines(decoded(bytes)),
                line_ending_of(decoded(bytes)),
                has_bom(bytes),
            ),
        ) == bytes,
{
    let body = body_of(bytes);
    let raw = decoded(bytes);
    assert(raw == decode_utf8(body));
    vstd::utf8::decode_utf8_encode_utf8(body);
    let text = normalize_newlines(raw);
    let ending = line_ending_of(raw);
    if !raw.contains('\r') {
        lemma_no_crlf(raw);
        assert(ending == LineEnding::Lf);
        lemma_replace_absent(raw, crlf(), seq!['\n']);
        lemma_replace_absent(raw, seq!['\r'], seq!['\n']);
        assert(text == raw);
    } else {
        let j = choose|j: int| 0 <= j < raw.len() && raw[j] == '\r';
        assert(raw.subrange(j, j + 2) =~= crlf());
        assert(occurs_at(raw, crlf(), j));
        assert(ending == LineEnding::CrLf);
        lemma_widen_narrow(raw);
        let narrow = replace_all(raw, crlf(), seq!['\n']);
        lemma_replace_absent(narrow, seq!['\r'], seq!['\n']);
        assert(text == narrow);
        assert(widen(text) == raw);
    }
    let prefix = if has_bom(bytes) {
        seq![bom_char()]
    } else {
        Seq::<char>::empty()
    };
    assert(disk_text(text, ending, has_bom(bytes)) == prefix + raw);
    crate::text::lemma_encode_utf8_concat(prefix, raw);
    if has_bom(bytes) {
        lemma_bom_encoding();
        assert(bytes.take(3) + bytes.skip(3) =~= bytes);
    } else {
        assert(encode_utf8(Seq::<char>::empty()) =~= Seq::<u8>::empty());
        assert(Seq::<u8>::empty() + body =~= body);
    }
}

/// Saving a document and opening the file again gives back its text, its
/// line ending and its byte order mark, and the file reads as valid UTF-8.
/// This holds of a text without `\r` (which is what opening gives), which
/// does not itself begin with U+FEFF unless a mark is written before it, and
/// which, to be written with CRLF, has a line break to show it.
pub proof fn lemma_save_then_open(text: Seq<char>, ending: LineEnding, bom: bool)
    requires
        !text.contains('\r'),
        !bom && text.len() > 0 ==> text[0] != bom_char(),
        ending == LineEnding::CrLf ==> text.contains('\n'),
    ensures
        has_bom(encode_utf8(disk_text(text, ending, bom))) == bom,
        valid_utf8(body_of(encode_utf8(disk_text(text, ending, bom)))),
        line_ending_of(decoded(encode_utf8(disk_text(text, ending, bom)))) == ending,
        normalize_newlines(decoded(encode_utf8(disk_text(text, ending, bom)))) == text,
{
    let body_text = match ending {
        LineEnding::Lf => text,
        LineEnding::CrLf => widen(text),
    };
    let prefix = if bom {
        seq![bom_char()]
    } else {
        Seq::<char>::empty()
    };
    let bytes = encode_utf8(disk_text(text, ending, bom));
    assert(disk_text(text, ending, bom) == prefix + body_text);
    crate::text::lemma_encode_utf8_concat(prefix, body_text);
    vstd::utf8::encode_utf8_valid_utf8(body_text);
    vstd::utf8::encode_utf8_decode_utf8(body_text);
    if bom {
        lemma_bom_encoding();
        assert(bytes.take(3) =~= bom_bytes());
        assert(bytes.skip(3) =~= encode_utf8(body_text));
    } else {
        assert(encode_utf8(Seq::<char>::empty()) =~= Seq::<u8>::empty());
        assert(bytes =~= encode_utf8(body_text));
        if body_text.len() > 0 && ending == LineEnding::CrLf {
            lemma_widen_first(text);
        }
        lemma_no_bom_bytes(body_text);
    }
    assert(decoded(bytes) == body_text);
    match ending {
        LineEnding::Lf => {
            lemma_no_crlf(text);
            lemma_replace_absent(text, crlf(), seq!['\n']);
        },
        LineEnding::CrLf => {
            lemma_widen_has_crlf(text);
            lemma_narrow_widen(text);
        },
    }
    lemma_replace_absent(text, seq!['\r'], seq!['\n']);
}

} // verus!
