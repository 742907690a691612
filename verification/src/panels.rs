//! What the panels around the editor compute before they draw: the outline's
//! clipped titles, the preview's base address for relative images, the
//! status bar's reading time, and the discard dialog's explanation.
use vstd::prelude::*;

use crate::markdown::{count_of, stats};
use crate::document::{display_name_spec, file_stem_of, path_file_stem, path_parent, Document};
use crate::i18n::{arg_views, fill, fill_spec, Strings};
use crate::state::{AfterDiscard, ToastKind};
use crate::text::{chars_of, decimal, extend_str, string_of, usize_to_string};

verus! {

broadcast use vstd::string::group_string_axioms;

/// How many characters of a title the outline shows before an ellipsis (the
/// whole title is in its tooltip).
pub const MAX_TITLE_CHARS: usize = 34;

/// What the discard dialog says will happen once the edits are dropped.
pub fn describe(then: &AfterDiscard, s: &Strings) -> (r: &'static str)
    ensures
        r == match then {
            AfterDiscard::NewFile => s.discard_new_file,
            AfterDiscard::OpenDialog => s.discard_open_dialog,
            AfterDiscard::OpenPath(_) => s.discard_open_path,
            AfterDiscard::Quit => s.discard_quit,
        },
{
    match then {
        AfterDiscard::NewFile => s.discard_new_file,
        AfterDiscard::OpenDialog => s.discard_open_dialog,
        AfterDiscard::OpenPath(_) => s.discard_open_path,
        AfterDiscard::Quit => s.discard_quit,
    }
}

/// `t` cut to `max` characters followed by an ellipsis, when it is longer.
pub open spec fn clip_spec(t: Seq<char>, max: nat) -> Seq<char> {
    if t.len() <= max {
        t
    } else {
        t.take(max as int).push('…')
    }
}

/// A title as the outline shows it: at most `max_chars` characters, and an
/// ellipsis when some were cut.
pub fn clip(text: &str, max_chars: usize) -> (r: String)
    ensures
        r@ == clip_spec(text@, max_chars as nat),
{
    let v = chars_of(text);
    if v.len() <= max_chars {
        return string_of(&v);
    }
    let mut out: Vec<char> = Vec::new();
    crate::text::extend_from(&mut out, &v, 0, max_chars);
    out.push('…');
    assert(v@.subrange(0, max_chars as int) =~= v@.take(max_chars as int));
    string_of(&out)
}

/// The base address for relative image paths in the preview: the file's
/// directory as a `file://` address ending in `/`, or `file://` alone for
/// an unnamed document.
pub open spec fn base_uri_spec(dir: Option<Seq<char>>) -> Seq<char> {
    let scheme = seq!['f', 'i', 'l', 'e', ':', '/', '/'];
    match dir {
        Some(d) => if d.len() > 0 && d.last() == '/' {
            scheme + d
        } else {
            scheme + d + seq!['/']
        },
        None => scheme,
    }
}

/// The base address against which the preview resolves relative image
/// paths: the document's directory, with the trailing slash that keeps it
/// from running into the file name.
pub fn base_uri(doc: &Document) -> (r: String)
    ensures
        r@ == base_uri_spec(
            match doc.path {
                Some(p) => path_parent(p@),
                None => None,
            },
        ),
{
    let scheme = "file://";
    proof {
        reveal_strlit("file://");
    }
    let mut out: Vec<char> = Vec::new();
    extend_str(&mut out, scheme);
    match doc.dir() {
        Some(dir) => {
            let d = chars_of(dir.as_str());
            crate::text::extend_from(&mut out, &d, 0, d.len());
            assert(d@.subrange(0, d@.len() as int) =~= d@);
            let ends_with_slash = d.len() > 0 && d[d.len() - 1] == '/';
            if !ends_with_slash {
                out.push('/');
            }
        },
        None => {},
    }
    string_of(&out)
}

/// The status bar's reading time, in whole minutes rounded to nearest, never
/// "0 minutes" for a text that takes any time at all.
pub open spec fn reading_time_spec(secs: u32) -> Seq<char> {
    let minutes: nat = if secs == 0 {
        0
    } else if secs < 60 {
        1
    } else {
        ((secs + 30) / 60) as nat
    };
    seq!['约', ' '] + decimal(minutes) + seq![' ', '分', '钟']
}

/// The estimated reading time for `secs` seconds of reading.
pub fn reading_time(secs: u32) -> (r: String)
    requires
        secs <= u32::MAX - 30,
    ensures
        r@ == reading_time_spec(secs),
{
    let minutes: usize = if secs == 0 {
        0
    } else if secs < 60 {
        1
    } else {
        ((secs + 30) / 60) as usize
    };
    let mut out: Vec<char> = Vec::new();
    out.push('约');
    out.push(' ');
    let digits = usize_to_string(minutes);
    extend_str(&mut out, digits.as_str());
    out.push(' ');
    out.push('分');
    out.push('钟');
    assert(out@ =~= reading_time_spec(secs));
    string_of(&out)
}

/// The base name of an exported HTML file: the document's file name without
/// its extension, or the placeholder stem for an unnamed document.
pub fn export_stem(doc: &Document, s: &Strings) -> (r: String)
    ensures
        r@ == match doc.path {
            Some(p) => match path_file_stem(p@) {
                Some(n) => n,
                None => s.untitled_stem@,
            },
            None => s.untitled_stem@,
        },
{
    let stem = match &doc.path {
        Some(p) => file_stem_of(p.as_str()),
        None => None,
    };
    match stem {
        Some(n) => n,
        None => string_of(&chars_of(s.untitled_stem)),
    }
}

/// The window's title: a dot for unsaved edits, the document's name, and the
/// application's name.
pub fn window_title(doc: &Document, s: &Strings) -> (r: String)
    ensures
        r@ == (if doc.dirty {
            seq!['●', ' ']
        } else {
            Seq::<char>::empty()
        }) + display_name_spec(doc.path, *s) + seq![' ', '·', ' '] + s.app_name@,
{
    let mut out: Vec<char> = Vec::new();
    if doc.dirty {
        out.push('●');
        out.push(' ');
    }
    let name = doc.display_name(s);
    extend_str(&mut out, name.as_str());
    out.push(' ');
    out.push('·');
    out.push(' ');
    extend_str(&mut out, s.app_name);
    assert(out@ =~= (if doc.dirty {
        seq!['●', ' ']
    } else {
        Seq::<char>::empty()
    }) + display_name_spec(doc.path, *s) + seq![' ', '·', ' '] + s.app_name@);
    string_of(&out)
}

/// The message once a file was opened from `path`: news, or a warning when
/// it was not valid UTF-8 and was read with replacement characters.
pub fn opened_message(lossy: bool, path: &str, s: &Strings) -> (r: (ToastKind, String))
    ensures
        r.0 == if lossy {
            ToastKind::Error
        } else {
            ToastKind::Info
        },
        r.1@ == fill_spec(
            if lossy {
                s.toast_lossy_open@
            } else {
                s.toast_opened@
            },
            seq![(seq!['p', 'a', 't', 'h'], path@)],
        ),
{
    let key = "path";
    let args = [(key, path)];
    proof {
        reveal_strlit("path");
        assert(key@ =~= seq!['p', 'a', 't', 'h']);
        assert(args@[0] == (key, path));
        assert(arg_views(args@) =~= seq![(seq!['p', 'a', 't', 'h'], path@)]);
    }
    if lossy {
        (ToastKind::Error, fill(s.toast_lossy_open, &args))
    } else {
        (ToastKind::Info, fill(s.toast_opened, &args))
    }
}

/// How many digits the line-number gutter leaves room for: those of the
/// number of lines, and at least two.
pub fn gutter_digits(text: &str) -> (r: usize)
    ensures
        r == if decimal(count_of(text@, '\n') + 1).len() > 2 {
            decimal(count_of(text@, '\n') + 1).len()
        } else {
            2
        },
{
    let lines = stats(text).lines;
    let digits = usize_to_string(lines);
    let v = chars_of(digits.as_str());
    if v.len() > 2 {
        v.len()
    } else {
        2
    }
}

/// A colour channel weighted by its pixel's alpha, as premultiplied colour
/// stores it: `channel * alpha / 255`, rounded down.
pub open spec fn premultiplied(channel: u8, alpha: u8) -> u8 {
    ((channel as int * alpha as int) / 255) as u8
}

/// Byte `i` of the premultiplied form of `rgba`.
pub open spec fn premultiplied_at(rgba: Seq<u8>, i: int) -> u8 {
    if i % 4 == 3 {
        rgba[i]
    } else {
        premultiplied(rgba[i], rgba[i - i % 4 + 3])
    }
}

/// Within the pixel that starts at `p`, byte `p + k` is channel `k`.
proof fn lemma_channel(p: int, k: int)
    requires
        p % 4 == 0,
        0 <= k < 4,
        0 <= p,
    ensures
        (p + k) % 4 == k,
        (p + k) - (p + k) % 4 + 3 == p + 3,
{
    assert((p + k) % 4 == k) by (nonlinear_arith)
        requires
            p % 4 == 0,
            0 <= k < 4,
            0 <= p,
    ;
}

/// The channel `c` weighted by `alpha`.
fn weigh(c: u8, alpha: u8) -> (r: u8)
    ensures
        r == premultiplied(c, alpha),
{
    assert((c as u32) * (alpha as u32) <= 255 * 255) by (nonlinear_arith)
        requires
            c <= 255,
            alpha <= 255,
    ;
    let v: u32 = (c as u32) * (alpha as u32) / 255;
    assert(v <= 255) by (nonlinear_arith)
        requires
            v == (c as u32) * (alpha as u32) / 255,
            (c as u32) * (alpha as u32) <= 255 * 255,
    ;
    v as u8
}

/// Appends the premultiplied form of the pixel that starts at `p`.
fn push_pixel(out: &mut Vec<u8>, rgba: &[u8], p: usize)
    requires
        p % 4 == 0,
        p + 4 <= rgba@.len(),
    ensures
        final(out)@.len() == old(out)@.len() + 4,
        forall|i: int| 0 <= i < old(out)@.len() ==> final(out)@[i] == old(out)@[i],
        forall|k: int|
            0 <= k < 4 ==> #[trigger] final(out)@[old(out)@.len() + k] == premultiplied_at(
                rgba@,
                p + k,
            ),
{
    proof {
        lemma_channel(p as int, 0);
        lemma_channel(p as int, 1);
        lemma_channel(p as int, 2);
        lemma_channel(p as int, 3);
    }
    let alpha = rgba[p + 3];
    out.push(weigh(rgba[p], alpha));
    out.push(weigh(rgba[p + 1], alpha));
    out.push(weigh(rgba[p + 2], alpha));
    out.push(alpha);
}

/// RGBA pixels with the colour channels multiplied by alpha, the form in
/// which the window system takes the window icon. Alpha stays as it is.
pub fn premultiply(rgba: &[u8]) -> (r: Vec<u8>)
    requires
        rgba@.len() % 4 == 0,
    ensures
        r@.len() == rgba@.len(),
        forall|i: int| 0 <= i < rgba@.len() ==> #[trigger] r@[i] == premultiplied_at(rgba@, i),
{
    let mut out: Vec<u8> = Vec::new();
    let mut p: usize = 0;
    while p < rgba.len()
        invariant
            rgba@.len() % 4 == 0,
            p % 4 == 0,
            p <= rgba@.len(),
            out@.len() == p,
            forall|i: int| 0 <= i < p ==> #[trigger] out@[i] == premultiplied_at(rgba@, i),
        decreases rgba@.len() - p,
    {
        let ghost before = out@;
        push_pixel(&mut out, rgba, p);
        assert forall|i: int| 0 <= i < p + 4 implies #[trigger] out@[i] == premultiplied_at(
            rgba@,
            i,
        ) by {
            if i >= p {
                assert(out@[p + (i - p)] == premultiplied_at(rgba@, p + (i - p)));
            } else {
                assert(out@[i] == before[i]);
            }
        }
        p += 4;
    }
    out
}

} // verus!