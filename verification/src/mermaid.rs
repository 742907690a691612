//! Splitting a document into Markdown and Mermaid segments.
//!
//! The preview draws ```` ```mermaid ```` fences as diagrams and hands the rest
//! to the Markdown renderer. Only a fence whose info string starts with the
//! word `mermaid` (in any ASCII case) counts; any other fence keeps what it
//! holds in the Markdown segment, so an example of a Mermaid fence inside a
//! code block is not drawn. Fences follow the same rule as the outline: three
//! or more backticks or tildes, closed by a line of the same character that is
//! at least as long and holds nothing else.
use vstd::prelude::*;

use crate::text::{
    chars_of, is_whitespace, is_ws, run_len, run_of, skip_ws, trim, trim_bounds, trim_end,
    trim_start,
};

verus! {

broadcast use vstd::string::group_string_axioms;

use vstd::string::StrSliceExecFns;

/// A piece of the document after Mermaid fences have been cut out.
#[derive(Debug, Clone, Copy, PartialEq, Eq)]
pub enum Segment<'a> {
    /// Ordinary Markdown, handed to the Markdown renderer unchanged.
    Markdown(&'a str),
    /// A Mermaid block: `raw` is the text including both fence lines,
    /// `source` the diagram between them.
    Mermaid { raw: &'a str, source: &'a str },
}

/// What a [`Segment`] holds, as character sequences.
pub enum SegmentView {
    Markdown(Seq<char>),
    Mermaid { raw: Seq<char>, source: Seq<char> },
}

impl<'a> View for Segment<'a> {
    type V = SegmentView;

    open spec fn view(&self) -> SegmentView {
        match *self {
            Segment::Markdown(s) => SegmentView::Markdown(s@),
            Segment::Mermaid { raw, source } => SegmentView::Mermaid { raw: raw@, source: source@ },
        }
    }
}

impl SegmentView {
    /// The text this segment covers in the document.
    pub open spec fn raw(self) -> Seq<char> {
        match self {
            SegmentView::Markdown(s) => s,
            SegmentView::Mermaid { raw, .. } => raw,
        }
    }

    pub open spec fn is_mermaid(self) -> bool {
        self is Mermaid
    }
}

impl<'a> Segment<'a> {
    /// This segment as it stands in the document. Joined in order, the raw
    /// text of all segments gives back the document byte for byte.
    pub fn raw(self) -> (r: &'a str)
        ensures
            r@ == self@.raw(),
    {
        match self {
            Segment::Markdown(raw) => raw,
            Segment::Mermaid { raw, .. } => raw,
        }
    }
}

/// Where a segment lies in the document: a Markdown range `[start, end)`, or a
/// Mermaid block `[start, end)` whose diagram is `[src_start, src_end)`.
pub enum Piece {
    Markdown(int, int),
    Mermaid(int, int, int, int),
}

/// Scanner state between lines.
pub enum Mode {
    /// Outside any fence.
    Plain,
    /// Inside a Mermaid fence opened by `len` times `ch` on the line that
    /// starts at `start`; the diagram starts at `content_start`.
    Mermaid { ch: char, len: nat, start: int, content_start: int },
    /// Inside some other fence.
    Fence { ch: char, len: nat },
}

/// The end of the line that starts at `i`: just past its `\n`, or the end of
/// the text (the lines of `str::split_inclusive('\n')`).
pub open spec fn line_end(s: Seq<char>, i: int) -> int
    decreases s.len() - i,
{
    if i >= s.len() {
        s.len() as int
    } else if s[i] == '\n' {
        i + 1
    } else {
        line_end(s, i + 1)
    }
}

/// If the trimmed line `t` opens a fence: its character and its length.
pub open spec fn fence_open(t: Seq<char>) -> Option<(char, nat)> {
    if t.len() > 0 && (t[0] == '`' || t[0] == '~') && run_of(t, t[0]) >= 3 {
        Some((t[0], run_of(t, t[0])))
    } else {
        None
    }
}

/// Whether the trimmed line `t` closes a fence of `len` times `ch`: at least
/// `len` of `ch` and nothing else but white space.
pub open spec fn is_close(t: Seq<char>, ch: char, len: nat) -> bool {
    run_of(t, ch) >= len && trim(t.skip(run_of(t, ch) as int)).len() == 0
}

/// How many leading characters of `t` are not white space.
pub open spec fn word_len(t: Seq<char>) -> nat
    decreases t.len(),
{
    if t.len() > 0 && !is_ws(t[0]) {
        1 + word_len(t.drop_first())
    } else {
        0
    }
}

/// The first white-space separated word of `s` (empty if there is none).
pub open spec fn first_word(s: Seq<char>) -> Seq<char> {
    trim_start(s).take(word_len(trim_start(s)) as int)
}

/// The code of `c` with ASCII upper case mapped to lower case.
pub open spec fn ascii_fold(c: char) -> u32 {
    if 'A' <= c <= 'Z' {
        ((c as u32) + 32) as u32
    } else {
        c as u32
    }
}

/// The word `mermaid`.
pub open spec fn mermaid_word() -> Seq<char> {
    seq!['m', 'e', 'r', 'm', 'a', 'i', 'd']
}

/// Whether the first word of a fence's info string is `mermaid`, ignoring ASCII case.
pub open spec fn is_mermaid_info(info: Seq<char>) -> bool {
    let w = first_word(info);
    w.len() == 7 && forall|i: int| 0 <= i < 7 ==> ascii_fold(#[trigger] w[i]) == mermaid_word()[i] as u32
}

/// The end of `s[lo..hi]` once trailing `\n` and `\r` are taken off.
pub open spec fn strip_newlines_end(s: Seq<char>, lo: int, hi: int) -> int
    decreases hi - lo,
{
    if hi > lo && (s[hi - 1] == '\n' || s[hi - 1] == '\r') {
        strip_newlines_end(s, lo, hi - 1)
    } else {
        hi
    }
}

/// The trimmed line `[ls, le)` of `s`.
pub open spec fn trimmed_line(s: Seq<char>, ls: int) -> Seq<char> {
    trim(s.subrange(ls, line_end(s, ls)))
}

/// The pieces that the scan yields from the line that starts at `ls` on, with
/// the pending Markdown starting at `md` and the scanner in `mode`.
pub open spec fn scan(s: Seq<char>, ls: int, md: int, mode: Mode) -> Seq<Piece>
    decreases s.len() - ls,
{
    if ls >= s.len() || ls < 0 {
        finish(s, md, mode)
    } else {
        let le = line_end(s, ls);
        proof {
            lemma_line_end_bounds(s, ls);
        }
        let t = trimmed_line(s, ls);
        match mode {
            Mode::Mermaid { ch, len, start, content_start } => {
                if is_close(t, ch, len) {
                    let before = if md < start {
                        seq![Piece::Markdown(md, start)]
                    } else {
                        seq![]
                    };
                    before + seq![
                        Piece::Mermaid(
                            start,
                            le,
                            content_start,
                            strip_newlines_end(s, content_start, ls),
                        ),
                    ] + scan(s, le, le, Mode::Plain)
                } else {
                    scan(s, le, md, mode)
                }
            },
            Mode::Fence { ch, len } => {
                if is_close(t, ch, len) {
                    scan(s, le, md, Mode::Plain)
                } else {
                    scan(s, le, md, mode)
                }
            },
            Mode::Plain => {
                match fence_open(t) {
                    Some((ch, len)) => {
                        if is_mermaid_info(t.skip(len as int)) {
                            scan(
                                s,
                                le,
                                md,
                                Mode::Mermaid {
                                    ch,
                                    len: len,
                                    start: ls,
                                    content_start: le,
                                },
                            )
                        } else {
                            scan(s, le, md, Mode::Fence { ch, len: len })
                        }
                    },
                    None => scan(s, le, md, Mode::Plain),
                }
            },
        }
    }
}

/// The pieces left at the end of the text. A Mermaid fence that was never
/// closed runs to the end of the text.
pub open spec fn finish(s: Seq<char>, md: int, mode: Mode) -> Seq<Piece> {
    match mode {
        Mode::Mermaid { start, content_start, .. } => {
            let before = if md < start {
                seq![Piece::Markdown(md, start)]
            } else {
                seq![]
            };
            before + seq![
                Piece::Mermaid(
                    start,
                    s.len() as int,
                    content_start,
                    strip_newlines_end(s, content_start, s.len() as int),
                ),
            ]
        },
        _ => {
            if md < s.len() {
                seq![Piece::Markdown(md, s.len() as int)]
            } else {
                seq![]
            }
        },
    }
}

/// The pieces of the whole document.
pub open spec fn pieces(s: Seq<char>) -> Seq<Piece> {
    scan(s, 0, 0, Mode::Plain)
}

/// The segment that a piece describes.
pub open spec fn piece_view(s: Seq<char>, p: Piece) -> SegmentView {
    match p {
        Piece::Markdown(a, b) => SegmentView::Markdown(s.subrange(a, b)),
        Piece::Mermaid(a, b, c, d) => SegmentView::Mermaid {
            raw: s.subrange(a, b),
            source: s.subrange(c, d),
        },
    }
}

/// The segments of the document `s`.
pub open spec fn segments(s: Seq<char>) -> Seq<SegmentView> {
    pieces(s).map_values(|p: Piece| piece_view(s, p))
}

/// The raw text of `segs`, joined in order.
pub open spec fn joined(segs: Seq<SegmentView>) -> Seq<char>
    decreases segs.len(),
{
    if segs.len() == 0 {
        seq![]
    } else {
        joined(segs.drop_last()) + segs.last().raw()
    }
}

// ------------------------------------------------------------------ proofs

/// The line that starts at `i` ends after `i`, within the text, just after
/// its `\n` if it has one, and holds no other `\n`.
pub proof fn lemma_line_end_bounds(s: Seq<char>, i: int)
    requires
        0 <= i < s.len(),
    ensures
        i < line_end(s, i) <= s.len(),
        forall|k: int| i <= k < line_end(s, i) - 1 ==> s[k] != '\n',
        line_end(s, i) < s.len() ==> s[line_end(s, i) - 1] == '\n',
    decreases s.len() - i,
{
    if s[i] != '\n' {
        if i + 1 < s.len() {
            lemma_line_end_bounds(s, i + 1);
        } else {
            assert(line_end(s, i + 1) == s.len());
        }
    }
}

/// Whether the scanner state is consistent with having read up to `ls`.
pub open spec fn mode_ok(s: Seq<char>, ls: int, md: int, mode: Mode) -> bool {
    &&& 0 <= md <= ls <= s.len()
    &&& match mode {
        Mode::Mermaid { start, content_start, .. } => md <= start <= content_start <= ls,
        _ => true,
    }
}

/// The raw text of the pieces is exactly the text from `md` on.
proof fn lemma_scan_tiles(s: Seq<char>, ls: int, md: int, mode: Mode)
    requires
        mode_ok(s, ls, md, mode),
    ensures
        joined(scan(s, ls, md, mode).map_values(|p: Piece| piece_view(s, p))) == s.subrange(
            md,
            s.len() as int,
        ),
    decreases s.len() - ls,
{
    let f = |p: Piece| piece_view(s, p);
    if ls >= s.len() {
        lemma_finish_tiles(s, md, mode);
    } else {
        lemma_line_end_bounds(s, ls);
        let le = line_end(s, ls);
        let t = trimmed_line(s, ls);
        match mode {
            Mode::Mermaid { ch, len, start, content_start } => {
                if is_close(t, ch, len) {
                    lemma_strip_newlines_end_bounds(s, content_start, ls);
                    let before = if md < start {
                        seq![Piece::Markdown(md, start)]
                    } else {
                        seq![]
                    };
                    let head = before + seq![
                        Piece::Mermaid(
                            start,
                            le,
                            content_start,
                            strip_newlines_end(s, content_start, ls),
                        ),
                    ];
                    let rest = scan(s, le, le, Mode::Plain);
                    lemma_scan_tiles(s, le, le, Mode::Plain);
                    assert(joined(head.map_values(f)) == s.subrange(md, le)) by {
                        let m = head.last();
                        lemma_joined_one(f(m));
                        if md < start {
                            let a = Piece::Markdown(md, start);
                            lemma_joined_one(f(a));
                            assert(head.map_values(f) =~= seq![f(a)] + seq![f(m)]);
                            lemma_joined_append(seq![f(a)], seq![f(m)]);
                            assert(s.subrange(md, start) + s.subrange(start, le) =~= s.subrange(
                                md,
                                le,
                            ));
                        } else {
                            assert(head.map_values(f) =~= seq![f(m)]);
                        }
                    }
                    lemma_joined_append(head.map_values(f), rest.map_values(f));
                    assert((head + rest).map_values(f) =~= head.map_values(f) + rest.map_values(f));
                    assert(s.subrange(md, le) + s.subrange(le, s.len() as int) =~= s.subrange(
                        md,
                        s.len() as int,
                    ));
                } else {
                    lemma_scan_tiles(s, le, md, mode);
                }
            },
            Mode::Fence { ch, len } => {
                if is_close(t, ch, len) {
                    lemma_scan_tiles(s, le, md, Mode::Plain);
                } else {
                    lemma_scan_tiles(s, le, md, mode);
                }
            },
            Mode::Plain => {
                match fence_open(t) {
                    Some((ch, len)) => {
                        if is_mermaid_info(t.skip(len as int)) {
                            lemma_scan_tiles(
                                s,
                                le,
                                md,
                                Mode::Mermaid {
                                    ch,
                                    len: len,
                                    start: ls,
                                    content_start: le,
                                },
                            );
                        } else {
                            lemma_scan_tiles(s, le, md, Mode::Fence { ch, len: len });
                        }
                    },
                    None => lemma_scan_tiles(s, le, md, Mode::Plain),
                }
            },
        }
    }
}

proof fn lemma_strip_newlines_end_bounds(s: Seq<char>, lo: int, hi: int)
    requires
        lo <= hi,
    ensures
        lo <= strip_newlines_end(s, lo, hi) <= hi,
    decreases hi - lo,
{
    if hi > lo && (s[hi - 1] == '\n' || s[hi - 1] == '\r') {
        lemma_strip_newlines_end_bounds(s, lo, hi - 1);
    }
}

proof fn lemma_joined_one(x: SegmentView)
    ensures
        joined(seq![x]) == x.raw(),
{
    assert(seq![x].drop_last() =~= Seq::<SegmentView>::empty());
    assert(joined(Seq::<SegmentView>::empty()) + x.raw() =~= x.raw());
}

proof fn lemma_finish_tiles(s: Seq<char>, md: int, mode: Mode)
    requires
        mode_ok(s, s.len() as int, md, mode),
    ensures
        joined(finish(s, md, mode).map_values(|p: Piece| piece_view(s, p))) == s.subrange(
            md,
            s.len() as int,
        ),
{
    let f = |p: Piece| piece_view(s, p);
    let out = finish(s, md, mode);
    match mode {
        Mode::Mermaid { start, content_start, .. } => {
            lemma_strip_newlines_end_bounds(s, content_start, s.len() as int);
            let m = Piece::Mermaid(
                start,
                s.len() as int,
                content_start,
                strip_newlines_end(s, content_start, s.len() as int),
            );
            lemma_joined_one(f(m));
            if md < start {
                let a = Piece::Markdown(md, start);
                lemma_joined_one(f(a));
                assert(out.map_values(f) =~= seq![f(a)] + seq![f(m)]);
                lemma_joined_append(seq![f(a)], seq![f(m)]);
                assert(s.subrange(md, start) + s.subrange(start, s.len() as int) =~= s.subrange(
                    md,
                    s.len() as int,
                ));
            } else {
                assert(out.map_values(f) =~= seq![f(m)]);
            }
        },
        _ => {
            if md < s.len() {
                let a = Piece::Markdown(md, s.len() as int);
                lemma_joined_one(f(a));
                assert(out.map_values(f) =~= seq![f(a)]);
            } else {
                assert(out.map_values(f) =~= Seq::<SegmentView>::empty());
                assert(s.subrange(md, s.len() as int) =~= Seq::<char>::empty());
            }
        },
    }
}

proof fn lemma_joined_append(a: Seq<SegmentView>, b: Seq<SegmentView>)
    ensures
        joined(a + b) == joined(a) + joined(b),
    decreases b.len(),
{
    if b.len() == 0 {
        assert(a + b =~= a);
        assert(joined(a) + joined(b) =~= joined(a));
    } else {
        lemma_joined_append(a, b.drop_last());
        assert((a + b).drop_last() =~= a + b.drop_last());
        assert(joined(a + b) =~= joined(a) + joined(b));
    }
}

/// Joined in order, the raw text of the segments of a document is the
/// document itself: cutting out Mermaid blocks never drops or repeats text.
pub proof fn lemma_segments_rebuild_text(s: Seq<char>)
    ensures
        joined(segments(s)) == s,
{
    lemma_scan_tiles(s, 0, 0, Mode::Plain);
    assert(s.subrange(0, s.len() as int) =~= s);
}

/// The first `run_of(t, c)` characters of `t` are `c`, and the one after
/// them, if any, is not.
proof fn lemma_run_of_is_maximal(t: Seq<char>, c: char)
    ensures
        run_of(t, c) <= t.len(),
        forall|i: int| 0 <= i < run_of(t, c) ==> t[i] == c,
        run_of(t, c) < t.len() ==> t[run_of(t, c) as int] != c,
    decreases t.len(),
{
    if t.len() > 0 && t[0] == c {
        let u = t.drop_first();
        lemma_run_of_is_maximal(u, c);
        assert forall|i: int| 0 <= i < run_of(t, c) implies t[i] == c by {
            if i > 0 {
                assert(t[i] == u[i - 1]);
            }
        }
        if run_of(t, c) < t.len() {
            assert(t[run_of(t, c) as int] == u[run_of(u, c) as int]);
        }
    }
}

/// `trim_start(x)` is empty exactly when `x` is all white space, and starts
/// with a character that is not white space otherwise.
proof fn lemma_trim_start_all_ws(x: Seq<char>)
    ensures
        (trim_start(x).len() == 0) == (forall|i: int| 0 <= i < x.len() ==> is_ws(x[i])),
        trim_start(x).len() > 0 ==> !is_ws(trim_start(x)[0]),
    decreases x.len(),
{
    if x.len() > 0 && is_ws(x[0]) {
        let u = x.drop_first();
        lemma_trim_start_all_ws(u);
        if forall|i: int| 0 <= i < u.len() ==> is_ws(u[i]) {
            assert forall|i: int| 0 <= i < x.len() implies is_ws(x[i]) by {
                if i > 0 {
                    assert(x[i] == u[i - 1]);
                }
            }
        } else {
            let i = choose|i: int| 0 <= i < u.len() && !is_ws(u[i]);
            assert(x[i + 1] == u[i]);
        }
    } else if x.len() > 0 {
        assert(!is_ws(x[0]));
    }
}

/// `trim_end` keeps a first character that is not white space.
proof fn lemma_trim_end_keeps_first(y: Seq<char>)
    requires
        y.len() > 0,
        !is_ws(y[0]),
    ensures
        trim_end(y).len() > 0,
    decreases y.len(),
{
    if is_ws(y.last()) {
        let u = y.drop_last();
        assert(u[0] == y[0]);
        lemma_trim_end_keeps_first(u);
    }
}

/// A trimmed text is empty exactly when the text is all white space.
proof fn lemma_trim_empty(x: Seq<char>)
    ensures
        (trim(x).len() == 0) == (forall|i: int| 0 <= i < x.len() ==> is_ws(x[i])),
{
    lemma_trim_start_all_ws(x);
    if trim_start(x).len() > 0 {
        lemma_trim_end_keeps_first(trim_start(x));
    }
}

/// Whether `t` is `k` times `ch` followed by nothing but white space.
pub open spec fn run_then_blank(t: Seq<char>, ch: char, k: int) -> bool {
    &&& 0 <= k <= t.len()
    &&& forall|i: int| 0 <= i < k ==> t[i] == ch
    &&& forall|i: int| k <= i < t.len() ==> is_ws(t[i])
}

/// A line closes a fence of `len` times `ch` exactly when, trimmed, it is
/// `ch` repeated `len` or more times followed by nothing but white space.
pub proof fn lemma_close_line(t: Seq<char>, ch: char, len: nat)
    ensures
        is_close(t, ch, len) == exists|k: int| len <= k && #[trigger] run_then_blank(t, ch, k),
{
    let run = run_of(t, ch);
    lemma_run_of_is_maximal(t, ch);
    let rest = t.skip(run as int);
    lemma_trim_empty(rest);
    assert(forall|i: int| 0 <= i < rest.len() ==> rest[i] == t[i + run]);
    if is_close(t, ch, len) {
        assert forall|i: int| run <= i < t.len() implies is_ws(t[i]) by {
            assert(t[i] == rest[i - run]);
        }
        assert(run_then_blank(t, ch, run as int));
    }
    if exists|k: int| len <= k && #[trigger] run_then_blank(t, ch, k) {
        let k = choose|k: int| len <= k && #[trigger] run_then_blank(t, ch, k);
        if run < k {
            assert(t[run as int] == ch);
        }
        assert forall|i: int| 0 <= i < rest.len() implies is_ws(rest[i]) by {
            assert(rest[i] == t[i + run]);
        }
    }
}

/// The first line, from the line that starts at `i` on, whose trimmed text
/// closes a fence of `len` times `ch`; `None` if no line does.
pub open spec fn first_close(s: Seq<char>, i: int, ch: char, len: nat) -> Option<int>
    decreases s.len() - i,
{
    if i >= s.len() || i < 0 {
        None
    } else if is_close(trimmed_line(s, i), ch, len) {
        Some(i)
    } else {
        proof {
            lemma_line_end_bounds(s, i);
        }
        first_close(s, line_end(s, i), ch, len)
    }
}

/// Inside an ordinary fence, the scanner yields nothing until the closing
/// line, and is outside any fence after it; without one, the pending
/// Markdown runs to the end.
proof fn lemma_fence_runs_to_close(s: Seq<char>, i: int, md: int, ch: char, len: nat)
    requires
        0 <= i,
    ensures
        match first_close(s, i, ch, len) {
            Some(p) => scan(s, i, md, Mode::Fence { ch, len }) == scan(
                s,
                line_end(s, p),
                md,
                Mode::Plain,
            ),
            None => scan(s, i, md, Mode::Fence { ch, len }) == finish(s, md, Mode::Plain),
        },
    decreases s.len() - i,
{
    if i < s.len() {
        lemma_line_end_bounds(s, i);
        if !is_close(trimmed_line(s, i), ch, len) {
            lemma_fence_runs_to_close(s, line_end(s, i), md, ch, len);
        }
    }
}

/// Inside a Mermaid fence, the scanner yields nothing until the closing line,
/// which ends the block.
proof fn lemma_mermaid_runs_to_close(
    s: Seq<char>,
    i: int,
    md: int,
    ch: char,
    len: nat,
    start: int,
    content_start: int,
)
    requires
        0 <= i,
    ensures
        ({
            let mode = Mode::Mermaid { ch, len, start, content_start };
            let before = if md < start {
                seq![Piece::Markdown(md, start)]
            } else {
                seq![]
            };
            match first_close(s, i, ch, len) {
                Some(p) => scan(s, i, md, mode) == before + seq![
                    Piece::Mermaid(
                        start,
                        line_end(s, p),
                        content_start,
                        strip_newlines_end(s, content_start, p),
                    ),
                ] + scan(s, line_end(s, p), line_end(s, p), Mode::Plain),
                None => scan(s, i, md, mode) == finish(s, md, mode),
            }
        }),
    decreases s.len() - i,
{
    if i < s.len() {
        lemma_line_end_bounds(s, i);
        if !is_close(trimmed_line(s, i), ch, len) {
            lemma_mermaid_runs_to_close(s, line_end(s, i), md, ch, len, start, content_start);
        }
    }
}

/// An ordinary code fence (one whose info string is not `mermaid`) that
/// opens outside any fence hides everything up to its closing line: the
/// first later line of the same character, at least as long, holding
/// nothing else. From there on the scanner is outside any fence again and
/// reads the rest as if the block were not there, so a Mermaid fence after
/// it is still found. A fence that is never closed keeps the rest of the
/// text in the pending Markdown.
pub proof fn lemma_code_fence_is_skipped(s: Seq<char>, ls: int, md: int)
    requires
        0 <= ls < s.len(),
        fence_open(trimmed_line(s, ls)) is Some,
        !is_mermaid_info(trimmed_line(s, ls).skip((fence_open(trimmed_line(s, ls))->0).1 as int)),
    ensures
        ({
            let (ch, len) = fence_open(trimmed_line(s, ls))->0;
            match first_close(s, line_end(s, ls), ch, len) {
                Some(p) => scan(s, ls, md, Mode::Plain) == scan(
                    s,
                    line_end(s, p),
                    md,
                    Mode::Plain,
                ),
                None => scan(s, ls, md, Mode::Plain) == finish(s, md, Mode::Plain),
            }
        }),
{
    let (ch, len) = fence_open(trimmed_line(s, ls))->0;
    lemma_line_end_bounds(s, ls);
    lemma_fence_runs_to_close(s, line_end(s, ls), md, ch, len);
}

/// A ```` ```mermaid ```` fence that opens outside any fence yields one
/// Mermaid piece: from its opening line through its closing line (or the end
/// of the text, if it is never closed), with the diagram between the two
/// fence lines. The Markdown pending before it comes first, and the scanner
/// goes on outside any fence after the block.
pub proof fn lemma_mermaid_fence_is_drawn(s: Seq<char>, ls: int, md: int)
    requires
        0 <= ls < s.len(),
        fence_open(trimmed_line(s, ls)) is Some,
        is_mermaid_info(trimmed_line(s, ls).skip((fence_open(trimmed_line(s, ls))->0).1 as int)),
    ensures
        ({
            let (ch, len) = fence_open(trimmed_line(s, ls))->0;
            let c = line_end(s, ls);
            let before = if md < ls {
                seq![Piece::Markdown(md, ls)]
            } else {
                seq![]
            };
            match first_close(s, c, ch, len) {
                Some(p) => scan(s, ls, md, Mode::Plain) == before + seq![
                    Piece::Mermaid(ls, line_end(s, p), c, strip_newlines_end(s, c, p)),
                ] + scan(s, line_end(s, p), line_end(s, p), Mode::Plain),
                None => scan(s, ls, md, Mode::Plain) == before + seq![
                    Piece::Mermaid(ls, s.len() as int, c, strip_newlines_end(s, c, s.len() as int)),
                ],
            }
        }),
{
    let (ch, len) = fence_open(trimmed_line(s, ls))->0;
    lemma_line_end_bounds(s, ls);
    let c = line_end(s, ls);
    lemma_mermaid_runs_to_close(s, c, md, ch, len, ls, c);
}

proof fn lemma_first_close_bounds(s: Seq<char>, i: int, ch: char, len: nat)
    requires
        0 <= i,
    ensures
        first_close(s, i, ch, len) matches Some(p) ==> i <= p < s.len(),
    decreases s.len() - i,
{
    if i < s.len() && !is_close(trimmed_line(s, i), ch, len) {
        lemma_line_end_bounds(s, i);
        lemma_first_close_bounds(s, line_end(s, i), ch, len);
    }
}

/// A document that starts with an ordinary code block, closed, followed
/// directly by a ```` ```mermaid ```` fence: the code block and everything
/// up to the Mermaid fence form the first (Markdown) segment, and the Mermaid
/// block is the second segment.
pub proof fn lemma_mermaid_after_code_block(s: Seq<char>)
    requires
        s.len() > 0,
        fence_open(trimmed_line(s, 0)) is Some,
        !is_mermaid_info(trimmed_line(s, 0).skip((fence_open(trimmed_line(s, 0))->0).1 as int)),
        ({
            let (ch, len) = fence_open(trimmed_line(s, 0))->0;
            &&& first_close(s, line_end(s, 0), ch, len) is Some
            &&& {
                let q = line_end(s, first_close(s, line_end(s, 0), ch, len)->0);
                &&& q < s.len()
                &&& fence_open(trimmed_line(s, q)) is Some
                &&& is_mermaid_info(
                    trimmed_line(s, q).skip((fence_open(trimmed_line(s, q))->0).1 as int),
                )
            }
        }),
    ensures
        ({
            let (ch, len) = fence_open(trimmed_line(s, 0))->0;
            let q = line_end(s, first_close(s, line_end(s, 0), ch, len)->0);
            &&& segments(s).len() >= 2
            &&& segments(s)[0] == SegmentView::Markdown(s.take(q))
            &&& segments(s)[1].is_mermaid()
            &&& segments(s)[1].raw() == s.subrange(q, segments(s)[1].raw().len() + q)
        }),
{
    let (ch, len) = fence_open(trimmed_line(s, 0))->0;
    lemma_line_end_bounds(s, 0);
    let c0 = line_end(s, 0);
    lemma_first_close_bounds(s, c0, ch, len);
    let p = first_close(s, c0, ch, len)->0;
    lemma_line_end_bounds(s, p);
    let q = line_end(s, p);
    lemma_code_fence_is_skipped(s, 0, 0);
    lemma_mermaid_fence_is_drawn(s, q, 0);
    let (ch2, len2) = fence_open(trimmed_line(s, q))->0;
    lemma_line_end_bounds(s, q);
    let c = line_end(s, q);
    lemma_first_close_bounds(s, c, ch2, len2);
    let ps = pieces(s);
    let m_end = match first_close(s, c, ch2, len2) {
        Some(p2) => line_end(s, p2),
        None => s.len() as int,
    };
    if let Some(p2) = first_close(s, c, ch2, len2) {
        lemma_line_end_bounds(s, p2);
    }
    assert(ps[0] == Piece::Markdown(0, q));
    assert(ps[1] matches Piece::Mermaid(a, b, _, _) && a == q && b == m_end);
    assert(s.subrange(0, q) =~= s.take(q));
    assert(segments(s)[0] == piece_view(s, ps[0]));
    assert(segments(s)[1] == piece_view(s, ps[1]));
    assert(segments(s)[1].raw() == s.subrange(q, m_end));
}

// ------------------------------------------------------------------ scanning

/// The end of the line that starts at `ls`.
pub fn line_end_at(v: &Vec<char>, ls: usize) -> (le: usize)
    requires
        ls < v@.len(),
    ensures
        le == line_end(v@, ls as int),
{
    let mut k = ls;
    while k < v.len() && v[k] != '\n'
        invariant
            ls <= k <= v@.len(),
            line_end(v@, ls as int) == line_end(v@, k as int),
        decreases v@.len() - k,
    {
        k += 1;
    }
    if k < v.len() {
        k + 1
    } else {
        k
    }
}

/// [`fence_open`] of the trimmed line `v[a..b]`.
fn fence_open_at(v: &Vec<char>, a: usize, b: usize) -> (r: Option<(char, usize)>)
    requires
        a <= b <= v@.len(),
    ensures
        match fence_open(v@.subrange(a as int, b as int)) {
            Some((c, l)) => r == Some((c, l as usize)) && a + l <= b,
            None => r is None,
        },
{
    let ghost t = v@.subrange(a as int, b as int);
    if a < b && (v[a] == '`' || v[a] == '~') {
        assert(t[0] == v@[a as int]);
        let ch = v[a];
        let run = run_len(v, a, b, ch);
        if run >= 3 {
            Some((ch, run))
        } else {
            None
        }
    } else {
        None
    }
}

/// [`is_close`] of the trimmed line `v[a..b]`.
pub(crate) fn is_close_at(v: &Vec<char>, a: usize, b: usize, ch: char, len: usize) -> (r: bool)
    requires
        a <= b <= v@.len(),
    ensures
        r == is_close(v@.subrange(a as int, b as int), ch, len as nat),
{
    let run = run_len(v, a, b, ch);
    if run < len {
        return false;
    }
    assert(v@.subrange(a as int, b as int).skip(run as int) =~= v@.subrange(a + run, b as int));
    let (x, y) = trim_bounds(v, a + run, b);
    x == y
}

/// [`is_mermaid_info`] of `v[lo..hi]`.
fn is_mermaid_info_at(v: &Vec<char>, lo: usize, hi: usize) -> (r: bool)
    requires
        lo <= hi <= v@.len(),
    ensures
        r == is_mermaid_info(v@.subrange(lo as int, hi as int)),
{
    let a = skip_ws(v, lo, hi);
    let ghost t = v@.subrange(a as int, hi as int);
    let mut k = a;
    while k < hi && !is_whitespace(v[k])
        invariant
            a <= k <= hi <= v@.len(),
            word_len(t) == (k - a) + word_len(v@.subrange(k as int, hi as int)),
        decreases hi - k,
    {
        assert(v@.subrange(k as int, hi as int).drop_first() =~= v@.subrange(k + 1, hi as int));
        k += 1;
    }
    let ghost w = first_word(v@.subrange(lo as int, hi as int));
    assert(w =~= v@.subrange(a as int, k as int));
    if k - a != 7 {
        return false;
    }
    let word = ['m', 'e', 'r', 'm', 'a', 'i', 'd'];
    let mut i: usize = 0;
    while i < 7
        invariant
            0 <= i <= 7,
            k == a + 7,
            a + 7 <= v@.len(),
            w == v@.subrange(a as int, k as int),
            w == first_word(v@.subrange(lo as int, hi as int)),
            word@ == mermaid_word(),
            forall|j: int| 0 <= j < i ==> ascii_fold(#[trigger] w[j]) == mermaid_word()[j] as u32,
        decreases 7 - i,
    {
        let c = v[a + i];
        let u = c as u32;
        let target = word[i] as u32;
        assert(w[i as int] == c);
        if !(u == target || ('A' <= c && c <= 'Z' && u + 32 == target)) {
            assert(word@[i as int] == mermaid_word()[i as int]);
            assert(ascii_fold(w[i as int]) != mermaid_word()[i as int] as u32);
            return false;
        }
        i += 1;
    }
    true
}

/// [`strip_newlines_end`] of `v[lo..hi]`.
fn strip_newlines_end_at(v: &Vec<char>, lo: usize, hi: usize) -> (e: usize)
    requires
        lo <= hi <= v@.len(),
    ensures
        lo <= e <= hi,
        e == strip_newlines_end(v@, lo as int, hi as int),
{
    let mut e = hi;
    while e > lo && (v[e - 1] == '\n' || v[e - 1] == '\r')
        invariant
            lo <= e <= hi <= v@.len(),
            strip_newlines_end(v@, lo as int, hi as int) == strip_newlines_end(
                v@,
                lo as int,
                e as int,
            ),
        decreases e - lo,
    {
        e -= 1;
    }
    e
}

/// A [`Piece`] with machine positions.
enum Cut {
    Markdown(usize, usize),
    Mermaid(usize, usize, usize, usize),
}

impl Cut {
    spec fn piece(self) -> Piece {
        match self {
            Cut::Markdown(a, b) => Piece::Markdown(a as int, b as int),
            Cut::Mermaid(a, b, c, d) => Piece::Mermaid(a as int, b as int, c as int, d as int),
        }
    }

    spec fn fits(self, n: nat) -> bool {
        match self {
            Cut::Markdown(a, b) => a <= b <= n,
            Cut::Mermaid(a, b, c, d) => a <= b <= n && c <= d <= n,
        }
    }
}

/// Scanner state with machine positions.
#[derive(Clone, Copy)]
enum ScanState {
    Plain,
    Mermaid { ch: char, len: usize, start: usize, content_start: usize },
    Fence { ch: char, len: usize },
}

impl ScanState {
    spec fn mode(self) -> Mode {
        match self {
            ScanState::Plain => Mode::Plain,
            ScanState::Mermaid { ch, len, start, content_start } => Mode::Mermaid {
                ch,
                len: len as nat,
                start: start as int,
                content_start: content_start as int,
            },
            ScanState::Fence { ch, len } => Mode::Fence { ch, len: len as nat },
        }
    }
}

/// Pushes the pieces that [`finish`] yields.
fn finish_cuts(v: &Vec<char>, md: usize, state: ScanState, cuts: &mut Vec<Cut>)
    requires
        mode_ok(v@, v@.len() as int, md as int, state.mode()),
    ensures
        final(cuts)@.map_values(|c: Cut| c.piece()) == old(cuts)@.map_values(|c: Cut| c.piece())
            + finish(v@, md as int, state.mode()),
        forall|i: int| 0 <= i < old(cuts)@.len() ==> final(cuts)@[i] == old(cuts)@[i],
        forall|i: int| old(cuts)@.len() <= i < final(cuts)@.len() ==> #[trigger] final(cuts)@[i].fits(v@.len()),
{
    let ghost before = cuts@;
    let n = v.len();
    match state {
        ScanState::Mermaid { start, content_start, .. } => {
            if md < start {
                cuts.push(Cut::Markdown(md, start));
            }
            let e = strip_newlines_end_at(v, content_start, n);
            cuts.push(Cut::Mermaid(start, n, content_start, e));
        },
        _ => {
            if md < n {
                cuts.push(Cut::Markdown(md, n));
            }
        },
    }
    assert(cuts@.map_values(|c: Cut| c.piece()) =~= before.map_values(|c: Cut| c.piece()) + finish(
        v@,
        md as int,
        state.mode(),
    ));
}

/// The pieces of `v`, with machine positions.
fn cut(v: &Vec<char>) -> (cuts: Vec<Cut>)
    ensures
        cuts@.map_values(|c: Cut| c.piece()) == pieces(v@),
        forall|i: int| 0 <= i < cuts@.len() ==> #[trigger] cuts@[i].fits(v@.len()),
{
    let n = v.len();
    let mut cuts: Vec<Cut> = Vec::new();
    let mut md: usize = 0;
    let mut state = ScanState::Plain;
    let mut ls: usize = 0;
    while ls < n
        invariant
            n == v@.len(),
            mode_ok(v@, ls as int, md as int, state.mode()),
            cuts@.map_values(|c: Cut| c.piece()) + scan(v@, ls as int, md as int, state.mode())
                == pieces(v@),
            forall|i: int| 0 <= i < cuts@.len() ==> #[trigger] cuts@[i].fits(v@.len()),
        decreases n - ls,
    {
        let ghost done = cuts@.map_values(|c: Cut| c.piece());
        let le = line_end_at(v, ls);
        proof {
            lemma_line_end_bounds(v@, ls as int);
        }
        let (a, b) = trim_bounds(v, ls, le);
        let ghost t = v@.subrange(a as int, b as int);
        assert(t == trimmed_line(v@, ls as int));
        match state {
            ScanState::Mermaid { ch, len, start, content_start } => {
                if is_close_at(v, a, b, ch, len) {
                    if md < start {
                        cuts.push(Cut::Markdown(md, start));
                    }
                    let e = strip_newlines_end_at(v, content_start, ls);
                    cuts.push(Cut::Mermaid(start, le, content_start, e));
                    let ghost before = if (md as int) < (start as int) {
                        seq![Piece::Markdown(md as int, start as int)]
                    } else {
                        seq![]
                    };
                    assert(cuts@.map_values(|c: Cut| c.piece()) =~= done + before + seq![
                        Piece::Mermaid(start as int, le as int, content_start as int, e as int),
                    ]);
                    md = le;
                    state = ScanState::Plain;
                }
            },
            ScanState::Fence { ch, len } => {
                if is_close_at(v, a, b, ch, len) {
                    state = ScanState::Plain;
                }
            },
            ScanState::Plain => {
                match fence_open_at(v, a, b) {
                    Some((ch, len)) => {
                        assert(t.skip(len as int) =~= v@.subrange(a + len, b as int));
                        if is_mermaid_info_at(v, a + len, b) {
                            state = ScanState::Mermaid { ch, len, start: ls, content_start: le };
                        } else {
                            state = ScanState::Fence { ch, len };
                        }
                    },
                    None => {},
                }
            },
        }
        ls = le;
    }
    finish_cuts(v, md, state, &mut cuts);
    cuts
}

/// Splits the document into alternating Markdown and Mermaid segments.
pub fn split<'a>(text: &'a str) -> (segs: Vec<Segment<'a>>)
    ensures
        segs@.len() == segments(text@).len(),
        forall|i: int| 0 <= i < segs@.len() ==> #[trigger] segs@[i]@ == segments(text@)[i],
        joined(segs@.map_values(|g: Segment<'a>| g@)) == text@,
{
    let v = chars_of(text);
    let cuts = cut(&v);
    let mut segs: Vec<Segment<'a>> = Vec::new();
    let mut i: usize = 0;
    while i < cuts.len()
        invariant
            v@ == text@,
            cuts@.map_values(|c: Cut| c.piece()) == pieces(v@),
            forall|j: int| 0 <= j < cuts@.len() ==> #[trigger] cuts@[j].fits(v@.len()),
            i <= cuts@.len(),
            segs@.len() == i,
            forall|j: int| 0 <= j < i ==> #[trigger] segs@[j]@ == piece_view(text@, cuts@[j].piece()),
        decreases cuts@.len() - i,
    {
        assert(cuts@[i as int].fits(v@.len()));
        let seg = match cuts[i] {
            Cut::Markdown(a, b) => Segment::Markdown(text.substring_char(a, b)),
            Cut::Mermaid(a, b, c, d) => Segment::Mermaid {
                raw: text.substring_char(a, b),
                source: text.substring_char(c, d),
            },
        };
        segs.push(seg);
        i += 1;
    }
    assert(segs@.map_values(|g: Segment<'a>| g@) =~= segments(text@));
    proof {
        lemma_segments_rebuild_text(text@);
    }
    segs
}

/// Whether the document holds a Mermaid block.
pub fn has_mermaid(text: &str) -> (r: bool)
    ensures
        r == exists|i: int| 0 <= i < segments(text@).len() && (#[trigger] segments(text@)[i]).is_mermaid(),
{
    let segs = split(text);
    let mut i: usize = 0;
    while i < segs.len()
        invariant
            segs@.len() == segments(text@).len(),
            forall|j: int| 0 <= j < segs@.len() ==> #[trigger] segs@[j]@ == segments(text@)[j],
            i <= segs@.len(),
            forall|j: int| 0 <= j < i ==> !(#[trigger] segments(text@)[j]).is_mermaid(),
        decreases segs@.len() - i,
    {
        assert(segs@[i as int]@ == segments(text@)[i as int]);
        match segs[i] {
            Segment::Mermaid { .. } => {
                return true;
            },
            Segment::Markdown(_) => {},
        }
        i += 1;
    }
    false
}

} // verus!
