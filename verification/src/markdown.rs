//! What is derived from the Markdown source alone: the outline, the counts in
//! the status bar, and the HTML export.
use vstd::prelude::*;
use vstd::string::StringExecFns;
use vstd::string::StringSliceAdditionalSpecFns;
use vstd::utf8::is_char_boundary;

use crate::mermaid::{is_close, lemma_line_end_bounds, line_end, line_end_at};
use crate::text::{
    byte_len, char_utf8_len, chars_of, lemma_boundary_is_prefix, lemma_utf8_len_take,
    lemma_utf8_len_take_mono, utf8_len, lemma_run_of_le, run_len, run_of, string_from, string_of, trim, trim_bounds, trim_end_char,
};

verus! {

broadcast use vstd::string::group_string_axioms;

/// One heading. `line` is the 0-based line it stands on; the outline jumps there.
#[derive(Debug, Clone, PartialEq, Eq)]
pub struct Heading {
    pub level: u8,
    pub text: String,
    pub line: usize,
}

/// What a [`Heading`] holds.
pub struct HeadingView {
    pub level: nat,
    pub text: Seq<char>,
    pub line: nat,
}

impl View for Heading {
    type V = HeadingView;

    open spec fn view(&self) -> HeadingView {
        HeadingView { level: self.level as nat, text: self.text@, line: self.line as nat }
    }
}

// ------------------------------------------------------------------ inline markup

/// What is left of `s` after the link target that starts it, at nesting
/// depth `depth`, has been skipped: up to and including the `)` that brings
/// the depth to zero, or everything if there is none.
pub open spec fn skip_link_target(s: Seq<char>, depth: nat) -> Seq<char>
    decreases s.len(),
{
    if s.len() == 0 {
        s
    } else if s[0] == '(' {
        skip_link_target(s.drop_first(), depth + 1)
    } else if s[0] == ')' {
        if depth <= 1 {
            s.drop_first()
        } else {
            skip_link_target(s.drop_first(), (depth - 1) as nat)
        }
    } else {
        skip_link_target(s.drop_first(), depth)
    }
}

/// Whether `c` marks emphasis, strike-through or inline code.
pub open spec fn is_emphasis_mark(c: char) -> bool {
    c == '`' || c == '*' || c == '_' || c == '~'
}

/// Inline Markdown taken out of `s`: runs of emphasis marks are dropped, `[`
/// is dropped, `](target)` loses its target, and `\x` keeps `x`.
pub open spec fn strip_marks(s: Seq<char>) -> Seq<char>
    decreases s.len(),
{
    if s.len() == 0 {
        seq![]
    } else {
        let c = s[0];
        let r = s.drop_first();
        proof {
            lemma_run_of_le(r, c);
            lemma_skip_link_target_len(r.drop_first(), 1);
        }
        if is_emphasis_mark(c) {
            strip_marks(r.skip(run_of(r, c) as int))
        } else if c == '[' {
            strip_marks(r)
        } else if c == ']' {
            if r.len() > 0 && r[0] == '(' {
                strip_marks(skip_link_target(r.drop_first(), 1))
            } else {
                strip_marks(r)
            }
        } else if c == '\\' {
            if r.len() > 0 {
                seq![r[0]] + strip_marks(r.drop_first())
            } else {
                seq![]
            }
        } else {
            seq![c] + strip_marks(r)
        }
    }
}

/// The readable text of a heading, as the outline shows it.
pub open spec fn strip_inline(s: Seq<char>) -> Seq<char> {
    trim(strip_marks(s))
}

/// Skipping a link target never lengthens the text.
pub proof fn lemma_skip_link_target_len(s: Seq<char>, depth: nat)
    ensures
        skip_link_target(s, depth).len() <= s.len(),
    decreases s.len(),
{
    if s.len() > 0 {
        if s[0] == '(' {
            lemma_skip_link_target_len(s.drop_first(), depth + 1);
        } else if s[0] == ')' {
            if depth > 1 {
                lemma_skip_link_target_len(s.drop_first(), (depth - 1) as nat);
            }
        } else {
            lemma_skip_link_target_len(s.drop_first(), depth);
        }
    }
}

/// The position in `v` after the link target that starts at `i` (depth 1).
fn skip_link_target_at(v: &Vec<char>, i: usize, hi: usize) -> (j: usize)
    requires
        i <= hi <= v@.len(),
    ensures
        i <= j <= hi,
        v@.subrange(j as int, hi as int) == skip_link_target(v@.subrange(i as int, hi as int), 1),
{
    let mut j = i;
    let mut depth: u128 = 1;
    while j < hi
        invariant
            i <= j <= hi <= v@.len(),
            1 <= depth <= j - i + 1,
            skip_link_target(v@.subrange(i as int, hi as int), 1) == skip_link_target(
                v@.subrange(j as int, hi as int),
                depth as nat,
            ),
        decreases hi - j,
    {
        let c = v[j];
        assert(v@.subrange(j as int, hi as int)[0] == c);
        assert(v@.subrange(j as int, hi as int).drop_first() =~= v@.subrange(j + 1, hi as int));
        if c == '(' {
            depth += 1;
        } else if c == ')' {
            if depth <= 1 {
                return j + 1;
            }
            depth -= 1;
        }
        j += 1;
    }
    assert(v@.subrange(j as int, hi as int) =~= Seq::<char>::empty());
    j
}

/// [`strip_inline`] of `v[lo..hi]`.
fn strip_inline_at(v: &Vec<char>, lo: usize, hi: usize) -> (r: String)
    requires
        lo <= hi <= v@.len(),
    ensures
        r@ == strip_inline(v@.subrange(lo as int, hi as int)),
{
    let mut out: Vec<char> = Vec::new();
    let mut i = lo;
    while i < hi
        invariant
            lo <= i <= hi <= v@.len(),
            out@ + strip_marks(v@.subrange(i as int, hi as int)) == strip_marks(
                v@.subrange(lo as int, hi as int),
            ),
        decreases hi - i,
    {
        let ghost s = v@.subrange(i as int, hi as int);
        let ghost before = out@;
        let c = v[i];
        assert(s[0] == c);
        assert(s.drop_first() =~= v@.subrange(i + 1, hi as int));
        if c == '`' || c == '*' || c == '_' || c == '~' {
            let run = run_len(v, i + 1, hi, c);
            assert(s.drop_first().skip(run as int) =~= v@.subrange(i + 1 + run, hi as int));
            i = i + 1 + run;
        } else if c == '[' {
            i = i + 1;
        } else if c == ']' {
            if i + 1 < hi && v[i + 1] == '(' {
                assert(s.drop_first()[0] == v@[i + 1]);
                assert(s.drop_first().drop_first() =~= v@.subrange(i + 2, hi as int));
                i = skip_link_target_at(v, i + 2, hi);
            } else {
                i = i + 1;
            }
        } else if c == '\\' {
            if i + 1 < hi {
                out.push(v[i + 1]);
                assert(s.drop_first()[0] == v@[i + 1]);
                assert(s.drop_first().drop_first() =~= v@.subrange(i + 2, hi as int));
                assert(out@ + strip_marks(v@.subrange(i + 2, hi as int)) =~= before + (seq![
                    v@[i + 1],
                ] + strip_marks(v@.subrange(i + 2, hi as int))));
                i = i + 2;
            } else {
                assert(out@ + strip_marks(v@.subrange(hi as int, hi as int)) =~= before);
                i = hi;
            }
        } else {
            out.push(c);
            assert(out@ + strip_marks(v@.subrange(i + 1, hi as int)) =~= before + (seq![c]
                + strip_marks(v@.subrange(i + 1, hi as int))));
            i = i + 1;
        }
    }
    assert(out@ =~= out@ + strip_marks(v@.subrange(hi as int, hi as int)));
    let (a, b) = trim_bounds(&out, 0, out.len());
    assert(out@.subrange(0, out@.len() as int) =~= out@);
    string_from(&out, a, b)
}

// ------------------------------------------------------------------ outline

/// A fence that is open: its character and length.
pub type OpenFence = Option<(char, nat)>;

/// The fence state after the trimmed line `t`, for the outline: a line of
/// three or more backticks or tildes opens a fence, or closes the open one if
/// it has the same character, is at least as long and holds nothing after
/// the run ([`is_close`], the rule of the Mermaid split). A fence line that
/// does not close the open fence is content of the block.
pub open spec fn fence_after(t: Seq<char>, fence: OpenFence) -> OpenFence {
    if t.len() > 0 && (t[0] == '`' || t[0] == '~') && run_of(t, t[0]) >= 3 {
        match fence {
            Some((ch, len)) => if ch == t[0] && is_close(t, ch, len) {
                None
            } else {
                fence
            },
            None => Some((t[0], run_of(t, t[0]))),
        }
    } else {
        fence
    }
}

/// Whether the trimmed line `t` is a fence line (which is never a heading).
pub open spec fn is_fence_line(t: Seq<char>) -> bool {
    t.len() > 0 && (t[0] == '`' || t[0] == '~') && run_of(t, t[0]) >= 3
}

/// The heading that the trimmed line `t` (outside any fence) is, if any: one
/// to six `#` followed by nothing, a space or a tab.
pub open spec fn heading_of(t: Seq<char>, line: nat) -> Option<HeadingView> {
    let hashes = run_of(t, '#');
    let rest = t.skip(hashes as int);
    if 1 <= hashes <= 6 && (rest.len() == 0 || rest[0] == ' ' || rest[0] == '\t') {
        Some(
            HeadingView {
                level: hashes,
                text: strip_inline(trim(trim_end_char(trim(rest), '#'))),
                line,
            },
        )
    } else {
        None
    }
}

/// The headings from the line that starts at `ls` on; that line is number
/// `line` and `fence` is the fence open before it.
pub open spec fn outline_from(s: Seq<char>, ls: int, line: nat, fence: OpenFence) -> Seq<
    HeadingView,
>
    decreases s.len() - ls,
{
    if ls >= s.len() || ls < 0 {
        seq![]
    } else {
        let le = line_end(s, ls);
        proof {
            lemma_line_end_bounds(s, ls);
        }
        let t = trim(s.subrange(ls, le));
        if is_fence_line(t) {
            outline_from(s, le, line + 1, fence_after(t, fence))
        } else if fence is Some {
            outline_from(s, le, line + 1, fence)
        } else {
            match heading_of(t, line) {
                Some(h) => seq![h] + outline_from(s, le, line + 1, fence),
                None => outline_from(s, le, line + 1, fence),
            }
        }
    }
}

/// The ATX headings of `s`, skipping what stands inside fenced code blocks.
pub open spec fn outline_spec(s: Seq<char>) -> Seq<HeadingView> {
    outline_from(s, 0, 0, None)
}

/// The heading that the trimmed line `v[a..b]` is, if any.
fn heading_at(v: &Vec<char>, a: usize, b: usize, line: usize) -> (r: Option<Heading>)
    requires
        a <= b <= v@.len(),
    ensures
        match heading_of(v@.subrange(a as int, b as int), line as nat) {
            Some(h) => r is Some && r->0@ == h,
            None => r is None,
        },
{
    let ghost t = v@.subrange(a as int, b as int);
    let hashes = run_len(v, a, b, '#');
    let ghost rest = t.skip(hashes as int);
    assert(rest =~= v@.subrange(a + hashes, b as int));
    if hashes < 1 || hashes > 6 {
        return None;
    }
    let r0 = a + hashes;
    if !(r0 == b || v[r0] == ' ' || v[r0] == '\t') {
        assert(rest[0] == v@[r0 as int]);
        return None;
    }
    proof {
        if r0 < b {
            assert(rest[0] == v@[r0 as int]);
        }
    }
    // `rest.trim()`, then trailing `#`s dropped, then trimmed again
    let (x, y) = trim_bounds(v, r0, b);
    let mut e = y;
    while e > x && v[e - 1] == '#'
        invariant
            x <= e <= y <= v@.len(),
            trim_end_char(v@.subrange(x as int, y as int), '#') == trim_end_char(
                v@.subrange(x as int, e as int),
                '#',
            ),
        decreases e - x,
    {
        assert(v@.subrange(x as int, e as int).drop_last() =~= v@.subrange(x as int, e - 1));
        e -= 1;
    }
    let (p, q) = trim_bounds(v, x, e);
    let text = strip_inline_at(v, p, q);
    Some(Heading { level: hashes as u8, text, line })
}

/// The fence state after the trimmed line `v[a..b]`, and whether it is a fence line.
fn fence_step(v: &Vec<char>, a: usize, b: usize, fence: Option<(char, usize)>) -> (r: (
    bool,
    Option<(char, usize)>,
))
    requires
        a <= b <= v@.len(),
    ensures
        r.0 == is_fence_line(v@.subrange(a as int, b as int)),
        opt_fence(r.1) == fence_after(v@.subrange(a as int, b as int), opt_fence(fence)),
{
    let ghost t = v@.subrange(a as int, b as int);
    if a < b && (v[a] == '`' || v[a] == '~') {
        assert(t[0] == v@[a as int]);
        let ch = v[a];
        let run = run_len(v, a, b, ch);
        if run >= 3 {
            let next = match fence {
                Some((open_ch, open_len)) => if open_ch == ch && crate::mermaid::is_close_at(
                    v,
                    a,
                    b,
                    ch,
                    open_len,
                ) {
                    None
                } else {
                    fence
                },
                None => Some((ch, run)),
            };
            return (true, next);
        }
    }
    (false, fence)
}

/// An open fence with a machine length, as an [`OpenFence`].
pub open spec fn opt_fence(f: Option<(char, usize)>) -> OpenFence {
    match f {
        Some((c, l)) => Some((c, l as nat)),
        None => None,
    }
}

/// Scans the ATX headings (`# title`) of the text for the outline.
///
/// Lines inside fenced code blocks are skipped, so a `# comment` in a shell
/// snippet does not show up as a heading.
pub fn outline(text: &str) -> (r: Vec<Heading>)
    ensures
        r@.len() == outline_spec(text@).len(),
        forall|i: int| 0 <= i < r@.len() ==> #[trigger] r@[i]@ == outline_spec(text@)[i],
{
    let v = chars_of(text);
    let n = v.len();
    let mut headings: Vec<Heading> = Vec::new();
    let mut fence: Option<(char, usize)> = None;
    let mut ls: usize = 0;
    let mut line: usize = 0;
    while ls < n
        invariant
            n == v@.len(),
            v@ == text@,
            ls <= n,
            line <= ls,
            headings@.map_values(|h: Heading| h@) + outline_from(
                v@,
                ls as int,
                line as nat,
                opt_fence(fence),
            ) == outline_spec(v@),
        decreases n - ls,
    {
        let le = line_end_at(&v, ls);
        proof {
            lemma_line_end_bounds(v@, ls as int);
        }
        let (a, b) = trim_bounds(&v, ls, le);
        let (is_fence, next) = fence_step(&v, a, b, fence);
        if is_fence {
            fence = next;
        } else if fence.is_none() {
            let h = heading_at(&v, a, b, line);
            match h {
                Some(h) => {
                    let ghost hv = h@;
                    let ghost before = headings@.map_values(|h: Heading| h@);
                    headings.push(h);
                    assert(headings@.map_values(|h: Heading| h@) =~= before + seq![hv]);
                },
                None => {},
            }
        }
        ls = le;
        line += 1;
    }
    assert(headings@.map_values(|h: Heading| h@) =~= outline_spec(v@));
    headings
}

/// Whether the line that starts at `p` is one that the heading `h` may come
/// from: a line of `s` whose trimmed text is `h.level` (one to six) `#`
/// followed by the end of the line, a space or a tab, and which has
/// `h.line` line breaks before it.
pub open spec fn stands_on_atx_line(s: Seq<char>, p: int, h: HeadingView) -> bool {
    let t = trim(s.subrange(p, line_end(s, p)));
    &&& 0 <= p < s.len()
    &&& (p == 0 || s[p - 1] == '\n')
    &&& h.line == count_of(s.take(p), '\n')
    &&& 1 <= h.level <= 6
    &&& run_of(t, '#') == h.level
    &&& (t.len() == h.level || t[h.level as int] == ' ' || t[h.level as int] == '\t')
}

/// Characters other than `c` between `i` and `j` leave the count of `c` in
/// the prefix unchanged.
proof fn lemma_count_of_take_same(s: Seq<char>, c: char, i: int, j: int)
    requires
        0 <= i <= j <= s.len(),
        forall|k: int| i <= k < j ==> s[k] != c,
    ensures
        count_of(s.take(j), c) == count_of(s.take(i), c),
    decreases j - i,
{
    if j > i {
        assert(s.take(j).drop_last() =~= s.take(j - 1));
        lemma_count_of_take_same(s, c, i, j - 1);
    }
}

/// Whether some line of `s` is one that the heading `h` may come from.
pub open spec fn on_atx_line(s: Seq<char>, h: HeadingView) -> bool {
    exists|p: int| #[trigger] stands_on_atx_line(s, p, h)
}

/// Each heading that `outline_from` finds from `ls` on stands on an ATX
/// heading line of `s`.
proof fn lemma_outline_from_atx(s: Seq<char>, ls: int, line: nat, fence: OpenFence)
    requires
        0 <= ls <= s.len(),
        ls < s.len() ==> (ls == 0 || s[ls - 1] == '\n'),
        ls < s.len() ==> line == count_of(s.take(ls), '\n'),
    ensures
        forall|k: int|
            0 <= k < outline_from(s, ls, line, fence).len() ==> on_atx_line(
                s,
                #[trigger] outline_from(s, ls, line, fence)[k],
            ),
    decreases s.len() - ls,
{
    if ls < s.len() {
        let le = line_end(s, ls);
        lemma_line_end_bounds(s, ls);
        let t = trim(s.subrange(ls, le));
        if le < s.len() {
            lemma_count_of_take_same(s, '\n', ls, le - 1);
            assert(s.take(le).drop_last() =~= s.take(le - 1));
        }
        let next_fence = if is_fence_line(t) {
            fence_after(t, fence)
        } else {
            fence
        };
        lemma_outline_from_atx(s, le, line + 1, next_fence);
        let rest = outline_from(s, le, line + 1, next_fence);
        let out = outline_from(s, ls, line, fence);
        if is_fence_line(t) || fence is Some || heading_of(t, line) is None {
            assert(out == rest);
        } else {
            let h = heading_of(t, line)->0;
            assert(out == seq![h] + rest);
            lemma_run_of_le(t, '#');
            let rest_t = t.skip(h.level as int);
            if rest_t.len() > 0 {
                assert(rest_t[0] == t[h.level as int]);
            }
            assert(stands_on_atx_line(s, ls, h));
            assert forall|k: int| 0 <= k < out.len() implies on_atx_line(s, #[trigger] out[k]) by {
                if k > 0 {
                    assert(out[k] == rest[k - 1]);
                }
            }
        }
    }
}

/// Every heading of the outline stands on a line of its own whose trimmed
/// text is one to six `#` followed by the end of the line, a space or a tab,
/// and the heading's line number counts the line breaks before that line. A
/// run of `#` followed by any other character (`#tag`) gives no heading.
pub proof fn lemma_outline_headings_are_atx(s: Seq<char>)
    ensures
        forall|k: int|
            0 <= k < outline_spec(s).len() ==> on_atx_line(s, #[trigger] outline_spec(s)[k]),
{
    assert(s.take(0) =~= Seq::<char>::empty());
    lemma_outline_from_atx(s, 0, 0, None);
}

// ------------------------------------------------------------------ counts

/// Line, word and character counts for the status bar.
#[derive(Debug, Clone, Copy, Default, PartialEq, Eq)]
pub struct Stats {
    pub lines: usize,
    /// Latin words plus CJK characters (each CJK character counts as a word).
    pub words: usize,
    pub chars: usize,
    pub cjk: usize,
}

/// CJK ideographs, kana and hangul (full-width punctuation is not counted).
pub open spec fn is_cjk_char(c: char) -> bool {
    let u = c as u32;
    (0x3040 <= u <= 0x30FF) || (0x3400 <= u <= 0x4DBF) || (0x4E00 <= u <= 0x9FFF) || (0xF900 <= u
        <= 0xFAFF) || (0xAC00 <= u <= 0xD7AF) || (0x1100 <= u <= 0x11FF) || (0x20000 <= u
        <= 0x2FA1F)
}

/// Executable form of [`is_cjk_char`].
pub fn is_cjk(c: char) -> (r: bool)
    ensures
        r == is_cjk_char(c),
{
    let u = c as u32;
    (0x3040 <= u && u <= 0x30FF) || (0x3400 <= u && u <= 0x4DBF) || (0x4E00 <= u && u <= 0x9FFF)
        || (0xF900 <= u && u <= 0xFAFF) || (0xAC00 <= u && u <= 0xD7AF) || (0x1100 <= u && u
        <= 0x11FF) || (0x20000 <= u && u <= 0x2FA1F)
}

/// What `char::is_alphanumeric` returns for `c`: whether `c` has the Unicode
/// `Alphabetic` property or a numeric general category.
pub uninterp spec fn alphanumeric(c: char) -> bool;

/// `char::is_alphanumeric` from the standard library. Its Unicode tables are
/// not restated here: the result is only named.
#[verifier::external_body]
fn is_alphanumeric(c: char) -> (r: bool)
    ensures
        r == alphanumeric(c),
{
    c.is_alphanumeric()
}

/// Characters that may stand inside a word: `'`, `-` and `’`.
pub open spec fn is_word_joiner(c: char) -> bool {
    c == '\'' || c == '-' || c == '\u{2019}'
}

/// How many times `c` occurs in `s`.
pub open spec fn count_of(s: Seq<char>, c: char) -> nat
    decreases s.len(),
{
    if s.len() == 0 {
        0
    } else {
        count_of(s.drop_last(), c) + if s.last() == c {
            1nat
        } else {
            0nat
        }
    }
}

/// How many CJK characters `s` holds.
pub open spec fn cjk_count(s: Seq<char>) -> nat
    decreases s.len(),
{
    if s.len() == 0 {
        0
    } else {
        cjk_count(s.drop_last()) + if is_cjk_char(s.last()) {
            1nat
        } else {
            0nat
        }
    }
}

/// The Latin words of `s`, and whether `s` ends inside one. A word is a run of
/// alphanumeric characters, which `'`, `-` and `’` do not interrupt; a CJK
/// character or any other character ends it.
pub open spec fn latin_scan(s: Seq<char>) -> (nat, bool)
    decreases s.len(),
{
    if s.len() == 0 {
        (0, false)
    } else {
        let (n, inside) = latin_scan(s.drop_last());
        let c = s.last();
        if is_cjk_char(c) {
            (n, false)
        } else if alphanumeric(c) {
            if inside {
                (n, true)
            } else {
                (n + 1, true)
            }
        } else if is_word_joiner(c) {
            (n, inside)
        } else {
            (n, false)
        }
    }
}

/// Scanning `y` after a text that ends outside a word counts the words of
/// `y` on top of those before.
proof fn lemma_latin_scan_after(p: Seq<char>, y: Seq<char>)
    requires
        !latin_scan(p).1,
    ensures
        latin_scan(p + y) == (latin_scan(p).0 + latin_scan(y).0, latin_scan(y).1),
    decreases y.len(),
{
    if y.len() == 0 {
        assert(p + y =~= p);
    } else {
        lemma_latin_scan_after(p, y.drop_last());
        assert((p + y).drop_last() =~= p + y.drop_last());
        assert((p + y).last() == y.last());
    }
}

/// A CJK character ends the Latin word before it: the Latin words of a text
/// with a CJK character in it are those before the character plus those
/// after it. (In `用Rust和Go写` the words are `Rust` and `Go`.)
pub proof fn lemma_cjk_separates_words(a: Seq<char>, c: char, b: Seq<char>)
    requires
        is_cjk_char(c),
    ensures
        latin_words(a + seq![c] + b) == latin_words(a) + latin_words(b),
        cjk_count(a + seq![c] + b) == cjk_count(a) + 1 + cjk_count(b),
{
    let ac = a + seq![c];
    assert(ac.drop_last() =~= a);
    assert(ac.last() == c);
    assert(latin_scan(ac) == (latin_scan(a).0, false));
    lemma_latin_scan_after(ac, b);
    lemma_cjk_count_concat(ac, b);
}

/// CJK characters are counted in each part of a text.
proof fn lemma_cjk_count_concat(x: Seq<char>, y: Seq<char>)
    ensures
        cjk_count(x + y) == cjk_count(x) + cjk_count(y),
    decreases y.len(),
{
    if y.len() == 0 {
        assert(x + y =~= x);
    } else {
        lemma_cjk_count_concat(x, y.drop_last());
        assert((x + y).drop_last() =~= x + y.drop_last());
        assert((x + y).last() == y.last());
    }
}

/// The number of Latin words of `s`.
pub open spec fn latin_words(s: Seq<char>) -> nat {
    latin_scan(s).0
}

/// Counts lines, characters, words and CJK characters. (The reading time is
/// estimated from these counts in floating point, by the window.)
pub fn stats(text: &str) -> (r: Stats)
    ensures
        r.lines == count_of(text@, '\n') + 1,
        r.chars == text@.len(),
        r.cjk == cjk_count(text@),
        r.words == latin_words(text@) + cjk_count(text@),
{
    let v = chars_of(text);
    let n = v.len();
    let mut newlines: usize = 0;
    let mut cjk: usize = 0;
    let mut latin: usize = 0;
    let mut in_word = false;
    let mut i: usize = 0;
    while i < n
        invariant
            n == v@.len() <= isize::MAX,
            i <= n,
            newlines == count_of(v@.take(i as int), '\n'),
            newlines <= i,
            cjk == cjk_count(v@.take(i as int)),
            (latin as nat, in_word) == latin_scan(v@.take(i as int)),
            latin + cjk <= i,
        decreases n - i,
    {
        let c = v[i];
        assert(v@.take(i + 1).drop_last() =~= v@.take(i as int));
        assert(v@.take(i + 1).last() == c);
        if c == '\n' {
            newlines += 1;
        }
        if is_cjk(c) {
            cjk += 1;
            in_word = false;
        } else if is_alphanumeric(c) {
            if !in_word {
                latin += 1;
                in_word = true;
            }
        } else if c == '\'' || c == '-' || c == '\u{2019}' {
        } else {
            in_word = false;
        }
        i += 1;
    }
    assert(v@.take(n as int) =~= v@);
    Stats { lines: newlines + 1, words: latin + cjk, chars: n, cjk }
}

// ------------------------------------------------------------------ positions

/// Byte offset to character index. Search results are byte ranges while the
/// editor's cursor counts characters. An offset past the end counts as the end.
pub fn byte_to_char(text: &str, byte: usize) -> (r: usize)
    requires
        byte >= text.spec_bytes().len() || is_char_boundary(text.spec_bytes(), byte as int),
    ensures
        r <= text@.len(),
        utf8_len(text@.take(r as int)) == if byte < text.spec_bytes().len() {
            byte as nat
        } else {
            text.spec_bytes().len()
        },
{
    let len = byte_len(text);
    let v = chars_of(text);
    let target = if byte < len {
        byte
    } else {
        len
    };
    let ghost s = text@;
    proof {
        assert(s.take(s.len() as int) =~= s);
        if byte < len {
            lemma_boundary_is_prefix(s, byte as int);
        }
    }
    let ghost goal = choose|k: int| 0 <= k <= s.len() && utf8_len(#[trigger] s.take(k)) == target;
    proof {
        if byte >= len {
            assert(0 <= s.len() <= s.len() && utf8_len(s.take(s.len() as int)) == target);
        }
    }
    let mut k: usize = 0;
    let mut acc: usize = 0;
    assert(s.take(0) =~= Seq::<char>::empty());
    while k < v.len() && acc < target
        invariant
            v@ == s,
            0 <= goal <= s.len(),
            utf8_len(s.take(goal)) == target,
            k <= v@.len(),
            acc == utf8_len(s.take(k as int)),
            acc <= target,
            k <= goal,
        decreases v@.len() - k,
    {
        proof {
            lemma_utf8_len_take(s, k as int);
            if (k as int) < goal {
                if k + 1 < goal {
                    lemma_utf8_len_take_mono(s, k + 1, goal);
                }
            } else {
                assert(acc == target);
            }
        }
        acc = acc + char_utf8_len(v[k]);
        k += 1;
    }
    proof {
        if acc < target {
            assert(k == v@.len());
            assert(s.take(k as int) =~= s);
            if (k as int) < goal {
                lemma_utf8_len_take_mono(s, k as int, goal);
            }
        }
    }
    k
}

/// Where the line after the `k`-th newline at or after `i` starts, or the end
/// of `s` if there are fewer newlines.
pub open spec fn after_newlines(s: Seq<char>, i: int, k: nat) -> int
    decreases s.len() - i,
{
    if i >= s.len() || i < 0 {
        s.len() as int
    } else if s[i] == '\n' && k <= 1 {
        i + 1
    } else if s[i] == '\n' {
        after_newlines(s, i + 1, (k - 1) as nat)
    } else {
        after_newlines(s, i + 1, k)
    }
}

/// The character index at which the 0-based line `line` starts (the end of the
/// text if it has fewer lines). The outline turns "line N" into a cursor with it.
pub fn line_char_offset(text: &str, line: usize) -> (r: usize)
    ensures
        r == if line == 0 {
            0
        } else {
            after_newlines(text@, 0, line as nat)
        },
{
    if line == 0 {
        return 0;
    }
    let v = chars_of(text);
    let mut current: usize = 0;
    let mut i: usize = 0;
    while i < v.len()
        invariant
            v@ == text@,
            i <= v@.len(),
            current < line,
            after_newlines(text@, 0, line as nat) == after_newlines(
                text@,
                i as int,
                (line - current) as nat,
            ),
        decreases v@.len() - i,
    {
        if v[i] == '\n' {
            current += 1;
            if current == line {
                return i + 1;
            }
        }
        i += 1;
    }
    i
}

// ------------------------------------------------------------------ HTML export

/// `c` as HTML text: `&`, `<`, `>` and `"` become entities.
pub open spec fn escape_char(c: char) -> Seq<char> {
    if c == '&' {
        seq!['&', 'a', 'm', 'p', ';']
    } else if c == '<' {
        seq!['&', 'l', 't', ';']
    } else if c == '>' {
        seq!['&', 'g', 't', ';']
    } else if c == '"' {
        seq!['&', 'q', 'u', 'o', 't', ';']
    } else {
        seq![c]
    }
}

/// `s` as HTML text.
pub open spec fn escape_html_spec(s: Seq<char>) -> Seq<char>
    decreases s.len(),
{
    if s.len() == 0 {
        seq![]
    } else {
        escape_html_spec(s.drop_last()) + escape_char(s.last())
    }
}

/// Escapes `&`, `<`, `>` and `"` for HTML text and attribute values.
pub fn escape_html(s: &str) -> (r: String)
    ensures
        r@ == escape_html_spec(s@),
{
    let v = chars_of(s);
    let mut out: Vec<char> = Vec::new();
    let mut i: usize = 0;
    while i < v.len()
        invariant
            v@ == s@,
            i <= v@.len(),
            out@ == escape_html_spec(v@.take(i as int)),
        decreases v@.len() - i,
    {
        let c = v[i];
        let ghost before = out@;
        if c == '&' {
            out.push('&');
            out.push('a');
            out.push('m');
            out.push('p');
            out.push(';');
        } else if c == '<' {
            out.push('&');
            out.push('l');
            out.push('t');
            out.push(';');
        } else if c == '>' {
            out.push('&');
            out.push('g');
            out.push('t');
            out.push(';');
        } else if c == '"' {
            out.push('&');
            out.push('q');
            out.push('u');
            out.push('o');
            out.push('t');
            out.push(';');
        } else {
            out.push(c);
        }
        assert(v@.take(i + 1).drop_last() =~= v@.take(i as int));
        assert(out@ =~= before + escape_char(c));
        i += 1;
    }
    assert(v@.take(v@.len() as int) =~= v@);
    string_of(&out)
}

/// The style sheet of exported HTML: close to GitHub's look, and it follows
/// the system's light or dark scheme.
pub const EXPORT_CSS: &'static str = "\n:root {\n  --fg: #1f2328; --bg: #ffffff; --muted: #59636e;\n  --border: #d1d9e0; --code-bg: #f6f8fa; --link: #0969da;\n}\n@media (prefers-color-scheme: dark) {\n  :root {\n    --fg: #e6edf3; --bg: #0d1117; --muted: #9198a1;\n    --border: #3d444d; --code-bg: #151b23; --link: #4493f8;\n  }\n}\n* { box-sizing: border-box; }\nbody {\n  margin: 0; background: var(--bg); color: var(--fg);\n  font: 16px/1.7 -apple-system, BlinkMacSystemFont, \"PingFang SC\",\n        \"Hiragino Sans GB\", \"Microsoft YaHei\", \"Segoe UI\", sans-serif;\n}\n.markdown-body { max-width: 900px; margin: 0 auto; padding: 40px 24px 96px; }\nh1, h2, h3, h4, h5, h6 { line-height: 1.3; margin: 1.6em 0 .6em; font-weight: 600; }\nh1 { font-size: 2em; border-bottom: 1px solid var(--border); padding-bottom: .3em; }\nh2 { font-size: 1.5em; border-bottom: 1px solid var(--border); padding-bottom: .3em; }\nh3 { font-size: 1.25em; }\na { color: var(--link); text-decoration: none; }\na:hover { text-decoration: underline; }\np, ul, ol, blockquote, table, pre { margin: 0 0 1em; }\nul, ol { padding-left: 1.6em; }\nli + li { margin-top: .25em; }\nli.task-list-item { list-style: none; margin-left: -1.4em; }\ncode {\n  font-family: ui-monospace, SFMono-Regular, \"SF Mono\", Menlo, monospace;\n  font-size: .875em; background: var(--code-bg);\n  padding: .2em .4em; border-radius: 4px;\n}\npre {\n  background: var(--code-bg); border: 1px solid var(--border);\n  border-radius: 6px; padding: 14px 16px; overflow: auto;\n}\npre code { background: none; padding: 0; font-size: .85em; line-height: 1.5; }\nblockquote {\n  border-left: 4px solid var(--border); color: var(--muted);\n  padding: 0 1em; margin-left: 0;\n}\ntable { border-collapse: collapse; display: block; overflow: auto; width: max-content; max-width: 100%; }\nth, td { border: 1px solid var(--border); padding: 6px 13px; }\nth { font-weight: 600; background: var(--code-bg); }\ntr:nth-child(2n) td { background: color-mix(in srgb, var(--code-bg) 50%, transparent); }\nimg { max-width: 100%; height: auto; }\nhr { border: 0; border-top: 1px solid var(--border); margin: 2em 0; }\ndel { color: var(--muted); }\n@media print { .markdown-body { max-width: none; padding: 0; } }\n";

/// The Markdown extensions of the export: tables, footnotes, strike-through,
/// task lists and smart punctuation (pulldown-cmark's option bits).
pub const EXPORT_OPTIONS: u32 = 0b11_1110;

/// What pulldown-cmark renders for `text` with the option bits `options`: the
/// HTML of the document body. Its CommonMark rules are not restated here.
pub uninterp spec fn commonmark_html(text: Seq<char>, options: u32) -> Seq<char>;

/// `pulldown_cmark::html::push_html` over `pulldown_cmark::Parser::new_ext`,
/// into an empty string: the result is only named.
#[verifier::external_body]
fn render_commonmark(text: &str, options: u32) -> (r: String)
    ensures
        r@ == commonmark_html(text@, options),
{
    let mut body = String::new();
    let opts = pulldown_cmark::Options::from_bits_truncate(options);
    pulldown_cmark::html::push_html(&mut body, pulldown_cmark::Parser::new_ext(text, opts));
    body
}

/// The whole exported page around an HTML body.
pub open spec fn html_page_spec(body: Seq<char>, title: Seq<char>, lang: Seq<char>) -> Seq<char> {
    "<!doctype html>\n<html lang=\""@ + escape_html_spec(lang)
        + "\">\n<head>\n<meta charset=\"utf-8\">\n<meta name=\"viewport\" content=\"width=device-width, initial-scale=1\">\n<title>"@
        + escape_html_spec(title) + "</title>\n<style>\n"@ + EXPORT_CSS@
        + "\n</style>\n</head>\n<body>\n<main class=\"markdown-body\">\n"@ + body
        + "</main>\n</body>\n</html>\n"@
}

/// Puts an HTML body into a complete, styled page. `lang` goes into
/// `<html lang="...">`; it steers line breaking, spell checking and screen readers.
pub fn html_page(body: &str, title: &str, lang: &str) -> (r: String)
    ensures
        r@ == html_page_spec(body@, title@, lang@),
{
    let mut out = String::new();
    out.append("<!doctype html>\n<html lang=\"");
    out.append(escape_html(lang).as_str());
    out.append(
        "\">\n<head>\n<meta charset=\"utf-8\">\n<meta name=\"viewport\" content=\"width=device-width, initial-scale=1\">\n<title>",
    );
    out.append(escape_html(title).as_str());
    out.append("</title>\n<style>\n");
    out.append(EXPORT_CSS);
    out.append("\n</style>\n</head>\n<body>\n<main class=\"markdown-body\">\n");
    out.append(body);
    out.append("</main>\n</body>\n</html>\n");
    out
}

/// Converts Markdown into a complete HTML page with its own style sheet.
pub fn to_html(text: &str, title: &str, lang: &str) -> (r: String)
    ensures
        r@ == html_page_spec(commonmark_html(text@, EXPORT_OPTIONS), title@, lang@),
{
    let body = render_commonmark(text, EXPORT_OPTIONS);
    html_page(body.as_str(), title, lang)
}

} // verus!
