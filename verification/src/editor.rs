//! Cursor arithmetic and the Markdown formatting commands of the editor.
//!
//! Positions are character indices, as the editor's cursor counts them. A
//! position past the end of the text stands for the end of the text.
use vstd::prelude::*;

use crate::text::{
    char_utf8_len, chars_of, extend_from, lemma_utf8_len_take, run_len, run_of, seq_at, string_of,
    trim, trim_bounds, utf8_len,
};

verus! {

broadcast use vstd::string::group_string_axioms;

/// The new text after a formatting command, and the selection to show.
pub struct Edit {
    pub text: String,
    pub selection: (usize, usize),
}

/// `i` limited to `n`.
pub open spec fn clamp(i: int, n: int) -> int {
    if i < n {
        i
    } else {
        n
    }
}

/// The 0-based line and column reached after the characters of `s`.
pub open spec fn line_col(s: Seq<char>) -> (nat, nat)
    decreases s.len(),
{
    if s.len() == 0 {
        (0, 0)
    } else {
        let (l, c) = line_col(s.drop_last());
        if s.last() == '\n' {
            (l + 1, 0)
        } else {
            (l, c + 1)
        }
    }
}

/// Character index to 0-based (line, column), in one pass.
pub fn line_col_of(text: &str, char_index: usize) -> (r: (usize, usize))
    ensures
        (r.0 as nat, r.1 as nat) == line_col(text@.take(clamp(char_index as int, text@.len() as int))),
{
    let v = chars_of(text);
    let mut line: usize = 0;
    let mut column: usize = 0;
    let mut i: usize = 0;
    while i < v.len() && i < char_index
        invariant
            v@ == text@,
            v@.len() <= isize::MAX,
            i <= v@.len(),
            i <= char_index,
            line <= i,
            column <= i,
            (line as nat, column as nat) == line_col(v@.take(i as int)),
        decreases v@.len() - i,
    {
        assert(v@.take(i + 1).drop_last() =~= v@.take(i as int));
        if v[i] == '\n' {
            line += 1;
            column = 0;
        } else {
            column += 1;
        }
        i += 1;
    }
    (line, column)
}

/// Character index to byte offset; past the end it is the length of the text.
pub fn char_to_byte(text: &str, char_index: usize) -> (r: usize)
    ensures
        r == utf8_len(text@.take(clamp(char_index as int, text@.len() as int))),
{
    let v = chars_of(text);
    let len = crate::text::byte_len(text);
    let mut i: usize = 0;
    let mut acc: usize = 0;
    assert(v@.take(0) =~= Seq::<char>::empty());
    while i < v.len() && i < char_index
        invariant
            v@ == text@,
            len == utf8_len(v@),
            i <= v@.len(),
            i <= char_index,
            acc == utf8_len(v@.take(i as int)),
            acc <= len,
        decreases v@.len() - i,
    {
        proof {
            lemma_utf8_len_take(v@, i as int);
            if i + 1 < v@.len() {
                crate::text::lemma_utf8_len_take_mono(v@, i + 1, v@.len() as int);
            }
            assert(v@.take(v@.len() as int) =~= v@);
        }
        acc = acc + char_utf8_len(v[i]);
        i += 1;
    }
    acc
}

// ------------------------------------------------------------------ lines

/// Where the line holding position `a` starts: just after the last `\n`
/// before `a`, or 0.
pub open spec fn line_start_before(s: Seq<char>, a: int) -> int
    decreases a,
{
    if a <= 0 {
        0
    } else if s[a - 1] == '\n' {
        a
    } else {
        line_start_before(s, a - 1)
    }
}

/// The first `\n` at or after `b`, or the end of `s`.
pub open spec fn next_newline(s: Seq<char>, b: int) -> int
    decreases s.len() - b,
{
    if b >= s.len() || b < 0 {
        s.len() as int
    } else if s[b] == '\n' {
        b
    } else {
        next_newline(s, b + 1)
    }
}

/// The start of the line holding `a` is at or before `a`, just after a
/// `\n` (or at 0), with no `\n` between it and `a`.
pub proof fn lemma_line_start_before(s: Seq<char>, a: int)
    requires
        0 <= a <= s.len(),
    ensures
        0 <= line_start_before(s, a) <= a,
        line_start_before(s, a) > 0 ==> s[line_start_before(s, a) - 1] == '\n',
        forall|k: int| line_start_before(s, a) <= k < a ==> s[k] != '\n',
    decreases a,
{
    if a > 0 && s[a - 1] != '\n' {
        lemma_line_start_before(s, a - 1);
    }
}

/// `next_newline` lies between `b` and the end, is a `\n` unless it is the
/// end, and no `\n` comes before it from `b` on.
pub proof fn lemma_next_newline(s: Seq<char>, b: int)
    requires
        0 <= b <= s.len(),
    ensures
        b <= next_newline(s, b) <= s.len(),
        next_newline(s, b) < s.len() ==> s[next_newline(s, b)] == '\n',
        forall|k: int| b <= k < next_newline(s, b) ==> s[k] != '\n',
    decreases s.len() - b,
{
    if b < s.len() && s[b] != '\n' {
        lemma_next_newline(s, b + 1);
    }
}

fn line_start_at(v: &Vec<char>, a: usize) -> (r: usize)
    requires
        a <= v@.len(),
    ensures
        r == line_start_before(v@, a as int),
{
    let mut k = a;
    while k > 0 && v[k - 1] != '\n'
        invariant
            k <= a <= v@.len(),
            line_start_before(v@, a as int) == line_start_before(v@, k as int),
        decreases k,
    {
        k -= 1;
    }
    k
}

fn next_newline_at(v: &Vec<char>, b: usize) -> (r: usize)
    requires
        b <= v@.len(),
    ensures
        r == next_newline(v@, b as int),
{
    let mut k = b;
    while k < v.len() && v[k] != '\n'
        invariant
            b <= k <= v@.len(),
            next_newline(v@, b as int) == next_newline(v@, k as int),
        decreases v@.len() - k,
    {
        k += 1;
    }
    k
}

// ------------------------------------------------------------------ wrapping

/// Whether the selection `[a, b)` of `t` already stands between `p` and `s`.
pub open spec fn is_wrapped(t: Seq<char>, a: int, b: int, p: Seq<char>, s: Seq<char>) -> bool {
    &&& a >= p.len()
    &&& t.subrange(a - p.len(), a) == p
    &&& b + s.len() <= t.len()
    &&& t.subrange(b, b + s.len()) == s
}

/// The text after toggling `p`/`s` around the selection `[lo, hi)` of `t`.
pub open spec fn wrap_text(t: Seq<char>, lo: int, hi: int, p: Seq<char>, s: Seq<char>) -> Seq<
    char,
> {
    let a = clamp(lo, t.len() as int);
    let b = clamp(hi, t.len() as int);
    if is_wrapped(t, a, b, p, s) {
        t.take(a - p.len()) + t.subrange(a, b) + t.skip(b + s.len())
    } else {
        t.take(a) + p + t.subrange(a, b) + s + t.skip(b)
    }
}

/// The selection after toggling `p`/`s` around `[lo, hi)`.
pub open spec fn wrap_selection_spec(t: Seq<char>, lo: int, hi: int, p: Seq<char>, s: Seq<char>) -> (
    int,
    int,
) {
    let a = clamp(lo, t.len() as int);
    let b = clamp(hi, t.len() as int);
    let at = if is_wrapped(t, a, b, p, s) {
        lo - p.len()
    } else {
        lo + p.len()
    };
    (at, at + (hi - lo))
}

/// Puts `prefix`/`suffix` around the selection `[lo, hi)`; if they are
/// already there, takes them away instead (so a second press undoes the first).
pub fn wrap_selection(text: &str, lo: usize, hi: usize, prefix: &str, suffix: &str) -> (r: Edit)
    requires
        lo <= hi,
        hi + prefix@.len() <= usize::MAX,
    ensures
        r.text@ == wrap_text(text@, lo as int, hi as int, prefix@, suffix@),
        (r.selection.0 as int, r.selection.1 as int) == wrap_selection_spec(
            text@,
            lo as int,
            hi as int,
            prefix@,
            suffix@,
        ),
{
    let v = chars_of(text);
    let p = chars_of(prefix);
    let s = chars_of(suffix);
    let n = v.len();
    let a = if lo < n {
        lo
    } else {
        n
    };
    let b = if hi < n {
        hi
    } else {
        n
    };
    let already = a >= p.len() && seq_at(&v, a - p.len(), &p) && seq_at(&v, b, &s);
    let mut out: Vec<char> = Vec::new();
    if already {
        extend_from(&mut out, &v, 0, a - p.len());
        extend_from(&mut out, &v, a, b);
        extend_from(&mut out, &v, b + s.len(), n);
        assert(out@ =~= wrap_text(text@, lo as int, hi as int, prefix@, suffix@));
        let at = lo - p.len();
        Edit { text: string_of(&out), selection: (at, at + (hi - lo)) }
    } else {
        extend_from(&mut out, &v, 0, a);
        extend_from(&mut out, &p, 0, p.len());
        extend_from(&mut out, &v, a, b);
        extend_from(&mut out, &s, 0, s.len());
        extend_from(&mut out, &v, b, n);
        assert(p@.subrange(0, p@.len() as int) =~= p@);
        assert(s@.subrange(0, s@.len() as int) =~= s@);
        assert(out@ =~= wrap_text(text@, lo as int, hi as int, prefix@, suffix@));
        let at = lo + p.len();
        Edit { text: string_of(&out), selection: (at, at + (hi - lo)) }
    }
}

/// Wrapping a selection that is not wrapped yet and then pressing the same
/// command again on the new selection gives back the text and the selection.
pub proof fn lemma_wrap_twice_restores(
    t: Seq<char>,
    lo: int,
    hi: int,
    p: Seq<char>,
    s: Seq<char>,
)
    requires
        0 <= lo <= hi <= t.len(),
        !is_wrapped(t, lo, hi, p, s),
    ensures
        ({
            let t2 = wrap_text(t, lo, hi, p, s);
            let (lo2, hi2) = wrap_selection_spec(t, lo, hi, p, s);
            &&& wrap_text(t2, lo2, hi2, p, s) == t
            &&& wrap_selection_spec(t2, lo2, hi2, p, s) == (lo, hi)
        }),
{
    let t2 = wrap_text(t, lo, hi, p, s);
    let lo2 = lo + p.len();
    let hi2 = hi + p.len();
    assert(t2 =~= t.take(lo) + p + t.subrange(lo, hi) + s + t.skip(hi));
    assert(t2.len() == t.len() + p.len() + s.len());
    assert(t2.subrange(lo2 - p.len(), lo2) =~= p);
    assert(t2.subrange(hi2, hi2 + s.len()) =~= s);
    assert(is_wrapped(t2, lo2, hi2, p, s));
    assert(t2.take(lo2 - p.len()) + t2.subrange(lo2, hi2) + t2.skip(hi2 + s.len()) =~= t);
}

// ------------------------------------------------------------------ line prefixes

/// `line` after the prefix command: with `remove` the prefix is taken off,
/// otherwise it is put in front of every line that is not blank.
pub open spec fn edit_line(line: Seq<char>, p: Seq<char>, remove: bool) -> Seq<char> {
    if remove {
        if line.take(p.len() as int) == p && p.len() <= line.len() {
            line.skip(p.len() as int)
        } else {
            line
        }
    } else if trim(line).len() == 0 {
        line
    } else {
        p + line
    }
}

/// The lines of `s` from position `i` on, each edited by [`edit_line`] and
/// joined again with `\n`.
pub open spec fn map_lines(s: Seq<char>, i: int, p: Seq<char>, remove: bool) -> Seq<char>
    decreases s.len() - i,
{
    if i < 0 || i > s.len() {
        seq![]
    } else {
        let e = next_newline(s, i);
        proof {
            lemma_next_newline(s, i);
        }
        if e >= s.len() {
            edit_line(s.subrange(i, s.len() as int), p, remove)
        } else {
            edit_line(s.subrange(i, e), p, remove) + seq!['\n'] + map_lines(s, e + 1, p, remove)
        }
    }
}

/// Whether every line of `s` from position `i` on starts with `p`.
pub open spec fn all_lines_start_with(s: Seq<char>, i: int, p: Seq<char>) -> bool
    decreases s.len() - i,
{
    if i < 0 || i > s.len() {
        true
    } else {
        let e = next_newline(s, i);
        proof {
            lemma_next_newline(s, i);
        }
        let starts = p.len() <= e - i && s.subrange(i, i + p.len()) == p;
        if e >= s.len() {
            starts
        } else {
            starts && all_lines_start_with(s, e + 1, p)
        }
    }
}

/// The block of whole lines that the selection `[lo, hi)` touches.
pub open spec fn block_bounds(t: Seq<char>, lo: int, hi: int) -> (int, int) {
    (
        line_start_before(t, clamp(lo, t.len() as int)),
        next_newline(t, clamp(hi, t.len() as int)),
    )
}

/// The block after the prefix command.
pub open spec fn prefixed_block(t: Seq<char>, lo: int, hi: int, p: Seq<char>) -> Seq<char> {
    let (bs, be) = block_bounds(t, lo, hi);
    let block = t.subrange(bs, be);
    map_lines(block, 0, p, all_lines_start_with(block, 0, p))
}

/// The text after the prefix command.
pub open spec fn prefix_text(t: Seq<char>, lo: int, hi: int, p: Seq<char>) -> Seq<char> {
    let (bs, be) = block_bounds(t, lo, hi);
    t.take(bs) + prefixed_block(t, lo, hi, p) + t.skip(be)
}

/// Whether no line of `s` from position `i` on is blank.
pub open spec fn no_blank_lines(s: Seq<char>, i: int) -> bool
    decreases s.len() - i,
{
    if i < 0 || i > s.len() {
        true
    } else {
        let e = next_newline(s, i);
        proof {
            lemma_next_newline(s, i);
        }
        trim(s.subrange(i, e)).len() > 0 && (e >= s.len() || no_blank_lines(s, e + 1))
    }
}

/// `next_newline` is the first `\n` from `b` on.
proof fn lemma_next_newline_is(s: Seq<char>, b: int, k: int)
    requires
        0 <= b <= k <= s.len(),
        forall|m: int| b <= m < k ==> s[m] != '\n',
        k < s.len() ==> s[k] == '\n',
    ensures
        next_newline(s, b) == k,
    decreases k - b,
{
    if b < k {
        lemma_next_newline_is(s, b + 1, k);
    }
}

/// Looking for a newline behind a prefix `x` is looking for it in the rest.
proof fn lemma_next_newline_shift(x: Seq<char>, y: Seq<char>, j: int)
    requires
        0 <= j <= y.len(),
    ensures
        next_newline(x + y, x.len() + j) == x.len() + next_newline(y, j),
    decreases y.len() - j,
{
    if j < y.len() {
        assert((x + y)[x.len() + j] == y[j]);
        if y[j] != '\n' {
            lemma_next_newline_shift(x, y, j + 1);
        }
    }
}

/// Editing the lines behind a prefix `x` is editing the lines of the rest.
proof fn lemma_map_lines_shift(x: Seq<char>, y: Seq<char>, j: int, p: Seq<char>, remove: bool)
    requires
        0 <= j <= y.len(),
    ensures
        map_lines(x + y, x.len() + j, p, remove) == map_lines(y, j, p, remove),
    decreases y.len() - j,
{
    let xy = x + y;
    lemma_next_newline_shift(x, y, j);
    lemma_next_newline(y, j);
    let e = next_newline(y, j);
    if e >= y.len() {
        assert(xy.subrange(x.len() + j, xy.len() as int) =~= y.subrange(j, y.len() as int));
    } else {
        assert(xy.subrange(x.len() + j, x.len() + e) =~= y.subrange(j, e));
        lemma_map_lines_shift(x, y, e + 1, p, remove);
    }
}

/// Checking the lines behind a prefix `x` is checking the lines of the rest.
proof fn lemma_all_lines_shift(x: Seq<char>, y: Seq<char>, j: int, p: Seq<char>)
    requires
        0 <= j <= y.len(),
    ensures
        all_lines_start_with(x + y, x.len() + j, p) == all_lines_start_with(y, j, p),
    decreases y.len() - j,
{
    let xy = x + y;
    lemma_next_newline_shift(x, y, j);
    lemma_next_newline(y, j);
    let e = next_newline(y, j);
    if p.len() <= e - j {
        assert(xy.subrange(x.len() + j, x.len() + j + p.len()) =~= y.subrange(j, j + p.len()));
    }
    if e < y.len() {
        lemma_all_lines_shift(x, y, e + 1, p);
    }
}

/// The lines of `s` from a line start `i` on, prefixed and then stripped.
proof fn lemma_prefix_then_strip(s: Seq<char>, i: int, p: Seq<char>)
    requires
        0 <= i <= s.len(),
        no_blank_lines(s, i),
        !p.contains('\n'),
    ensures
        all_lines_start_with(map_lines(s, i, p, false), 0, p),
        map_lines(map_lines(s, i, p, false), 0, p, true) == s.subrange(i, s.len() as int),
    decreases s.len() - i,
{
    lemma_next_newline(s, i);
    let e = next_newline(s, i);
    let line = s.subrange(i, e);
    let edited = p + line;
    assert(edit_line(line, p, false) == edited);
    assert forall|m: int| 0 <= m < edited.len() implies edited[m] != '\n' by {
        if m < p.len() {
            assert(edited[m] == p[m]);
        } else {
            assert(edited[m] == s[i + m - p.len()]);
        }
    }
    assert(edited.take(p.len() as int) =~= p);
    assert(edited.skip(p.len() as int) =~= line);
    let out = map_lines(s, i, p, false);
    if e >= s.len() {
        assert(out == edited);
        lemma_next_newline_is(out, 0, out.len() as int);
        assert(out.subrange(0, p.len() as int) =~= p);
        assert(out.subrange(0, out.len() as int) =~= out);
    } else {
        lemma_prefix_then_strip(s, e + 1, p);
        let rest = map_lines(s, e + 1, p, false);
        let head = edited + seq!['\n'];
        assert(out == head + rest);
        lemma_next_newline_is(out, 0, edited.len() as int);
        assert(out.subrange(0, edited.len() as int) =~= edited);
        assert(out.subrange(0, p.len() as int) =~= p);
        lemma_all_lines_shift(head, rest, 0, p);
        lemma_map_lines_shift(head, rest, 0, p, true);
        assert(s.subrange(i, s.len() as int) =~= line + seq!['\n'] + s.subrange(
            e + 1,
            s.len() as int,
        ));
    }
}

/// Putting a prefix in front of the lines of a block without blank lines,
/// and running the command again, gives the block back: after the first
/// run every line has the prefix, so the second takes it away. (A prefix
/// that holds a line break would change the lines themselves.)
pub proof fn lemma_prefix_toggle_restores(block: Seq<char>, p: Seq<char>)
    requires
        no_blank_lines(block, 0),
        !p.contains('\n'),
    ensures
        all_lines_start_with(map_lines(block, 0, p, false), 0, p),
        map_lines(map_lines(block, 0, p, false), 0, p, true) == block,
{
    lemma_prefix_then_strip(block, 0, p);
    assert(block.subrange(0, block.len() as int) =~= block);
}

/// Running the prefix command twice on a block without blank lines, the
/// second time on the block that the first one selected, gives back the
/// text: the first run puts the prefix in front of every line (not all of
/// them had it), the second takes it away again.
pub proof fn lemma_prefix_twice_restores(t: Seq<char>, lo: int, hi: int, p: Seq<char>)
    requires
        0 <= lo <= hi,
        no_blank_lines(
            t.subrange(block_bounds(t, lo, hi).0, block_bounds(t, lo, hi).1),
            0,
        ),
        !all_lines_start_with(
            t.subrange(block_bounds(t, lo, hi).0, block_bounds(t, lo, hi).1),
            0,
            p,
        ),
        !p.contains('\n'),
    ensures
        prefix_text(
            prefix_text(t, lo, hi, p),
            block_bounds(t, lo, hi).0,
            block_bounds(t, lo, hi).0 + prefixed_block(t, lo, hi, p).len(),
            p,
        ) == t,
{
    let n = t.len() as int;
    let (bs, be) = block_bounds(t, lo, hi);
    lemma_line_start_before(t, clamp(lo, n));
    lemma_next_newline(t, clamp(hi, n));
    let block = t.subrange(bs, be);
    let nb = prefixed_block(t, lo, hi, p);
    assert(nb == map_lines(block, 0, p, false));
    lemma_prefix_toggle_restores(block, p);
    let t2 = prefix_text(t, lo, hi, p);
    assert(t2 == t.take(bs) + nb + t.skip(be));
    let s1 = bs + nb.len();
    assert(t2.len() == bs + nb.len() + (n - be));
    // The second run finds the same block, now prefixed.
    assert(clamp(bs, t2.len() as int) == bs);
    if bs > 0 {
        assert(t2[bs - 1] == t[bs - 1]);
    }
    assert(line_start_before(t2, bs) == bs);
    assert(clamp(s1, t2.len() as int) == s1);
    if s1 < t2.len() {
        assert(t2[s1] == t[be]);
    }
    assert(next_newline(t2, s1) == s1);
    assert(t2.subrange(bs, s1) =~= nb);
    assert(t2.take(bs) =~= t.take(bs));
    assert(t2.skip(s1) =~= t.skip(be));
    assert(t.take(bs) + block + t.skip(be) =~= t);
}

/// Whether `v[i..j]` starts with `p`.
fn line_starts_with(v: &Vec<char>, i: usize, j: usize, p: &Vec<char>) -> (r: bool)
    requires
        i <= j <= v@.len(),
    ensures
        r == (p@.len() <= j - i && v@.subrange(i as int, i + p@.len()) == p@),
{
    if j - i < p.len() {
        return false;
    }
    seq_at(v, i, p)
}

/// Appends `edit_line(v[i..j])` to `out`.
fn push_edited_line(out: &mut Vec<char>, v: &Vec<char>, i: usize, j: usize, p: &Vec<char>, remove: bool)
    requires
        i <= j <= v@.len(),
    ensures
        final(out)@ == old(out)@ + edit_line(v@.subrange(i as int, j as int), p@, remove),
{
    let ghost line = v@.subrange(i as int, j as int);
    if remove {
        if line_starts_with(v, i, j, p) {
            assert(line.take(p@.len() as int) =~= v@.subrange(i as int, i + p@.len()));
            extend_from(out, v, i + p.len(), j);
            assert(line.skip(p@.len() as int) =~= v@.subrange(i + p@.len(), j as int));
        } else {
            proof {
                if p@.len() <= line.len() {
                    assert(line.take(p@.len() as int) =~= v@.subrange(i as int, i + p@.len()));
                }
            }
            extend_from(out, v, i, j);
        }
    } else {
        let (x, y) = trim_bounds(v, i, j);
        if x == y {
            extend_from(out, v, i, j);
        } else {
            extend_from(out, p, 0, p.len());
            assert(p@.subrange(0, p@.len() as int) =~= p@);
            extend_from(out, v, i, j);
        }
    }
}

/// Puts `prefix` (such as `- ` or `> `) in front of every line that the
/// selection touches, or takes it away if every one of those lines has it.
/// Blank lines get no prefix. The whole block is selected afterwards.
pub fn toggle_line_prefix(text: &str, lo: usize, hi: usize, prefix: &str) -> (r: Edit)
    requires
        lo <= hi,
    ensures
        r.text@ == prefix_text(text@, lo as int, hi as int, prefix@),
        r.selection.0 == block_bounds(text@, lo as int, hi as int).0,
        r.selection.1 == block_bounds(text@, lo as int, hi as int).0 + prefixed_block(
            text@,
            lo as int,
            hi as int,
            prefix@,
        ).len(),
{
    let v = chars_of(text);
    let p = chars_of(prefix);
    let n = v.len();
    let a = if lo < n {
        lo
    } else {
        n
    };
    let b = if hi < n {
        hi
    } else {
        n
    };
    let bs = line_start_at(&v, a);
    let be = next_newline_at(&v, b);
    proof {
        lemma_line_start_before(v@, a as int);
        lemma_next_newline(v@, b as int);
    }
    let ghost block = v@.subrange(bs as int, be as int);
    // first pass: does every line carry the prefix?
    let mut remove = true;
    let mut ls = bs;
    loop
        invariant_except_break
            bs <= ls <= be <= v@.len(),
            be == v@.len() || v@[be as int] == '\n',
            block == v@.subrange(bs as int, be as int),
            all_lines_start_with(block, 0, p@) == (remove && all_lines_start_with(
                block,
                ls - bs,
                p@,
            )),
        ensures
            all_lines_start_with(block, 0, p@) == remove,
        decreases be - ls,
    {
        let e = next_newline_at(&v, ls);
        let e = if e < be {
            e
        } else {
            be
        };
        proof {
            lemma_next_newline(v@, ls as int);
            lemma_next_newline_in_block(v@, bs as int, be as int, ls as int);
        }
        let starts = line_starts_with(&v, ls, e, &p);
        proof {
            if p@.len() <= e - ls {
                assert(block.subrange(ls - bs, ls - bs + p@.len()) =~= v@.subrange(
                    ls as int,
                    ls + p@.len(),
                ));
            }
        }
        if !starts {
            remove = false;
        }
        if e >= be {
            break;
        }
        ls = e + 1;
    }
    // second pass: edit each line
    let mut out: Vec<char> = Vec::new();
    extend_from(&mut out, &v, 0, bs);
    let mut ls = bs;
    loop
        invariant_except_break
            bs <= ls <= be <= v@.len(),
            be == v@.len() || v@[be as int] == '\n',
            block == v@.subrange(bs as int, be as int),
            out@.len() >= bs,
            out@.subrange(0, bs as int) == v@.take(bs as int),
            out@.subrange(bs as int, out@.len() as int) + map_lines(
                block,
                ls - bs,
                p@,
                remove,
            ) == map_lines(block, 0, p@, remove),
        ensures
            out@.len() >= bs,
            out@.subrange(0, bs as int) == v@.take(bs as int),
            out@.subrange(bs as int, out@.len() as int) == map_lines(block, 0, p@, remove),
        decreases be - ls,
    {
        let e = next_newline_at(&v, ls);
        let e = if e < be {
            e
        } else {
            be
        };
        proof {
            lemma_next_newline(v@, ls as int);
            lemma_next_newline_in_block(v@, bs as int, be as int, ls as int);
        }
        let ghost before = out@;
        push_edited_line(&mut out, &v, ls, e, &p, remove);
        assert(block.subrange(ls - bs, e - bs) =~= v@.subrange(ls as int, e as int));
        if e >= be {
            assert(out@.subrange(bs as int, out@.len() as int) =~= before.subrange(
                bs as int,
                before.len() as int,
            ) + edit_line(v@.subrange(ls as int, e as int), p@, remove));
            assert(out@.subrange(0, bs as int) =~= before.subrange(0, bs as int));
            break;
        }
        out.push('\n');
        assert(out@.subrange(bs as int, out@.len() as int) =~= before.subrange(
            bs as int,
            before.len() as int,
        ) + edit_line(v@.subrange(ls as int, e as int), p@, remove) + seq!['\n']);
        assert(out@.subrange(0, bs as int) =~= before.subrange(0, bs as int));
        ls = e + 1;
    }
    let new_len = out.len() - bs;
    extend_from(&mut out, &v, be, n);
    assert(out@ =~= prefix_text(text@, lo as int, hi as int, prefix@));
    Edit { text: string_of(&out), selection: (bs, bs + new_len) }
}

/// Inside the block `[bs, be)`, the next newline seen from the block is the
/// next newline of the text, cut at the block's end.
proof fn lemma_next_newline_in_block(s: Seq<char>, bs: int, be: int, ls: int)
    requires
        0 <= bs <= ls <= be <= s.len(),
        be == s.len() || s[be] == '\n',
    ensures
        next_newline(s.subrange(bs, be), ls - bs) + bs == clamp(next_newline(s, ls), be),
    decreases be - ls,
{
    lemma_next_newline(s, ls);
    let b = s.subrange(bs, be);
    if ls < be {
        assert(b[ls - bs] == s[ls]);
        if s[ls] != '\n' {
            lemma_next_newline_in_block(s, bs, be, ls + 1);
        }
    }
}

// ------------------------------------------------------------------ headings

/// `k` times `#`.
pub open spec fn hashes(k: nat) -> Seq<char> {
    Seq::new(k, |i: int| '#')
}

/// The body of a heading line: without its leading `#`s and one space after them.
pub open spec fn heading_body(line: Seq<char>) -> Seq<char> {
    let rest = line.skip(run_of(line, '#') as int);
    if rest.len() > 0 && rest[0] == ' ' {
        rest.drop_first()
    } else {
        rest
    }
}

/// A line made into a level-`level` heading, or made plain if it already is one.
pub open spec fn heading_line(line: Seq<char>, level: nat) -> Seq<char> {
    let existing = run_of(line, '#');
    if existing > 0 && existing == level {
        heading_body(line)
    } else {
        hashes(level) + seq![' '] + heading_body(line)
    }
}

/// The bounds of the line that holds the cursor `lo`.
pub open spec fn cursor_line(t: Seq<char>, lo: int) -> (int, int) {
    let a = clamp(lo, t.len() as int);
    (line_start_before(t, a), next_newline(t, a))
}

/// The text after the heading command at cursor `lo`.
pub open spec fn heading_text(t: Seq<char>, lo: int, level: nat) -> Seq<char> {
    let (ls, le) = cursor_line(t, lo);
    t.take(ls) + heading_line(t.subrange(ls, le), level) + t.skip(le)
}

/// Where the cursor goes: to the end of the edited line.
pub open spec fn heading_cursor(t: Seq<char>, lo: int, level: nat) -> int {
    let (ls, le) = cursor_line(t, lo);
    ls + heading_line(t.subrange(ls, le), level).len()
}

/// Makes the line under the cursor a heading of `level`; if it already is a
/// heading of that level, makes it plain text again. The cursor goes to the
/// end of the line.
#[verifier::spinoff_prover]
#[verifier::rlimit(40)]
pub fn set_heading(text: &str, lo: usize, level: u8) -> (r: Edit)
    ensures
        r.text@ == heading_text(text@, lo as int, level as nat),
        r.selection.0 == heading_cursor(text@, lo as int, level as nat),
        r.selection.1 == r.selection.0,
{
    let v = chars_of(text);
    let n = v.len();
    let a = if lo < n {
        lo
    } else {
        n
    };
    let ls = line_start_at(&v, a);
    let le = next_newline_at(&v, a);
    proof {
        lemma_line_start_before(v@, a as int);
        lemma_next_newline(v@, a as int);
    }
    let ghost line = v@.subrange(ls as int, le as int);
    let existing = run_len(&v, ls, le, '#');
    assert(line.skip(existing as int) =~= v@.subrange(ls + existing, le as int));
    let mut body_start = ls + existing;
    if body_start < le && v[body_start] == ' ' {
        assert(v@.subrange(ls + existing, le as int).drop_first() =~= v@.subrange(
            body_start + 1,
            le as int,
        ));
        body_start += 1;
    }
    assert(heading_body(line) =~= v@.subrange(body_start as int, le as int));
    let mut out: Vec<char> = Vec::new();
    extend_from(&mut out, &v, 0, ls);
    let before = out.len();
    if existing > 0 && existing == level as usize {
        extend_from(&mut out, &v, body_start, le);
    } else {
        let mut k: u8 = 0;
        while k < level
            invariant
                k <= level,
                out@ == v@.take(ls as int) + hashes(k as nat),
            decreases level - k,
        {
            out.push('#');
            assert(hashes((k + 1) as nat) =~= hashes(k as nat).push('#'));
            k += 1;
        }
        out.push(' ');
        extend_from(&mut out, &v, body_start, le);
    }
    let line_len = out.len() - before;
    extend_from(&mut out, &v, le, n);
    assert(out@ =~= heading_text(text@, lo as int, level as nat));
    let at = ls + line_len;
    Edit { text: string_of(&out), selection: (at, at) }
}

proof fn lemma_line_bounds_after_edit(t: Seq<char>, ls: int, le: int, new_line: Seq<char>)
    requires
        0 <= ls <= le <= t.len(),
        ls > 0 ==> t[ls - 1] == '\n',
        le < t.len() ==> t[le] == '\n',
        forall|k: int| 0 <= k < new_line.len() ==> new_line[k] != '\n',
    ensures
        ({
            let t2 = t.take(ls) + new_line + t.skip(le);
            let e = ls + new_line.len();
            &&& line_start_before(t2, e) == ls
            &&& next_newline(t2, e) == e
            &&& t2.subrange(ls, e) == new_line
        }),
{
    let t2 = t.take(ls) + new_line + t.skip(le);
    let e = ls + new_line.len();
    assert(t2.subrange(ls, e) =~= new_line);
    lemma_line_start_in_line(t2, ls, e);
    if le < t.len() {
        assert(t2[e] == t[le]);
    } else {
        assert(t2.len() == e);
    }
}

proof fn lemma_line_start_in_line(t: Seq<char>, ls: int, a: int)
    requires
        0 <= ls <= a <= t.len(),
        ls > 0 ==> t[ls - 1] == '\n',
        forall|k: int| ls <= k < a ==> t[k] != '\n',
    ensures
        line_start_before(t, a) == ls,
    decreases a - ls,
{
    if a > ls {
        lemma_line_start_in_line(t, ls, a - 1);
    }
}

/// Making a plain line (one that starts with neither `#` nor a space) a
/// heading and giving the same command again at the new cursor restores the
/// text.
pub proof fn lemma_heading_twice_restores(t: Seq<char>, lo: int, level: nat)
    requires
        0 <= lo,
        level >= 1,
        ({
            let (ls, le) = cursor_line(t, lo);
            ls < le ==> t[ls] != '#' && t[ls] != ' '
        }),
    ensures
        heading_text(heading_text(t, lo, level), heading_cursor(t, lo, level), level) == t,
{
    let a = clamp(lo, t.len() as int);
    lemma_line_start_before(t, a);
    lemma_next_newline(t, a);
    let (ls, le) = cursor_line(t, lo);
    let line = t.subrange(ls, le);
    assert(forall|k: int| 0 <= k < line.len() ==> line[k] == t[ls + k]);
    assert forall|k: int| 0 <= k < line.len() implies line[k] != '\n' by {
        if ls + k < a {
        } else {
        }
    }
    assert(run_of(line, '#') == 0) by {
        if line.len() > 0 {
            assert(line[0] == t[ls]);
        }
    }
    assert(line.skip(0) =~= line);
    assert(heading_body(line) == line) by {
        if line.len() > 0 {
            assert(line[0] == t[ls]);
        }
    }
    let new_line = hashes(level) + seq![' '] + line;
    assert(heading_line(line, level) == new_line);
    assert forall|k: int| 0 <= k < new_line.len() implies new_line[k] != '\n' by {
        if k >= level + 1 {
            assert(new_line[k] == line[k - level - 1]);
        }
    }
    lemma_line_bounds_after_edit(t, ls, le, new_line);
    let t2 = heading_text(t, lo, level);
    let e = ls + new_line.len();
    assert(t2 =~= t.take(ls) + new_line + t.skip(le));
    assert(e <= t2.len());
    assert(clamp(e, t2.len() as int) == e);
    lemma_run_hashes(level, line);
    assert(new_line.skip(level as int) =~= seq![' '] + line);
    assert((seq![' '] + line).drop_first() =~= line);
    assert(heading_line(new_line, level) == line);
    assert(t2.take(ls) + line + t2.skip(e) =~= t);
}

proof fn lemma_run_hashes(level: nat, line: Seq<char>)
    ensures
        run_of(hashes(level) + seq![' '] + line, '#') == level,
    decreases level,
{
    let s = hashes(level) + seq![' '] + line;
    if level == 0 {
        assert(s[0] == ' ');
    } else {
        assert(s[0] == '#');
        assert(s.drop_first() =~= hashes((level - 1) as nat) + seq![' '] + line);
        lemma_run_hashes((level - 1) as nat, line);
    }
}

/// A heading line made from a line without `\n` holds no `\n` either.
proof fn lemma_heading_line_one_line(line: Seq<char>, level: nat)
    requires
        forall|k: int| 0 <= k < line.len() ==> line[k] != '\n',
    ensures
        forall|k: int|
            0 <= k < heading_line(line, level).len() ==> heading_line(line, level)[k] != '\n',
{
    let run = run_of(line, '#');
    crate::text::lemma_run_of_le(line, '#');
    let rest = line.skip(run as int);
    assert(forall|k: int| 0 <= k < rest.len() ==> rest[k] == line[k + run]);
    let body = heading_body(line);
    assert forall|k: int| 0 <= k < body.len() implies body[k] != '\n' by {
        if rest.len() > 0 && rest[0] == ' ' {
            assert(body[k] == rest[k + 1]);
        } else {
            assert(body[k] == rest[k]);
        }
    }
    let m = heading_line(line, level);
    if !(run > 0 && run == level) {
        let h = hashes(level) + seq![' '];
        assert forall|k: int| 0 <= k < m.len() implies m[k] != '\n' by {
            if k >= h.len() {
                assert(m[k] == body[k - h.len()]);
            } else {
                assert(m[k] == h[k]);
            }
        }
    }
}

/// The heading command edits exactly the line that holds the cursor. That
/// line starts at or before the cursor (a cursor past the end counts as the
/// end), just after a `\n` or at the start of the text, with no `\n` between
/// its start and the cursor; it ends at the first `\n` at or after the
/// cursor, or at the end of the text. Everything before and after that line
/// is unchanged, the edited line holds no `\n`, and the cursor lands at its
/// end.
pub proof fn lemma_heading_edits_cursor_line(t: Seq<char>, lo: int, level: nat)
    requires
        0 <= lo,
    ensures
        ({
            let a = clamp(lo, t.len() as int);
            let (ls, le) = cursor_line(t, lo);
            let r = heading_text(t, lo, level);
            let e = heading_cursor(t, lo, level);
            &&& 0 <= ls <= a <= le <= t.len()
            &&& ls > 0 ==> t[ls - 1] == '\n'
            &&& forall|k: int| ls <= k < a ==> t[k] != '\n'
            &&& le < t.len() ==> t[le] == '\n'
            &&& forall|k: int| a <= k < le ==> t[k] != '\n'
            &&& ls <= e <= r.len()
            &&& r.take(ls) == t.take(ls)
            &&& r.skip(e) == t.skip(le)
            &&& r.subrange(ls, e) == heading_line(t.subrange(ls, le), level)
            &&& forall|k: int| ls <= k < e ==> r[k] != '\n'
        }),
{
    let a = clamp(lo, t.len() as int);
    lemma_line_start_before(t, a);
    lemma_next_newline(t, a);
    let (ls, le) = cursor_line(t, lo);
    let line = t.subrange(ls, le);
    assert forall|k: int| 0 <= k < line.len() implies line[k] != '\n' by {
        assert(line[k] == t[ls + k]);
        if ls + k < a {
        } else {
        }
    }
    lemma_heading_line_one_line(line, level);
    let m = heading_line(line, level);
    let r = heading_text(t, lo, level);
    let e = ls + m.len();
    assert(r =~= t.take(ls) + m + t.skip(le));
    assert(r.take(ls) =~= t.take(ls));
    assert(r.skip(e) =~= t.skip(le));
    assert(r.subrange(ls, e) =~= m);
    assert forall|k: int| ls <= k < e implies r[k] != '\n' by {
        assert(r[k] == m[k - ls]);
    }
}

// ------------------------------------------------------------------ line numbers

/// Whether screen row `i` begins a logical line: the first row does, and so
/// does a row after one that ends with a newline. A row that a long line was
/// wrapped onto does not.
pub open spec fn starts_line(ends_with_newline: Seq<bool>, i: int) -> bool {
    i == 0 || ends_with_newline[i - 1]
}

/// The first screen row of each logical line among the first `n` rows, in
/// order: entry `k` is where line `k` begins.
pub open spec fn line_rows(ends_with_newline: Seq<bool>, n: int) -> Seq<usize>
    decreases n,
{
    if n <= 0 {
        Seq::<usize>::empty()
    } else {
        line_rows(ends_with_newline, n - 1) + if starts_line(ends_with_newline, n - 1) {
            seq![(n - 1) as usize]
        } else {
            Seq::<usize>::empty()
        }
    }
}

/// For each logical line, the screen row it begins on. `ends_with_newline`
/// tells, row by row, whether the row ends a logical line. The line numbers
/// in the gutter and the jump to a line both come from here, so they agree.
pub fn logical_line_rows(ends_with_newline: &[bool]) -> (r: Vec<usize>)
    ensures
        r@ == line_rows(ends_with_newline@, ends_with_newline@.len() as int),
{
    let mut r: Vec<usize> = Vec::new();
    let mut i: usize = 0;
    while i < ends_with_newline.len()
        invariant
            i <= ends_with_newline@.len(),
            r@ == line_rows(ends_with_newline@, i as int),
        decreases ends_with_newline@.len() - i,
    {
        let starts = i == 0 || ends_with_newline[i - 1];
        if starts {
            r.push(i);
        }
        i += 1;
        assert(r@ =~= line_rows(ends_with_newline@, i as int));
    }
    r
}

/// The screen row on which logical line `target` begins; `None` past the
/// last line.
pub fn line_top_row(ends_with_newline: &[bool], target: usize) -> (r: Option<usize>)
    ensures
        r == if target < line_rows(ends_with_newline@, ends_with_newline@.len() as int).len() {
            Some(line_rows(ends_with_newline@, ends_with_newline@.len() as int)[target as int])
        } else {
            None::<usize>
        },
{
    let rows = logical_line_rows(ends_with_newline);
    if target < rows.len() {
        Some(rows[target])
    } else {
        None
    }
}

/// Line `k` begins on a row that begins a line, lines begin on ever later
/// rows, and the first line begins on the first row.
pub proof fn lemma_line_rows_ordered(ends_with_newline: Seq<bool>, n: int)
    requires
        0 <= n <= ends_with_newline.len(),
        ends_with_newline.len() <= usize::MAX,
    ensures
        forall|k: int|
            0 <= k < line_rows(ends_with_newline, n).len() ==> #[trigger] line_rows(
                ends_with_newline,
                n,
            )[k] < n && starts_line(ends_with_newline, line_rows(ends_with_newline, n)[k] as int),
        forall|a: int, b: int|
            0 <= a < b < line_rows(ends_with_newline, n).len() ==> line_rows(ends_with_newline, n)[a]
                < line_rows(ends_with_newline, n)[b],
        n > 0 ==> line_rows(ends_with_newline, n).len() > 0 && line_rows(ends_with_newline, n)[0]
            == 0,
    decreases n,
{
    if n > 0 {
        lemma_line_rows_ordered(ends_with_newline, n - 1);
        let prev = line_rows(ends_with_newline, n - 1);
        let cur = line_rows(ends_with_newline, n);
        assert forall|k: int| 0 <= k < prev.len() implies cur[k] == prev[k] by {}
        assert forall|k: int| 0 <= k < cur.len() implies #[trigger] cur[k] < n && starts_line(
            ends_with_newline,
            cur[k] as int,
        ) by {
            if k < prev.len() {
                assert(cur[k] == prev[k]);
            } else {
                assert(starts_line(ends_with_newline, n - 1));
                assert(cur[k] == n - 1);
            }
        }
        assert forall|a: int, b: int| 0 <= a < b < cur.len() implies cur[a] < cur[b] by {
            assert(cur[a] == prev[a]);
            if b < prev.len() {
                assert(cur[b] == prev[b]);
            } else {
                assert(cur[b] == n - 1);
            }
        }
        if n == 1 {
            assert(prev.len() == 0);
            assert(starts_line(ends_with_newline, 0));
            assert(cur =~= seq![0usize]);
        } else {
            assert(cur[0] == prev[0]);
        }
    }
}

} // verus!
