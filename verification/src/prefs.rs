//! User preferences: the window layout, the colour theme and the list of
//! recently opened files.
use vstd::prelude::*;

use crate::document::{opt_view, path_parent, paths_equal, same_path};
use crate::i18n::Strings;

verus! {

/// How many recent files are remembered.
pub const MAX_RECENT: usize = 12;

/// The window's layout: editor and preview side by side, or one of them.
#[derive(Debug, Clone, Copy, PartialEq, Eq, Structural)]
pub enum ViewMode {
    Split,
    Editor,
    Preview,
}

impl ViewMode {
    /// Every layout, in menu order.
    pub const ALL: [ViewMode; 3] = [ViewMode::Split, ViewMode::Editor, ViewMode::Preview];

    /// The layout's name in the status bar.
    pub fn label(self) -> (r: &'static str)
        ensures
            r == match self {
                ViewMode::Split => "分栏",
                ViewMode::Editor => "编辑",
                ViewMode::Preview => "预览",
            },
    {
        match self {
            ViewMode::Split => "分栏",
            ViewMode::Editor => "编辑",
            ViewMode::Preview => "预览",
        }
    }
}

impl ViewMode {
    /// The layout's name in the interface's language.
    pub fn label_in(self, s: &Strings) -> (r: &'static str)
        ensures
            r == match self {
                ViewMode::Split => s.view_split,
                ViewMode::Editor => s.view_editor,
                ViewMode::Preview => s.view_preview,
            },
    {
        match self {
            ViewMode::Split => s.view_split,
            ViewMode::Editor => s.view_editor,
            ViewMode::Preview => s.view_preview,
        }
    }
}

/// The colour theme. `System` follows the system's light or dark mode.
#[derive(Debug, Clone, Copy, PartialEq, Eq, Structural)]
pub enum AppTheme {
    System,
    Light,
    Dark,
}

impl AppTheme {
    /// The theme's name in the status bar.
    pub fn label(self) -> (r: &'static str)
        ensures
            r == match self {
                AppTheme::System => "跟随系统",
                AppTheme::Light => "浅色",
                AppTheme::Dark => "深色",
            },
    {
        match self {
            AppTheme::System => "跟随系统",
            AppTheme::Light => "浅色",
            AppTheme::Dark => "深色",
        }
    }

    /// The theme's name in the interface's language.
    pub fn label_in(self, s: &Strings) -> (r: &'static str)
        ensures
            r == match self {
                AppTheme::System => s.theme_system,
                AppTheme::Light => s.theme_light,
                AppTheme::Dark => s.theme_dark,
            },
    {
        match self {
            AppTheme::System => s.theme_system,
            AppTheme::Light => s.theme_light,
            AppTheme::Dark => s.theme_dark,
        }
    }

    /// The theme that one click of the menu item moves on to.
    pub fn next(self) -> (r: AppTheme)
        ensures
            r == next_theme(self),
    {
        match self {
            AppTheme::System => AppTheme::Light,
            AppTheme::Light => AppTheme::Dark,
            AppTheme::Dark => AppTheme::System,
        }
    }
}

/// The theme after `t` in the cycle System, Light, Dark.
pub open spec fn next_theme(t: AppTheme) -> AppTheme {
    match t {
        AppTheme::System => AppTheme::Light,
        AppTheme::Light => AppTheme::Dark,
        AppTheme::Dark => AppTheme::System,
    }
}

/// Three clicks of the theme item come back to the theme one started from,
/// having passed through the other two.
pub proof fn lemma_theme_cycle(t: AppTheme)
    ensures
        next_theme(next_theme(next_theme(t))) == t,
        next_theme(t) != t,
        next_theme(next_theme(t)) != t,
        next_theme(next_theme(t)) != next_theme(t),
{
}

/// The views of a list of paths.
pub open spec fn path_views(v: Seq<String>) -> Seq<Seq<char>> {
    v.map_values(|s: String| s@)
}

/// `s` without the entries that are the same path as `p` (compared as
/// paths, component by component), in order.
pub open spec fn without(s: Seq<Seq<char>>, p: Seq<char>) -> Seq<Seq<char>>
    decreases s.len(),
{
    if s.len() == 0 {
        s
    } else {
        without(s.drop_last(), p) + if paths_equal(s.last(), p) {
            Seq::<Seq<char>>::empty()
        } else {
            seq![s.last()]
        }
    }
}

/// The recent list after `p` is opened: `p` first, then the others in their
/// order, no more than [`MAX_RECENT`] of them.
pub open spec fn touched(s: Seq<Seq<char>>, p: Seq<char>) -> Seq<Seq<char>> {
    let all = seq![p] + without(s, p);
    if all.len() > MAX_RECENT {
        all.take(MAX_RECENT as int)
    } else {
        all
    }
}

/// No entry is the same path as an entry before it.
pub open spec fn distinct(s: Seq<Seq<char>>) -> bool {
    forall|i: int, j: int| 0 <= i < j < s.len() ==> !paths_equal(s[j], s[i])
}

/// The last opened directory after `p` is opened: its parent directory,
/// unless `p` has none or only the empty one (a bare file name).
pub open spec fn touched_dir(last_dir: Option<Seq<char>>, p: Seq<char>) -> Option<Seq<char>> {
    match path_parent(p) {
        Some(d) => if d.len() > 0 {
            Some(d)
        } else {
            last_dir
        },
        None => last_dir,
    }
}

/// Puts `path` first in the recent list, removing the entries that are the
/// same path (compared as paths, so `/tmp//a.md` goes for `/tmp/a.md`) and
/// keeping at most [`MAX_RECENT`] entries, and remembers its directory for
/// the open and save dialogs.
pub fn touch_recent(recent: &mut Vec<String>, last_dir: &mut Option<String>, path: &str)
    ensures
        path_views(final(recent)@) == touched(path_views(old(recent)@), path@),
        opt_view(*final(last_dir)) == touched_dir(opt_view(*old(last_dir)), path@),
{
    let ghost olds = path_views(recent@);
    let p: String = path.to_owned();
    let mut out: Vec<String> = Vec::new();
    out.push(p.clone());
    let mut i: usize = 0;
    assert(olds.take(0) =~= Seq::<Seq<char>>::empty());
    while i < recent.len() && out.len() < MAX_RECENT
        invariant
            i <= recent@.len(),
            olds == path_views(recent@),
            p@ == path@,
            1 <= out@.len() <= MAX_RECENT,
            out@.len() <= 1 + without(olds.take(i as int), path@).len(),
            path_views(out@) == (seq![path@] + without(olds.take(i as int), path@)).take(
                out@.len() as int,
            ),
            out@.len() < MAX_RECENT ==> path_views(out@) == seq![path@] + without(
                olds.take(i as int),
                path@,
            ),
        decreases recent@.len() - i,
    {
        let ghost before = path_views(out@);
        assert(olds.take(i + 1).drop_last() =~= olds.take(i as int));
        assert(olds.take(i + 1).last() == recent@[i as int]@);
        if !same_path(recent[i].as_str(), p.as_str()) {
            out.push(recent[i].clone());
            assert(path_views(out@) =~= before.push(recent@[i as int]@));
        }
        i += 1;
        assert(path_views(out@) =~= seq![path@] + without(olds.take(i as int), path@));
    }
    proof {
        let all = seq![path@] + without(olds, path@);
        let wi = without(olds.take(i as int), path@);
        if out@.len() < MAX_RECENT {
            assert(olds.take(i as int) =~= olds);
            lemma_without_len(olds, path@);
        } else {
            lemma_without_prefix(olds, path@, i as int);
            assert(all.take(MAX_RECENT as int) =~= (seq![path@] + wi).take(MAX_RECENT as int));
        }
    }
    *recent = out;
    let dir = crate::document::parent_of(path);
    match dir {
        Some(d) => {
            proof {
                crate::text::lemma_utf8_len_ge(d@);
                if d@.len() == 0 {
                    assert(vstd::utf8::encode_utf8(d@) =~= Seq::<u8>::empty());
                }
            }
            if crate::text::byte_len(d.as_str()) > 0 {
                *last_dir = Some(d);
            }
        },
        None => {},
    }
}

/// The entries of `s` whose flag is set, in order.
pub open spec fn kept(s: Seq<Seq<char>>, flags: Seq<bool>) -> Seq<Seq<char>>
    decreases s.len(),
{
    if s.len() == 0 {
        s
    } else {
        kept(s.drop_last(), flags) + if flags[s.len() - 1] {
            seq![s.last()]
        } else {
            Seq::<Seq<char>>::empty()
        }
    }
}

/// Drops the recent files that no longer exist (`exists[i]` says whether
/// `recent[i]` does; a removed drive or a deleted file), and forgets a last
/// directory that is the empty path.
pub fn prune_recent(recent: &mut Vec<String>, exists: &[bool], last_dir: &mut Option<String>)
    requires
        exists@.len() == old(recent)@.len(),
    ensures
        path_views(final(recent)@) == kept(path_views(old(recent)@), exists@),
        opt_view(*final(last_dir)) == match opt_view(*old(last_dir)) {
            Some(d) => if d.len() == 0 {
                None
            } else {
                Some(d)
            },
            None => None,
        },
{
    let ghost olds = path_views(recent@);
    let mut out: Vec<String> = Vec::new();
    let mut i: usize = 0;
    assert(olds.take(0) =~= Seq::<Seq<char>>::empty());
    while i < recent.len()
        invariant
            i <= recent@.len(),
            exists@.len() == recent@.len(),
            olds == path_views(recent@),
            path_views(out@) == kept(olds.take(i as int), exists@),
        decreases recent@.len() - i,
    {
        let ghost before = path_views(out@);
        assert(olds.take(i + 1).drop_last() =~= olds.take(i as int));
        assert(olds.take(i + 1).last() == recent@[i as int]@);
        if exists[i] {
            out.push(recent[i].clone());
            assert(path_views(out@) =~= before.push(recent@[i as int]@));
        } else {
            assert(path_views(out@) =~= before);
        }
        i += 1;
        assert(path_views(out@) =~= kept(olds.take(i as int), exists@));
    }
    assert(olds.take(i as int) =~= olds);
    *recent = out;
    let empty = match &*last_dir {
        Some(d) => {
            proof {
                crate::text::lemma_utf8_len_ge(d@);
                if d@.len() == 0 {
                    assert(vstd::utf8::encode_utf8(d@) =~= Seq::<u8>::empty());
                }
            }
            crate::text::byte_len(d.as_str()) == 0
        },
        None => false,
    };
    if empty {
        *last_dir = None;
    }
}

/// `without` never grows a list.
proof fn lemma_without_len(s: Seq<Seq<char>>, p: Seq<char>)
    ensures
        without(s, p).len() <= s.len(),
    decreases s.len(),
{
    if s.len() > 0 {
        lemma_without_len(s.drop_last(), p);
    }
}

/// Filtering a prefix gives a prefix of the filtered list.
proof fn lemma_without_prefix(s: Seq<Seq<char>>, p: Seq<char>, i: int)
    requires
        0 <= i <= s.len(),
    ensures
        without(s.take(i), p).len() <= without(s, p).len(),
        without(s, p).take(without(s.take(i), p).len() as int) == without(s.take(i), p),
    decreases s.len() - i,
{
    if i < s.len() {
        lemma_without_prefix(s, p, i + 1);
        assert(s.take(i + 1).drop_last() =~= s.take(i));
        let a = without(s.take(i), p);
        let b = without(s.take(i + 1), p);
        let c = without(s, p);
        assert(c.take(a.len() as int) =~= b.take(a.len() as int));
        assert(b.take(a.len() as int) =~= a);
    } else {
        assert(s.take(i) =~= s);
    }
}

/// What `without` keeps comes from the list and is not the path `p`; a list
/// without repeats stays without repeats.
proof fn lemma_without_members(s: Seq<Seq<char>>, p: Seq<char>)
    ensures
        forall|k: int|
            0 <= k < without(s, p).len() ==> !paths_equal(without(s, p)[k], p) && exists|j: int|
                0 <= j < s.len() && s[j] == #[trigger] without(s, p)[k],
        distinct(s) ==> distinct(without(s, p)),
    decreases s.len(),
{
    if s.len() > 0 {
        let s0 = s.drop_last();
        lemma_without_members(s0, p);
        let w0 = without(s0, p);
        let w = without(s, p);
        assert forall|k: int| 0 <= k < w.len() implies !paths_equal(w[k], p) && exists|j: int|
            0 <= j < s.len() && s[j] == #[trigger] w[k] by {
            if k < w0.len() {
                assert(w[k] == w0[k]);
                let j = choose|j: int| 0 <= j < s0.len() && s0[j] == w0[k];
                assert(s[j] == s0[j]);
            } else {
                assert(w[k] == s.last());
                assert(s[s.len() - 1] == s.last());
            }
        }
        if distinct(s) {
            assert forall|a: int, b: int| 0 <= a < b < w.len() implies !paths_equal(w[b], w[a]) by {
                if b < w0.len() {
                    assert(w[a] == w0[a] && w[b] == w0[b]);
                } else {
                    assert(w[b] == s.last());
                    assert(w[a] == w0[a]);
                    let j = choose|j: int| 0 <= j < s0.len() && s0[j] == w0[a];
                    assert(s[j] == s0[j]);
                    assert(!paths_equal(s[s.len() - 1], s[j]));
                }
            }
        }
    }
}

/// Opening a file puts it first in the recent list, keeps the list within
/// [`MAX_RECENT`] entries, and never lists a path twice: no entry is the same
/// path as one before it.
pub proof fn lemma_touch_recent(s: Seq<Seq<char>>, p: Seq<char>)
    requires
        distinct(s),
    ensures
        touched(s, p).len() >= 1,
        touched(s, p)[0] == p,
        touched(s, p).len() <= MAX_RECENT,
        distinct(touched(s, p)),
{
    lemma_without_members(s, p);
    let w = without(s, p);
    let all = seq![p] + w;
    assert forall|a: int, b: int| 0 <= a < b < all.len() implies !paths_equal(all[b], all[a]) by {
        assert(all[b] == w[b - 1]);
        if a > 0 {
            assert(all[a] == w[a - 1]);
        }
    }
}

} // verus!
