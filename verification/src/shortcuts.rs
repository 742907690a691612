//! Keyboard shortcuts: which commands have one, and how their labels get
//! into the interface text.
//!
//! Templates in [`crate::i18n`] never spell a key out; they name it with a
//! placeholder such as `{save}`, which [`fill_keys`] replaces with the label
//! of the platform (`⌘S` on macOS, `Ctrl+S` elsewhere). The label itself is
//! made by the windowing toolkit from the binding that [`Command`] stands for.
use vstd::prelude::*;

use crate::prefs::ViewMode;
use crate::state::Action;
use crate::text::chars_of;
use crate::text::string_of;

verus! {

/// A command that has a keyboard shortcut.
#[derive(Debug, Clone, Copy, PartialEq, Eq, Structural)]
pub enum Command {
    New,
    Open,
    Save,
    SaveAs,
    ExportHtml,
    Quit,
    ViewEditor,
    ViewSplit,
    ViewPreview,
    ToggleOutline,
    ToggleLineNumbers,
    CycleTheme,
    ZoomIn,
    /// `=`, which is `+` without Shift on most keyboards; never shown.
    ZoomInEquals,
    ZoomOut,
    ZoomReset,
    Find,
    FindNext,
    FindPrev,
    Bold,
    Italic,
    Strikethrough,
    Link,
    InlineCode,
    BulletList,
    Blockquote,
    Heading1,
    Heading2,
    Heading3,
    /// Undo and redo belong to the text field; only their labels are shown.
    Undo,
    Redo,
}

/// The placeholders that templates may use, each with the command whose
/// label fills it: `{save}` is the label of [`Command::Save`]. Aliases such
/// as [`Command::ZoomInEquals`] have none.
pub const PLACEHOLDERS: [(&'static str, Command); 29] = [
    ("new", Command::New),
    ("open", Command::Open),
    ("save", Command::Save),
    ("save_as", Command::SaveAs),
    ("export_html", Command::ExportHtml),
    ("view_editor", Command::ViewEditor),
    ("view_split", Command::ViewSplit),
    ("view_preview", Command::ViewPreview),
    ("toggle_outline", Command::ToggleOutline),
    ("toggle_line_numbers", Command::ToggleLineNumbers),
    ("cycle_theme", Command::CycleTheme),
    ("zoom_in", Command::ZoomIn),
    ("zoom_out", Command::ZoomOut),
    ("zoom_reset", Command::ZoomReset),
    ("find", Command::Find),
    ("find_next", Command::FindNext),
    ("find_prev", Command::FindPrev),
    ("bold", Command::Bold),
    ("italic", Command::Italic),
    ("strikethrough", Command::Strikethrough),
    ("link", Command::Link),
    ("inline_code", Command::InlineCode),
    ("bullet_list", Command::BulletList),
    ("blockquote", Command::Blockquote),
    ("heading1", Command::Heading1),
    ("heading2", Command::Heading2),
    ("heading3", Command::Heading3),
    ("undo", Command::Undo),
    ("redo", Command::Redo),
];

/// What a command's shortcut asks for. Undo and redo belong to the text
/// field and ask nothing of the application.
pub open spec fn command_action(command: Command) -> Option<Action> {
    match command {
        Command::New => Some(Action::New),
        Command::Open => Some(Action::Open),
        Command::Save => Some(Action::Save),
        Command::SaveAs => Some(Action::SaveAs),
        Command::ExportHtml => Some(Action::ExportHtml),
        Command::Quit => Some(Action::Quit),
        Command::ViewEditor => Some(Action::SetView(ViewMode::Editor)),
        Command::ViewSplit => Some(Action::SetView(ViewMode::Split)),
        Command::ViewPreview => Some(Action::SetView(ViewMode::Preview)),
        Command::ToggleOutline => Some(Action::ToggleOutline),
        Command::ToggleLineNumbers => Some(Action::ToggleLineNumbers),
        Command::CycleTheme => Some(Action::CycleTheme),
        Command::ZoomIn => Some(Action::ZoomIn),
        Command::ZoomInEquals => Some(Action::ZoomIn),
        Command::ZoomOut => Some(Action::ZoomOut),
        Command::ZoomReset => Some(Action::ZoomReset),
        Command::Find => Some(Action::OpenFind),
        Command::FindNext => Some(Action::FindStep(1isize)),
        Command::FindPrev => Some(Action::FindStep(-1isize)),
        Command::Bold => Some(Action::WrapSelection("**", "**")),
        Command::Italic => Some(Action::WrapSelection("*", "*")),
        Command::Strikethrough => Some(Action::WrapSelection("~~", "~~")),
        Command::Link => Some(Action::WrapSelection("[", "](url)")),
        Command::InlineCode => Some(Action::WrapSelection("`", "`")),
        Command::BulletList => Some(Action::ToggleLinePrefix("- ")),
        Command::Blockquote => Some(Action::ToggleLinePrefix("> ")),
        Command::Heading1 => Some(Action::SetHeading(1u8)),
        Command::Heading2 => Some(Action::SetHeading(2u8)),
        Command::Heading3 => Some(Action::SetHeading(3u8)),
        Command::Undo | Command::Redo => None,
    }
}

/// The action of a command's shortcut; `None` for undo and redo.
pub fn action_of(command: Command) -> (r: Option<Action>)
    ensures
        r == command_action(command),
{
    match command {
        Command::New => Some(Action::New),
        Command::Open => Some(Action::Open),
        Command::Save => Some(Action::Save),
        Command::SaveAs => Some(Action::SaveAs),
        Command::ExportHtml => Some(Action::ExportHtml),
        Command::Quit => Some(Action::Quit),
        Command::ViewEditor => Some(Action::SetView(ViewMode::Editor)),
        Command::ViewSplit => Some(Action::SetView(ViewMode::Split)),
        Command::ViewPreview => Some(Action::SetView(ViewMode::Preview)),
        Command::ToggleOutline => Some(Action::ToggleOutline),
        Command::ToggleLineNumbers => Some(Action::ToggleLineNumbers),
        Command::CycleTheme => Some(Action::CycleTheme),
        Command::ZoomIn => Some(Action::ZoomIn),
        Command::ZoomInEquals => Some(Action::ZoomIn),
        Command::ZoomOut => Some(Action::ZoomOut),
        Command::ZoomReset => Some(Action::ZoomReset),
        Command::Find => Some(Action::OpenFind),
        Command::FindNext => Some(Action::FindStep(1isize)),
        Command::FindPrev => Some(Action::FindStep(-1isize)),
        Command::Bold => Some(Action::WrapSelection("**", "**")),
        Command::Italic => Some(Action::WrapSelection("*", "*")),
        Command::Strikethrough => Some(Action::WrapSelection("~~", "~~")),
        Command::Link => Some(Action::WrapSelection("[", "](url)")),
        Command::InlineCode => Some(Action::WrapSelection("`", "`")),
        Command::BulletList => Some(Action::ToggleLinePrefix("- ")),
        Command::Blockquote => Some(Action::ToggleLinePrefix("> ")),
        Command::Heading1 => Some(Action::SetHeading(1u8)),
        Command::Heading2 => Some(Action::SetHeading(2u8)),
        Command::Heading3 => Some(Action::SetHeading(3u8)),
        Command::Undo | Command::Redo => None,
    }
}

/// The first index of `c` in `s`.
pub open spec fn index_of(s: Seq<char>, c: char) -> Option<int>
    decreases s.len(),
{
    if s.len() == 0 {
        None
    } else if s[0] == c {
        Some(0)
    } else {
        match index_of(s.drop_first(), c) {
            Some(i) => Some(i + 1),
            None => None,
        }
    }
}

/// The label that `table` gives the placeholder `name`: that of its first
/// entry with this name.
pub open spec fn lookup(table: Seq<(Seq<char>, Seq<char>)>, name: Seq<char>) -> Option<Seq<char>>
    decreases table.len(),
{
    if table.len() == 0 {
        None
    } else if table[0].0 == name {
        Some(table[0].1)
    } else {
        lookup(table.drop_first(), name)
    }
}

/// `t` with each `{name}` that `table` knows replaced by its label, from left
/// to right. A placeholder that `table` does not know stays as it is; from a
/// `{` with no `}` after it on, the text stays as it is.
pub open spec fn fill_keys_spec(t: Seq<char>, table: Seq<(Seq<char>, Seq<char>)>) -> Seq<char>
    decreases t.len(),
{
    match index_of(t, '{') {
        None => t,
        Some(start) => match index_of(t.skip(start), '}') {
            None => t,
            Some(off) => {
                proof {
                    lemma_index_of_bounds(t, '{');
                    lemma_index_of_bounds(t.skip(start), '}');
                }
                let end = start + off;
                t.take(start) + match lookup(table, t.subrange(start + 1, end)) {
                    Some(label) => label,
                    None => t.subrange(start, end + 1),
                } + fill_keys_spec(t.skip(end + 1), table)
            },
        },
    }
}

/// The views of `(name, label)` pairs.
pub open spec fn table_views(table: Seq<(&str, &str)>) -> Seq<(Seq<char>, Seq<char>)> {
    table.map_values(|e: (&str, &str)| (e.0@, e.1@))
}

/// Where `index_of` can point.
pub proof fn lemma_index_of_bounds(s: Seq<char>, c: char)
    ensures
        index_of(s, c) matches Some(i) ==> 0 <= i < s.len() && s[i] == c,
    decreases s.len(),
{
    if s.len() > 0 && s[0] != c {
        lemma_index_of_bounds(s.drop_first(), c);
    }
}

/// `index_of` is the first occurrence.
proof fn lemma_index_of_first(s: Seq<char>, c: char, j: int)
    requires
        0 <= j <= s.len(),
        forall|m: int| 0 <= m < j ==> s[m] != c,
        j < s.len() ==> s[j] == c,
    ensures
        index_of(s, c) == if j < s.len() {
            Some(j)
        } else {
            None::<int>
        },
    decreases j,
{
    if j > 0 {
        assert forall|m: int| 0 <= m < j - 1 implies s.drop_first()[m] != c by {
            assert(s.drop_first()[m] == s[m + 1]);
        }
        if j < s.len() {
            assert(s.drop_first()[j - 1] == s[j]);
        }
        lemma_index_of_first(s.drop_first(), c, j - 1);
    }
}

/// The first index of `c` in `v[from..]`, as an index of `v`.
fn find_char(v: &Vec<char>, from: usize, c: char) -> (r: Option<usize>)
    requires
        from <= v@.len(),
    ensures
        match r {
            Some(j) => from <= j < v@.len() && index_of(v@.skip(from as int), c) == Some(
                j - from,
            ),
            None => index_of(v@.skip(from as int), c) is None,
        },
{
    let mut j = from;
    while j < v.len()
        invariant
            from <= j <= v@.len(),
            forall|m: int| from <= m < j ==> v@[m] != c,
        decreases v@.len() - j,
    {
        if v[j] == c {
            proof {
                let s = v@.skip(from as int);
                assert forall|m: int| 0 <= m < j - from implies s[m] != c by {
                    assert(s[m] == v@[from + m]);
                }
                lemma_index_of_first(s, c, j - from);
            }
            return Some(j);
        }
        j += 1;
    }
    proof {
        let s = v@.skip(from as int);
        assert forall|m: int| 0 <= m < s.len() implies s[m] != c by {
            assert(s[m] == v@[from + m]);
        }
        lemma_index_of_first(s, c, s.len() as int);
    }
    None
}

/// Whether `v[lo..hi]` spells `name`.
fn spells(v: &Vec<char>, lo: usize, hi: usize, name: &Vec<char>) -> (r: bool)
    requires
        lo <= hi <= v@.len(),
    ensures
        r == (v@.subrange(lo as int, hi as int) == name@),
{
    if hi - lo != name.len() {
        return false;
    }
    let mut k: usize = 0;
    while k < name.len()
        invariant
            hi - lo == name@.len(),
            lo <= hi <= v@.len(),
            k <= name@.len(),
            forall|m: int| 0 <= m < k ==> v@[lo + m] == name@[m],
        decreases name@.len() - k,
    {
        if v[lo + k] != name[k] {
            assert(v@.subrange(lo as int, hi as int)[k as int] != name@[k as int]);
            return false;
        }
        k += 1;
    }
    assert(v@.subrange(lo as int, hi as int) =~= name@);
    true
}

/// The label that `table` gives the name `v[lo..hi]`.
fn find_label(table: &[(&str, &str)], v: &Vec<char>, lo: usize, hi: usize) -> (r: Option<
    Vec<char>,
>)
    requires
        lo <= hi <= v@.len(),
    ensures
        match r {
            Some(label) => lookup(table_views(table@), v@.subrange(lo as int, hi as int))
                == Some(label@),
            None => lookup(table_views(table@), v@.subrange(lo as int, hi as int)) is None,
        },
{
    let ghost name = v@.subrange(lo as int, hi as int);
    let mut k: usize = 0;
    assert(table_views(table@).skip(0) =~= table_views(table@));
    while k < table.len()
        invariant
            lo <= hi <= v@.len(),
            name == v@.subrange(lo as int, hi as int),
            k <= table@.len(),
            lookup(table_views(table@).skip(k as int), name) == lookup(table_views(table@), name),
        decreases table@.len() - k,
    {
        let (key, label) = table[k];
        let key_chars = chars_of(key);
        let ghost rest = table_views(table@).skip(k as int);
        assert(rest[0] == (key@, label@));
        assert(rest.drop_first() =~= table_views(table@).skip(k + 1));
        if spells(v, lo, hi, &key_chars) {
            return Some(chars_of(label));
        }
        k += 1;
    }
    assert(table_views(table@).skip(k as int) =~= Seq::<(Seq<char>, Seq<char>)>::empty());
    None
}

/// One step of [`fill_keys_spec`]: the text before the first placeholder, the
/// placeholder filled, then the rest.
proof fn lemma_fill_step(t: Seq<char>, tv: Seq<(Seq<char>, Seq<char>)>, start: int, end: int)
    requires
        index_of(t, '{') == Some(start),
        index_of(t.skip(start), '}') == Some(end - start),
    ensures
        0 <= start < end < t.len(),
        fill_keys_spec(t, tv) == t.take(start) + match lookup(tv, t.subrange(start + 1, end)) {
            Some(label) => label,
            None => t.subrange(start, end + 1),
        } + fill_keys_spec(t.skip(end + 1), tv),
{
    lemma_index_of_bounds(t, '{');
    lemma_index_of_bounds(t.skip(start), '}');
    assert(t.skip(start)[0] == '{');
}

/// Replaces each `{name}` of `template` that `table` lists by its label. A
/// placeholder that is not listed is left as it is (as [`crate::i18n::fill`]
/// does), so a misspelt name shows instead of vanishing.
pub fn fill_keys(template: &str, table: &[(&str, &str)]) -> (r: String)
    ensures
        r@ == fill_keys_spec(template@, table_views(table@)),
{
    let t = chars_of(template);
    let ghost tv = table_views(table@);
    let mut out: Vec<char> = Vec::new();
    let mut i: usize = 0;
    assert(t@.skip(0) =~= t@);
    loop
        invariant
            i <= t@.len(),
            t@.len() <= isize::MAX,
            tv == table_views(table@),
            out@ + fill_keys_spec(t@.skip(i as int), tv) == fill_keys_spec(template@, tv),
            t@ == template@,
        decreases t@.len() - i,
    {
        let ghost rest = t@.skip(i as int);
        let start = match find_char(&t, i, '{') {
            None => {
                crate::text::extend_from(&mut out, &t, i, t.len());
                assert(t@.subrange(i as int, t@.len() as int) =~= rest);
                return string_of(&out);
            },
            Some(j) => j,
        };
        proof {
            assert(rest.skip(start - i) =~= t@.skip(start as int));
        }
        let end = match find_char(&t, start, '}') {
            None => {
                crate::text::extend_from(&mut out, &t, i, t.len());
                assert(t@.subrange(i as int, t@.len() as int) =~= rest);
                return string_of(&out);
            },
            Some(k) => k,
        };
        proof {
            lemma_fill_step(rest, tv, start - i, end - i);
        }
        let ghost before = out@;
        crate::text::extend_from(&mut out, &t, i, start);
        let ghost piece: Seq<char>;
        match find_label(table, &t, start + 1, end) {
            Some(label) => {
                crate::text::extend_from(&mut out, &label, 0, label.len());
                proof {
                    piece = label@;
                }
                assert(label@.subrange(0, label@.len() as int) =~= label@);
            },
            None => {
                crate::text::extend_from(&mut out, &t, start, end + 1);
                proof {
                    piece = t@.subrange(start as int, end + 1);
                }
            },
        }
        proof {
            let s2 = start - i;
            let e2 = end - i;
            assert(rest.take(s2) =~= t@.subrange(i as int, start as int));
            assert(rest.subrange(s2 + 1, e2) =~= t@.subrange(start + 1, end as int));
            assert(rest.subrange(s2, e2 + 1) =~= t@.subrange(start as int, end + 1));
            assert(rest.skip(e2 + 1) =~= t@.skip(end + 1));
            assert(out@ == before + rest.take(s2) + piece);
            assert(out@ + fill_keys_spec(t@.skip(end + 1), tv) =~= before + (rest.take(s2) + piece
                + fill_keys_spec(rest.skip(e2 + 1), tv)));
        }
        i = end + 1;
    }
}

/// With no labels to give, filling changes nothing: every placeholder that
/// the table does not know stays in the text as it was written.
pub proof fn lemma_fill_keys_without_labels(t: Seq<char>)
    ensures
        fill_keys_spec(t, Seq::<(Seq<char>, Seq<char>)>::empty()) == t,
    decreases t.len(),
{
    let tv = Seq::<(Seq<char>, Seq<char>)>::empty();
    if let Some(start) = index_of(t, '{') {
        if let Some(off) = index_of(t.skip(start), '}') {
            lemma_fill_step(t, tv, start, start + off);
            lemma_fill_keys_without_labels(t.skip(start + off + 1));
            assert(t.take(start) + t.subrange(start, start + off + 1) + t.skip(start + off + 1)
                =~= t);
        }
    }
}

} // verus!
