//! The application's commands and the decisions taken on them.
//!
//! Menus and shortcuts only queue up what the user wants, as [`Action`]s;
//! once every panel is drawn the queue is carried out. An action that would
//! throw away unsaved edits is first held back by [`guard`], which opens the
//! discard dialog; what the user chooses there is turned back into actions.
use vstd::prelude::*;
use vstd::utf8::is_char_boundary;
use vstd::string::StringSliceAdditionalSpecFns;

use crate::find::Match;
use crate::markdown::byte_to_char;
use crate::i18n::Language;
use crate::prefs::{next_theme, AppTheme, ViewMode};
use crate::text::utf8_len;

verus! {

/// A place to move the editor's cursor to, in characters (not bytes).
#[derive(Debug, Clone, Copy, PartialEq, Eq, Structural)]
pub struct Reveal {
    pub char_start: usize,
    pub char_end: usize,
}

/// What was held back by unsaved edits, carried out once the user agrees to
/// discard them.
#[derive(Debug, Clone, PartialEq, Eq)]
pub enum AfterDiscard {
    NewFile,
    OpenDialog,
    OpenPath(String),
    Quit,
}

/// A dialog over the window.
#[derive(Debug, Clone, PartialEq, Eq)]
pub enum Dialog {
    /// No dialog is open.
    Hidden,
    About,
    Shortcuts,
    Discard { then: AfterDiscard },
}

impl Default for Dialog {
    fn default() -> (r: Dialog)
        ensures
            r == Dialog::Hidden,
    {
        Dialog::Hidden
    }
}

/// Something the user asked for.
#[derive(Debug, Clone)]
pub enum Action {
    New,
    Open,
    OpenPath(String),
    ClearRecent,
    Save,
    SaveAs,
    /// Save, and when that succeeded go on with what was held back.
    SaveAndProceed(AfterDiscard),
    ExportHtml,
    Quit,
    /// Carried out without asking again: the user already agreed to lose
    /// the unsaved edits.
    ForceNew,
    ForceOpen,
    ForceOpenPath(String),
    ForceQuit,
    SetView(ViewMode),
    SetLanguage(Language),
    ToggleOutline,
    ToggleLineNumbers,
    ToggleWrap,
    CycleTheme,
    ZoomIn,
    ZoomOut,
    ZoomReset,
    OpenFind,
    CloseFind,
    FindStep(isize),
    About,
    Shortcuts,
    WrapSelection(&'static str, &'static str),
    ToggleLinePrefix(&'static str),
    SetHeading(u8),
}

/// The action that carries out `then` without asking again.
pub open spec fn forced(then: AfterDiscard) -> Action {
    match then {
        AfterDiscard::NewFile => Action::ForceNew,
        AfterDiscard::OpenDialog => Action::ForceOpen,
        AfterDiscard::OpenPath(p) => Action::ForceOpenPath(p),
        AfterDiscard::Quit => Action::ForceQuit,
    }
}

/// What an action waits on while there are unsaved edits, for the actions
/// that would lose them.
pub open spec fn held_back(action: Action) -> Option<AfterDiscard> {
    match action {
        Action::New => Some(AfterDiscard::NewFile),
        Action::Open => Some(AfterDiscard::OpenDialog),
        Action::OpenPath(p) => Some(AfterDiscard::OpenPath(p)),
        Action::Quit => Some(AfterDiscard::Quit),
        _ => None,
    }
}

impl AfterDiscard {
    /// The action to carry out once the user has agreed to discard.
    pub fn force_action(&self) -> (r: Action)
        ensures
            r == forced(*self),
    {
        match self {
            AfterDiscard::NewFile => Action::ForceNew,
            AfterDiscard::OpenDialog => Action::ForceOpen,
            AfterDiscard::OpenPath(path) => Action::ForceOpenPath(path.clone()),
            AfterDiscard::Quit => Action::ForceQuit,
        }
    }
}

/// Holds `then` back while there are unsaved edits: returns whether it may
/// go ahead now. If not, the discard dialog is opened for it. Edits do not
/// hold anything back once the user chose to quit anyway (`bypass`).
pub fn guard(dialog: &mut Dialog, dirty: bool, bypass: bool, then: AfterDiscard) -> (go: bool)
    ensures
        go == (!dirty || bypass),
        go ==> *final(dialog) == *old(dialog),
        !go ==> *final(dialog) == (Dialog::Discard { then }),
{
    if !dirty || bypass {
        return true;
    }
    *dialog = Dialog::Discard { then };
    false
}

/// The window was asked to close. With unsaved edits (and no earlier
/// decision to quit anyway) the close is cancelled and the discard dialog
/// asks first; returns whether the close is cancelled.
pub fn on_close_request(dialog: &mut Dialog, dirty: bool, bypass: bool) -> (cancel: bool)
    ensures
        cancel == (dirty && !bypass),
        cancel ==> *final(dialog) == (Dialog::Discard { then: AfterDiscard::Quit }),
        !cancel ==> *final(dialog) == *old(dialog),
{
    if dirty && !bypass {
        *dialog = Dialog::Discard { then: AfterDiscard::Quit };
        true
    } else {
        false
    }
}

/// After "save and go on" saved: the held-back action goes on only if the
/// document is clean now, that is if saving succeeded.
pub fn after_save(then: &AfterDiscard, dirty: bool) -> (r: Option<Action>)
    ensures
        dirty ==> r is None,
        !dirty ==> r == Some(forced(*then)),
{
    if dirty {
        None
    } else {
        Some(then.force_action())
    }
}

/// A button of the discard dialog, or none yet.
#[derive(Debug, Clone, Copy, PartialEq, Eq, Structural)]
pub enum Choice {
    /// No button was pressed yet.
    Pending,
    Cancel,
    SaveAndProceed,
    Discard,
}

/// What the discard dialog's choice does: whether the dialog closes, and
/// which action follows.
pub fn on_choice(choice: Choice, then: &AfterDiscard) -> (r: (bool, Option<Action>))
    ensures
        r.0 == (choice == Choice::Cancel || choice == Choice::Discard),
        r.1 == match choice {
            Choice::SaveAndProceed => Some(Action::SaveAndProceed(*then)),
            Choice::Discard => Some(forced(*then)),
            _ => None,
        },
{
    match choice {
        Choice::Pending => (false, None),
        Choice::Cancel => (true, None),
        Choice::SaveAndProceed => (false, Some(Action::SaveAndProceed(then.duplicate()))),
        Choice::Discard => (true, Some(then.force_action())),
    }
}

impl AfterDiscard {
    /// An equal copy (the derived `clone` says nothing of its result).
    pub fn duplicate(&self) -> (r: AfterDiscard)
        ensures
            r == *self,
    {
        match self {
            AfterDiscard::NewFile => AfterDiscard::NewFile,
            AfterDiscard::OpenDialog => AfterDiscard::OpenDialog,
            AfterDiscard::OpenPath(p) => AfterDiscard::OpenPath(p.clone()),
            AfterDiscard::Quit => AfterDiscard::Quit,
        }
    }
}

/// The cursor range of a search result: its byte range counted in
/// characters.
pub fn reveal_match(text: &str, found: Match) -> (r: Reveal)
    requires
        found.start >= text.spec_bytes().len() || is_char_boundary(
            text.spec_bytes(),
            found.start as int,
        ),
        found.end >= text.spec_bytes().len() || is_char_boundary(
            text.spec_bytes(),
            found.end as int,
        ),
    ensures
        r.char_start <= text@.len(),
        r.char_end <= text@.len(),
        utf8_len(text@.take(r.char_start as int)) == if found.start < text.spec_bytes().len() {
            found.start as nat
        } else {
            text.spec_bytes().len()
        },
        utf8_len(text@.take(r.char_end as int)) == if found.end < text.spec_bytes().len() {
            found.end as nat
        } else {
            text.spec_bytes().len()
        },
{
    Reveal { char_start: byte_to_char(text, found.start), char_end: byte_to_char(text, found.end) }
}

/// The window's switches that actions flip, and the guard's state.
#[derive(Debug, Clone, PartialEq, Eq)]
pub struct UiFlags {
    pub view_mode: ViewMode,
    pub language: Language,
    pub theme: AppTheme,
    pub show_outline: bool,
    pub show_line_numbers: bool,
    pub editor_wrap: bool,
    /// Give the keyboard focus to the editor at the next frame.
    pub focus_editor: bool,
    /// The user chose to quit despite unsaved edits: ask no more.
    pub bypass_guard: bool,
    pub dialog: Dialog,
}

/// What is left for the window to do after an action was decided on: the
/// file dialogs, the disk, the zoom and the editor's selection are the
/// window's.
#[derive(Debug, Clone, PartialEq, Eq)]
pub enum Effect {
    Nothing,
    NewDocument,
    ShowOpenDialog,
    LoadPath(String),
    ClearRecent,
    Save,
    SaveAs,
    /// Save; if that left the document clean, queue [`after_save`]'s action.
    SaveAndProceed(AfterDiscard),
    ExportHtml,
    CloseWindow,
    ZoomIn,
    ZoomOut,
    ZoomReset,
    OpenFind,
    CloseFind,
    /// Move through the search results, then show the current one.
    FindStep(isize),
    WrapSelection(&'static str, &'static str),
    ToggleLinePrefix(&'static str),
    SetHeading(u8),
}

/// The flags and the effect after `action`, for a document that is `dirty`
/// or not: actions that would lose edits wait in the discard dialog while
/// the document is dirty (unless the user chose to quit anyway), switches
/// flip, and the rest is handed on.
pub open spec fn dispatch_spec(f: UiFlags, dirty: bool, action: Action) -> (UiFlags, Effect) {
    let go = !dirty || f.bypass_guard;
    match action {
        Action::New => if go {
            (f, Effect::NewDocument)
        } else {
            (UiFlags { dialog: Dialog::Discard { then: AfterDiscard::NewFile }, ..f }, Effect::Nothing)
        },
        Action::Open => if go {
            (f, Effect::ShowOpenDialog)
        } else {
            (
                UiFlags { dialog: Dialog::Discard { then: AfterDiscard::OpenDialog }, ..f },
                Effect::Nothing,
            )
        },
        Action::OpenPath(p) => if go {
            (f, Effect::LoadPath(p))
        } else {
            (UiFlags { dialog: Dialog::Discard { then: AfterDiscard::OpenPath(p) }, ..f }, Effect::Nothing)
        },
        Action::Quit => if go {
            (UiFlags { bypass_guard: true, ..f }, Effect::CloseWindow)
        } else {
            (UiFlags { dialog: Dialog::Discard { then: AfterDiscard::Quit }, ..f }, Effect::Nothing)
        },
        Action::ClearRecent => (f, Effect::ClearRecent),
        Action::Save => (f, Effect::Save),
        Action::SaveAs => (f, Effect::SaveAs),
        Action::SaveAndProceed(then) => (f, Effect::SaveAndProceed(then)),
        Action::ExportHtml => (f, Effect::ExportHtml),
        Action::ForceNew => (f, Effect::NewDocument),
        Action::ForceOpen => (f, Effect::ShowOpenDialog),
        Action::ForceOpenPath(p) => (f, Effect::LoadPath(p)),
        Action::ForceQuit => (UiFlags { bypass_guard: true, ..f }, Effect::CloseWindow),
        Action::SetView(mode) => (
            UiFlags {
                view_mode: mode,
                focus_editor: if mode is Editor || mode is Split {
                    true
                } else {
                    f.focus_editor
                },
                ..f
            },
            Effect::Nothing,
        ),
        Action::SetLanguage(l) => (UiFlags { language: l, ..f }, Effect::Nothing),
        Action::ToggleOutline => (UiFlags { show_outline: !f.show_outline, ..f }, Effect::Nothing),
        Action::ToggleLineNumbers => (
            UiFlags { show_line_numbers: !f.show_line_numbers, ..f },
            Effect::Nothing,
        ),
        Action::ToggleWrap => (UiFlags { editor_wrap: !f.editor_wrap, ..f }, Effect::Nothing),
        Action::CycleTheme => (UiFlags { theme: next_theme(f.theme), ..f }, Effect::Nothing),
        Action::ZoomIn => (f, Effect::ZoomIn),
        Action::ZoomOut => (f, Effect::ZoomOut),
        Action::ZoomReset => (f, Effect::ZoomReset),
        Action::OpenFind => (f, Effect::OpenFind),
        Action::CloseFind => (UiFlags { focus_editor: true, ..f }, Effect::CloseFind),
        Action::FindStep(d) => (f, Effect::FindStep(d)),
        Action::About => (UiFlags { dialog: Dialog::About, ..f }, Effect::Nothing),
        Action::Shortcuts => (UiFlags { dialog: Dialog::Shortcuts, ..f }, Effect::Nothing),
        Action::WrapSelection(a, b) => (f, Effect::WrapSelection(a, b)),
        Action::ToggleLinePrefix(a) => (f, Effect::ToggleLinePrefix(a)),
        Action::SetHeading(l) => (f, Effect::SetHeading(l)),
    }
}

/// Decides on one queued action: updates the flags and says what is left
/// for the window to do.
pub fn dispatch(flags: &mut UiFlags, dirty: bool, action: Action) -> (r: Effect)
    ensures
        (*final(flags), r) == dispatch_spec(*old(flags), dirty, action),
{
    let bypass = flags.bypass_guard;
    match action {
        Action::New => {
            if guard(&mut flags.dialog, dirty, bypass, AfterDiscard::NewFile) {
                Effect::NewDocument
            } else {
                Effect::Nothing
            }
        },
        Action::Open => {
            if guard(&mut flags.dialog, dirty, bypass, AfterDiscard::OpenDialog) {
                Effect::ShowOpenDialog
            } else {
                Effect::Nothing
            }
        },
        Action::OpenPath(p) => {
            if !dirty || bypass {
                Effect::LoadPath(p)
            } else {
                flags.dialog = Dialog::Discard { then: AfterDiscard::OpenPath(p) };
                Effect::Nothing
            }
        },
        Action::Quit => {
            if guard(&mut flags.dialog, dirty, bypass, AfterDiscard::Quit) {
                flags.bypass_guard = true;
                Effect::CloseWindow
            } else {
                Effect::Nothing
            }
        },
        Action::ClearRecent => Effect::ClearRecent,
        Action::Save => Effect::Save,
        Action::SaveAs => Effect::SaveAs,
        Action::SaveAndProceed(then) => Effect::SaveAndProceed(then),
        Action::ExportHtml => Effect::ExportHtml,
        Action::ForceNew => Effect::NewDocument,
        Action::ForceOpen => Effect::ShowOpenDialog,
        Action::ForceOpenPath(p) => Effect::LoadPath(p),
        Action::ForceQuit => {
            flags.bypass_guard = true;
            Effect::CloseWindow
        },
        Action::SetView(mode) => {
            flags.view_mode = mode;
            match mode {
                ViewMode::Editor | ViewMode::Split => {
                    flags.focus_editor = true;
                },
                ViewMode::Preview => {},
            }
            Effect::Nothing
        },
        Action::SetLanguage(l) => {
            flags.language = l;
            Effect::Nothing
        },
        Action::ToggleOutline => {
            flags.show_outline = !flags.show_outline;
            Effect::Nothing
        },
        Action::ToggleLineNumbers => {
            flags.show_line_numbers = !flags.show_line_numbers;
            Effect::Nothing
        },
        Action::ToggleWrap => {
            flags.editor_wrap = !flags.editor_wrap;
            Effect::Nothing
        },
        Action::CycleTheme => {
            flags.theme = flags.theme.next();
            Effect::Nothing
        },
        Action::ZoomIn => Effect::ZoomIn,
        Action::ZoomOut => Effect::ZoomOut,
        Action::ZoomReset => Effect::ZoomReset,
        Action::OpenFind => Effect::OpenFind,
        Action::CloseFind => {
            flags.focus_editor = true;
            Effect::CloseFind
        },
        Action::FindStep(d) => Effect::FindStep(d),
        Action::About => {
            flags.dialog = Dialog::About;
            Effect::Nothing
        },
        Action::Shortcuts => {
            flags.dialog = Dialog::Shortcuts;
            Effect::Nothing
        },
        Action::WrapSelection(a, b) => Effect::WrapSelection(a, b),
        Action::ToggleLinePrefix(a) => Effect::ToggleLinePrefix(a),
        Action::SetHeading(l) => Effect::SetHeading(l),
    }
}

/// Unsaved edits are never lost without asking: while the document is dirty
/// (and the user has not chosen to quit anyway), an action that would lose
/// them does nothing but open the discard dialog for itself; once the user
/// agrees there, the forced action does what the action would have done on
/// a clean document.
pub proof fn lemma_edits_are_not_lost_silently(f: UiFlags, action: Action)
    requires
        held_back(action) is Some,
    ensures
        !f.bypass_guard ==> dispatch_spec(f, true, action) == (
            UiFlags { dialog: Dialog::Discard { then: held_back(action)->0 }, ..f },
            Effect::Nothing,
        ),
        dispatch_spec(f, true, forced(held_back(action)->0)) == dispatch_spec(f, false, action),
{
}

/// The kind of a passing message.
#[derive(Debug, Clone, Copy, PartialEq, Eq, Structural)]
pub enum ToastKind {
    Info,
    Error,
}

/// A passing message at the bottom of the window, shown for `secs` seconds
/// from when the window first shows it.
#[derive(Debug, Clone)]
pub struct Toast {
    pub kind: ToastKind,
    pub text: String,
    pub secs: u64,
}

impl Toast {
    /// A message of the given kind, shown for `secs` seconds.
    pub fn new(kind: ToastKind, text: String, secs: u64) -> (r: Toast)
        ensures
            r.kind == kind,
            r.text@ == text@,
            r.secs == secs,
    {
        Toast { kind, text, secs }
    }

    /// A piece of news, shown for four seconds.
    pub fn info(text: String) -> (r: Toast)
        ensures
            r.kind == ToastKind::Info,
            r.text@ == text@,
            r.secs == 4,
    {
        Toast::new(ToastKind::Info, text, 4)
    }

    /// A failure, shown for nine seconds.
    pub fn error(text: String) -> (r: Toast)
        ensures
            r.kind == ToastKind::Error,
            r.text@ == text@,
            r.secs == 9,
    {
        Toast::new(ToastKind::Error, text, 9)
    }
}

} // verus!
