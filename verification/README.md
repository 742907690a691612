# MarkView

A native Markdown editor and viewer: the source on the left, a live preview
on the right, an outline of the headings, find, formatting commands, Mermaid
diagrams and HTML export, in English and Simplified Chinese.

## Layout

- `src/` is the library, verified with Verus. It holds everything that is
  decided or computed: how a file's bytes become the editor's text and back
  (`document`), the outline, counts and HTML export (`markdown`), cutting
  Mermaid blocks out of a document (`mermaid`) and deciding which diagram
  pictures to draw and keep (`mermaid_cache`), search (`find`), the editor's
  cursor arithmetic and formatting commands (`editor`), the interface text
  (`i18n`) and keyboard-shortcut labels in it (`shortcuts`), preferences
  (`prefs`), what each user action does (`state`), and what the panels show
  (`panels`, `fonts`).
- `app/` is the window: the egui panels, file dialogs, reading and writing
  files, the clock, fonts and rendering. It hands the library plain values
  and carries out what the library decides.
- `tests/` runs the library on concrete inputs.
