//! MarkView's editing and document logic, verified with Verus.
pub mod text;
pub mod mermaid;
pub mod markdown;
pub mod find;
pub mod editor;
pub mod i18n;
pub mod document;
pub mod shortcuts;
pub mod mermaid_cache;
pub mod prefs;
pub mod state;
pub mod panels;
pub mod fonts;
