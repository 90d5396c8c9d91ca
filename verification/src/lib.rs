//! Core engine of a terminal hex editor: a byte buffer with reversible
//! edits, hex/text pattern interpretation, substring search, and the modal
//! controller that drives them.

pub mod document;
pub mod editor;
pub mod editor_edit;
pub mod editor_exec;
pub mod editor_prompt;
pub mod editor_search;
pub mod encoding;
pub mod fmt;
pub mod hexparse;
pub mod search;
pub mod text;
