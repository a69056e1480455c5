//! The logic of shotr, a screenshot tool: hotkey vocabulary, command-line
//! reading, file naming, the single-instance wire format, interface language,
//! monitor layout and the editor's undo history.

pub mod annotate;
pub mod capture;
pub mod caret;
pub mod cli;
pub mod daemon;
pub mod export;
pub mod hotkey;
pub mod history;
pub mod i18n;
pub mod ipc;
pub mod label;
pub mod ocr;
pub mod picture;
pub mod shortcuts;
pub mod system_hotkeys;
pub mod text;
pub mod zoom;
