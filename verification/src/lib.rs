//! Verified core of a clipboard-history manager: the record table, its
//! ordering and trimming rules, clipboard capture decisions, settings,
//! hotkey parsing, window placement and text helpers.
pub mod text;
pub mod db;
pub mod clipboard;
pub mod settings;
pub mod hotkey;
pub mod commands;
pub mod paste;
pub mod window;
pub mod tray;
