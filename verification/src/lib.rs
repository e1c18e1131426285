//! Core logic of a terminal code editor: the text buffer with its cursor,
//! selection and undo history, the keyboard shortcut tables, the settings file
//! model, and the pure geometry used by rendering and mouse hit-testing.

pub mod panel;
pub mod text;
pub mod rope;
pub mod chars;
pub mod clock;
pub mod buffer;
pub mod paste;
pub mod icons;
pub mod keys;
pub mod keymap;
pub mod keybindings;
pub mod config;
pub mod ui;
pub mod files;
pub mod mouse;
pub mod status;
