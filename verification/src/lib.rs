//! Backend state manager for a sound-board / hotkey desktop application.
//!
//! The crate holds the typed application settings and the hotkey binding
//! table, offers the command surface that a UI shell calls (load, save,
//! toggle always-on-top), and defines the JSON file format in which both
//! records persist.  Everything here is pure: reading and writing the
//! config directory, the window chrome, and the UI dispatch loop live in
//! the host program, which hands file text in and carries file text out.

pub mod codec;
pub mod commands;
pub mod errors;
pub mod json;
pub mod scan;
pub mod state;
