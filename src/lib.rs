//! Clipboard history for X11: a verified history store, the selection
//! protocol's decisions, and the picker's key handling and layout.
pub mod atoms;
pub mod clipboard;
pub mod db;
pub mod history_laws;
pub mod layout;
pub mod picker;
pub mod property_names;
pub mod ranking;
pub mod screen;
