//! The rules of the TQ Launcher, a launcher for TardQuest and TardQuest
//! Online: how it reads its catalog, which builds a channel offers, where
//! builds live on disk and which file is the game, how versions are ordered,
//! how a download is checked, and what it remembers between runs.
//!
//! Requests, files, processes and windows are left to the application that
//! uses this library; it hands the library plain values and acts on what it
//! gets back.
pub mod text;
pub mod version;
pub mod sorting;
pub mod table;
pub mod model;
pub mod layout;
pub mod digest;
pub mod fetch;
pub mod catalog;
pub mod state;
pub mod scan;
pub mod install;
