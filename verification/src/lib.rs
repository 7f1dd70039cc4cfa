//! Verified core of a shell-script launcher: fuzzy matching and ranking,
//! script header parsing, run history bookkeeping, configuration merging
//! and the key-driven state of the picker.

pub mod text;
pub mod fuzzy;
pub mod scripts;
pub mod history;
pub mod config;
pub mod shell;
pub mod app;
pub mod cli;
