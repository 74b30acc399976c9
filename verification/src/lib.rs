//! Verified core of a terminal-native autocomplete engine: shell command-line
//! tokenizing and context detection, key decoding, VT state tracking,
//! suggestion ranking and popup layout/rendering.

pub mod text;
pub mod tokenizer;
pub mod context;
pub mod input;
pub mod suggestion;
pub mod specs;
pub mod terminal;
pub mod vt;
pub mod ansi;
pub mod overlay;
pub mod layout;
pub mod render;
pub mod style;
pub mod history;
pub mod fuzzy;
pub mod engine;
pub mod config;
pub mod handler;
pub mod install;
pub mod validate;
pub mod paths;
pub mod cli;
pub mod listing;
