//! Sotto: offline speech-to-text for Linux desktops.
//!
//! This crate holds the decisions and text processing of the application:
//! spoken punctuation, hotkey parsing, settings, the daemon's state machine
//! and the small parsers and formatters around them.
pub mod audio;
pub mod chars;
pub mod daemon;
pub mod devices;
pub mod hotkey;
pub mod indicator;
pub mod models;
pub mod service;
pub mod settings;
pub mod text;
pub mod transcription;
