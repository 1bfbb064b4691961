//! Voice Flow: system-wide, real-time voice input.
//!
//! The library holds the rules of the application: the recognition protocol, the
//! audio packet stream, shortcuts, settings, the dictation lifecycle, the
//! diagnostic records, the overlay and the clipboard decisions. Windows, devices,
//! sockets and files are driven by the program around it.

pub mod asr;
pub mod asr_options;
pub mod audio;
pub mod benchmark;
pub mod bytes;
pub mod config;
pub mod controller;
pub mod diagnostics;
pub mod json;
pub mod logging;
pub mod platform;
pub mod shortcut;
pub mod text;
