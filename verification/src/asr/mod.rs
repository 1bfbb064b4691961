//! Streaming speech recognition.

pub mod packets;
pub mod protocol;
pub mod session;
