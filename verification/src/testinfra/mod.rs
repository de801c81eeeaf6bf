//! Helpers for reading recorded sessions.

pub mod transcript;
