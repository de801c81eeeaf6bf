//! Responders that answer some messages by themselves.

pub mod traits;
pub mod ctcp_version;
