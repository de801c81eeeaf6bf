pub mod commands;
pub mod traits;
pub mod util;
pub mod client;
pub mod server;
pub mod common;
mod incoming;
pub mod kinds;
pub mod composed;
