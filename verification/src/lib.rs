pub mod parse_helpers;
pub mod text;
pub mod irccase;
pub mod util;
pub mod parse;
pub mod decimal;
pub mod split;
pub mod assoc;
pub mod numerics;
pub mod message_types;
pub mod legacy;
pub mod event;
pub mod watchers;
pub mod state;
pub mod message;
pub mod core_plugins;
pub mod connection;
pub mod identifier;
pub mod cap;
pub mod recv;
pub mod slice;
pub mod message_group;
pub mod stream;
pub mod testinfra;
pub mod mtype2;
