use vstd::prelude::*;
use crate::parse::parse::IrcMsg;
use crate::watchers::join::{JoinSuccess, JoinError};
use crate::watchers::who::{WhoSuccess, WhoError};

verus! {

/// The result of joining a channel.
pub type JoinResult = Result<JoinSuccess, JoinError>;

/// The result of a `WHO` query.
pub type WhoResult = Result<WhoSuccess, WhoError>;

/// An event, which is usually generated by reading a line from the server.
#[derive(Debug)]
pub enum IrcEvent {
    /// An IRC message from the server
    IrcMsg(IrcMsg),
    /// The bundled result of a JOIN command
    JoinBundle(JoinResult),
    /// The bundled result of a WHO command
    WhoBundle(WhoResult),
}

} // verus!
